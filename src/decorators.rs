//! The two decoration policies: `MdDecorator` emits lightweight markup,
//! `PlainDecorator` emits unmarked text with link targets inline. They differ
//! only in how links and images are written.

use crate::markup::{
    header_string, header_text, ordered_item_string, ordered_item_text, enclose, plain_image,
    plain_link_close, rich_image, rich_link_close,
};
use vstd::prelude::*;

verus! {

/// Rich policy: links as `[text](url)`, images as `[title](src)`.
pub struct MdDecorator {
    currentlink: String,
}

impl View for MdDecorator {
    type V = Seq<char>;

    /// The target of the most recently opened link (empty before any link).
    closed spec fn view(&self) -> Seq<char> {
        self.currentlink@
    }
}

impl Clone for MdDecorator {
    fn clone(&self) -> (r: Self)
        ensures
            r@ == self@,
    {
        Self { currentlink: self.currentlink.clone() }
    }
}

impl MdDecorator {
    pub fn new() -> (r: MdDecorator)
        ensures
            r@ == Seq::<char>::empty(),
    {
        MdDecorator { currentlink: String::new() }
    }

    /// Records `url` as the current link target and returns the text that
    /// precedes the link's contents.
    pub fn decorate_link_start(&mut self, url: &str) -> (r: (String, ()))
        ensures
            final(self)@ == url@,
            r.0@ == seq!['['],
    {
        proof {
            reveal_strlit("[");
        }
        self.currentlink = String::from_str(url);
        (String::from_str("["), ())
    }

    /// The text that follows a link's contents, built from the recorded target.
    pub fn decorate_link_end(&mut self) -> (r: String)
        ensures
            final(self)@ == old(self)@,
            r@ == rich_link_close(old(self)@),
    {
        proof {
            reveal_strlit("](");
            reveal_strlit(")");
        }
        enclose("](", self.currentlink.as_str(), ")")
    }

    pub fn decorate_image(&mut self, src: &str, title: &str) -> (r: (String, ()))
        ensures
            final(self)@ == old(self)@,
            r.0@ == rich_image(src@, title@),
    {
        proof {
            reveal_strlit("[");
            reveal_strlit("](");
            reveal_strlit(")");
        }
        let mut out = enclose("[", title, "](");
        out.append(src);
        out.append(")");
        assert(out@ =~= rich_image(src@, title@));
        (out, ())
    }

    pub fn decorate_em_start(&self) -> (r: (String, ()))
        ensures
            r.0@ == seq!['*'],
    {
        proof {
            reveal_strlit("*");
        }
        (String::from_str("*"), ())
    }

    pub fn decorate_em_end(&self) -> (r: String)
        ensures
            r@ == seq!['*'],
    {
        proof {
            reveal_strlit("*");
        }
        String::from_str("*")
    }

    pub fn decorate_strong_start(&self) -> (r: (String, ()))
        ensures
            r.0@ == seq!['*', '*'],
    {
        proof {
            reveal_strlit("**");
        }
        (String::from_str("**"), ())
    }

    pub fn decorate_strong_end(&self) -> (r: String)
        ensures
            r@ == seq!['*', '*'],
    {
        proof {
            reveal_strlit("**");
        }
        String::from_str("**")
    }

    pub fn decorate_strikeout_start(&self) -> (r: (String, ()))
        ensures
            r.0@ == seq!['~', '~'],
    {
        proof {
            reveal_strlit("~~");
        }
        (String::from_str("~~"), ())
    }

    pub fn decorate_strikeout_end(&self) -> (r: String)
        ensures
            r@ == seq!['~', '~'],
    {
        proof {
            reveal_strlit("~~");
        }
        String::from_str("~~")
    }

    pub fn decorate_code_start(&self) -> (r: (String, ()))
        ensures
            r.0@ == seq!['`'],
    {
        proof {
            reveal_strlit("`");
        }
        (String::from_str("`"), ())
    }

    pub fn decorate_code_end(&self) -> (r: String)
        ensures
            r@ == seq!['`'],
    {
        proof {
            reveal_strlit("`");
        }
        String::from_str("`")
    }

    pub fn decorate_preformat_first(&self) {
    }

    pub fn decorate_preformat_cont(&self) {
    }

    pub fn header_prefix(&self, level: usize) -> (r: String)
        ensures
            r@ == header_text(level as nat),
    {
        header_string(level)
    }

    pub fn quote_prefix(&self) -> (r: String)
        ensures
            r@ == seq!['>', ' '],
    {
        proof {
            reveal_strlit("> ");
        }
        String::from_str("> ")
    }

    pub fn unordered_item_prefix(&self) -> (r: String)
        ensures
            r@ == seq!['*', ' '],
    {
        proof {
            reveal_strlit("* ");
        }
        String::from_str("* ")
    }

    pub fn ordered_item_prefix(&self, i: i64) -> (r: String)
        ensures
            r@ == ordered_item_text(i as int),
    {
        ordered_item_string(i)
    }

    /// No end-of-document link list is produced.
    pub fn finalise(&mut self, links: Vec<String>) -> (r: Vec<String>)
        ensures
            r@.len() == 0,
            final(self)@ == old(self)@,
    {
        Vec::new()
    }

    /// An independent copy carrying the same link target.
    pub fn make_subblock_decorator(&self) -> (r: Self)
        ensures
            r@ == self@,
    {
        Self { currentlink: self.currentlink.clone() }
    }
}

/// Plain policy: links as `text (url)`, images as ` title (src)`.
pub struct PlainDecorator {
    currentlink: String,
}

impl View for PlainDecorator {
    type V = Seq<char>;

    /// The target of the most recently opened link (empty before any link).
    closed spec fn view(&self) -> Seq<char> {
        self.currentlink@
    }
}

impl Clone for PlainDecorator {
    fn clone(&self) -> (r: Self)
        ensures
            r@ == self@,
    {
        Self { currentlink: self.currentlink.clone() }
    }
}

impl PlainDecorator {
    pub fn new() -> (r: PlainDecorator)
        ensures
            r@ == Seq::<char>::empty(),
    {
        PlainDecorator { currentlink: String::new() }
    }

    /// Records `url` as the current link target and returns the text that
    /// precedes the link's contents.
    pub fn decorate_link_start(&mut self, url: &str) -> (r: (String, ()))
        ensures
            final(self)@ == url@,
            r.0@ == Seq::<char>::empty(),
    {
        proof {
            reveal_strlit("");
        }
        self.currentlink = String::from_str(url);
        (String::from_str(""), ())
    }

    /// The text that follows a link's contents, built from the recorded target.
    pub fn decorate_link_end(&mut self) -> (r: String)
        ensures
            final(self)@ == old(self)@,
            r@ == plain_link_close(old(self)@),
    {
        proof {
            reveal_strlit(" (");
            reveal_strlit(")");
        }
        enclose(" (", self.currentlink.as_str(), ")")
    }

    pub fn decorate_image(&mut self, src: &str, title: &str) -> (r: (String, ()))
        ensures
            final(self)@ == old(self)@,
            r.0@ == plain_image(src@, title@),
    {
        proof {
            reveal_strlit(" ");
            reveal_strlit(" (");
            reveal_strlit(")");
        }
        let mut out = enclose(" ", title, " (");
        out.append(src);
        out.append(")");
        assert(out@ =~= plain_image(src@, title@));
        (out, ())
    }

    pub fn decorate_em_start(&self) -> (r: (String, ()))
        ensures
            r.0@ == seq!['*'],
    {
        proof {
            reveal_strlit("*");
        }
        (String::from_str("*"), ())
    }

    pub fn decorate_em_end(&self) -> (r: String)
        ensures
            r@ == seq!['*'],
    {
        proof {
            reveal_strlit("*");
        }
        String::from_str("*")
    }

    pub fn decorate_strong_start(&self) -> (r: (String, ()))
        ensures
            r.0@ == seq!['*', '*'],
    {
        proof {
            reveal_strlit("**");
        }
        (String::from_str("**"), ())
    }

    pub fn decorate_strong_end(&self) -> (r: String)
        ensures
            r@ == seq!['*', '*'],
    {
        proof {
            reveal_strlit("**");
        }
        String::from_str("**")
    }

    pub fn decorate_strikeout_start(&self) -> (r: (String, ()))
        ensures
            r.0@ == seq!['~', '~'],
    {
        proof {
            reveal_strlit("~~");
        }
        (String::from_str("~~"), ())
    }

    pub fn decorate_strikeout_end(&self) -> (r: String)
        ensures
            r@ == seq!['~', '~'],
    {
        proof {
            reveal_strlit("~~");
        }
        String::from_str("~~")
    }

    pub fn decorate_code_start(&self) -> (r: (String, ()))
        ensures
            r.0@ == seq!['`'],
    {
        proof {
            reveal_strlit("`");
        }
        (String::from_str("`"), ())
    }

    pub fn decorate_code_end(&self) -> (r: String)
        ensures
            r@ == seq!['`'],
    {
        proof {
            reveal_strlit("`");
        }
        String::from_str("`")
    }

    pub fn decorate_preformat_first(&self) {
    }

    pub fn decorate_preformat_cont(&self) {
    }

    pub fn header_prefix(&self, level: usize) -> (r: String)
        ensures
            r@ == header_text(level as nat),
    {
        header_string(level)
    }

    pub fn quote_prefix(&self) -> (r: String)
        ensures
            r@ == seq!['>', ' '],
    {
        proof {
            reveal_strlit("> ");
        }
        String::from_str("> ")
    }

    pub fn unordered_item_prefix(&self) -> (r: String)
        ensures
            r@ == seq!['*', ' '],
    {
        proof {
            reveal_strlit("* ");
        }
        String::from_str("* ")
    }

    pub fn ordered_item_prefix(&self, i: i64) -> (r: String)
        ensures
            r@ == ordered_item_text(i as int),
    {
        ordered_item_string(i)
    }

    /// No end-of-document link list is produced.
    pub fn finalise(&mut self, links: Vec<String>) -> (r: Vec<String>)
        ensures
            r@.len() == 0,
            final(self)@ == old(self)@,
    {
        Vec::new()
    }

    /// An independent copy carrying the same link target.
    pub fn make_subblock_decorator(&self) -> (r: Self)
        ensures
            r@ == self@,
    {
        Self { currentlink: self.currentlink.clone() }
    }
}

/// Rich policy: a link's opening text, its contents and its closing text
/// read `[text](url)`, with the target copied whole.
pub proof fn lemma_rich_link_round_trip(url: Seq<char>, text: Seq<char>)
    ensures
        seq!['['] + text + rich_link_close(url) == seq!['['] + text + seq![']', '('] + url + seq![')'],
        (seq!['['] + text + rich_link_close(url)).subrange(text.len() + 3 as int, text.len() + 3 + url.len() as int) == url,
{
    let out = seq!['['] + text + rich_link_close(url);
    assert(out =~= seq!['['] + text + seq![']', '('] + url + seq![')']);
    assert(out.subrange(text.len() + 3 as int, text.len() + 3 + url.len() as int) =~= url);
}

/// Plain policy: a link's opening text, its contents and its closing text
/// read `text (url)`, with no brackets.
pub proof fn lemma_plain_link_round_trip(url: Seq<char>, text: Seq<char>)
    ensures
        Seq::<char>::empty() + text + plain_link_close(url) == text + seq![' ', '('] + url + seq![')'],
        (text + plain_link_close(url)).subrange(text.len() + 2 as int, text.len() + 2 + url.len() as int) == url,
{
    let out = Seq::<char>::empty() + text + plain_link_close(url);
    assert(out =~= text + seq![' ', '('] + url + seq![')']);
    assert((text + plain_link_close(url)).subrange(text.len() + 2 as int, text.len() + 2 + url.len() as int) =~= url);
}

} // verus!
