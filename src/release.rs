//! Release records: choosing the feed entries that qualify, preparing their
//! HTML for rendering, assembling records from rendered text, and ordering
//! and narrowing a collection of records by time.

use crate::filter::{filter_content, filter_result};
use crate::text::{chars_of, join_lines, occurs_at, occurs_at_exec, split_lines};
use vstd::prelude::*;

verus! {

/// An instant: whole seconds since the Unix epoch and the nanoseconds past them.
#[derive(Clone, Copy, Debug, PartialEq, Eq, Structural)]
pub struct Timestamp {
    pub seconds: i64,
    pub nanos: u32,
}

/// `a` is strictly later than `b`.
pub open spec fn later(a: Timestamp, b: Timestamp) -> bool {
    a.seconds > b.seconds || (a.seconds == b.seconds && a.nanos > b.nanos)
}

/// Whether `a` is strictly later than `b`.
pub fn is_later(a: Timestamp, b: Timestamp) -> (r: bool)
    ensures
        r == later(a, b),
{
    a.seconds > b.seconds || (a.seconds == b.seconds && a.nanos > b.nanos)
}

/// One entry of the feed, as far as the release pipeline reads it.
pub struct FeedEntry {
    pub title: Option<String>,
    /// The HTML body of the entry's content.
    pub body: Option<String>,
    pub updated: Option<Timestamp>,
    pub categories: Vec<String>,
}

/// A qualifying entry whose HTML is ready to be rendered.
pub struct PendingRelease {
    pub title: String,
    pub html: String,
    pub timestamp: Timestamp,
}

/// One processed announcement.
pub struct Release {
    pub title: String,
    pub summary: String,
    pub content: String,
    pub timestamp: Timestamp,
}

/// The category terms that mark an entry as a ChromeOS release.
pub open spec fn is_chromeos_term(term: Seq<char>) -> bool {
    term == "ChromeOS"@ || term == "Chrome OS"@ || term == "ChromeOS Flex"@
        || term == "Chrome OS Flex"@
}

pub open spec fn has_chromeos_category(categories: Seq<String>) -> bool {
    exists|i: int| 0 <= i < categories.len() && is_chromeos_term(#[trigger] categories[i]@)
}

pub open spec fn u_open() -> Seq<char> {
    seq!['<', 'u', '>']
}

pub open spec fn u_close() -> Seq<char> {
    seq!['<', '/', 'u', '>']
}

pub open spec fn strong_open() -> Seq<char> {
    seq!['<', 's', 't', 'r', 'o', 'n', 'g', '>']
}

pub open spec fn strong_close() -> Seq<char> {
    seq!['<', '/', 's', 't', 'r', 'o', 'n', 'g', '>']
}

/// `html` with every `<u>` replaced by `<strong>` and every `</u>` by `</strong>`.
pub open spec fn underline_as_strong(html: Seq<char>) -> Seq<char>
    decreases html.len(),
{
    if html.len() == 0 {
        Seq::<char>::empty()
    } else if occurs_at(html, u_open(), 0) {
        strong_open() + underline_as_strong(html.skip(3))
    } else if occurs_at(html, u_close(), 0) {
        strong_close() + underline_as_strong(html.skip(4))
    } else {
        seq![html[0]] + underline_as_strong(html.skip(1))
    }
}

/// What a feed entry contributes: its title, its prepared HTML and its
/// timestamp, or nothing when it is not a ChromeOS release or lacks any of
/// the three.
pub open spec fn entry_source(e: FeedEntry) -> Option<(Seq<char>, Seq<char>, Timestamp)> {
    if has_chromeos_category(e.categories@) && e.title is Some && e.body is Some
        && e.updated is Some {
        Some((e.title->0@, underline_as_strong(e.body->0@), e.updated->0))
    } else {
        None
    }
}

/// What the entries contribute, in feed order.
pub open spec fn entry_sources(es: Seq<FeedEntry>) -> Seq<(Seq<char>, Seq<char>, Timestamp)>
    decreases es.len(),
{
    if es.len() == 0 {
        Seq::empty()
    } else {
        match entry_source(es.last()) {
            Some(src) => entry_sources(es.drop_last()).push(src),
            None => entry_sources(es.drop_last()),
        }
    }
}

pub open spec fn pending_view(p: PendingRelease) -> (Seq<char>, Seq<char>, Timestamp) {
    (p.title@, p.html@, p.timestamp)
}

/// The record assembled from a pending release and its rendered text.
pub open spec fn release_of(p: (Seq<char>, Seq<char>, Timestamp), rendered: Seq<char>, filtering_enabled: bool) -> (Seq<char>, Seq<char>, Seq<char>, Timestamp) {
    (
        p.0,
        filter_result(split_lines(rendered), filtering_enabled).summary,
        join_lines(filter_result(split_lines(rendered), filtering_enabled).out),
        p.2,
    )
}

pub open spec fn release_view(r: Release) -> (Seq<char>, Seq<char>, Seq<char>, Timestamp) {
    (r.title@, r.summary@, r.content@, r.timestamp)
}

/// Whether `term` is one of the ChromeOS category terms.
pub fn is_chromeos_category(term: &str) -> (r: bool)
    ensures
        r == is_chromeos_term(term@),
{
    let t = String::from_str(term);
    t == String::from_str("ChromeOS") || t == String::from_str("Chrome OS") || t
        == String::from_str("ChromeOS Flex") || t == String::from_str("Chrome OS Flex")
}

/// Whether any of the terms is a ChromeOS category term.
pub fn any_chromeos_category(categories: &Vec<String>) -> (r: bool)
    ensures
        r == has_chromeos_category(categories@),
{
    let mut i: usize = 0;
    while i < categories.len()
        invariant
            i <= categories@.len(),
            forall|j: int| 0 <= j < i ==> !is_chromeos_term(#[trigger] categories@[j]@),
        decreases categories.len() - i,
    {
        if is_chromeos_category(categories[i].as_str()) {
            return true;
        }
        i = i + 1;
    }
    false
}

/// Replaces every `<u>` with `<strong>` and every `</u>` with `</strong>`.
pub fn replace_underline(html: &str) -> (r: String)
    ensures
        r@ == underline_as_strong(html@),
{
    proof {
        reveal_strlit("<u>");
        reveal_strlit("</u>");
        reveal_strlit("<strong>");
        reveal_strlit("</strong>");
    }
    let cs = chars_of(html);
    let uo = chars_of("<u>");
    let uc = chars_of("</u>");
    let ghost s = html@;
    let mut out = String::new();
    let mut seg: usize = 0;
    let mut i: usize = 0;
    assert(s.skip(0) =~= s);
    while i < cs.len()
        invariant
            cs@ == s,
            s == html@,
            uo@ == u_open(),
            uc@ == u_close(),
            "<strong>"@ == strong_open(),
            "</strong>"@ == strong_close(),
            seg <= i <= s.len(),
            out@ + s.subrange(seg as int, i as int) + underline_as_strong(s.skip(i as int))
                == underline_as_strong(s),
        decreases cs.len() - i,
    {
        let ghost rest = s.skip(i as int);
        assert(occurs_at(rest, u_open(), 0) == occurs_at(s, u_open(), i as int)) by {
            if i + 3 <= s.len() {
                assert(rest.subrange(0, 3) =~= s.subrange(i as int, i + 3));
            }
        }
        assert(occurs_at(rest, u_close(), 0) == occurs_at(s, u_close(), i as int)) by {
            if i + 4 <= s.len() {
                assert(rest.subrange(0, 4) =~= s.subrange(i as int, i + 4));
            }
        }
        if occurs_at_exec(&cs, &uo, i) {
            out.append(html.substring_char(seg, i));
            out.append("<strong>");
            assert(rest.skip(3) =~= s.skip(i + 3));
            assert(underline_as_strong(rest) == strong_open() + underline_as_strong(rest.skip(3)));
            assert(s.subrange(i + 3, i + 3) =~= Seq::<char>::empty());
            i = i + 3;
            seg = i;
            assert(out@ + s.subrange(seg as int, i as int) + underline_as_strong(s.skip(i as int))
                =~= underline_as_strong(s));
        } else if occurs_at_exec(&cs, &uc, i) {
            out.append(html.substring_char(seg, i));
            out.append("</strong>");
            assert(rest.skip(4) =~= s.skip(i + 4));
            assert(underline_as_strong(rest) == strong_close() + underline_as_strong(rest.skip(4)));
            assert(s.subrange(i + 4, i + 4) =~= Seq::<char>::empty());
            i = i + 4;
            seg = i;
            assert(out@ + s.subrange(seg as int, i as int) + underline_as_strong(s.skip(i as int))
                =~= underline_as_strong(s));
        } else {
            assert(rest.skip(1) =~= s.skip(i + 1));
            assert(rest[0] == s[i as int]);
            assert(underline_as_strong(rest) == seq![s[i as int]] + underline_as_strong(rest.skip(1)));
            assert(s.subrange(seg as int, i + 1) =~= s.subrange(seg as int, i as int).push(s[i as int]));
            i = i + 1;
            assert(out@ + s.subrange(seg as int, i as int) + underline_as_strong(s.skip(i as int))
                =~= underline_as_strong(s));
        }
    }
    out.append(html.substring_char(seg, i));
    assert(s.skip(i as int) =~= Seq::<char>::empty());
    assert(out@ =~= underline_as_strong(s));
    out
}

/// The pending release of a feed entry: `None` exactly when the entry is not
/// a ChromeOS release or lacks a title, a body or a timestamp.
pub fn prepare_entry(entry: &FeedEntry) -> (r: Option<PendingRelease>)
    ensures
        match r {
            Some(p) => entry_source(*entry) == Some(pending_view(p)),
            None => entry_source(*entry) is None,
        },
{
    if !any_chromeos_category(&entry.categories) {
        return None;
    }
    match (&entry.title, &entry.body, entry.updated) {
        (Some(title), Some(body), Some(updated)) => Some(PendingRelease {
            title: title.clone(),
            html: replace_underline(body.as_str()),
            timestamp: updated,
        }),
        _ => None,
    }
}

/// The pending releases of the qualifying entries, in feed order.
pub fn prepare_entries(entries: &Vec<FeedEntry>) -> (r: Vec<PendingRelease>)
    ensures
        r@.map_values(|p: PendingRelease| pending_view(p)) == entry_sources(entries@),
{
    let mut out: Vec<PendingRelease> = Vec::new();
    let mut i: usize = 0;
    while i < entries.len()
        invariant
            i <= entries@.len(),
            out@.map_values(|p: PendingRelease| pending_view(p)) == entry_sources(entries@.take(i as int)),
        decreases entries.len() - i,
    {
        assert(entries@.take(i + 1).drop_last() =~= entries@.take(i as int));
        let ghost before = out@.map_values(|p: PendingRelease| pending_view(p));
        match prepare_entry(&entries[i]) {
            Some(p) => {
                out.push(p);
                assert(out@.map_values(|p: PendingRelease| pending_view(p)) =~= before.push(
                    entry_source(entries@[i as int])->0));
            },
            None => {},
        }
        i = i + 1;
    }
    assert(entries@.take(i as int) =~= entries@);
    out
}

/// Builds the release record from a pending release and its rendered text;
/// the filter runs unless `unfiltered`.
pub fn assemble_release(pending: PendingRelease, rendered: &str, unfiltered: bool) -> (r: Release)
    ensures
        release_view(r) == release_of(pending_view(pending), rendered@, !unfiltered),
{
    let f = filter_content(rendered, !unfiltered);
    Release {
        title: pending.title,
        summary: f.summary,
        content: f.content,
        timestamp: pending.timestamp,
    }
}

/// An entry without a title, a body or a timestamp contributes no release.
pub proof fn lemma_incomplete_entry_yields_nothing(e: FeedEntry)
    requires
        e.title is None || e.body is None || e.updated is None,
    ensures
        entry_source(e) is None,
{
}

/// An entry without a ChromeOS category term contributes no release.
pub proof fn lemma_foreign_entry_yields_nothing(e: FeedEntry)
    requires
        forall|i: int| 0 <= i < e.categories@.len() ==> !is_chromeos_term(#[trigger] e.categories@[i]@),
    ensures
        entry_source(e) is None,
{
}

/// An entry that contributes nothing leaves the list of releases as it was.
pub proof fn lemma_skipped_entry_adds_nothing(es: Seq<FeedEntry>, e: FeedEntry)
    requires
        entry_source(e) is None,
    ensures
        entry_sources(es.push(e)) == entry_sources(es),
{
    assert(es.push(e).drop_last() =~= es);
}

/// Each release is no later than the one before it.
pub open spec fn newest_first(rs: Seq<Release>) -> bool {
    forall|i: int, j: int| 0 <= i < j < rs.len() ==> !later(#[trigger] rs[j].timestamp, #[trigger] rs[i].timestamp)
}

/// The releases strictly later than `cutoff`, in their order.
pub open spec fn newer_than(rs: Seq<Release>, cutoff: Timestamp) -> Seq<Release>
    decreases rs.len(),
{
    if rs.len() == 0 {
        Seq::empty()
    } else if later(rs.last().timestamp, cutoff) {
        newer_than(rs.drop_last(), cutoff).push(rs.last())
    } else {
        newer_than(rs.drop_last(), cutoff)
    }
}

/// Orders releases from the latest to the earliest.
pub fn sort_newest_first(releases: Vec<Release>) -> (r: Vec<Release>)
    ensures
        r@.to_multiset() == releases@.to_multiset(),
        newest_first(r@),
{
    broadcast use vstd::seq_lib::group_to_multiset_ensures;
    let mut rest = releases;
    let mut out: Vec<Release> = Vec::new();
    while rest.len() > 0
        invariant
            out@.to_multiset().add(rest@.to_multiset()) == releases@.to_multiset(),
            newest_first(out@),
        decreases rest.len(),
    {
        let ghost before_rest = rest@;
        let x = rest.pop().unwrap();
        proof {
            assert(before_rest =~= rest@.push(x));
            vstd::seq_lib::to_multiset_build(rest@, x);
        }
        let mut p: usize = 0;
        while p < out.len() && is_later(out[p].timestamp, x.timestamp)
            invariant
                p <= out@.len(),
                forall|q: int| 0 <= q < p ==> later(#[trigger] out@[q].timestamp, x.timestamp),
            decreases out.len() - p,
        {
            p = p + 1;
        }
        let ghost before_out = out@;
        out.insert(p, x);
        proof {
            vstd::seq_lib::to_multiset_insert(before_out, p as int, x);
            assert forall|i: int, j: int| 0 <= i < j < out@.len() implies !later(#[trigger] out@[j].timestamp, #[trigger] out@[i].timestamp) by {
                if j < p {
                    assert(out@[i] == before_out[i] && out@[j] == before_out[j]);
                } else if j == p {
                    assert(out@[i] == before_out[i]);
                } else if i == p {
                    assert(out@[j] == before_out[j - 1]);
                    assert(!later(before_out[j - 1].timestamp, before_out[p as int].timestamp));
                } else if i < p {
                    assert(out@[i] == before_out[i] && out@[j] == before_out[j - 1]);
                } else {
                    assert(out@[i] == before_out[i - 1] && out@[j] == before_out[j - 1]);
                }
            }
        }
    }
    assert(rest@ =~= Seq::<Release>::empty());
    out
}

/// Keeps the releases strictly later than `cutoff`, in their order.
pub fn retain_newer(releases: Vec<Release>, cutoff: Timestamp) -> (r: Vec<Release>)
    ensures
        r@ == newer_than(releases@, cutoff),
{
    let ghost orig = releases@;
    let n = releases.len();
    assert(orig.len() == n);
    let mut v = releases;
    let mut i: usize = 0;
    let mut k: usize = 0;
    while i < v.len()
        invariant
            k <= orig.len() <= usize::MAX,
            i == newer_than(orig.take(k as int), cutoff).len(),
            v@ == newer_than(orig.take(k as int), cutoff) + orig.skip(k as int),
        decreases v.len() - i,
    {
        let ghost kept = newer_than(orig.take(k as int), cutoff);
        assert(v@.len() == i + orig.skip(k as int).len());
        assert(orig.take(k + 1).drop_last() =~= orig.take(k as int));
        assert(v@[i as int] == orig[k as int]);
        assert(orig.skip(k as int).drop_first() =~= orig.skip(k + 1));
        if is_later(v[i].timestamp, cutoff) {
            i = i + 1;
            assert(v@ =~= kept.push(orig[k as int]) + orig.skip(k + 1));
        } else {
            v.remove(i);
            assert(v@ =~= kept + orig.skip(k + 1));
        }
        k = k + 1;
    }
    assert(orig.skip(k as int).len() == 0);
    assert(k == orig.len());
    assert(orig.take(k as int) =~= orig);
    assert(v@ =~= newer_than(orig, cutoff));
    v
}

} // verus!
