use crosreleasenotifier::decorators::{MdDecorator, PlainDecorator};
use html2text::render::{TaggedLine, TextDecorator};

#[derive(Clone)]
struct Rich(MdDecorator);

#[derive(Clone)]
struct Plain(PlainDecorator);

impl TextDecorator for Rich {
    type Annotation = ();

    fn decorate_link_start(&mut self, url: &str) -> (String, ()) {
        self.0.decorate_link_start(url)
    }
    fn decorate_link_end(&mut self) -> String {
        self.0.decorate_link_end()
    }
    fn decorate_em_start(&self) -> (String, ()) {
        self.0.decorate_em_start()
    }
    fn decorate_em_end(&self) -> String {
        self.0.decorate_em_end()
    }
    fn decorate_strong_start(&self) -> (String, ()) {
        self.0.decorate_strong_start()
    }
    fn decorate_strong_end(&self) -> String {
        self.0.decorate_strong_end()
    }
    fn decorate_strikeout_start(&self) -> (String, ()) {
        self.0.decorate_strikeout_start()
    }
    fn decorate_strikeout_end(&self) -> String {
        self.0.decorate_strikeout_end()
    }
    fn decorate_code_start(&self) -> (String, ()) {
        self.0.decorate_code_start()
    }
    fn decorate_code_end(&self) -> String {
        self.0.decorate_code_end()
    }
    fn decorate_preformat_first(&self) {}
    fn decorate_preformat_cont(&self) {}
    fn decorate_image(&mut self, src: &str, title: &str) -> (String, ()) {
        self.0.decorate_image(src, title)
    }
    fn header_prefix(&self, level: usize) -> String {
        self.0.header_prefix(level)
    }
    fn quote_prefix(&self) -> String {
        self.0.quote_prefix()
    }
    fn unordered_item_prefix(&self) -> String {
        self.0.unordered_item_prefix()
    }
    fn ordered_item_prefix(&self, i: i64) -> String {
        self.0.ordered_item_prefix(i)
    }
    fn finalise(&mut self, _links: Vec<String>) -> Vec<TaggedLine<()>> {
        Vec::new()
    }
    fn make_subblock_decorator(&self) -> Self {
        Rich(self.0.make_subblock_decorator())
    }
}

impl TextDecorator for Plain {
    type Annotation = ();

    fn decorate_link_start(&mut self, url: &str) -> (String, ()) {
        self.0.decorate_link_start(url)
    }
    fn decorate_link_end(&mut self) -> String {
        self.0.decorate_link_end()
    }
    fn decorate_em_start(&self) -> (String, ()) {
        self.0.decorate_em_start()
    }
    fn decorate_em_end(&self) -> String {
        self.0.decorate_em_end()
    }
    fn decorate_strong_start(&self) -> (String, ()) {
        self.0.decorate_strong_start()
    }
    fn decorate_strong_end(&self) -> String {
        self.0.decorate_strong_end()
    }
    fn decorate_strikeout_start(&self) -> (String, ()) {
        self.0.decorate_strikeout_start()
    }
    fn decorate_strikeout_end(&self) -> String {
        self.0.decorate_strikeout_end()
    }
    fn decorate_code_start(&self) -> (String, ()) {
        self.0.decorate_code_start()
    }
    fn decorate_code_end(&self) -> String {
        self.0.decorate_code_end()
    }
    fn decorate_preformat_first(&self) {}
    fn decorate_preformat_cont(&self) {}
    fn decorate_image(&mut self, src: &str, title: &str) -> (String, ()) {
        self.0.decorate_image(src, title)
    }
    fn header_prefix(&self, level: usize) -> String {
        self.0.header_prefix(level)
    }
    fn quote_prefix(&self) -> String {
        self.0.quote_prefix()
    }
    fn unordered_item_prefix(&self) -> String {
        self.0.unordered_item_prefix()
    }
    fn ordered_item_prefix(&self, i: i64) -> String {
        self.0.ordered_item_prefix(i)
    }
    fn finalise(&mut self, _links: Vec<String>) -> Vec<TaggedLine<()>> {
        Vec::new()
    }
    fn make_subblock_decorator(&self) -> Self {
        Plain(self.0.make_subblock_decorator())
    }
}

#[test]
fn rich_policy_renders_link_through_html2text() {
    let html = r#"<p><a href="https://chromereleases.googleblog.com/x?y=1&amp;z=2">text</a></p>"#;
    let out = html2text::from_read_with_decorator(html.as_bytes(), usize::MAX, Rich(MdDecorator::new())).unwrap();
    assert!(out.contains("[text](https://chromereleases.googleblog.com/x?y=1&z=2)"), "{}", out);
}

#[test]
fn plain_policy_renders_link_through_html2text() {
    let html = r#"<p><a href="X">text</a></p>"#;
    let out = html2text::from_read_with_decorator(html.as_bytes(), usize::MAX, Plain(PlainDecorator::new())).unwrap();
    assert!(out.contains("text (X)"), "{}", out);
    assert!(!out.contains('['), "{}", out);
}

#[test]
fn rich_policy_renders_markup_through_html2text() {
    let html = "<h2>Head</h2><ul><li><strong>bold</strong> and <em>em</em></li></ul><ol><li>one</li></ol>";
    let out = html2text::from_read_with_decorator(html.as_bytes(), usize::MAX, Rich(MdDecorator::new())).unwrap();
    assert!(out.contains("## Head"), "{}", out);
    assert!(out.contains("* **bold** and *em*"), "{}", out);
    assert!(out.contains("1. one"), "{}", out);
}
