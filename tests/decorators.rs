use crosreleasenotifier::decorators::{MdDecorator, PlainDecorator};

#[test]
fn rich_link_renders_bracketed() {
    let mut d = MdDecorator::new();
    let (open, _) = d.decorate_link_start("https://example.com/a?b=c");
    let close = d.decorate_link_end();
    assert_eq!(format!("{}{}{}", open, "text", close), "[text](https://example.com/a?b=c)");
}

#[test]
fn plain_link_renders_inline_target() {
    let mut d = PlainDecorator::new();
    let (open, _) = d.decorate_link_start("X");
    let close = d.decorate_link_end();
    assert_eq!(format!("{}{}{}", open, "text", close), "text (X)");
}

#[test]
fn link_end_without_start_uses_empty_target() {
    let mut md = MdDecorator::new();
    assert_eq!(md.decorate_link_end(), "]()");
    let mut plain = PlainDecorator::new();
    assert_eq!(plain.decorate_link_end(), " ()");
}

#[test]
fn inner_link_overwrites_outer_target() {
    let mut d = MdDecorator::new();
    d.decorate_link_start("outer");
    d.decorate_link_start("inner");
    assert_eq!(d.decorate_link_end(), "](inner)");
    assert_eq!(d.decorate_link_end(), "](inner)");
}

#[test]
fn images_differ_between_policies() {
    let mut md = MdDecorator::new();
    assert_eq!(md.decorate_image("pic.png", "Logo").0, "[Logo](pic.png)");
    let mut plain = PlainDecorator::new();
    assert_eq!(plain.decorate_image("pic.png", "Logo").0, " Logo (pic.png)");
}

#[test]
fn inline_markers_are_shared() {
    let md = MdDecorator::new();
    let plain = PlainDecorator::new();
    assert_eq!(md.decorate_em_start().0, "*");
    assert_eq!(md.decorate_em_end(), "*");
    assert_eq!(md.decorate_strong_start().0, "**");
    assert_eq!(md.decorate_strong_end(), "**");
    assert_eq!(md.decorate_strikeout_start().0, "~~");
    assert_eq!(md.decorate_strikeout_end(), "~~");
    assert_eq!(md.decorate_code_start().0, "`");
    assert_eq!(md.decorate_code_end(), "`");
    assert_eq!(plain.decorate_em_start().0, "*");
    assert_eq!(plain.decorate_em_end(), "*");
    assert_eq!(plain.decorate_strong_start().0, "**");
    assert_eq!(plain.decorate_strong_end(), "**");
    assert_eq!(plain.decorate_strikeout_start().0, "~~");
    assert_eq!(plain.decorate_strikeout_end(), "~~");
    assert_eq!(plain.decorate_code_start().0, "`");
    assert_eq!(plain.decorate_code_end(), "`");
}

#[test]
fn block_prefixes() {
    let md = MdDecorator::new();
    let plain = PlainDecorator::new();
    assert_eq!(md.header_prefix(3), "### ");
    assert_eq!(md.header_prefix(0), " ");
    assert_eq!(plain.header_prefix(1), "# ");
    assert_eq!(md.quote_prefix(), "> ");
    assert_eq!(plain.quote_prefix(), "> ");
    assert_eq!(md.unordered_item_prefix(), "* ");
    assert_eq!(plain.unordered_item_prefix(), "* ");
    assert_eq!(md.ordered_item_prefix(12), "12. ");
    assert_eq!(plain.ordered_item_prefix(0), "0. ");
    assert_eq!(md.ordered_item_prefix(-7), "-7. ");
    assert_eq!(md.ordered_item_prefix(i64::MIN), "-9223372036854775808. ");
    assert_eq!(md.ordered_item_prefix(i64::MAX), "9223372036854775807. ");
}

#[test]
fn finalise_discards_links_and_subblock_keeps_target() {
    let mut md = MdDecorator::new();
    md.decorate_link_start("u1");
    assert!(md.finalise(vec!["a".to_string(), "b".to_string()]).is_empty());
    let mut sub = md.make_subblock_decorator();
    assert_eq!(sub.decorate_link_end(), "](u1)");
    sub.decorate_link_start("u2");
    assert_eq!(md.decorate_link_end(), "](u1)");
    let mut plain = PlainDecorator::new();
    plain.decorate_link_start("p");
    assert!(plain.finalise(Vec::new()).is_empty());
    let mut psub = plain.make_subblock_decorator();
    assert_eq!(psub.decorate_link_end(), " (p)");
}
