use crosreleasenotifier::release::{
    assemble_release, is_chromeos_category, prepare_entries, prepare_entry, replace_underline,
    retain_newer, sort_newest_first, FeedEntry, PendingRelease, Release, Timestamp,
};
use crosreleasenotifier::text::{join_lines_exec, split_lines_exec, trim_exec};

fn entry(title: Option<&str>, body: Option<&str>, secs: Option<i64>, cats: &[&str]) -> FeedEntry {
    FeedEntry {
        title: title.map(|s| s.to_string()),
        body: body.map(|s| s.to_string()),
        updated: secs.map(|s| Timestamp { seconds: s, nanos: 0 }),
        categories: cats.iter().map(|s| s.to_string()).collect(),
    }
}

fn release(title: &str, secs: i64, nanos: u32) -> Release {
    Release {
        title: title.to_string(),
        summary: String::new(),
        content: String::new(),
        timestamp: Timestamp { seconds: secs, nanos },
    }
}

#[test]
fn underline_becomes_strong() {
    assert_eq!(replace_underline("a<u>b</u>c"), "a<strong>b</strong>c");
    assert_eq!(replace_underline("<u></u><u>"), "<strong></strong><strong>");
    assert_eq!(replace_underline("<ul><u"), "<ul><u");
    assert_eq!(replace_underline(""), "");
}

#[test]
fn incomplete_entries_are_skipped() {
    let cats = ["ChromeOS"];
    assert!(prepare_entry(&entry(None, Some("b"), Some(1), &cats)).is_none());
    assert!(prepare_entry(&entry(Some("t"), None, Some(1), &cats)).is_none());
    assert!(prepare_entry(&entry(Some("t"), Some("b"), None, &cats)).is_none());
}

#[test]
fn foreign_categories_are_skipped() {
    assert!(prepare_entry(&entry(Some("t"), Some("b"), Some(1), &["Desktop", "chromeos"])).is_none());
    assert!(prepare_entry(&entry(Some("t"), Some("b"), Some(1), &[])).is_none());
    assert!(is_chromeos_category("Chrome OS Flex"));
    assert!(is_chromeos_category("ChromeOS Flex"));
    assert!(is_chromeos_category("Chrome OS"));
    assert!(!is_chromeos_category("ChromeOS "));
}

#[test]
fn qualifying_entries_keep_feed_order() {
    let es = vec![
        entry(Some("one"), Some("<u>x</u>"), Some(5), &["Stable", "Chrome OS"]),
        entry(Some("skip"), Some("y"), Some(6), &["Desktop"]),
        entry(Some("two"), Some("z"), Some(7), &["ChromeOS Flex"]),
    ];
    let ps = prepare_entries(&es);
    assert_eq!(ps.len(), 2);
    assert_eq!(ps[0].title, "one");
    assert_eq!(ps[0].html, "<strong>x</strong>");
    assert_eq!(ps[0].timestamp, Timestamp { seconds: 5, nanos: 0 });
    assert_eq!(ps[1].title, "two");
}

#[test]
fn assemble_filters_unless_unfiltered() {
    let rendered = "x\nChromeOS 120 has been updated to 15.0. Want to know more?\n1\n2\n3\n4";
    let p = PendingRelease { title: "T".to_string(), html: String::new(), timestamp: Timestamp { seconds: 3, nanos: 9 } };
    let r = assemble_release(p, rendered, false);
    assert_eq!(r.title, "T");
    assert_eq!(r.summary, "ChromeOS 120 has been updated to 15.0.");
    assert_eq!(r.content, "ChromeOS 120 has been updated to 15.0.");
    assert_eq!(r.timestamp, Timestamp { seconds: 3, nanos: 9 });
    let p2 = PendingRelease { title: "T".to_string(), html: String::new(), timestamp: Timestamp { seconds: 3, nanos: 9 } };
    let r2 = assemble_release(p2, rendered, true);
    assert_eq!(r2.summary, "");
    assert_eq!(r2.content, rendered);
}

#[test]
fn sorted_latest_first_stably() {
    let rs = vec![release("a", 1, 0), release("b", 3, 0), release("c", 1, 5), release("d", 3, 0)];
    let sorted = sort_newest_first(rs);
    let titles: Vec<&str> = sorted.iter().map(|r| r.title.as_str()).collect();
    assert_eq!(titles, vec!["b", "d", "c", "a"]);
    assert!(sort_newest_first(Vec::new()).is_empty());
}

#[test]
fn cutoff_removes_not_newer() {
    let rs = vec![release("a", 5, 0), release("b", 3, 0), release("c", 4, 1), release("d", 4, 0)];
    let kept = retain_newer(rs, Timestamp { seconds: 4, nanos: 0 });
    let titles: Vec<&str> = kept.iter().map(|r| r.title.as_str()).collect();
    assert_eq!(titles, vec!["a", "c"]);
}

#[test]
fn split_join_and_trim() {
    let lines = split_lines_exec("a\n\nb\n");
    assert_eq!(lines, vec!["a".to_string(), String::new(), "b".to_string(), String::new()]);
    assert_eq!(join_lines_exec(&lines), "a\n\nb\n");
    assert_eq!(split_lines_exec(""), vec![String::new()]);
    assert_eq!(trim_exec("\u{3000} x y \n"), "x y");
}
