//! The line filter: collapses repeated lines, drops the trailing boilerplate,
//! then walks the lines once, keeping announcement and reference lines,
//! picking the summary, and passing everything through once the security-fix
//! section starts.

use crate::text::{
    before_first, chars_of, contains, contains_exec, find_exec, find_from, join_lines, join_lines_exec,
    split_lines, split_lines_exec, trim, trim_bounds, views,
};
use vstd::prelude::*;

verus! {

/// Lines at the end of every announcement that are boilerplate.
pub const TRAILING_BOILERPLATE_LINES: usize = 4;

/// How the filter treats a line, by the phrases it contains.
#[derive(Clone, Copy, Debug, PartialEq, Eq, Structural)]
pub enum LineKind {
    /// Announces the update; supplies the summary.
    Update,
    /// Points to the release notes.
    Reference,
    /// Starts the security-fix section; nothing after it is dropped.
    SecurityBoundary,
    /// Anything else.
    Other,
}

pub open spec fn is_update_line(s: Seq<char>) -> bool {
    contains(s, "is being updated"@) || contains(s, "has been updated"@)
        || contains(s, "is updated in"@) || contains(s, "was updated in"@)
        || contains(s, "has been promoted to"@) || contains(s, "A new LT"@)
        || contains(s, "The new LT"@)
}

pub open spec fn is_reference_line(s: Seq<char>) -> bool {
    contains(s, "See the latest release"@) || contains(s, "Release notes for"@)
}

pub open spec fn is_security_boundary_line(s: Seq<char>) -> bool {
    contains(s, "This update contains selective Security fixes"@)
        || contains(s, "This update contains selected Security fixes"@)
        || contains(s, "This update contains multiple Security fixes"@)
        || contains(s, "ChromeOS Vulnerability Bug Fixes"@)
        || contains(s, "Security Fixes And Rewards"@)
}

/// The kind of a line; the groups are tried in the order update, reference,
/// security boundary.
pub open spec fn line_kind(s: Seq<char>) -> LineKind {
    if is_update_line(s) {
        LineKind::Update
    } else if is_reference_line(s) {
        LineKind::Reference
    } else if is_security_boundary_line(s) {
        LineKind::SecurityBoundary
    } else {
        LineKind::Other
    }
}

/// An announcement line cut before "Want to know" and trimmed.
pub open spec fn summary_of_line(s: Seq<char>) -> Seq<char> {
    trim(before_first(s, "Want to know"@))
}

/// The state of the walk over one entry's lines.
pub struct WalkState {
    pub active: bool,
    pub summary: Seq<char>,
    pub out: Seq<Seq<char>>,
}

/// One line of the walk.
pub open spec fn step(st: WalkState, line: Seq<char>) -> WalkState {
    if !st.active {
        WalkState { out: st.out.push(line), ..st }
    } else {
        match line_kind(line) {
            LineKind::Update => WalkState {
                active: true,
                summary: summary_of_line(line),
                out: st.out.push(summary_of_line(line)),
            },
            LineKind::Reference => WalkState { out: st.out.push(line), ..st },
            LineKind::SecurityBoundary => WalkState {
                active: false,
                summary: st.summary,
                out: st.out.push(Seq::<char>::empty()).push(line),
            },
            LineKind::Other => st,
        }
    }
}

/// The walk over `lines`, starting with filtering `active` or not.
pub open spec fn walk(lines: Seq<Seq<char>>, active: bool) -> WalkState
    decreases lines.len(),
{
    if lines.len() == 0 {
        WalkState { active, summary: Seq::<char>::empty(), out: Seq::<Seq<char>>::empty() }
    } else {
        step(walk(lines.drop_last(), active), lines.last())
    }
}

/// `lines` with each run of equal adjacent lines collapsed to one.
pub open spec fn dedup(lines: Seq<Seq<char>>) -> Seq<Seq<char>>
    decreases lines.len(),
{
    if lines.len() <= 1 {
        lines
    } else if lines.last() == lines[lines.len() - 2] {
        dedup(lines.drop_last())
    } else {
        dedup(lines.drop_last()).push(lines.last())
    }
}

/// `lines` without their last `n` (none left when there are fewer).
pub open spec fn drop_trailing(lines: Seq<Seq<char>>, n: nat) -> Seq<Seq<char>> {
    if lines.len() >= n {
        lines.take(lines.len() - n)
    } else {
        Seq::<Seq<char>>::empty()
    }
}

/// The lines that the walk sees.
pub open spec fn prepared_lines(lines: Seq<Seq<char>>, filtering_enabled: bool) -> Seq<Seq<char>> {
    if filtering_enabled {
        drop_trailing(dedup(lines), TRAILING_BOILERPLATE_LINES as nat)
    } else {
        lines
    }
}

/// What the filter makes of an entry's lines.
pub open spec fn filter_result(lines: Seq<Seq<char>>, filtering_enabled: bool) -> WalkState {
    walk(prepared_lines(lines, filtering_enabled), filtering_enabled)
}

/// Summary and kept lines of one entry.
pub struct FilteredLines {
    pub summary: String,
    pub lines: Vec<String>,
}

/// Summary and filtered body text of one entry.
pub struct FilteredContent {
    pub summary: String,
    pub content: String,
}

fn has(cs: &Vec<char>, pattern: &str) -> (r: bool)
    ensures
        r == contains(cs@, pattern@),
{
    let p = chars_of(pattern);
    contains_exec(cs, &p)
}

/// Classifies a line by the phrases it contains.
pub fn classify_line(line: &str) -> (r: LineKind)
    ensures
        r == line_kind(line@),
{
    let cs = chars_of(line);
    if has(&cs, "is being updated") || has(&cs, "has been updated") || has(&cs, "is updated in")
        || has(&cs, "was updated in") || has(&cs, "has been promoted to") || has(&cs, "A new LT")
        || has(&cs, "The new LT") {
        LineKind::Update
    } else if has(&cs, "See the latest release") || has(&cs, "Release notes for") {
        LineKind::Reference
    } else if has(&cs, "This update contains selective Security fixes")
        || has(&cs, "This update contains selected Security fixes")
        || has(&cs, "This update contains multiple Security fixes")
        || has(&cs, "ChromeOS Vulnerability Bug Fixes")
        || has(&cs, "Security Fixes And Rewards") {
        LineKind::SecurityBoundary
    } else {
        LineKind::Other
    }
}

/// The summary form of an announcement line: the part before "Want to
/// know", trimmed.
pub fn summary_line(line: &str) -> (r: String)
    ensures
        r@ == summary_of_line(line@),
{
    let cs = chars_of(line);
    let p = chars_of("Want to know");
    let end = match find_exec(&cs, &p) {
        Some(k) => k,
        None => cs.len(),
    };
    proof {
        if find_from(cs@, p@, 0) < 0 {
            assert(cs@.subrange(0, cs@.len() as int) =~= cs@);
        }
    }
    let (a, b) = trim_bounds(&cs, end);
    String::from_str(line.substring_char(a, b))
}

/// Collapses each run of equal adjacent lines to one.
pub fn dedup_lines(lines: &Vec<String>) -> (r: Vec<String>)
    ensures
        views(r@) == dedup(views(lines@)),
{
    let ghost v = views(lines@);
    let mut out: Vec<String> = Vec::new();
    let mut i: usize = 0;
    while i < lines.len()
        invariant
            i <= lines@.len(),
            v == views(lines@),
            views(out@) == dedup(v.take(i as int)),
        decreases lines.len() - i,
    {
        let ghost before = views(out@);
        assert(v.take(i + 1).drop_last() =~= v.take(i as int));
        if i == 0 || lines[i] != lines[i - 1] {
            out.push(lines[i].clone());
            assert(views(out@) =~= before.push(v[i as int]));
            if i == 0 {
                assert(v.take(1) =~= seq![v[0]]);
                assert(before =~= Seq::<Seq<char>>::empty());
            }
        }
        i = i + 1;
    }
    assert(v.take(i as int) =~= v);
    out
}

/// Runs the filter over one entry's lines.
pub fn filter_lines(lines: &Vec<String>, filtering_enabled: bool) -> (r: FilteredLines)
    ensures
        r.summary@ == filter_result(views(lines@), filtering_enabled).summary,
        views(r.lines@) == filter_result(views(lines@), filtering_enabled).out,
{
    let mut work: Vec<String>;
    if filtering_enabled {
        work = dedup_lines(lines);
        let n = work.len();
        let keep = if n >= TRAILING_BOILERPLATE_LINES { n - TRAILING_BOILERPLATE_LINES } else { 0 };
        let ghost d = views(work@);
        work.truncate(keep);
        assert(views(work@) =~= drop_trailing(d, TRAILING_BOILERPLATE_LINES as nat));
    } else {
        work = lines.clone();
        assert(views(work@) =~= views(lines@));
    }
    let ghost ls = views(work@);
    assert(ls == prepared_lines(views(lines@), filtering_enabled));
    let mut active = filtering_enabled;
    let mut summary = String::new();
    let mut out: Vec<String> = Vec::new();
    let mut i: usize = 0;
    assert(views(out@) =~= Seq::<Seq<char>>::empty());
    assert(ls.take(0) =~= Seq::<Seq<char>>::empty());
    while i < work.len()
        invariant
            i <= work@.len(),
            ls == views(work@),
            active == walk(ls.take(i as int), filtering_enabled).active,
            summary@ == walk(ls.take(i as int), filtering_enabled).summary,
            views(out@) == walk(ls.take(i as int), filtering_enabled).out,
        decreases work.len() - i,
    {
        let ghost before = views(out@);
        assert(ls.take(i + 1).drop_last() =~= ls.take(i as int));
        let line = work[i].as_str();
        if !active {
            out.push(work[i].clone());
            assert(views(out@) =~= before.push(ls[i as int]));
        } else {
            match classify_line(line) {
                LineKind::Update => {
                    let s = summary_line(line);
                    summary = s.clone();
                    out.push(s);
                    assert(views(out@) =~= before.push(summary_of_line(ls[i as int])));
                },
                LineKind::Reference => {
                    out.push(work[i].clone());
                    assert(views(out@) =~= before.push(ls[i as int]));
                },
                LineKind::SecurityBoundary => {
                    out.push(String::new());
                    out.push(work[i].clone());
                    active = false;
                    assert(views(out@) =~= before.push(Seq::<char>::empty()).push(ls[i as int]));
                },
                LineKind::Other => {},
            }
        }
        i = i + 1;
    }
    assert(ls.take(i as int) =~= ls);
    FilteredLines { summary, lines: out }
}

/// Runs the filter over a rendered entry: splits it into lines, filters
/// them and joins the kept lines.
pub fn filter_content(rendered: &str, filtering_enabled: bool) -> (r: FilteredContent)
    ensures
        r.summary@ == filter_result(split_lines(rendered@), filtering_enabled).summary,
        r.content@ == join_lines(filter_result(split_lines(rendered@), filtering_enabled).out),
{
    let lines = split_lines_exec(rendered);
    let f = filter_lines(&lines, filtering_enabled);
    let content = join_lines_exec(&f.lines);
    FilteredContent { summary: f.summary, content }
}

proof fn lemma_dedup_last(lines: Seq<Seq<char>>)
    requires
        lines.len() > 0,
    ensures
        dedup(lines).len() > 0,
        dedup(lines).last() == lines.last(),
    decreases lines.len(),
{
    if lines.len() > 1 {
        lemma_dedup_last(lines.drop_last());
    }
}

/// No two adjacent lines of `lines` are equal.
pub open spec fn no_adjacent_repeats(lines: Seq<Seq<char>>) -> bool {
    forall|k: int| 0 <= k < lines.len() - 1 ==> #[trigger] lines[k] != lines[k + 1]
}

proof fn lemma_dedup_no_adjacent_repeats(lines: Seq<Seq<char>>)
    ensures
        no_adjacent_repeats(dedup(lines)),
    decreases lines.len(),
{
    if lines.len() > 1 {
        let t = lines.drop_last();
        lemma_dedup_no_adjacent_repeats(t);
        lemma_dedup_last(t);
        let d = dedup(t);
        if lines.last() != lines[lines.len() - 2] {
            let e = d.push(lines.last());
            assert forall|k: int| 0 <= k < e.len() - 1 implies #[trigger] e[k] != e[k + 1] by {
                if k < d.len() - 1 {
                    assert(e[k] == d[k] && e[k + 1] == d[k + 1]);
                }
            }
        }
    }
}

proof fn lemma_dedup_keeps_distinct(lines: Seq<Seq<char>>)
    requires
        no_adjacent_repeats(lines),
    ensures
        dedup(lines) == lines,
    decreases lines.len(),
{
    if lines.len() > 1 {
        let t = lines.drop_last();
        assert(no_adjacent_repeats(t)) by {
            assert forall|k: int| 0 <= k < t.len() - 1 implies #[trigger] t[k] != t[k + 1] by {
                assert(lines[k] != lines[k + 1]);
            }
        }
        lemma_dedup_keeps_distinct(t);
        assert(lines[lines.len() - 2] != lines[lines.len() - 1]);
        assert(t.push(lines.last()) =~= lines);
    }
}

/// Collapsing repeated lines a second time changes nothing.
pub proof fn lemma_dedup_idempotent(lines: Seq<Seq<char>>)
    ensures
        dedup(dedup(lines)) == dedup(lines),
{
    lemma_dedup_no_adjacent_repeats(lines);
    lemma_dedup_keeps_distinct(dedup(lines));
}

/// An entry that has at most as many distinct-run lines as the trailing
/// boilerplate yields an empty body and no summary when filtered.
pub proof fn lemma_short_entry_yields_nothing(text: Seq<char>)
    requires
        dedup(split_lines(text)).len() <= TRAILING_BOILERPLATE_LINES,
    ensures
        filter_result(split_lines(text), true).out.len() == 0,
        filter_result(split_lines(text), true).summary.len() == 0,
        join_lines(filter_result(split_lines(text), true).out).len() == 0,
{
    assert(prepared_lines(split_lines(text), true) =~= Seq::<Seq<char>>::empty());
}

proof fn lemma_walk_take_step(lines: Seq<Seq<char>>, k: int, active: bool)
    requires
        0 <= k < lines.len(),
    ensures
        walk(lines.take(k + 1), active) == step(walk(lines.take(k), active), lines[k]),
{
    assert(lines.take(k + 1).drop_last() =~= lines.take(k));
}

proof fn lemma_inactive_passes_through(lines: Seq<Seq<char>>, k: int, m: int, active: bool)
    requires
        0 <= k <= m <= lines.len(),
        !walk(lines.take(k), active).active,
    ensures
        !walk(lines.take(m), active).active,
        walk(lines.take(m), active).summary == walk(lines.take(k), active).summary,
        walk(lines.take(m), active).out == walk(lines.take(k), active).out + lines.subrange(k, m),
    decreases m - k,
{
    if m == k {
        assert(lines.subrange(k, m) =~= Seq::<Seq<char>>::empty());
        assert(walk(lines.take(k), active).out + lines.subrange(k, m) =~= walk(lines.take(k), active).out);
    } else {
        lemma_inactive_passes_through(lines, k, m - 1, active);
        lemma_walk_take_step(lines, m - 1, active);
        assert(lines.subrange(k, m) =~= lines.subrange(k, m - 1).push(lines[m - 1]));
        assert(walk(lines.take(m), active).out =~= walk(lines.take(k), active).out + lines.subrange(k, m));
    }
}

/// Once a security-fix boundary line has been walked over, filtering is off
/// for good and every later line is kept verbatim.
pub proof fn lemma_security_boundary_latches(lines: Seq<Seq<char>>, active: bool, k: int)
    requires
        0 <= k < lines.len(),
        line_kind(lines[k]) == LineKind::SecurityBoundary,
    ensures
        !walk(lines, active).active,
        walk(lines, active).out == walk(lines.take(k + 1), active).out + lines.subrange(k + 1, lines.len() as int),
{
    lemma_walk_take_step(lines, k, active);
    lemma_inactive_passes_through(lines, k + 1, lines.len() as int, active);
    assert(lines.take(lines.len() as int) =~= lines);
}

proof fn lemma_active_without_boundary(lines: Seq<Seq<char>>, k: int)
    requires
        0 <= k <= lines.len(),
        forall|j: int| 0 <= j < k ==> line_kind(lines[j]) != LineKind::SecurityBoundary,
    ensures
        walk(lines.take(k), true).active,
    decreases k,
{
    if k == 0 {
        assert(lines.take(0) =~= Seq::<Seq<char>>::empty());
    } else {
        lemma_active_without_boundary(lines, k - 1);
        lemma_walk_take_step(lines, k - 1, true);
    }
}

proof fn lemma_summary_untouched(lines: Seq<Seq<char>>, j: int, m: int, active: bool)
    requires
        0 <= j <= m <= lines.len(),
        forall|q: int| j <= q < m ==> line_kind(lines[q]) != LineKind::Update,
    ensures
        walk(lines.take(m), active).summary == walk(lines.take(j), active).summary,
    decreases m - j,
{
    if m > j {
        lemma_summary_untouched(lines, j, m - 1, active);
        lemma_walk_take_step(lines, m - 1, active);
    }
}

/// With two announcement lines before any security-fix boundary, and none
/// after the second, the summary comes from the second one.
pub proof fn lemma_last_update_wins(lines: Seq<Seq<char>>, i: int, j: int)
    requires
        0 <= i < j < lines.len(),
        line_kind(lines[i]) == LineKind::Update,
        line_kind(lines[j]) == LineKind::Update,
        forall|k: int| 0 <= k < j ==> line_kind(lines[k]) != LineKind::SecurityBoundary,
        forall|k: int| j < k < lines.len() ==> line_kind(lines[k]) != LineKind::Update,
    ensures
        walk(lines, true).summary == summary_of_line(lines[j]),
{
    lemma_active_without_boundary(lines, j);
    lemma_walk_take_step(lines, j, true);
    lemma_summary_untouched(lines, j + 1, lines.len() as int, true);
    assert(lines.take(lines.len() as int) =~= lines);
}

proof fn lemma_walk_inactive_is_identity(lines: Seq<Seq<char>>)
    ensures
        walk(lines, false).out == lines,
        walk(lines, false).summary.len() == 0,
        !walk(lines, false).active,
    decreases lines.len(),
{
    if lines.len() > 0 {
        lemma_walk_inactive_is_identity(lines.drop_last());
        assert(lines.drop_last().push(lines.last()) =~= lines);
    }
}

/// With filtering disabled the body is the rendered text unchanged and there
/// is no summary.
pub proof fn lemma_unfiltered_is_identity(text: Seq<char>)
    ensures
        join_lines(filter_result(split_lines(text), false).out) == text,
        filter_result(split_lines(text), false).summary.len() == 0,
{
    lemma_walk_inactive_is_identity(split_lines(text));
    crate::text::lemma_join_split(text);
}

} // verus!
