//! Grouped hunks derived from two complete texts.
use vstd::prelude::*;
use crate::content::strip_cr;
use crate::model::{
    Hunk, HunkView, PatchLine, PatchLineKind, PatchLineView, hunk_views, line_views,
};
use crate::text::{chars_of, decimal, push_all, push_decimal, string_from_chars};

verus! {

/// What `similar`'s line diff of `old` and `new` yields, change by change:
/// a tag (0 equal, 1 delete, 2 insert) and the line's text with its ending.
pub uninterp spec fn line_changes(old: Seq<char>, new: Seq<char>) -> Seq<(u8, Seq<char>)>;

/// The text spelled, in order, by the changes whose tag is `a` or `b`.
pub open spec fn replayed(cs: Seq<(u8, Seq<char>)>, a: u8, b: u8) -> Seq<char>
    decreases cs.len(),
{
    if cs.len() == 0 {
        Seq::<char>::empty()
    } else {
        replayed(cs.drop_last(), a, b) + if cs.last().0 == a || cs.last().0 == b {
            cs.last().1
        } else {
            Seq::<char>::empty()
        }
    }
}

/// The tags and texts of a list of changes.
pub open spec fn change_views(v: Seq<(u8, String)>) -> Seq<(u8, Seq<char>)> {
    v.map_values(|c: (u8, String)| (c.0, c.1@))
}

/// What a line diff of `old` and `new` owes: its equal and deleted lines
/// spell the old text, its equal and inserted lines spell the new one, every
/// tag is one of the three, and equal texts give equal lines only.
pub open spec fn replays(cs: Seq<(u8, Seq<char>)>, old: Seq<char>, new: Seq<char>) -> bool {
    &&& replayed(cs, 0, 1) == old
    &&& replayed(cs, 0, 2) == new
    &&& forall|i: int| 0 <= i < cs.len() ==> #[trigger] cs[i].0 <= 2
    &&& old == new ==> forall|i: int| 0 <= i < cs.len() ==> #[trigger] cs[i].0 == 0
}

/// `similar::TextDiff::from_lines(old, new).iter_all_changes()`, each change
/// converted to its tag and its text. The changes are a function of the two
/// texts alone. The texts are split into lines that keep their endings, and
/// the changes walk both line lists in order, so the equal and deleted lines
/// spell `old` and the equal and inserted lines spell `new`. For equal texts
/// the differ strips the whole common prefix first, so every change is equal.
#[verifier::external_body]
pub fn diff_lines(old: &str, new: &str) -> (res: Vec<(u8, String)>)
    ensures
        res@.len() == line_changes(old@, new@).len(),
        forall|i: int|
            0 <= i < res@.len() ==> {
                &&& (#[trigger] res@[i]).0 == line_changes(old@, new@)[i].0
                &&& res@[i].1@ == line_changes(old@, new@)[i].1
                &&& res@[i].0 <= 2
            },
        replays(change_views(res@), old@, new@),
{
    similar::TextDiff::from_lines(old, new).iter_all_changes().map(
        |change| {
            let tag: u8 = match change.tag() {
                similar::ChangeTag::Equal => 0,
                similar::ChangeTag::Delete => 1,
                similar::ChangeTag::Insert => 2,
            };
            (tag, change.value().to_owned())
        },
    ).collect()
}

/// A line without its `\n`, and then without a `\r` that preceded it.
pub open spec fn strip_eol(s: Seq<char>) -> Seq<char> {
    if s.len() > 0 && s.last() == '\n' {
        strip_cr(s.drop_last())
    } else {
        s
    }
}

/// How many changes consume an old line (equal or delete).
pub open spec fn old_taken(cs: Seq<(u8, Seq<char>)>) -> nat
    decreases cs.len(),
{
    if cs.len() == 0 {
        0
    } else {
        old_taken(cs.drop_last()) + if cs.last().0 == 0 || cs.last().0 == 1 {
            1nat
        } else {
            0nat
        }
    }
}

/// How many changes consume a new line (equal or insert).
pub open spec fn new_taken(cs: Seq<(u8, Seq<char>)>) -> nat
    decreases cs.len(),
{
    if cs.len() == 0 {
        0
    } else {
        new_taken(cs.drop_last()) + if cs.last().0 == 0 || cs.last().0 == 2 {
            1nat
        } else {
            0nat
        }
    }
}

pub proof fn lemma_taken_bounded(cs: Seq<(u8, Seq<char>)>)
    ensures
        old_taken(cs) <= cs.len(),
        new_taken(cs) <= cs.len(),
    decreases cs.len(),
{
    if cs.len() > 0 {
        lemma_taken_bounded(cs.drop_last());
    }
}

/// The patch line for change `i`, numbered by how many old and new lines
/// the changes up to and including it consume.
pub open spec fn numbered_line(cs: Seq<(u8, Seq<char>)>, i: int) -> PatchLineView {
    let text = strip_eol(cs[i].1);
    let o = old_taken(cs.take(i + 1)) as usize;
    let n = new_taken(cs.take(i + 1)) as usize;
    if cs[i].0 == 0 {
        PatchLineView {
            kind: PatchLineKind::Context,
            text,
            old_line_no: Some(o),
            new_line_no: Some(n),
            no_newline: false,
        }
    } else if cs[i].0 == 1 {
        PatchLineView {
            kind: PatchLineKind::Removed,
            text,
            old_line_no: Some(o),
            new_line_no: None,
            no_newline: false,
        }
    } else {
        PatchLineView {
            kind: PatchLineKind::Added,
            text,
            old_line_no: None,
            new_line_no: Some(n),
            no_newline: false,
        }
    }
}

/// Every change as a numbered patch line.
pub open spec fn numbered_lines(cs: Seq<(u8, Seq<char>)>) -> Seq<PatchLineView> {
    Seq::new(cs.len(), |i: int| numbered_line(cs, i))
}

/// Adds the window `[idx - context, idx + context + 1)`, clamped to
/// `[0, len)`, merging it into the last range when they touch or overlap.
pub open spec fn merge_window(ranges: Seq<(int, int)>, idx: int, len: int, context: int) -> Seq<
    (int, int),
> {
    let start = if idx >= context {
        idx - context
    } else {
        0
    };
    let end = if idx + context + 1 <= len {
        idx + context + 1
    } else {
        len
    };
    if ranges.len() > 0 && start <= ranges.last().1 {
        ranges.update(
            ranges.len() - 1,
            (
                ranges.last().0,
                if ranges.last().1 >= end {
                    ranges.last().1
                } else {
                    end
                },
            ),
        )
    } else {
        ranges.push((start, end))
    }
}

/// The line ranges of the hunks among the first `k` lines: every changed line
/// with `context` lines around it, overlapping or touching windows merged.
pub open spec fn group_ranges(lines: Seq<PatchLineView>, k: int, context: int) -> Seq<(int, int)>
    decreases k,
{
    if k <= 0 {
        Seq::<(int, int)>::empty()
    } else {
        let r = group_ranges(lines, k - 1, context);
        if lines[k - 1].kind != PatchLineKind::Context {
            merge_window(r, k - 1, lines.len() as int, context)
        } else {
            r
        }
    }
}

/// The first old-side number in `ls`, or zero.
pub open spec fn first_old(ls: Seq<PatchLineView>) -> usize
    decreases ls.len(),
{
    if ls.len() == 0 {
        0
    } else {
        match ls[0].old_line_no {
            Some(n) => n,
            None => first_old(ls.skip(1)),
        }
    }
}

/// The first new-side number in `ls`, or zero.
pub open spec fn first_new(ls: Seq<PatchLineView>) -> usize
    decreases ls.len(),
{
    if ls.len() == 0 {
        0
    } else {
        match ls[0].new_line_no {
            Some(n) => n,
            None => first_new(ls.skip(1)),
        }
    }
}

/// How many lines of `ls` have an old-side number.
pub open spec fn count_old(ls: Seq<PatchLineView>) -> nat
    decreases ls.len(),
{
    if ls.len() == 0 {
        0
    } else {
        count_old(ls.drop_last()) + if ls.last().old_line_no is Some {
            1nat
        } else {
            0nat
        }
    }
}

/// How many lines of `ls` have a new-side number.
pub open spec fn count_new(ls: Seq<PatchLineView>) -> nat
    decreases ls.len(),
{
    if ls.len() == 0 {
        0
    } else {
        count_new(ls.drop_last()) + if ls.last().new_line_no is Some {
            1nat
        } else {
            0nat
        }
    }
}

pub proof fn lemma_counts_bounded(ls: Seq<PatchLineView>)
    ensures
        count_old(ls) <= ls.len(),
        count_new(ls) <= ls.len(),
    decreases ls.len(),
{
    if ls.len() > 0 {
        lemma_counts_bounded(ls.drop_last());
    }
}

/// The `@@ -a,b +c,d @@` header of a derived hunk.
pub open spec fn range_header(old_start: nat, old_count: nat, new_start: nat, new_count: nat) -> Seq<
    char,
> {
    "@@ -"@ + decimal(old_start) + ","@ + decimal(old_count) + " +"@ + decimal(new_start) + ","@
        + decimal(new_count) + " @@"@
}

/// The hunk holding exactly `ls`, its ranges taken from their numbers.
pub open spec fn whole_hunk(ls: Seq<PatchLineView>) -> HunkView {
    HunkView {
        header: range_header(
            first_old(ls) as nat,
            count_old(ls),
            first_new(ls) as nat,
            count_new(ls),
        ),
        function_context: None,
        old_start: first_old(ls),
        old_count: count_old(ls) as usize,
        new_start: first_new(ls),
        new_count: count_new(ls) as usize,
        lines: ls,
    }
}

/// `ls` with its last line of `kind` marked as lacking a final newline.
pub open spec fn mark_last(ls: Seq<PatchLineView>, kind: PatchLineKind) -> Seq<PatchLineView>
    decreases ls.len(),
{
    if ls.len() == 0 {
        ls
    } else if ls.last().kind == kind {
        ls.drop_last().push(PatchLineView { no_newline: true, ..ls.last() })
    } else {
        mark_last(ls.drop_last(), kind).push(ls.last())
    }
}

/// Whether a complete text is nonempty and lacks a final newline.
pub open spec fn incomplete_final_line(t: Seq<char>) -> bool {
    t.len() > 0 && t.last() != '\n'
}

/// The hunks with the final-newline markers applied to the last one: its last
/// added line when the new text is incomplete, its last removed line when the
/// old text is.
pub open spec fn mark_final(hunks: Seq<HunkView>, old: Seq<char>, new: Seq<char>) -> Seq<HunkView> {
    if hunks.len() == 0 {
        hunks
    } else {
        let h = hunks.last();
        let l1 = if incomplete_final_line(new) {
            mark_last(h.lines, PatchLineKind::Added)
        } else {
            h.lines
        };
        let l2 = if incomplete_final_line(old) {
            mark_last(l1, PatchLineKind::Removed)
        } else {
            l1
        };
        hunks.update(hunks.len() - 1, HunkView { lines: l2, ..h })
    }
}

/// Whether any line is an addition or a removal.
pub open spec fn has_change(lines: Seq<PatchLineView>) -> bool {
    exists|i: int|
        0 <= i < lines.len() && (lines[i].kind == PatchLineKind::Added || lines[i].kind
            == PatchLineKind::Removed)
}

/// The hunks derived from two complete texts, three lines of context around
/// each change.
pub open spec fn derived_hunks(old: Seq<char>, new: Seq<char>) -> Seq<HunkView> {
    hunks_of_changes(line_changes(old, new), old, new)
}

/// The hunks that a list of line changes between two texts groups into:
/// the changes numbered as patch lines, every changed line with three lines
/// of context around it, overlapping windows merged, and the final-newline
/// markers of the texts applied to the last hunk.
pub open spec fn hunks_of_changes(cs: Seq<(u8, Seq<char>)>, old: Seq<char>, new: Seq<char>) -> Seq<
    HunkView,
> {
    let lines = numbered_lines(cs);
    let grouped = if has_change(lines) {
        group_ranges(lines, lines.len() as int, 3).map_values(
            |r: (int, int)| whole_hunk(lines.subrange(r.0, r.1)),
        )
    } else {
        Seq::<HunkView>::empty()
    };
    mark_final(grouped, old, new)
}

fn strip_line_ending(value: &String) -> (res: String)
    ensures
        res@ == strip_eol(value@),
{
    let mut chars = chars_of(value.as_str());
    if chars.len() > 0 && chars[chars.len() - 1] == '\n' {
        chars.pop();
        if chars.len() > 0 && chars[chars.len() - 1] == '\r' {
            chars.pop();
        }
    }
    string_from_chars(&chars)
}

fn number_changes(changes: &Vec<(u8, String)>, Ghost(cs): Ghost<Seq<(u8, Seq<char>)>>) -> (res: Vec<
    PatchLine,
>)
    requires
        changes@.len() == cs.len(),
        forall|i: int|
            0 <= i < changes@.len() ==> {
                &&& (#[trigger] changes@[i]).0 == cs[i].0
                &&& changes@[i].1@ == cs[i].1
                &&& changes@[i].0 <= 2
            },
    ensures
        line_views(res@) == numbered_lines(cs),
{
    let mut lines: Vec<PatchLine> = Vec::new();
    let mut old_line: usize = 0;
    let mut new_line: usize = 0;
    let mut i: usize = 0;
    while i < changes.len()
        invariant
            i <= changes@.len(),
            changes@.len() == cs.len(),
            forall|k: int|
                0 <= k < changes@.len() ==> {
                    &&& (#[trigger] changes@[k]).0 == cs[k].0
                    &&& changes@[k].1@ == cs[k].1
                    &&& changes@[k].0 <= 2
                },
            old_line == old_taken(cs.take(i as int)),
            new_line == new_taken(cs.take(i as int)),
            lines@.len() == i,
            forall|k: int| 0 <= k < i ==> #[trigger] lines@[k]@ == numbered_line(cs, k),
        decreases changes@.len() - i,
    {
        proof {
            assert(cs.take(i + 1).drop_last() =~= cs.take(i as int));
            lemma_taken_bounded(cs.take(i as int));
        }
        let tag = changes[i].0;
        let text = strip_line_ending(&changes[i].1);
        if tag == 0 {
            old_line = old_line + 1;
            new_line = new_line + 1;
            lines.push(PatchLine::context(text, old_line, new_line));
        } else if tag == 1 {
            old_line = old_line + 1;
            lines.push(PatchLine::removed(text, old_line));
        } else {
            new_line = new_line + 1;
            lines.push(PatchLine::added(text, new_line));
        }
        i = i + 1;
    }
    proof {
        assert(line_views(lines@) =~= numbered_lines(cs));
    }
    lines
}

fn first_old_exec(ls: &Vec<PatchLine>) -> (res: usize)
    ensures
        res == first_old(line_views(ls@)),
{
    let ghost v = line_views(ls@);
    let mut i: usize = 0;
    proof {
        assert(v.skip(0) =~= v);
    }
    while i < ls.len()
        invariant
            i <= ls@.len(),
            v == line_views(ls@),
            first_old(v) == first_old(v.skip(i as int)),
        decreases ls@.len() - i,
    {
        proof {
            assert(v.skip(i as int)[0] == ls@[i as int]@);
            assert(v.skip(i as int).skip(1) =~= v.skip(i + 1));
        }
        match ls[i].old_line_no {
            Some(n) => {
                return n;
            },
            None => {},
        }
        i = i + 1;
    }
    0
}

fn first_new_exec(ls: &Vec<PatchLine>) -> (res: usize)
    ensures
        res == first_new(line_views(ls@)),
{
    let ghost v = line_views(ls@);
    let mut i: usize = 0;
    proof {
        assert(v.skip(0) =~= v);
    }
    while i < ls.len()
        invariant
            i <= ls@.len(),
            v == line_views(ls@),
            first_new(v) == first_new(v.skip(i as int)),
        decreases ls@.len() - i,
    {
        proof {
            assert(v.skip(i as int)[0] == ls@[i as int]@);
            assert(v.skip(i as int).skip(1) =~= v.skip(i + 1));
        }
        match ls[i].new_line_no {
            Some(n) => {
                return n;
            },
            None => {},
        }
        i = i + 1;
    }
    0
}

fn count_sides(ls: &Vec<PatchLine>) -> (res: (usize, usize))
    ensures
        res.0 == count_old(line_views(ls@)),
        res.1 == count_new(line_views(ls@)),
{
    let ghost v = line_views(ls@);
    let mut olds: usize = 0;
    let mut news: usize = 0;
    let mut i: usize = 0;
    while i < ls.len()
        invariant
            i <= ls@.len(),
            v == line_views(ls@),
            olds == count_old(v.take(i as int)),
            news == count_new(v.take(i as int)),
        decreases ls@.len() - i,
    {
        proof {
            assert(v.take(i + 1).drop_last() =~= v.take(i as int));
            lemma_counts_bounded(v.take(i as int));
        }
        if ls[i].old_line_no.is_some() {
            olds = olds + 1;
        }
        if ls[i].new_line_no.is_some() {
            news = news + 1;
        }
        i = i + 1;
    }
    proof {
        assert(v.take(i as int) =~= v);
    }
    (olds, news)
}

/// The header text `@@ -a,b +c,d @@`.
pub fn format_range_header(old_start: usize, old_count: usize, new_start: usize, new_count: usize) -> (res: String)
    ensures
        res@ == range_header(old_start as nat, old_count as nat, new_start as nat, new_count as nat),
{
    let mut out = chars_of("@@ -");
    push_decimal(&mut out, old_start as u64);
    let comma = chars_of(",");
    push_all(&mut out, &comma);
    push_decimal(&mut out, old_count as u64);
    let plus = chars_of(" +");
    push_all(&mut out, &plus);
    push_decimal(&mut out, new_start as u64);
    push_all(&mut out, &comma);
    push_decimal(&mut out, new_count as u64);
    let close = chars_of(" @@");
    push_all(&mut out, &close);
    string_from_chars(&out)
}

fn whole_file_hunk(lines: Vec<PatchLine>) -> (res: Hunk)
    ensures
        res@ == whole_hunk(line_views(lines@)),
{
    let old_start = first_old_exec(&lines);
    let new_start = first_new_exec(&lines);
    let (old_count, new_count) = count_sides(&lines);
    let header = format_range_header(old_start, old_count, new_start, new_count);
    Hunk {
        header,
        function_context: None,
        old_start,
        old_count,
        new_start,
        new_count,
        lines,
    }
}

pub proof fn lemma_mark_last_at(ls: Seq<PatchLineView>, kind: PatchLineKind, j: int)
    requires
        0 <= j < ls.len(),
        ls[j].kind == kind,
        forall|k: int| j < k < ls.len() ==> ls[k].kind != kind,
    ensures
        mark_last(ls, kind) == ls.update(j, PatchLineView { no_newline: true, ..ls[j] }),
    decreases ls.len(),
{
    if j == ls.len() - 1 {
        assert(mark_last(ls, kind) =~= ls.update(j, PatchLineView { no_newline: true, ..ls[j] }));
    } else {
        lemma_mark_last_at(ls.drop_last(), kind, j);
        assert(mark_last(ls, kind) =~= ls.update(j, PatchLineView { no_newline: true, ..ls[j] }));
    }
}

pub proof fn lemma_mark_last_none(ls: Seq<PatchLineView>, kind: PatchLineKind)
    requires
        forall|k: int| 0 <= k < ls.len() ==> ls[k].kind != kind,
    ensures
        mark_last(ls, kind) == ls,
    decreases ls.len(),
{
    if ls.len() > 0 {
        lemma_mark_last_none(ls.drop_last(), kind);
        assert(mark_last(ls, kind) =~= ls);
    }
}

/// Marks the last line of `kind` as lacking a final newline.
pub fn mark_last_incomplete(lines: &mut Vec<PatchLine>, kind: PatchLineKind)
    ensures
        line_views(final(lines)@) == mark_last(line_views(old(lines)@), kind),
{
    let ghost v = line_views(lines@);
    let mut j: usize = lines.len();
    while j > 0
        invariant
            j <= lines@.len(),
            v == line_views(lines@),
            v == line_views(old(lines)@),
            forall|k: int| j <= k < lines@.len() ==> lines@[k].kind != kind,
        decreases j,
    {
        if lines[j - 1].kind == kind {
            let marked = lines[j - 1].duplicate().without_newline();
            proof {
                lemma_mark_last_at(v, kind, j - 1);
            }
            lines.set(j - 1, marked);
            proof {
                assert(line_views(lines@) =~= v.update(
                    j - 1,
                    PatchLineView { no_newline: true, ..v[j - 1] },
                ));
            }
            return;
        }
        j = j - 1;
    }
    proof {
        lemma_mark_last_none(v, kind);
    }
}

fn copy_lines(lines: &Vec<PatchLine>, start: usize, end: usize) -> (res: Vec<PatchLine>)
    requires
        start <= end <= lines@.len(),
    ensures
        line_views(res@) == line_views(lines@).subrange(start as int, end as int),
{
    let mut out: Vec<PatchLine> = Vec::new();
    let mut i = start;
    while i < end
        invariant
            start <= i <= end,
            end <= lines@.len(),
            out@.len() == i - start,
            forall|k: int| 0 <= k < out@.len() ==> #[trigger] out@[k]@ == lines@[start + k]@,
        decreases end - i,
    {
        out.push(lines[i].duplicate());
        i = i + 1;
    }
    proof {
        assert(line_views(out@) =~= line_views(lines@).subrange(start as int, end as int));
    }
    out
}

pub proof fn lemma_merge_window_bounds(ranges: Seq<(int, int)>, idx: int, len: int, context: int)
    requires
        0 <= idx < len,
        context >= 0,
        forall|k: int| 0 <= k < ranges.len() ==> 0 <= (#[trigger] ranges[k]).0 < ranges[k].1 <= len,
    ensures
        forall|k: int|
            0 <= k < merge_window(ranges, idx, len, context).len() ==> 0 <= (
            #[trigger] merge_window(ranges, idx, len, context)[k]).0 < merge_window(
                ranges,
                idx,
                len,
                context,
            )[k].1 <= len,
{
}

pub proof fn lemma_group_ranges_bounds(lines: Seq<PatchLineView>, k: int, context: int)
    requires
        0 <= k <= lines.len(),
        context >= 0,
    ensures
        forall|j: int|
            0 <= j < group_ranges(lines, k, context).len() ==> 0 <= (#[trigger] group_ranges(
                lines,
                k,
                context,
            )[j]).0 < group_ranges(lines, k, context)[j].1 <= lines.len(),
    decreases k,
{
    if k > 0 {
        lemma_group_ranges_bounds(lines, k - 1, context);
        if lines[k - 1].kind != PatchLineKind::Context {
            lemma_merge_window_bounds(
                group_ranges(lines, k - 1, context),
                k - 1,
                lines.len() as int,
                context,
            );
        }
    }
}

fn grouped_hunks(lines: &Vec<PatchLine>) -> (res: Vec<Hunk>)
    ensures
        hunk_views(res@) == group_ranges(line_views(lines@), lines@.len() as int, 3).map_values(
            |r: (int, int)| whole_hunk(line_views(lines@).subrange(r.0, r.1)),
        ),
{
    let ghost v = line_views(lines@);
    let mut ranges: Vec<(usize, usize)> = Vec::new();
    let mut i: usize = 0;
    while i < lines.len()
        invariant
            i <= lines@.len(),
            v == line_views(lines@),
            ranges@.len() == group_ranges(v, i as int, 3).len(),
            forall|k: int|
                0 <= k < ranges@.len() ==> (#[trigger] ranges@[k]).0 == group_ranges(v, i as int, 3)[k].0
                    && ranges@[k].1 == group_ranges(v, i as int, 3)[k].1,
            forall|k: int| 0 <= k < ranges@.len() ==> 0 <= (#[trigger] ranges@[k]).0 < ranges@[k].1 <= lines@.len(),
        decreases lines@.len() - i,
    {
        proof {
            lemma_group_ranges_bounds(v, i as int, 3);
        }
        if lines[i].kind != PatchLineKind::Context {
            let start = if i >= 3 {
                i - 3
            } else {
                0
            };
            let end = if lines.len() - i >= 4 {
                i + 4
            } else {
                lines.len()
            };
            let n = ranges.len();
            if n > 0 && start <= ranges[n - 1].1 {
                let (s0, e0) = ranges[n - 1];
                let e1 = if e0 >= end {
                    e0
                } else {
                    end
                };
                ranges.set(n - 1, (s0, e1));
            } else {
                ranges.push((start, end));
            }
        }
        i = i + 1;
        proof {
            lemma_group_ranges_bounds(v, i as int, 3);
            assert(forall|k: int| 0 <= k < ranges@.len() ==> (#[trigger] ranges@[k]).0 == group_ranges(v, i as int, 3)[k].0
                    && ranges@[k].1 == group_ranges(v, i as int, 3)[k].1);
        }
    }
    let ghost gr = group_ranges(v, lines@.len() as int, 3);
    let mut hunks: Vec<Hunk> = Vec::new();
    let mut r: usize = 0;
    while r < ranges.len()
        invariant
            r <= ranges@.len(),
            v == line_views(lines@),
            gr == group_ranges(v, lines@.len() as int, 3),
            ranges@.len() == gr.len(),
            forall|k: int|
                0 <= k < ranges@.len() ==> (#[trigger] ranges@[k]).0 == gr[k].0 && ranges@[k].1 == gr[k].1,
            forall|k: int| 0 <= k < ranges@.len() ==> 0 <= (#[trigger] ranges@[k]).0 < ranges@[k].1 <= lines@.len(),
            hunks@.len() == r,
            forall|k: int| 0 <= k < r ==> #[trigger] hunks@[k]@ == whole_hunk(v.subrange(gr[k].0, gr[k].1)),
        decreases ranges@.len() - r,
    {
        let (start, end) = ranges[r];
        let slice = copy_lines(lines, start, end);
        hunks.push(whole_file_hunk(slice));
        r = r + 1;
    }
    proof {
        assert(hunk_views(hunks@) =~= gr.map_values(|q: (int, int)| whole_hunk(v.subrange(q.0, q.1))));
    }
    hunks
}

fn any_change(lines: &Vec<PatchLine>) -> (res: bool)
    ensures
        res == has_change(line_views(lines@)),
{
    let mut i: usize = 0;
    while i < lines.len()
        invariant
            i <= lines@.len(),
            forall|k: int| 0 <= k < i ==> lines@[k].kind != PatchLineKind::Added && lines@[k].kind != PatchLineKind::Removed,
        decreases lines@.len() - i,
    {
        if lines[i].kind == PatchLineKind::Added || lines[i].kind == PatchLineKind::Removed {
            proof {
                assert(line_views(lines@)[i as int].kind == lines@[i as int].kind);
            }
            return true;
        }
        i = i + 1;
    }
    proof {
        assert forall|k: int| 0 <= k < line_views(lines@).len() implies !(line_views(lines@)[k].kind == PatchLineKind::Added || line_views(lines@)[k].kind == PatchLineKind::Removed) by {
            assert(line_views(lines@)[k].kind == lines@[k].kind);
        }
    }
    false
}

fn text_incomplete(text: &str) -> (res: bool)
    ensures
        res == incomplete_final_line(text@),
{
    let chars = chars_of(text);
    chars.len() > 0 && chars[chars.len() - 1] != '\n'
}

/// Groups line changes between two texts into hunks with three lines of
/// context, and says whether either text lacks a final newline. Each change
/// is a tag (0 equal, 1 delete, 2 insert) and its line with its ending.
pub fn patch_from_changes(changes: &Vec<(u8, String)>, old: &str, new: &str) -> (res: (Vec<Hunk>, bool))
    requires
        forall|i: int| 0 <= i < changes@.len() ==> #[trigger] changes@[i].0 <= 2,
    ensures
        hunk_views(res.0@) == hunks_of_changes(change_views(changes@), old@, new@),
        res.1 == (incomplete_final_line(old@) || incomplete_final_line(new@)),
        replays(change_views(changes@), old@, new@) ==> (res.0@.len() == 0 <==> old@ == new@),
{
    proof {
        if replays(change_views(changes@), old@, new@) {
            lemma_no_hunks_iff_equal(change_views(changes@), old@, new@);
        }
    }
    let lines = number_changes(changes, Ghost(change_views(changes@)));
    let changed = any_change(&lines);
    let mut hunks = if changed {
        grouped_hunks(&lines)
    } else {
        Vec::new()
    };
    let ghost grouped = hunk_views(hunks@);
    let old_incomplete = text_incomplete(old);
    let new_incomplete = text_incomplete(new);
    let n = hunks.len();
    if n > 0 {
        let mut last = hunks.pop().unwrap();
        let ghost h = last@;
        if new_incomplete {
            mark_last_incomplete(&mut last.lines, PatchLineKind::Added);
        }
        let ghost l1 = line_views(last.lines@);
        if old_incomplete {
            mark_last_incomplete(&mut last.lines, PatchLineKind::Removed);
        }
        proof {
            assert(last@ == HunkView { lines: line_views(last.lines@), ..h });
        }
        hunks.push(last);
        proof {
            assert(hunk_views(hunks@) =~= mark_final(grouped, old@, new@));
        }
    } else {
        proof {
            assert(hunk_views(hunks@) =~= mark_final(grouped, old@, new@));
        }
    }
    (hunks, old_incomplete || new_incomplete)
}

/// Derives grouped hunks, with three lines of context, and the
/// incomplete-final-line flag from two complete texts.
pub fn derive_patch(old: &str, new: &str) -> (res: (Vec<Hunk>, bool))
    ensures
        hunk_views(res.0@) == derived_hunks(old@, new@),
        res.1 == (incomplete_final_line(old@) || incomplete_final_line(new@)),
        res.0@.len() == 0 <==> old@ == new@,
{
    let changes = diff_lines(old, new);
    proof {
        assert(change_views(changes@) =~= line_changes(old@, new@));
        lemma_no_hunks_iff_equal(line_changes(old@, new@), old@, new@);
    }
    patch_from_changes(&changes, old, new)
}

/// When every change is an equal line, the changes spell the same text on
/// both sides.
proof fn lemma_all_equal_replays_same(cs: Seq<(u8, Seq<char>)>)
    requires
        forall|i: int| 0 <= i < cs.len() ==> #[trigger] cs[i].0 == 0,
    ensures
        replayed(cs, 0, 1) == replayed(cs, 0, 2),
    decreases cs.len(),
{
    if cs.len() > 0 {
        lemma_all_equal_replays_same(cs.drop_last());
    }
}

/// A changed line among the first `k` lines opens at least one hunk range.
proof fn lemma_group_ranges_nonempty(lines: Seq<PatchLineView>, k: int, context: int, j: int)
    requires
        0 <= j < k <= lines.len(),
        lines[j].kind != PatchLineKind::Context,
    ensures
        group_ranges(lines, k, context).len() > 0,
    decreases k,
{
    if lines[k - 1].kind == PatchLineKind::Context {
        lemma_group_ranges_nonempty(lines, k - 1, context, j);
    }
}

/// A patch derived from two texts has no hunk exactly when the texts are
/// equal, for every list of line changes that replays both texts.
pub proof fn lemma_no_hunks_iff_equal(cs: Seq<(u8, Seq<char>)>, old: Seq<char>, new: Seq<char>)
    requires
        replays(cs, old, new),
    ensures
        hunks_of_changes(cs, old, new).len() == 0 <==> old == new,
{
    let lines = numbered_lines(cs);
    if old == new {
        assert(!has_change(lines)) by {
            if has_change(lines) {
                let i = choose|i: int|
                    0 <= i < lines.len() && (lines[i].kind == PatchLineKind::Added || lines[i].kind
                        == PatchLineKind::Removed);
                assert(cs[i].0 == 0);
                assert(lines[i] == numbered_line(cs, i));
            }
        }
    } else {
        let i = choose|i: int| 0 <= i < cs.len() && cs[i].0 != 0;
        assert(exists|i: int| 0 <= i < cs.len() && cs[i].0 != 0) by {
            if !(exists|i: int| 0 <= i < cs.len() && cs[i].0 != 0) {
                assert forall|i: int| 0 <= i < cs.len() implies #[trigger] cs[i].0 == 0 by {}
                lemma_all_equal_replays_same(cs);
            }
        }
        assert(lines[i] == numbered_line(cs, i));
        assert(cs[i].0 <= 2);
        assert(lines[i].kind == PatchLineKind::Added || lines[i].kind == PatchLineKind::Removed);
        assert(has_change(lines));
        lemma_group_ranges_nonempty(lines, lines.len() as int, 3, i);
    }
}

/// Marking the last line of a kind changes no kind, and marks nothing but a
/// line of that kind.
proof fn lemma_mark_last_only_kind(ls: Seq<PatchLineView>, kind: PatchLineKind)
    ensures
        mark_last(ls, kind).len() == ls.len(),
        forall|k: int|
            0 <= k < ls.len() ==> (#[trigger] mark_last(ls, kind)[k]).kind == ls[k].kind
                && mark_last(ls, kind)[k].text == ls[k].text,
        forall|k: int|
            0 <= k < ls.len() && (#[trigger] mark_last(ls, kind)[k]).no_newline ==> ls[k].no_newline
                || ls[k].kind == kind,
    decreases ls.len(),
{
    if ls.len() > 0 && ls.last().kind != kind {
        lemma_mark_last_only_kind(ls.drop_last(), kind);
        let r = mark_last(ls, kind);
        assert forall|k: int| 0 <= k < ls.len() implies (#[trigger] r[k]).kind == ls[k].kind && r[k].text
            == ls[k].text && (r[k].no_newline ==> ls[k].no_newline || ls[k].kind == kind) by {
            if k < ls.len() - 1 {
                assert(r[k] == mark_last(ls.drop_last(), kind)[k]);
                assert(ls[k] == ls.drop_last()[k]);
            }
        }
    }
}

/// A derived line is marked as lacking a final newline only where its side's
/// text lacks one: an added line only when the new text is incomplete, a
/// removed line only when the old text is, and never an unchanged line.
pub proof fn lemma_no_newline_marks(cs: Seq<(u8, Seq<char>)>, old: Seq<char>, new: Seq<char>)
    ensures
        forall|h: int, k: int|
            0 <= h < hunks_of_changes(cs, old, new).len() && 0 <= k < hunks_of_changes(
                cs,
                old,
                new,
            )[h].lines.len() && (#[trigger] hunks_of_changes(cs, old, new)[h].lines[k]).no_newline ==> {
                let l = hunks_of_changes(cs, old, new)[h].lines[k];
                ||| l.kind == PatchLineKind::Added && incomplete_final_line(new)
                ||| l.kind == PatchLineKind::Removed && incomplete_final_line(old)
            },
{
    let lines = numbered_lines(cs);
    let grouped = if has_change(lines) {
        group_ranges(lines, lines.len() as int, 3).map_values(
            |r: (int, int)| whole_hunk(lines.subrange(r.0, r.1)),
        )
    } else {
        Seq::<HunkView>::empty()
    };
    lemma_group_ranges_bounds(lines, lines.len() as int, 3);
    assert forall|h: int, k: int| 0 <= h < grouped.len() && 0 <= k < grouped[h].lines.len() implies
        !(#[trigger] grouped[h].lines[k]).no_newline by {
        let r = group_ranges(lines, lines.len() as int, 3)[h];
        assert(grouped[h].lines == lines.subrange(r.0, r.1));
        assert(grouped[h].lines[k] == lines[r.0 + k]);
        assert(lines[r.0 + k] == numbered_line(cs, r.0 + k));
    }
    let hunks = hunks_of_changes(cs, old, new);
    assert(hunks == mark_final(grouped, old, new));
    if grouped.len() > 0 {
        let last = grouped.last();
        lemma_mark_last_only_kind(last.lines, PatchLineKind::Added);
        let l1 = if incomplete_final_line(new) {
            mark_last(last.lines, PatchLineKind::Added)
        } else {
            last.lines
        };
        lemma_mark_last_only_kind(l1, PatchLineKind::Removed);
        assert forall|h: int, k: int|
            0 <= h < hunks.len() && 0 <= k < hunks[h].lines.len() && (#[trigger] hunks[h].lines[k]).no_newline
                implies {
                let l = hunks[h].lines[k];
                ||| l.kind == PatchLineKind::Added && incomplete_final_line(new)
                ||| l.kind == PatchLineKind::Removed && incomplete_final_line(old)
            } by {
            if h < grouped.len() - 1 {
                assert(hunks[h] == grouped[h]);
            } else {
                assert(!last.lines[k].no_newline);
                assert(last == grouped[grouped.len() - 1]);
            }
        }
    }
}

} // verus!
