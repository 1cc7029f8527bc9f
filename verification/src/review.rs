//! Structured review comments, reconciliation, and agent-facing output.
use vstd::prelude::*;
use crate::anchor::{anchor_at, content_fingerprint_for, LineAnchor, LineAnchorView};
use crate::file_diff::{DiffDocument, FileDiff};
use crate::fingerprint::Fingerprint;
use crate::model::{hunk_views, kind_sides, DiffSide, FileStatus, HunkView, PatchLineKind, PatchLineView};
use crate::repo_path::RepoPath;
use crate::markdown_review::lemma_chars_lt_order;
use crate::text::{chars_of, decimal, push_all, push_decimal, string_from_chars};

verus! {

/// The captured source context for a comment.
#[derive(Debug, PartialEq, Eq)]
pub struct CommentContext {
    pub path: RepoPath,
    pub side: DiffSide,
    pub line_number: Option<usize>,
    pub line_kind: PatchLineKind,
    pub line_text: String,
}

/// The mathematical content of a comment context.
pub struct CommentContextView {
    pub path: Seq<char>,
    pub side: DiffSide,
    pub line_number: Option<usize>,
    pub line_kind: PatchLineKind,
    pub line_text: Seq<char>,
}

impl View for CommentContext {
    type V = CommentContextView;

    open spec fn view(&self) -> CommentContextView {
        CommentContextView {
            path: self.path@,
            side: self.side,
            line_number: self.line_number,
            line_kind: self.line_kind,
            line_text: self.line_text@,
        }
    }
}

/// A review comment retained even when its source disappears.
#[derive(Debug, PartialEq, Eq)]
pub struct ReviewComment {
    pub id: u64,
    pub anchor: LineAnchor,
    pub body: String,
    pub context: CommentContext,
    pub outdated: bool,
}

/// The mathematical content of a review comment.
pub struct ReviewCommentView {
    pub id: u64,
    pub anchor: LineAnchorView,
    pub body: Seq<char>,
    pub context: CommentContextView,
    pub outdated: bool,
}

impl View for ReviewComment {
    type V = ReviewCommentView;

    open spec fn view(&self) -> ReviewCommentView {
        ReviewCommentView {
            id: self.id,
            anchor: self.anchor@,
            body: self.body@,
            context: self.context@,
            outdated: self.outdated,
        }
    }
}

pub open spec fn comment_views(comments: Seq<ReviewComment>) -> Seq<ReviewCommentView> {
    comments.map_values(|c: ReviewComment| c@)
}

impl CommentContext {
    /// A copy of this context.
    pub fn duplicate(&self) -> (res: CommentContext)
        ensures
            res@ == self@,
    {
        CommentContext {
            path: self.path.duplicate(),
            side: self.side,
            line_number: self.line_number,
            line_kind: self.line_kind,
            line_text: self.line_text.clone(),
        }
    }
}

impl Clone for CommentContext {
    fn clone(&self) -> (res: CommentContext)
        ensures
            res@ == self@,
    {
        self.duplicate()
    }
}

impl ReviewComment {
    /// A copy of this comment.
    pub fn duplicate(&self) -> (res: ReviewComment)
        ensures
            res@ == self@,
    {
        ReviewComment {
            id: self.id,
            anchor: self.anchor.duplicate(),
            body: self.body.clone(),
            context: self.context.duplicate(),
            outdated: self.outdated,
        }
    }
}

impl Clone for ReviewComment {
    fn clone(&self) -> (res: ReviewComment)
        ensures
            res@ == self@,
    {
        self.duplicate()
    }
}

/// Mutable collection of review comments.
#[derive(Debug, PartialEq, Eq)]
pub struct Review {
    comments: Vec<ReviewComment>,
    next_id: u64,
}

/// The mathematical content of a review: its comments in insertion order and
/// the identifier the next comment receives.
pub struct ReviewView {
    pub comments: Seq<ReviewCommentView>,
    pub next_id: u64,
}

impl View for Review {
    type V = ReviewView;

    closed spec fn view(&self) -> ReviewView {
        ReviewView { comments: comment_views(self.comments@), next_id: self.next_id }
    }
}

/// The index of the first comment with `id`.
pub open spec fn find_comment(comments: Seq<ReviewCommentView>, id: u64) -> Option<int>
    decreases comments.len(),
{
    if comments.len() == 0 {
        None
    } else {
        match find_comment(comments.drop_last(), id) {
            Some(i) => Some(i),
            None => if comments.last().id == id {
                Some(comments.len() - 1)
            } else {
                None
            },
        }
    }
}

/// `find_comment` finds the first comment with the identifier, and none
/// exactly when no comment has it.
pub proof fn lemma_find_comment(comments: Seq<ReviewCommentView>, id: u64)
    ensures
        match find_comment(comments, id) {
            Some(i) => 0 <= i < comments.len() && comments[i].id == id && forall|k: int|
                0 <= k < i ==> comments[k].id != id,
            None => forall|k: int| 0 <= k < comments.len() ==> comments[k].id != id,
        },
    decreases comments.len(),
{
    if comments.len() > 0 {
        let init = comments.drop_last();
        lemma_find_comment(init, id);
        assert forall|k: int| 0 <= k < init.len() implies init[k] == comments[k] by {}
    }
}

proof fn lemma_find_comment_prefix(comments: Seq<ReviewCommentView>, id: u64, n: int)
    requires
        0 <= n <= comments.len(),
        find_comment(comments.take(n), id) is Some,
    ensures
        find_comment(comments, id) == find_comment(comments.take(n), id),
    decreases comments.len(),
{
    if n < comments.len() {
        assert(comments.drop_last().take(n) =~= comments.take(n));
        lemma_find_comment_prefix(comments.drop_last(), id, n);
    } else {
        assert(comments.take(n) =~= comments);
    }
}

proof fn lemma_find_comment_none(comments: Seq<ReviewCommentView>, id: u64)
    requires
        forall|k: int| 0 <= k < comments.len() ==> comments[k].id != id,
    ensures
        find_comment(comments, id) is None,
    decreases comments.len(),
{
    if comments.len() > 0 {
        lemma_find_comment_none(comments.drop_last(), id);
    }
}

/// The comment a new anchor, line text and body make under `id`.
pub open spec fn new_comment(
    id: u64,
    anchor: LineAnchorView,
    line_text: Seq<char>,
    body: Seq<char>,
) -> ReviewCommentView {
    ReviewCommentView {
        id,
        anchor,
        body,
        context: CommentContextView {
            path: anchor.path,
            side: anchor.side,
            line_number: anchor_number(anchor),
            line_kind: anchor.kind,
            line_text,
        },
        outdated: false,
    }
}

/// The number an anchor carries on its own side.
pub open spec fn anchor_number(a: LineAnchorView) -> Option<usize> {
    match a.side {
        DiffSide::Old => a.old_line_no,
        DiffSide::New => a.new_line_no,
    }
}

/// How many comments are outdated.
pub open spec fn outdated_total(comments: Seq<ReviewCommentView>) -> nat
    decreases comments.len(),
{
    if comments.len() == 0 {
        0
    } else {
        outdated_total(comments.drop_last()) + if comments.last().outdated {
            1nat
        } else {
            0nat
        }
    }
}

proof fn lemma_outdated_bound(comments: Seq<ReviewCommentView>)
    ensures
        outdated_total(comments) <= comments.len(),
    decreases comments.len(),
{
    if comments.len() > 0 {
        lemma_outdated_bound(comments.drop_last());
    }
}

// ---- candidates for reattachment ----
/// The anchors of line `j` on the sides of `sides` whose content fingerprint
/// is `fp`.
pub open spec fn side_candidates(
    path: Seq<char>,
    lines: Seq<PatchLineView>,
    j: int,
    sides: Seq<DiffSide>,
    fp: Seq<u8>,
) -> Seq<LineAnchorView>
    decreases sides.len(),
{
    if sides.len() == 0 {
        Seq::empty()
    } else {
        let prev = side_candidates(path, lines, j, sides.drop_last(), fp);
        let side = sides.last();
        if content_fingerprint_for(side, lines[j]) == fp && anchor_at(path, lines, side, j) is Some {
            prev.push(anchor_at(path, lines, side, j)->0)
        } else {
            prev
        }
    }
}

/// The candidates among the first `n` lines of a hunk.
pub open spec fn line_candidates(
    path: Seq<char>,
    lines: Seq<PatchLineView>,
    n: int,
    fp: Seq<u8>,
) -> Seq<LineAnchorView>
    decreases n,
{
    if n <= 0 {
        Seq::empty()
    } else {
        line_candidates(path, lines, n - 1, fp) + side_candidates(
            path,
            lines,
            n - 1,
            kind_sides(lines[n - 1].kind),
            fp,
        )
    }
}

/// The candidates among the first `n` hunks of a file.
pub open spec fn hunk_candidates(path: Seq<char>, hunks: Seq<HunkView>, n: int, fp: Seq<u8>) -> Seq<
    LineAnchorView,
>
    decreases n,
{
    if n <= 0 {
        Seq::empty()
    } else {
        hunk_candidates(path, hunks, n - 1, fp) + line_candidates(
            path,
            hunks[n - 1].lines,
            hunks[n - 1].lines.len() as int,
            fp,
        )
    }
}

/// The candidates among the first `n` files of a document, in document order:
/// every anchor whose content fingerprint is `fp`.
pub open spec fn file_candidates(files: Seq<FileDiff>, n: int, fp: Seq<u8>) -> Seq<LineAnchorView>
    decreases n,
{
    if n <= 0 {
        Seq::empty()
    } else {
        file_candidates(files, n - 1, fp) + hunk_candidates(
            files[n - 1].path@,
            hunk_views(files[n - 1].hunks@),
            files[n - 1].hunks@.len() as int,
            fp,
        )
    }
}

/// Every anchor of a document whose content fingerprint is `fp`.
pub open spec fn candidates(document: DiffDocument, fp: Seq<u8>) -> Seq<LineAnchorView> {
    file_candidates(document.files@, document.files@.len() as int, fp)
}

/// Distance of an anchor's number from `line`.
pub open spec fn distance(a: LineAnchorView, line: int) -> int {
    let n: int = match anchor_number(a) {
        Some(v) => v as int,
        None => 0,
    };
    if n >= line {
        n - line
    } else {
        line - n
    }
}

/// The index of the first anchor on `previous`'s path and side nearest to
/// `line`.
pub open spec fn nearest(bucket: Seq<LineAnchorView>, previous: LineAnchorView, line: int) -> Option<
    int,
>
    decreases bucket.len(),
{
    if bucket.len() == 0 {
        None
    } else {
        let rest = nearest(bucket.drop_last(), previous, line);
        let last = bucket.last();
        if last.path == previous.path && last.side == previous.side && (rest is None || distance(
            last,
            line,
        ) < distance(bucket[rest->0], line)) {
            Some(bucket.len() - 1)
        } else {
            rest
        }
    }
}

/// Where a comment anchored at `previous` reattaches among `bucket`: the
/// same anchor when present, else the nearest anchor on the same path and side.
pub open spec fn reattached(bucket: Seq<LineAnchorView>, previous: LineAnchorView) -> Option<
    LineAnchorView,
> {
    if bucket.contains(previous) {
        Some(previous)
    } else {
        let line: int = match anchor_number(previous) {
            Some(v) => v as int,
            None => 0,
        };
        match nearest(bucket, previous, line) {
            Some(i) => Some(bucket[i]),
            None => None,
        }
    }
}

/// A comment after reconciliation against a document.
pub open spec fn reconciled(c: ReviewCommentView, document: DiffDocument) -> ReviewCommentView {
    match reattached(candidates(document, c.anchor.content_fingerprint), c.anchor) {
        Some(a) => ReviewCommentView { anchor: a, outdated: false, ..c },
        None => ReviewCommentView { outdated: true, ..c },
    }
}

proof fn lemma_nearest_bounds(bucket: Seq<LineAnchorView>, previous: LineAnchorView, line: int)
    ensures
        nearest(bucket, previous, line) matches Some(i) ==> 0 <= i < bucket.len(),
    decreases bucket.len(),
{
    if bucket.len() > 0 {
        lemma_nearest_bounds(bucket.drop_last(), previous, line);
    }
}

/// An optional spec index as an optional machine index.
pub open spec fn as_index(o: Option<int>) -> Option<usize> {
    match o {
        Some(i) => Some(i as usize),
        None => None,
    }
}

pub open spec fn anchor_views(anchors: Seq<LineAnchor>) -> Seq<LineAnchorView> {
    anchors.map_values(|a: LineAnchor| a@)
}

fn push_side_candidates(
    out: &mut Vec<LineAnchor>,
    file: &FileDiff,
    hunk: usize,
    j: usize,
    fp: &Fingerprint,
)
    requires
        hunk < file.hunks@.len(),
        j < file.hunks@[hunk as int].lines@.len(),
    ensures
        anchor_views(final(out)@) == anchor_views(old(out)@) + side_candidates(
            file.path@,
            file.hunks@[hunk as int]@.lines,
            j as int,
            kind_sides(file.hunks@[hunk as int].lines@[j as int].kind),
            fp.bytes@,
        ),
{
    let line = &file.hunks[hunk].lines[j];
    let sides = line.kind.sides();
    let ghost lines = file.hunks@[hunk as int]@.lines;
    let ghost start = anchor_views(out@);
    let mut k: usize = 0;
    while k < sides.len()
        invariant
            k <= sides@.len(),
            sides@ == kind_sides(file.hunks@[hunk as int].lines@[j as int].kind),
            hunk < file.hunks@.len(),
            j < file.hunks@[hunk as int].lines@.len(),
            lines == file.hunks@[hunk as int]@.lines,
            *line == file.hunks@[hunk as int].lines@[j as int],
            start == anchor_views(old(out)@),
            anchor_views(out@) == start + side_candidates(
                file.path@,
                lines,
                j as int,
                sides@.take(k as int),
                fp.bytes@,
            ),
        decreases sides@.len() - k,
    {
        let side = sides[k];
        proof {
            assert(sides@.take(k + 1).drop_last() =~= sides@.take(k as int));
            assert(lines[j as int] == line@);
        }
        let matches = LineAnchor::content_fingerprint_of(side, line).same_as(fp);
        if matches {
            match LineAnchor::for_line(file, side, hunk, j) {
                Some(a) => {
                    let ghost prev = out@;
                    out.push(a);
                    proof {
                        assert(anchor_views(out@) =~= anchor_views(prev).push(a@));
                    }
                },
                None => {},
            }
        }
        k = k + 1;
    }
    proof {
        assert(sides@.take(k as int) =~= sides@);
    }
}

/// Every anchor of `document` whose content fingerprint is `fp`, in order.
fn collect_candidates(document: &DiffDocument, fp: &Fingerprint) -> (res: Vec<LineAnchor>)
    ensures
        anchor_views(res@) == candidates(*document, fp.bytes@),
{
    let mut out: Vec<LineAnchor> = Vec::new();
    let mut f: usize = 0;
    while f < document.files.len()
        invariant
            f <= document.files@.len(),
            anchor_views(out@) == file_candidates(document.files@, f as int, fp.bytes@),
        decreases document.files@.len() - f,
    {
        let file = &document.files[f];
        let ghost before_file = anchor_views(out@);
        let mut h: usize = 0;
        while h < file.hunks.len()
            invariant
                h <= file.hunks@.len(),
                *file == document.files@[f as int],
                anchor_views(out@) == before_file + hunk_candidates(
                    file.path@,
                    hunk_views(file.hunks@),
                    h as int,
                    fp.bytes@,
                ),
            decreases file.hunks@.len() - h,
        {
            let ghost before_hunk = anchor_views(out@);
            let mut j: usize = 0;
            while j < file.hunks[h].lines.len()
                invariant
                    h < file.hunks@.len(),
                    j <= file.hunks@[h as int].lines@.len(),
                    anchor_views(out@) == before_hunk + line_candidates(
                        file.path@,
                        file.hunks@[h as int]@.lines,
                        j as int,
                        fp.bytes@,
                    ),
                decreases file.hunks@[h as int].lines@.len() - j,
            {
                let ghost prev = anchor_views(out@);
                push_side_candidates(&mut out, file, h, j, fp);
                proof {
                    assert(file.hunks@[h as int]@.lines[j as int] == file.hunks@[h as int].lines@[j as int]@);
                    assert(anchor_views(out@) =~= before_hunk + line_candidates(
                        file.path@,
                        file.hunks@[h as int]@.lines,
                        j + 1,
                        fp.bytes@,
                    ));
                }
                j = j + 1;
            }
            proof {
                assert(hunk_views(file.hunks@)[h as int] == file.hunks@[h as int]@);
                assert(anchor_views(out@) =~= before_file + hunk_candidates(
                    file.path@,
                    hunk_views(file.hunks@),
                    h + 1,
                    fp.bytes@,
                ));
            }
            h = h + 1;
        }
        proof {
            assert(anchor_views(out@) =~= file_candidates(document.files@, f + 1, fp.bytes@));
        }
        f = f + 1;
    }
    out
}

fn reattach(bucket: &Vec<LineAnchor>, previous: &LineAnchor) -> (res: Option<LineAnchor>)
    ensures
        match reattached(anchor_views(bucket@), previous@) {
            Some(a) => res matches Some(r) && r@ == a,
            None => res is None,
        },
{
    let ghost views = anchor_views(bucket@);
    let mut i: usize = 0;
    while i < bucket.len()
        invariant
            i <= bucket@.len(),
            views == anchor_views(bucket@),
            forall|k: int| 0 <= k < i ==> views[k] != previous@,
        decreases bucket@.len() - i,
    {
        if bucket[i].same_as(previous) {
            proof {
                assert(views[i as int] == previous@);
                assert(views.contains(previous@));
            }
            return Some(bucket[i].duplicate());
        }
        i = i + 1;
    }
    proof {
        assert(!views.contains(previous@));
    }
    let line: usize = match previous.line_number() {
        Some(v) => v,
        None => 0,
    };
    let mut best: Option<usize> = None;
    let mut best_distance: usize = 0;
    let mut k: usize = 0;
    while k < bucket.len()
        invariant
            k <= bucket@.len(),
            views == anchor_views(bucket@),
            best == as_index(nearest(views.take(k as int), previous@, line as int)),
            best matches Some(b) ==> b < k && best_distance == distance(views[b as int], line as int),
        decreases bucket@.len() - k,
    {
        proof {
            assert(views.take(k + 1).drop_last() =~= views.take(k as int));
            lemma_nearest_bounds(views.take(k as int), previous@, line as int);
        }
        let candidate = &bucket[k];
        if candidate.addresses_same_side(previous) {
            let n: usize = match candidate.line_number() {
                Some(v) => v,
                None => 0,
            };
            let d: usize = if n >= line {
                n - line
            } else {
                line - n
            };
            let better = match best {
                None => true,
                Some(_) => d < best_distance,
            };
            if better {
                best = Some(k);
                best_distance = d;
            }
        }
        k = k + 1;
    }
    proof {
        assert(views.take(k as int) =~= views);
        lemma_nearest_bounds(views, previous@, line as int);
    }
    match best {
        Some(b) => Some(bucket[b].duplicate()),
        None => None,
    }
}

impl Default for Review {
    fn default() -> (res: Review)
        ensures
            res@.comments == Seq::<ReviewCommentView>::empty(),
            res@.next_id == 0,
    {
        Review { comments: Vec::new(), next_id: 0 }
    }
}

impl Review {
    /// Adds a comment with empty line text and returns its review-local ID.
    pub fn add_comment(&mut self, anchor: LineAnchor, body: &str) -> (res: u64)
        ensures
            res == old(self)@.next_id,
            final(self)@.next_id == (if old(self)@.next_id < u64::MAX {
                (old(self)@.next_id + 1) as u64
            } else {
                u64::MAX
            }),
            final(self)@.comments == old(self)@.comments.push(
                new_comment(res, anchor@, Seq::<char>::empty(), body@),
            ),
    {
        proof {
            reveal_strlit("");
            assert(""@ =~= Seq::<char>::empty());
        }
        self.add_comment_with_context(anchor, "", body)
    }

    /// Adds a comment with the text of the line it is about; returns its ID.
    pub fn add_comment_with_context(&mut self, anchor: LineAnchor, line_text: &str, body: &str) -> (res:
        u64)
        ensures
            res == old(self)@.next_id,
            final(self)@.next_id == (if old(self)@.next_id < u64::MAX {
                (old(self)@.next_id + 1) as u64
            } else {
                u64::MAX
            }),
            final(self)@.comments == old(self)@.comments.push(
                new_comment(res, anchor@, line_text@, body@),
            ),
    {
        let id = self.next_id;
        self.next_id = self.next_id.saturating_add(1);
        let context = CommentContext {
            path: anchor.path.duplicate(),
            side: anchor.side,
            line_number: anchor.line_number(),
            line_kind: anchor.kind,
            line_text: line_text.to_owned(),
        };
        let comment = ReviewComment {
            id,
            anchor,
            body: body.to_owned(),
            context,
            outdated: false,
        };
        let ghost prev = self.comments@;
        self.comments.push(comment);
        proof {
            assert(comment_views(self.comments@) =~= comment_views(prev).push(comment@));
            if line_text@.len() == 0 {
            }
        }
        id
    }

    fn index_of(&self, id: u64) -> (res: Option<usize>)
        ensures
            match res {
                Some(i) => find_comment(self@.comments, id) == Some(i as int) && i
                    < self@.comments.len(),
                None => find_comment(self@.comments, id) is None,
            },
    {
        let mut i: usize = 0;
        while i < self.comments.len()
            invariant
                i <= self.comments@.len(),
                forall|k: int| 0 <= k < i ==> self@.comments[k].id != id,
            decreases self.comments@.len() - i,
        {
            if self.comments[i].id == id {
                proof {
                    let t = self@.comments.take(i + 1);
                    assert(t.drop_last() =~= self@.comments.take(i as int));
                    lemma_find_comment_none(self@.comments.take(i as int), id);
                    lemma_find_comment_prefix(self@.comments, id, i + 1);
                    assert(t.last().id == id);
                    assert(find_comment(t, id) == Some(i as int));
                }
                return Some(i);
            }
            i = i + 1;
        }
        proof {
            lemma_find_comment_none(self@.comments, id);
        }
        None
    }

    /// Changes the body of the first comment with `id`, returning whether the
    /// ID existed.
    pub fn edit_comment(&mut self, id: u64, body: &str) -> (res: bool)
        ensures
            res == (find_comment(old(self)@.comments, id) is Some),
            final(self)@.next_id == old(self)@.next_id,
            final(self)@.comments == (match find_comment(old(self)@.comments, id) {
                Some(i) => old(self)@.comments.update(
                    i,
                    ReviewCommentView { body: body@, ..old(self)@.comments[i] },
                ),
                None => old(self)@.comments,
            }),
    {
        proof {
            lemma_find_comment(self@.comments, id);
        }
        match self.index_of(id) {
            Some(i) => {
                let old_comment = &self.comments[i];
                let edited = ReviewComment {
                    id: old_comment.id,
                    anchor: old_comment.anchor.duplicate(),
                    body: body.to_owned(),
                    context: old_comment.context.duplicate(),
                    outdated: old_comment.outdated,
                };
                let ghost prev = self.comments@;
                self.comments.set(i, edited);
                proof {
                    assert(comment_views(self.comments@) =~= comment_views(prev).update(
                        i as int,
                        edited@,
                    ));
                }
                true
            },
            None => false,
        }
    }

    /// Removes the first comment with `id`, returning it if present.
    pub fn remove_comment(&mut self, id: u64) -> (res: Option<ReviewComment>)
        ensures
            final(self)@.next_id == old(self)@.next_id,
            match find_comment(old(self)@.comments, id) {
                Some(i) => res matches Some(c) && c@ == old(self)@.comments[i]
                    && final(self)@.comments == old(self)@.comments.remove(i),
                None => res is None && final(self)@.comments == old(self)@.comments,
            },
    {
        proof {
            lemma_find_comment(self@.comments, id);
        }
        match self.index_of(id) {
            Some(i) => {
                let ghost prev = self.comments@;
                let c = self.comments.remove(i);
                proof {
                    assert(comment_views(prev)[i as int] == prev[i as int]@);
                    assert(comment_views(self.comments@) =~= comment_views(prev).remove(i as int));
                }
                Some(c)
            },
            None => None,
        }
    }

    /// The first comment with `id`.
    pub fn comment(&self, id: u64) -> (res: Option<&ReviewComment>)
        ensures
            match find_comment(self@.comments, id) {
                Some(i) => res matches Some(c) && c@ == self@.comments[i],
                None => res is None,
            },
    {
        proof {
            lemma_find_comment(self@.comments, id);
        }
        match self.index_of(id) {
            Some(i) => {
                proof {
                    assert(self@.comments[i as int] == self.comments@[i as int]@);
                    assert(find_comment(self@.comments, id) is Some);
                    assert(find_comment(self@.comments, id) == Some(i as int));
                }
                Some(&self.comments[i])
            },
            None => {
                proof {
                    assert(find_comment(self@.comments, id) is None);
                }
                None
            },
        }
    }

    /// Returns whether the review has no comments.
    pub fn is_empty(&self) -> (res: bool)
        ensures
            res == (self@.comments.len() == 0),
    {
        self.comments.len() == 0
    }

    /// Returns the number of comments.
    pub fn len(&self) -> (res: usize)
        ensures
            res == self@.comments.len(),
    {
        self.comments.len()
    }

    /// Returns the number of outdated comments.
    pub fn outdated_count(&self) -> (res: usize)
        ensures
            res == outdated_total(self@.comments),
    {
        let mut count: usize = 0;
        let mut i: usize = 0;
        while i < self.comments.len()
            invariant
                i <= self.comments@.len(),
                count == outdated_total(self@.comments.take(i as int)),
            decreases self.comments@.len() - i,
        {
            proof {
                assert(self@.comments.take(i + 1).drop_last() =~= self@.comments.take(i as int));
                lemma_outdated_bound(self@.comments.take(i as int));
            }
            if self.comments[i].outdated {
                count = count + 1;
            }
            i = i + 1;
        }
        proof {
            assert(self@.comments.take(i as int) =~= self@.comments);
        }
        count
    }

    /// Returns all comments, in insertion order.
    pub fn comments(&self) -> (res: &[ReviewComment])
        ensures
            comment_views(res@) == self@.comments,
    {
        self.comments.as_slice()
    }

    /// Returns the comments associated with a path: by their context's path
    /// or their anchor's path.
    pub fn comments_for_file(&self, path: &RepoPath) -> (res: Vec<ReviewComment>)
        ensures
            comment_views(res@) == self@.comments.filter(
                |c: ReviewCommentView| c.context.path == path@ || c.anchor.path == path@,
            ),
    {
        let ghost pred = |c: ReviewCommentView| c.context.path == path@ || c.anchor.path == path@;
        let mut out: Vec<ReviewComment> = Vec::new();
        let mut i: usize = 0;
        while i < self.comments.len()
            invariant
                i <= self.comments@.len(),
                pred == (|c: ReviewCommentView| c.context.path == path@ || c.anchor.path == path@),
                comment_views(out@) == self@.comments.take(i as int).filter(pred),
            decreases self.comments@.len() - i,
        {
            proof {
                assert(self@.comments.take(i + 1).drop_last() =~= self@.comments.take(i as int));
                reveal(Seq::filter);
            }
            let c = &self.comments[i];
            if c.context.path.same_as(path) || c.anchor.path.same_as(path) {
                let ghost prev = out@;
                out.push(c.duplicate());
                proof {
                    assert(comment_views(out@) =~= comment_views(prev).push(c@));
                }
            }
            i = i + 1;
        }
        proof {
            assert(self@.comments.take(i as int) =~= self@.comments);
        }
        out
    }

    /// Returns the comments on an anchor, in insertion order.
    pub fn comments_for_anchor(&self, anchor: &LineAnchor) -> (res: Vec<ReviewComment>)
        ensures
            comment_views(res@) == self@.comments.filter(
                |c: ReviewCommentView| c.anchor == anchor@,
            ),
    {
        let ghost pred = |c: ReviewCommentView| c.anchor == anchor@;
        let mut out: Vec<ReviewComment> = Vec::new();
        let mut i: usize = 0;
        while i < self.comments.len()
            invariant
                i <= self.comments@.len(),
                pred == (|c: ReviewCommentView| c.anchor == anchor@),
                comment_views(out@) == self@.comments.take(i as int).filter(pred),
            decreases self.comments@.len() - i,
        {
            proof {
                assert(self@.comments.take(i + 1).drop_last() =~= self@.comments.take(i as int));
                reveal(Seq::filter);
            }
            let c = &self.comments[i];
            if c.anchor.same_as(anchor) {
                let ghost prev = out@;
                out.push(c.duplicate());
                proof {
                    assert(comment_views(out@) =~= comment_views(prev).push(c@));
                }
            }
            i = i + 1;
        }
        proof {
            assert(self@.comments.take(i as int) =~= self@.comments);
        }
        out
    }

    /// Removes all comments.
    pub fn clear(&mut self)
        ensures
            final(self)@.comments == Seq::<ReviewCommentView>::empty(),
            final(self)@.next_id == old(self)@.next_id,
    {
        self.comments = Vec::new();
        proof {
            assert(comment_views(self.comments@) =~= Seq::<ReviewCommentView>::empty());
        }
    }

    /// Reattaches comments to a replacement document and marks misses
    /// outdated: each comment keeps its anchor when the document still has
    /// it, else moves to the nearest anchor with the same content on its path
    /// and side, else becomes outdated.
    pub fn reconcile(&mut self, document: &DiffDocument)
        ensures
            final(self)@.next_id == old(self)@.next_id,
            final(self)@.comments.len() == old(self)@.comments.len(),
            forall|i: int|
                0 <= i < old(self)@.comments.len() ==> #[trigger] final(self)@.comments[i]
                    == reconciled(old(self)@.comments[i], *document),
    {
        let mut out: Vec<ReviewComment> = Vec::new();
        let mut i: usize = 0;
        while i < self.comments.len()
            invariant
                i <= self.comments@.len(),
                out@.len() == i,
                forall|k: int|
                    0 <= k < i ==> #[trigger] out@[k]@ == reconciled(self@.comments[k], *document),
            decreases self.comments@.len() - i,
        {
            let c = &self.comments[i];
            let bucket = collect_candidates(document, &c.anchor.content_fingerprint);
            let updated = match reattach(&bucket, &c.anchor) {
                Some(a) => ReviewComment {
                    id: c.id,
                    anchor: a,
                    body: c.body.clone(),
                    context: c.context.duplicate(),
                    outdated: false,
                },
                None => ReviewComment {
                    id: c.id,
                    anchor: c.anchor.duplicate(),
                    body: c.body.clone(),
                    context: c.context.duplicate(),
                    outdated: true,
                },
            };
            proof {
                assert(self@.comments[i as int] == c@);
            }
            out.push(updated);
            i = i + 1;
        }
        self.comments = out;
        proof {
            assert forall|i: int| 0 <= i < self@.comments.len() implies #[trigger] self@.comments[i]
                == reconciled(old(self)@.comments[i], *document) by {
                assert(self@.comments[i] == self.comments@[i]@);
            }
        }
    }
}


// ---- ordering and formatting ----
/// Strict lexicographic order of character sequences by code point, which is
/// the byte order of their UTF-8 encodings.
pub open spec fn chars_lt(a: Seq<char>, b: Seq<char>) -> bool
    decreases a.len(),
{
    if a.len() == 0 {
        b.len() > 0
    } else if b.len() == 0 {
        false
    } else if a[0] != b[0] {
        (a[0] as u32) < (b[0] as u32)
    } else {
        chars_lt(a.drop_first(), b.drop_first())
    }
}

pub open spec fn side_rank(side: DiffSide) -> int {
    match side {
        DiffSide::Old => 0,
        DiffSide::New => 1,
    }
}

pub open spec fn sort_number(c: ReviewCommentView) -> int {
    match anchor_number(c.anchor) {
        Some(v) => v as int,
        None => 0,
    }
}

/// Whether `a` sorts strictly before `b`: by anchor path, then line number
/// (zero when absent), then side, then identifier.
pub open spec fn comes_before(a: ReviewCommentView, b: ReviewCommentView) -> bool {
    ||| chars_lt(a.anchor.path, b.anchor.path)
    ||| a.anchor.path == b.anchor.path && sort_number(a) < sort_number(b)
    ||| a.anchor.path == b.anchor.path && sort_number(a) == sort_number(b) && side_rank(
        a.anchor.side,
    ) < side_rank(b.anchor.side)
    ||| a.anchor.path == b.anchor.path && sort_number(a) == sort_number(b) && a.anchor.side
        == b.anchor.side && a.id < b.id
}

/// `sorted` with `c` placed after every element that does not sort after it.
pub open spec fn insert_sorted(sorted: Seq<ReviewCommentView>, c: ReviewCommentView) -> Seq<
    ReviewCommentView,
>
    decreases sorted.len(),
{
    if sorted.len() == 0 {
        seq![c]
    } else if comes_before(c, sorted.last()) {
        insert_sorted(sorted.drop_last(), c).push(sorted.last())
    } else {
        sorted.push(c)
    }
}

/// The stable sort of comments by `comes_before`.
pub open spec fn sort_comments(s: Seq<ReviewCommentView>) -> Seq<ReviewCommentView>
    decreases s.len(),
{
    if s.len() == 0 {
        Seq::empty()
    } else {
        insert_sorted(sort_comments(s.drop_last()), s.last())
    }
}

/// A body with every newline continued as a quoted line.
pub open spec fn quote_body(body: Seq<char>) -> Seq<char>
    decreases body.len(),
{
    if body.len() == 0 {
        Seq::empty()
    } else {
        quote_body(body.drop_last()) + if body.last() == '\n' {
            "\n> "@
        } else {
            seq![body.last()]
        }
    }
}

pub open spec fn side_word(side: DiffSide) -> Seq<char> {
    match side {
        DiffSide::Old => "removed"@,
        DiffSide::New => "added"@,
    }
}

pub open spec fn line_word(n: Option<usize>) -> Seq<char> {
    match n {
        Some(v) => decimal(v as nat),
        None => "unknown"@,
    }
}

/// The text of one comment in formatted feedback.
pub open spec fn comment_block(c: ReviewCommentView) -> Seq<char> {
    "\n\n**Line "@ + line_word(anchor_number(c.anchor)) + " ("@ + side_word(c.anchor.side)
        + "):** `"@ + c.context.line_text + "`\n> "@ + quote_body(c.body) + if c.outdated {
        "\n> _(outdated)_"@
    } else {
        Seq::<char>::empty()
    }
}

/// The heading that opens a run of comments on one path.
pub open spec fn path_heading(path: Seq<char>) -> Seq<char> {
    "\n\n## `"@ + path + "`"@
}

/// The intro followed by each comment, with a path heading wherever the path
/// differs from the previous comment's.
pub open spec fn format_items(items: Seq<ReviewCommentView>, intro: Seq<char>) -> Seq<char>
    decreases items.len(),
{
    if items.len() == 0 {
        intro
    } else {
        let c = items.last();
        let heading = if items.len() == 1 || items[items.len() - 2].anchor.path != c.anchor.path {
            path_heading(c.anchor.path)
        } else {
            Seq::<char>::empty()
        };
        format_items(items.drop_last(), intro) + heading + comment_block(c)
    }
}

/// The comments that feedback includes.
pub open spec fn included(comments: Seq<ReviewCommentView>, include_outdated: bool) -> Seq<
    ReviewCommentView,
> {
    comments.filter(|c: ReviewCommentView| include_outdated || !c.outdated)
}

/// The deterministic feedback text for a review's comments.
pub open spec fn formatted_review(
    comments: Seq<ReviewCommentView>,
    intro: Seq<char>,
    include_outdated: bool,
) -> Seq<char> {
    format_items(sort_comments(included(comments, include_outdated)), intro)
}

pub(crate) fn chars_before(a: &[char], b: &[char]) -> (res: bool)
    ensures
        res == chars_lt(a@, b@),
{
    let mut i: usize = 0;
    proof {
        assert(a@.skip(0) =~= a@);
        assert(b@.skip(0) =~= b@);
    }
    while i < a.len() && i < b.len()
        invariant
            i <= a@.len(),
            i <= b@.len(),
            chars_lt(a@, b@) == chars_lt(a@.skip(i as int), b@.skip(i as int)),
        decreases a@.len() - i,
    {
        if a[i] != b[i] {
            proof {
                assert(a@.skip(i as int)[0] == a@[i as int]);
                assert(b@.skip(i as int)[0] == b@[i as int]);
            }
            return (a[i] as u32) < (b[i] as u32);
        }
        proof {
            assert(a@.skip(i as int).drop_first() =~= a@.skip(i + 1));
            assert(b@.skip(i as int).drop_first() =~= b@.skip(i + 1));
        }
        i = i + 1;
    }
    proof {
        assert(a@.skip(i as int).len() == 0 || b@.skip(i as int).len() == 0);
    }
    i == a.len() && i < b.len()
}

fn side_number(side: DiffSide) -> (res: u8)
    ensures
        res == side_rank(side),
{
    match side {
        DiffSide::Old => 0,
        DiffSide::New => 1,
    }
}

fn sorts_before(a: &ReviewComment, b: &ReviewComment) -> (res: bool)
    ensures
        res == comes_before(a@, b@),
{
    let pa = chars_of(a.anchor.path.as_str());
    let pb = chars_of(b.anchor.path.as_str());
    if chars_before(pa.as_slice(), pb.as_slice()) {
        return true;
    }
    if !crate::text::chars_equal(pa.as_slice(), pb.as_slice()) {
        proof {
            assert(a@.anchor.path != b@.anchor.path);
        }
        return false;
    }
    let na: usize = match a.anchor.line_number() {
        Some(v) => v,
        None => 0,
    };
    let nb: usize = match b.anchor.line_number() {
        Some(v) => v,
        None => 0,
    };
    if na != nb {
        return na < nb;
    }
    let sa = side_number(a.anchor.side);
    let sb = side_number(b.anchor.side);
    if sa != sb {
        return sa < sb;
    }
    a.id < b.id
}

proof fn lemma_insert_from(s: Seq<ReviewCommentView>, c: ReviewCommentView, j: int)
    requires
        0 <= j < s.len(),
        comes_before(c, s[j]),
    ensures
        insert_sorted(s.take(j + 1), c) == insert_sorted(s.take(j), c).push(s[j]),
{
    assert(s.take(j + 1).drop_last() =~= s.take(j));
}

fn insert_comment(sorted: &mut Vec<ReviewComment>, c: ReviewComment)
    ensures
        comment_views(final(sorted)@) == insert_sorted(comment_views(old(sorted)@), c@),
{
    let ghost s = comment_views(sorted@);
    let mut j: usize = sorted.len();
    proof {
        assert(s.take(j as int) =~= s);
        assert(s.skip(j as int) =~= Seq::<ReviewCommentView>::empty());
        assert(s + Seq::<ReviewCommentView>::empty() =~= s);
    }
    while j > 0 && sorts_before(&c, &sorted[j - 1])
        invariant
            j <= sorted@.len(),
            s == comment_views(sorted@),
            sorted@ == old(sorted)@,
            insert_sorted(s, c@) == insert_sorted(s.take(j as int), c@) + s.skip(j as int),
        decreases j,
    {
        proof {
            assert(s[j - 1] == sorted@[j - 1]@);
            lemma_insert_from(s, c@, j - 1);
            assert(s.take(j - 1 + 1) =~= s.take(j as int));
            assert(seq![s[j - 1]] + s.skip(j as int) =~= s.skip(j - 1));
            assert(insert_sorted(s.take(j - 1), c@).push(s[j - 1]) + s.skip(j as int)
                =~= insert_sorted(s.take(j - 1), c@) + s.skip(j - 1));
        }
        j = j - 1;
    }
    proof {
        if j > 0 {
            assert(s[j - 1] == sorted@[j - 1]@);
            assert(s.take(j as int).last() == s[j - 1]);
            assert(!comes_before(c@, s.take(j as int).last()));
        }
        assert(insert_sorted(s.take(j as int), c@) =~= s.take(j as int).push(c@));
    }
    let ghost cv = c@;
    sorted.insert(j, c);
    proof {
        assert(comment_views(sorted@) =~= s.take(j as int).push(cv) + s.skip(j as int));
    }
}

/// Options controlling feedback wording.
#[derive(Debug, PartialEq, Eq)]
pub struct AgentFeedbackOptions {
    pub intro: String,
    pub include_outdated: bool,
}

impl Default for AgentFeedbackOptions {
    fn default() -> (res: AgentFeedbackOptions)
        ensures
            res.intro@ == "I'm reviewing the working tree diff. Here are my comments:"@,
            res.include_outdated,
    {
        AgentFeedbackOptions {
            intro: "I'm reviewing the working tree diff. Here are my comments:".to_owned(),
            include_outdated: true,
        }
    }
}

/// Structured review data and its deterministic prompt representation.
#[derive(Debug, PartialEq, Eq)]
pub struct ReviewSubmission {
    pub comments: Vec<ReviewComment>,
    pub formatted: String,
}

pub(crate) fn push_text(out: &mut Vec<char>, text: &str)
    ensures
        final(out)@ == old(out)@ + text@,
{
    let chars = chars_of(text);
    push_all(out, chars.as_slice());
}

pub(crate) fn push_quoted_body(out: &mut Vec<char>, body: &str)
    ensures
        final(out)@ == old(out)@ + quote_body(body@),
{
    let chars = chars_of(body);
    let ghost start = out@;
    let mut i: usize = 0;
    while i < chars.len()
        invariant
            i <= chars@.len(),
            chars@ == body@,
            start == old(out)@,
            out@ == start + quote_body(chars@.take(i as int)),
        decreases chars@.len() - i,
    {
        proof {
            assert(chars@.take(i + 1).drop_last() =~= chars@.take(i as int));
            reveal_strlit("\n> ");
        }
        if chars[i] == '\n' {
            push_text(out, "\n> ");
        } else {
            out.push(chars[i]);
        }
        proof {
            assert(out@ =~= start + quote_body(chars@.take(i + 1)));
        }
        i = i + 1;
    }
    proof {
        assert(chars@.take(i as int) =~= chars@);
    }
}

fn push_comment_block(out: &mut Vec<char>, c: &ReviewComment)
    ensures
        final(out)@ == old(out)@ + comment_block(c@),
{
    push_text(out, "\n\n**Line ");
    match c.anchor.line_number() {
        Some(v) => push_decimal(out, v as u64),
        None => push_text(out, "unknown"),
    }
    push_text(out, " (");
    match c.anchor.side {
        DiffSide::Old => push_text(out, "removed"),
        DiffSide::New => push_text(out, "added"),
    }
    push_text(out, "):** `");
    push_text(out, c.context.line_text.as_str());
    push_text(out, "`\n> ");
    push_quoted_body(out, c.body.as_str());
    if c.outdated {
        push_text(out, "\n> _(outdated)_");
    }
    proof {
        assert(out@ =~= old(out)@ + comment_block(c@));
    }
}

/// The deterministic feedback text for a review: the intro, then the included
/// comments sorted by path, line, side and identifier, each path opening
/// with a heading.
pub fn format_review(review: &Review, options: &AgentFeedbackOptions) -> (res: String)
    ensures
        res@ == formatted_review(review@.comments, options.intro@, options.include_outdated),
{
    let comments = review.comments();
    let ghost all = review@.comments;
    let ghost keep = |c: ReviewCommentView| options.include_outdated || !c.outdated;
    let mut sorted: Vec<ReviewComment> = Vec::new();
    let mut i: usize = 0;
    while i < comments.len()
        invariant
            i <= comments@.len(),
            comment_views(comments@) == all,
            keep == (|c: ReviewCommentView| options.include_outdated || !c.outdated),
            comment_views(sorted@) == sort_comments(all.take(i as int).filter(keep)),
        decreases comments@.len() - i,
    {
        proof {
            assert(all.take(i + 1).drop_last() =~= all.take(i as int));
            assert(all[i as int] == comments@[i as int]@);
            reveal(Seq::filter);
        }
        if options.include_outdated || !comments[i].outdated {
            let ghost before = all.take(i as int).filter(keep);
            insert_comment(&mut sorted, comments[i].duplicate());
            proof {
                assert(all.take(i + 1).filter(keep) == before.push(all[i as int]));
                assert(before.push(all[i as int]).drop_last() =~= before);
            }
        }
        i = i + 1;
    }
    proof {
        assert(all.take(i as int) =~= all);
    }
    let ghost items = comment_views(sorted@);
    let mut out = chars_of(options.intro.as_str());
    let mut k: usize = 0;
    while k < sorted.len()
        invariant
            k <= sorted@.len(),
            items == comment_views(sorted@),
            out@ == format_items(items.take(k as int), options.intro@),
        decreases sorted@.len() - k,
    {
        let c = &sorted[k];
        proof {
            let t = items.take(k + 1);
            assert(t.drop_last() =~= items.take(k as int));
            assert(t.last() == c@);
            if k > 0 {
                assert(t[k - 1] == sorted@[k - 1]@);
            }
        }
        let starts_run = k == 0 || !sorted[k - 1].anchor.path.same_as(&c.anchor.path);
        if starts_run {
            push_text(&mut out, "\n\n## `");
            push_text(&mut out, c.anchor.path.as_str());
            push_text(&mut out, "`");
        }
        push_comment_block(&mut out, c);
        proof {
            assert(out@ =~= format_items(items.take(k + 1), options.intro@));
        }
        k = k + 1;
    }
    proof {
        assert(items.take(k as int) =~= items);
    }
    string_from_chars(out.as_slice())
}

impl Review {
    /// The comments and their formatted feedback with the default options.
    pub fn submission(&self) -> (res: ReviewSubmission)
        ensures
            comment_views(res.comments@) == self@.comments,
            res.formatted@ == formatted_review(
                self@.comments,
                "I'm reviewing the working tree diff. Here are my comments:"@,
                true,
            ),
    {
        let options = AgentFeedbackOptions::default();
        self.submission_with(&options)
    }

    /// The comments and their formatted feedback with the given options.
    pub fn submission_with(&self, options: &AgentFeedbackOptions) -> (res: ReviewSubmission)
        ensures
            comment_views(res.comments@) == self@.comments,
            res.formatted@ == formatted_review(
                self@.comments,
                options.intro@,
                options.include_outdated,
            ),
    {
        let mut comments: Vec<ReviewComment> = Vec::new();
        let all = self.comments();
        let mut i: usize = 0;
        while i < all.len()
            invariant
                i <= all@.len(),
                comment_views(all@) == self@.comments,
                comments@.len() == i,
                comment_views(comments@) == comment_views(all@).take(i as int),
            decreases all@.len() - i,
        {
            let ghost prev = comments@;
            comments.push(all[i].duplicate());
            proof {
                assert forall|k: int| 0 <= k < i + 1 implies #[trigger] comment_views(comments@)[k]
                    == comment_views(all@).take(i + 1)[k] by {
                    if k < i {
                        assert(comments@[k] == prev[k]);
                        assert(comment_views(prev)[k] == comment_views(all@).take(i as int)[k]);
                    }
                }
                assert(comment_views(comments@) =~= comment_views(all@).take(i + 1));
            }
            i = i + 1;
        }
        proof {
            assert(comment_views(all@).take(i as int) =~= comment_views(all@));
        }
        ReviewSubmission { comments, formatted: format_review(self, options) }
    }
}

/// A repository mutation requested by a diff review UI. Renderers emit
/// intents but never execute Git themselves.
#[derive(Debug, PartialEq, Eq)]
pub enum RepositoryAction {
    StagePaths(Vec<RepoPath>),
    UnstagePaths(Vec<RepoPath>),
    StageAll,
    UnstageAll,
    Commit { message: String },
    Discard { path: RepoPath, status: FileStatus },
    Refresh,
}

/// Events emitted by a diff review UI.
#[derive(Debug, PartialEq, Eq)]
pub enum DiffReviewEvent {
    RepositoryAction(RepositoryAction),
    SubmitReview(ReviewSubmission),
    CopyFormattedReview(String),
    Cancel,
}


// ---- laws ----
/// Adding a comment to a review whose identifiers are all below its next
/// identifier makes the new comment the one that identifier finds.
pub proof fn lemma_added_comment_is_found(review: ReviewView, added: ReviewCommentView)
    requires
        forall|k: int| 0 <= k < review.comments.len() ==> #[trigger] review.comments[k].id
            < review.next_id,
        added.id == review.next_id,
    ensures
        find_comment(review.comments.push(added), added.id) == Some(review.comments.len() as int),
{
    let s = review.comments.push(added);
    assert(s.drop_last() =~= review.comments);
    lemma_find_comment_none(review.comments, added.id);
}

/// In a review whose identifiers are distinct, removing the comment an
/// identifier finds leaves no comment with that identifier.
pub proof fn lemma_removed_comment_is_gone(comments: Seq<ReviewCommentView>, id: u64)
    requires
        forall|a: int, b: int|
            0 <= a < b < comments.len() ==> #[trigger] comments[a].id != #[trigger] comments[b].id,
        find_comment(comments, id) is Some,
    ensures
        find_comment(comments.remove(find_comment(comments, id)->0), id) is None,
{
    lemma_find_comment(comments, id);
    let i = find_comment(comments, id)->0;
    let r = comments.remove(i);
    assert forall|k: int| 0 <= k < r.len() implies r[k].id != id by {
        if k < i {
            assert(r[k] == comments[k]);
        } else {
            assert(r[k] == comments[k + 1]);
            assert(comments[i].id != comments[k + 1].id);
        }
    }
    lemma_find_comment_none(r, id);
}

/// Editing a comment changes only its body: the same identifier still finds
/// it, now with the new body.
pub proof fn lemma_edited_comment_keeps_its_place(
    comments: Seq<ReviewCommentView>,
    id: u64,
    body: Seq<char>,
)
    requires
        find_comment(comments, id) is Some,
    ensures
        ({
            let i = find_comment(comments, id)->0;
            let edited = comments.update(i, ReviewCommentView { body, ..comments[i] });
            &&& find_comment(edited, id) == Some(i)
            &&& edited[i].body == body
            &&& edited.len() == comments.len()
        }),
{
    lemma_find_comment(comments, id);
    let i = find_comment(comments, id)->0;
    let edited = comments.update(i, ReviewCommentView { body, ..comments[i] });
    assert(edited.take(i + 1).drop_last() =~= comments.take(i));
    lemma_find_comment_none(comments.take(i), id);
    assert(edited.take(i).len() == i);
    assert(find_comment(edited.take(i + 1), id) == Some(i)) by {
        assert(edited.take(i + 1).drop_last() =~= edited.take(i));
        assert forall|k: int| 0 <= k < edited.take(i).len() implies edited.take(i)[k].id != id by {
            assert(edited.take(i)[k] == comments[k]);
        }
        lemma_find_comment_none(edited.take(i), id);
    }
    lemma_find_comment_prefix(edited, id, i + 1);
}

/// Reconciling against a document that still holds a comment's anchor keeps
/// that exact anchor and clears the outdated mark.
pub proof fn lemma_present_anchor_is_kept(c: ReviewCommentView, document: DiffDocument)
    requires
        candidates(document, c.anchor.content_fingerprint).contains(c.anchor),
    ensures
        reconciled(c, document) == (ReviewCommentView { outdated: false, ..c }),
{
}

/// Reconciling against a document without files marks every comment
/// outdated and leaves its anchor untouched.
pub proof fn lemma_empty_document_outdates(c: ReviewCommentView, document: DiffDocument)
    requires
        document.files@.len() == 0,
    ensures
        reconciled(c, document) == (ReviewCommentView { outdated: true, ..c }),
{
    assert(candidates(document, c.anchor.content_fingerprint) =~= Seq::<LineAnchorView>::empty());
}

/// The line an anchor stands at on its own side, zero when it has none there.
pub open spec fn side_line(a: LineAnchorView) -> int {
    match a.side {
        DiffSide::Old => match a.old_line_no {
            Some(v) => v as int,
            None => 0,
        },
        DiffSide::New => match a.new_line_no {
            Some(v) => v as int,
            None => 0,
        },
    }
}

/// Whether two anchors stand on the same path and side.
pub open spec fn same_place(a: LineAnchorView, b: LineAnchorView) -> bool {
    a.path == b.path && a.side == b.side
}

/// Whether `bucket[i]` is the first anchor on `previous`'s path and side
/// at the least distance from `line`.
pub open spec fn first_nearest(bucket: Seq<LineAnchorView>, previous: LineAnchorView, line: int, i: int) -> bool {
    &&& 0 <= i < bucket.len()
    &&& same_place(bucket[i], previous)
    &&& forall|k: int|
        0 <= k < bucket.len() && same_place(#[trigger] bucket[k], previous) ==> vstd::math::abs(
            side_line(bucket[i]) - line,
        ) <= vstd::math::abs(side_line(bucket[k]) - line)
    &&& forall|k: int|
        0 <= k < i && same_place(#[trigger] bucket[k], previous) ==> vstd::math::abs(
            side_line(bucket[i]) - line,
        ) < vstd::math::abs(side_line(bucket[k]) - line)
}

proof fn lemma_nearest_minimal(bucket: Seq<LineAnchorView>, previous: LineAnchorView, line: int)
    ensures
        match nearest(bucket, previous, line) {
            Some(i) => first_nearest(bucket, previous, line, i),
            None => forall|k: int| 0 <= k < bucket.len() ==> !same_place(bucket[k], previous),
        },
    decreases bucket.len(),
{
    if bucket.len() > 0 {
        let r = bucket.drop_last();
        lemma_nearest_minimal(r, previous, line);
        assert forall|k: int| 0 <= k < r.len() implies r[k] == bucket[k] by {}
    }
}

/// When a comment's exact anchor is gone, it moves to an anchor of the same
/// path and side, and no such anchor lies strictly closer to its old line
/// (among equally close ones, the first); it finds none only when no anchor
/// shares its path and side.
pub proof fn lemma_reattach_nearest(bucket: Seq<LineAnchorView>, previous: LineAnchorView)
    requires
        !bucket.contains(previous),
    ensures
        match reattached(bucket, previous) {
            Some(a) => exists|i: int|
                first_nearest(bucket, previous, side_line(previous), i) && #[trigger] bucket[i] == a,
            None => forall|k: int| 0 <= k < bucket.len() ==> !same_place(bucket[k], previous),
        },
{
    lemma_nearest_minimal(bucket, previous, side_line(previous));
    if let Some(i) = nearest(bucket, previous, side_line(previous)) {
        assert(bucket[i] == bucket[i]);
    }
}

/// `comes_before` is a strict weak order: irreflexive, asymmetric, and when
/// `a` sorts before `c`, any `b` sorts after `a` or before `c`.
proof fn lemma_comes_before_order(a: ReviewCommentView, b: ReviewCommentView, c: ReviewCommentView)
    ensures
        !comes_before(a, a),
        comes_before(a, b) ==> !comes_before(b, a),
        comes_before(a, c) ==> comes_before(a, b) || comes_before(b, c),
{
    let (pa, pb, pc) = (a.anchor.path, b.anchor.path, c.anchor.path);
    lemma_chars_lt_order(pa, pb, pc);
    lemma_chars_lt_order(pb, pa, pc);
    lemma_chars_lt_order(pa, pc, pb);
    lemma_chars_lt_order(pb, pc, pa);
    lemma_chars_lt_order(pc, pa, pb);
    lemma_chars_lt_order(pc, pb, pa);
    lemma_chars_lt_order(pa, pb, pa);
}

/// Whether no comment of `s` sorts strictly before an earlier one.
pub open spec fn in_sort_order(s: Seq<ReviewCommentView>) -> bool {
    forall|i: int, j: int| 0 <= i < j < s.len() ==> !comes_before(#[trigger] s[j], #[trigger] s[i])
}

proof fn lemma_insert_sorted_multiset(s: Seq<ReviewCommentView>, c: ReviewCommentView)
    ensures
        insert_sorted(s, c).to_multiset() == s.to_multiset().insert(c),
    decreases s.len(),
{
    broadcast use vstd::seq_lib::group_to_multiset_ensures;

    if s.len() == 0 {
        assert(seq![c] =~= Seq::<ReviewCommentView>::empty().push(c));
    } else {
        assert(s =~= s.drop_last().push(s.last()));
        if comes_before(c, s.last()) {
            lemma_insert_sorted_multiset(s.drop_last(), c);
            assert(insert_sorted(s, c).to_multiset() =~= s.to_multiset().insert(c));
        }
    }
}

proof fn lemma_insert_sorted_order(s: Seq<ReviewCommentView>, c: ReviewCommentView)
    requires
        in_sort_order(s),
    ensures
        in_sort_order(insert_sorted(s, c)),
    decreases s.len(),
{
    broadcast use vstd::seq_lib::group_to_multiset_ensures;

    if s.len() > 0 {
        let last = s.last();
        let rest = s.drop_last();
        if comes_before(c, last) {
            assert(in_sort_order(rest)) by {
                assert forall|i: int, j: int| 0 <= i < j < rest.len() implies !comes_before(
                    #[trigger] rest[j],
                    #[trigger] rest[i],
                ) by {
                    assert(rest[i] == s[i] && rest[j] == s[j]);
                }
            }
            lemma_insert_sorted_order(rest, c);
            let r = insert_sorted(rest, c);
            lemma_insert_sorted_multiset(rest, c);
            assert forall|i: int, j: int| 0 <= i < j < r.push(last).len() implies !comes_before(
                #[trigger] r.push(last)[j],
                #[trigger] r.push(last)[i],
            ) by {
                if j == r.len() {
                    let x = r[i];
                    assert(r.contains(x));
                    assert(r.to_multiset().count(x) > 0);
                    if x != c {
                        assert(rest.to_multiset().count(x) > 0);
                        assert(rest.contains(x));
                        let k = choose|k: int| 0 <= k < rest.len() && rest[k] == x;
                        assert(s[k] == x);
                        assert(!comes_before(s[s.len() - 1], s[k]));
                    } else {
                        lemma_comes_before_order(c, last, c);
                    }
                } else {
                    assert(r.push(last)[i] == r[i]);
                    assert(r.push(last)[j] == r[j]);
                }
            }
        } else {
            assert forall|i: int, j: int| 0 <= i < j < s.push(c).len() implies !comes_before(
                #[trigger] s.push(c)[j],
                #[trigger] s.push(c)[i],
            ) by {
                if j == s.len() {
                    lemma_comes_before_order(c, last, s[i]);
                    if i < s.len() - 1 {
                        assert(!comes_before(s[s.len() - 1], s[i]));
                    }
                } else {
                    assert(s.push(c)[i] == s[i]);
                    assert(s.push(c)[j] == s[j]);
                }
            }
        }
    }
}

proof fn lemma_sort_comments_order(s: Seq<ReviewCommentView>)
    ensures
        in_sort_order(sort_comments(s)),
    decreases s.len(),
{
    if s.len() > 0 {
        lemma_sort_comments_order(s.drop_last());
        lemma_insert_sorted_order(sort_comments(s.drop_last()), s.last());
    }
}

/// Between comments at one line of one path: an old-side comment comes
/// before a new-side one, and on one side the smaller identifier comes first.
pub open spec fn tie_in_order(x: ReviewCommentView, y: ReviewCommentView) -> bool {
    &&& !(x.anchor.side == DiffSide::New && y.anchor.side == DiffSide::Old)
    &&& x.anchor.side == y.anchor.side ==> x.id <= y.id
}

/// Feedback lists comments by path, the comments of one path in
/// non-decreasing order of the line each anchor stands at, old side before
/// new side at one line, and then by identifier.
pub proof fn lemma_feedback_line_order(comments: Seq<ReviewCommentView>, include_outdated: bool)
    ensures
        forall|i: int, j: int|
            0 <= i < j < sort_comments(included(comments, include_outdated)).len() ==> {
                &&& !chars_lt(
                    (#[trigger] sort_comments(included(comments, include_outdated))[j]).anchor.path,
                    (#[trigger] sort_comments(included(comments, include_outdated))[i]).anchor.path,
                )
                &&& sort_comments(included(comments, include_outdated))[i].anchor.path
                    == sort_comments(included(comments, include_outdated))[j].anchor.path
                    ==> side_line(sort_comments(included(comments, include_outdated))[i].anchor)
                    <= side_line(sort_comments(included(comments, include_outdated))[j].anchor)
                &&& sort_comments(included(comments, include_outdated))[i].anchor.path
                    == sort_comments(included(comments, include_outdated))[j].anchor.path
                    && side_line(sort_comments(included(comments, include_outdated))[i].anchor)
                    == side_line(sort_comments(included(comments, include_outdated))[j].anchor)
                    ==> tie_in_order(
                    sort_comments(included(comments, include_outdated))[i],
                    sort_comments(included(comments, include_outdated))[j],
                )
            },
{
    let items = sort_comments(included(comments, include_outdated));
    lemma_sort_comments_order(included(comments, include_outdated));
    assert forall|i: int, j: int| 0 <= i < j < items.len() implies {
        &&& !chars_lt(items[j].anchor.path, items[i].anchor.path)
        &&& items[i].anchor.path == items[j].anchor.path ==> side_line(items[i].anchor) <= side_line(
            items[j].anchor,
        )
        &&& items[i].anchor.path == items[j].anchor.path && side_line(items[i].anchor) == side_line(
            items[j].anchor,
        ) ==> tie_in_order(items[i], items[j])
    } by {
        assert(!comes_before(items[j], items[i]));
    }
}

} // verus!
