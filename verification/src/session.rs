//! The review session: selection, drafts, reveal state, and rebuilding the
//! presentation as the document or the view changes.
use core::ops::Range;
use std::sync::Arc;
use vstd::prelude::*;
use vstd::utf8::encode_utf8;
use crate::anchor::{LineAnchor, LineAnchorView};
use crate::text::{chars_of, string_from_chars};
use crate::content::SourceLocation;
use crate::file_diff::DiffDocument;
use crate::model::DiffSide;
use crate::presentation::{
    file_at, last_patch_row, last_source_row, RowId, cell_anchor_of, cell_opt, first_navigable_in, last_navigable_in, max_usize, min_usize, nav_at,
    preferred_of, presented, resolved, row_cells, sat_add, CellView, ContentProjection,
    DiffPresentation, GapExpansion, GapId, Layout, PresentationOptions, PresentationView,
    PresentedCell, PresentedRow, ProjectionView, RowView, ViewMode,
};
use crate::review::{Review, ReviewSubmission, ReviewView};
use crate::snapshot::DiffSnapshot;

verus! {

/// A comment being written: the anchor and line it is about, its body, a
/// cursor in the body, and the comment it edits, if any.
#[derive(Debug)]
pub struct CommentDraft {
    anchor: LineAnchor,
    line_text: String,
    body: String,
    position: usize,
    cursor: usize,
    editing: Option<u64>,
}

/// The mathematical content of a draft: the cursor is a position between
/// characters of the body.
pub struct DraftView {
    pub anchor: LineAnchorView,
    pub line_text: Seq<char>,
    pub body: Seq<char>,
    pub position: nat,
    pub editing: Option<u64>,
}

impl View for CommentDraft {
    type V = DraftView;

    closed spec fn view(&self) -> DraftView {
        DraftView {
            anchor: self.anchor@,
            line_text: self.line_text@,
            body: self.body@,
            position: self.position as nat,
            editing: self.editing,
        }
    }
}

impl CommentDraft {
    /// The cursor sits between characters, and its byte offset is that of
    /// the UTF-8 encoding of the characters before it.
    pub closed spec fn wf(&self) -> bool {
        &&& self.position <= self.body@.len()
        &&& self.cursor == encode_utf8(self.body@.take(self.position as int)).len() as usize
    }

    fn with_body(anchor: LineAnchor, line_text: String, body: Vec<char>, position: usize, editing: Option<u64>) -> (res: CommentDraft)
        requires
            position <= body@.len(),
        ensures
            res.wf(),
            res@ == (DraftView {
                anchor: anchor@,
                line_text: line_text@,
                body: body@,
                position: position as nat,
                editing,
            }),
    {
        let before = string_from_chars(vstd::slice::slice_subrange(body.as_slice(), 0, position));
        let cursor = before.as_str().len();
        proof {
            assert(before@ == body@.take(position as int));
        }
        CommentDraft {
            anchor,
            line_text,
            body: string_from_chars(body.as_slice()),
            position,
            cursor,
            editing,
        }
    }

    /// A draft with the cursor after its body.
    pub fn new(anchor: LineAnchor, line_text: String, body: String, editing: Option<u64>) -> (res: CommentDraft)
        ensures
            res.wf(),
            res@ == (DraftView {
                anchor: anchor@,
                line_text: line_text@,
                body: body@,
                position: body@.len(),
                editing,
            }),
    {
        let chars = chars_of(body.as_str());
        let n = chars.len();
        CommentDraft::with_body(anchor, line_text, chars, n, editing)
    }

    pub fn anchor(&self) -> (res: &LineAnchor)
        ensures
            res@ == self@.anchor,
    {
        &self.anchor
    }

    pub fn line_text(&self) -> (res: &str)
        ensures
            res@ == self@.line_text,
    {
        self.line_text.as_str()
    }

    pub fn body(&self) -> (res: &str)
        ensures
            res@ == self@.body,
    {
        self.body.as_str()
    }

    /// The byte offset of the cursor in the body.
    pub fn cursor(&self) -> (res: usize)
        requires
            self.wf(),
        ensures
            res == encode_utf8(self@.body.take(self@.position as int)).len() as usize,
    {
        self.cursor
    }

    /// The body before the cursor.
    pub fn body_before_cursor(&self) -> (res: String)
        requires
            self.wf(),
        ensures
            res@ == self@.body.take(self@.position as int),
    {
        let chars = chars_of(self.body.as_str());
        string_from_chars(vstd::slice::slice_subrange(chars.as_slice(), 0, self.position))
    }

    /// The comment this draft edits, if any.
    pub fn editing(&self) -> (res: Option<u64>)
        ensures
            res == self@.editing,
    {
        self.editing
    }

    fn replace_body(&mut self, body: Vec<char>, position: usize)
        requires
            position <= body@.len(),
        ensures
            final(self).wf(),
            final(self)@ == (DraftView { body: body@, position: position as nat, ..old(self)@ }),
    {
        let before = string_from_chars(vstd::slice::slice_subrange(body.as_slice(), 0, position));
        self.cursor = before.as_str().len();
        self.body = string_from_chars(body.as_slice());
        self.position = position;
        proof {
            assert(before@ == body@.take(position as int));
        }
    }

    /// Replaces the body and puts the cursor after it.
    pub fn set_body(&mut self, body: &str)
        ensures
            final(self).wf(),
            final(self)@ == (DraftView { body: body@, position: body@.len(), ..old(self)@ }),
    {
        let chars = chars_of(body);
        let n = chars.len();
        self.replace_body(chars, n);
    }

    /// Inserts text at the cursor and moves the cursor after it.
    pub fn insert(&mut self, text: &str)
        requires
            old(self).wf(),
        ensures
            final(self).wf(),
            final(self)@ == (DraftView {
                body: old(self)@.body.take(old(self)@.position as int) + text@ + old(self)@.body.skip(
                    old(self)@.position as int,
                ),
                position: old(self)@.position + text@.len(),
                ..old(self)@
            }),
    {
        let chars = chars_of(self.body.as_str());
        let added = chars_of(text);
        let mut out: Vec<char> = Vec::new();
        crate::text::push_all(&mut out, vstd::slice::slice_subrange(chars.as_slice(), 0, self.position));
        crate::text::push_all(&mut out, added.as_slice());
        let position = out.len();
        crate::text::push_all(&mut out, vstd::slice::slice_subrange(chars.as_slice(), self.position, chars.len()));
        proof {
            assert(out@ =~= self@.body.take(self@.position as int) + text@ + self@.body.skip(self@.position as int));
        }
        self.replace_body(out, position);
    }

    /// Deletes the character before the cursor, if any.
    pub fn delete_before_cursor(&mut self)
        requires
            old(self).wf(),
        ensures
            final(self).wf(),
            final(self)@ == if old(self)@.position > 0 {
                DraftView {
                    body: old(self)@.body.take(old(self)@.position - 1) + old(self)@.body.skip(
                        old(self)@.position as int,
                    ),
                    position: (old(self)@.position - 1) as nat,
                    ..old(self)@
                }
            } else {
                old(self)@
            },
    {
        if self.position == 0 {
            return;
        }
        let chars = chars_of(self.body.as_str());
        let mut out: Vec<char> = Vec::new();
        crate::text::push_all(&mut out, vstd::slice::slice_subrange(chars.as_slice(), 0, self.position - 1));
        crate::text::push_all(&mut out, vstd::slice::slice_subrange(chars.as_slice(), self.position, chars.len()));
        proof {
            assert(out@ =~= self@.body.take(self@.position - 1) + self@.body.skip(self@.position as int));
        }
        let position = self.position - 1;
        self.replace_body(out, position);
    }

    /// Deletes the character after the cursor, if any.
    pub fn delete_at_cursor(&mut self)
        requires
            old(self).wf(),
        ensures
            final(self).wf(),
            final(self)@ == if old(self)@.position < old(self)@.body.len() {
                DraftView {
                    body: old(self)@.body.take(old(self)@.position as int) + old(self)@.body.skip(
                        old(self)@.position + 1int,
                    ),
                    ..old(self)@
                }
            } else {
                old(self)@
            },
    {
        let chars = chars_of(self.body.as_str());
        if self.position >= chars.len() {
            return;
        }
        let mut out: Vec<char> = Vec::new();
        crate::text::push_all(&mut out, vstd::slice::slice_subrange(chars.as_slice(), 0, self.position));
        crate::text::push_all(&mut out, vstd::slice::slice_subrange(chars.as_slice(), self.position + 1, chars.len()));
        proof {
            assert(out@ =~= self@.body.take(self@.position as int) + self@.body.skip(self@.position + 1int));
        }
        let position = self.position;
        self.replace_body(out, position);
    }

    fn place_cursor(&mut self, position: usize)
        requires
            position <= old(self)@.body.len(),
        ensures
            final(self).wf(),
            final(self)@ == (DraftView { position: position as nat, ..old(self)@ }),
    {
        let chars = chars_of(self.body.as_str());
        self.replace_body(chars, position);
    }

    /// Moves the cursor one character left, if it can.
    pub fn move_cursor_left(&mut self)
        requires
            old(self).wf(),
        ensures
            final(self).wf(),
            final(self)@ == (DraftView {
                position: if old(self)@.position > 0 {
                    (old(self)@.position - 1) as nat
                } else {
                    0
                },
                ..old(self)@
            }),
    {
        let position = if self.position > 0 {
            self.position - 1
        } else {
            0
        };
        self.place_cursor(position);
    }

    /// Moves the cursor one character right, if it can.
    pub fn move_cursor_right(&mut self)
        requires
            old(self).wf(),
        ensures
            final(self).wf(),
            final(self)@ == (DraftView {
                position: if old(self)@.position < old(self)@.body.len() {
                    old(self)@.position + 1
                } else {
                    old(self)@.position
                },
                ..old(self)@
            }),
    {
        let chars = chars_of(self.body.as_str());
        let position = if self.position < chars.len() {
            self.position + 1
        } else {
            self.position
        };
        self.place_cursor(position);
    }

    /// Moves the cursor before the body.
    pub fn move_cursor_to_start(&mut self)
        requires
            old(self).wf(),
        ensures
            final(self).wf(),
            final(self)@ == (DraftView { position: 0, ..old(self)@ }),
    {
        self.place_cursor(0);
    }

    /// Moves the cursor after the body.
    pub fn move_cursor_to_end(&mut self)
        requires
            old(self).wf(),
        ensures
            final(self).wf(),
            final(self)@ == (DraftView { position: old(self)@.body.len(), ..old(self)@ }),
    {
        let chars = chars_of(self.body.as_str());
        let n = chars.len();
        self.place_cursor(n);
    }
}


/// Lines revealed by one step of gap expansion.
pub const EXPAND_STEP: usize = 20;

/// How much of a gap to reveal.
#[derive(Debug, Clone, Copy, PartialEq, Eq, Structural)]
pub enum RevealAmount {
    Step,
    All,
}

/// Session presentation options.
#[derive(Debug, Clone, Copy, PartialEq, Eq, Structural)]
pub struct SessionOptions {
    pub include_file_headers: bool,
}

impl Default for SessionOptions {
    fn default() -> (res: SessionOptions)
        ensures
            res.include_file_headers,
    {
        SessionOptions { include_file_headers: true }
    }
}

/// `value` moved by `delta`: down to zero at least, up to `maximum` at most
/// (a position already past `maximum` stays where a negative move puts it).
pub open spec fn offset_of(value: usize, delta: isize, maximum: usize) -> usize {
    if delta < 0 {
        if value >= -delta {
            (value + delta) as usize
        } else {
            0
        }
    } else {
        min_usize(sat_add(value, delta as usize), maximum)
    }
}

fn offset(value: usize, delta: isize, maximum: usize) -> (res: usize)
    ensures
        res == offset_of(value, delta, maximum),
{
    if delta < 0 {
        let magnitude: usize = if delta == isize::MIN {
            (isize::MAX as usize) + 1
        } else {
            (-delta) as usize
        };
        if value >= magnitude {
            value - magnitude
        } else {
            0
        }
    } else {
        let moved = value.saturating_add(delta as usize);
        if moved <= maximum {
            moved
        } else {
            maximum
        }
    }
}

/// A source location by path view, side and line.
pub open spec fn location_view(l: SourceLocation) -> (Seq<char>, DiffSide, usize) {
    (l.path@, l.side, l.line_number)
}

pub open spec fn opt_location(l: Option<SourceLocation>) -> Option<(Seq<char>, DiffSide, usize)> {
    match l {
        Some(x) => Some(location_view(x)),
        None => None,
    }
}

/// The side a selection shows on a row: the requested side, or the other
/// one where only that has a cell.
pub open spec fn normalized_side(rows: Seq<RowView>, row: usize, side: DiffSide) -> DiffSide {
    if row < rows.len() {
        let r = rows[row as int];
        let here = match side {
            DiffSide::Old => r.left,
            DiffSide::New => r.right,
        };
        let there = match side {
            DiffSide::Old => r.right,
            DiffSide::New => r.left,
        };
        if here is None && there is Some {
            match side {
                DiffSide::Old => DiffSide::New,
                DiffSide::New => DiffSide::Old,
            }
        } else {
            side
        }
    } else {
        side
    }
}

/// The first selectable row of a file: its first navigable row, else its
/// first row; zero where there is no such file.
pub open spec fn first_row_of(pv: PresentationView, file: usize) -> usize {
    if file < pv.file_ranges.len() {
        let r = pv.file_ranges[file as int];
        match first_navigable_in(pv.rows, r.start as int, r.end as int) {
            Some(i) => i,
            None => r.start,
        }
    } else {
        0
    }
}

/// The position reached after `k` steps of navigation from `current`.
pub open spec fn walked(
    rows: Seq<RowView>,
    current: usize,
    backward: bool,
    range: Range<usize>,
    k: nat,
) -> usize
    decreases k,
{
    if k == 0 {
        current
    } else {
        let next = if backward {
            last_navigable_in(rows, range.start as int, min_usize(current, range.end) as int)
        } else {
            first_navigable_in(rows, max_usize(sat_add(current, 1), range.start) as int, range.end as int)
        };
        match next {
            Some(n) => walked(rows, n, backward, range, (k - 1) as nat),
            None => current,
        }
    }
}

/// The review session over one snapshot: its presentation, review,
/// selection, draft and reveal state.
#[derive(Debug)]
pub struct ReviewSession {
    document: Arc<DiffDocument>,
    presentation: DiffPresentation,
    review: Review,
    options: SessionOptions,
    view_mode: ViewMode,
    split_when_auto: bool,
    selected_file: usize,
    selected_row: usize,
    selected_side: DiffSide,
    draft: Option<CommentDraft>,
    projection: ContentProjection,
    projection_revision: u64,
    pending_source_restore: Option<SourceLocation>,
}

/// The mathematical content of a session.
pub struct SessionView {
    pub document: DiffDocument,
    pub presentation: PresentationView,
    pub review: ReviewView,
    pub include_file_headers: bool,
    pub view_mode: ViewMode,
    pub split_when_auto: bool,
    pub selected_file: usize,
    pub selected_row: usize,
    pub selected_side: DiffSide,
    pub draft: Option<DraftView>,
    pub projection: ProjectionView,
    pub projection_revision: u64,
    pub pending_source_restore: Option<(Seq<char>, DiffSide, usize)>,
}

pub open spec fn draft_opt(d: Option<CommentDraft>) -> Option<DraftView> {
    match d {
        Some(x) => Some(x@),
        None => None,
    }
}

/// The presentation options of a session's view state.
pub open spec fn session_options(view_mode: ViewMode, split_when_auto: bool, headers: bool) -> PresentationOptions {
    PresentationOptions { view_mode, split_when_auto, include_file_headers: headers }
}

/// Whether a presentation shows exactly `document` under `options` and
/// `projection`.
pub open spec fn presents(
    pv: PresentationView,
    document: DiffDocument,
    options: PresentationOptions,
    projection: ProjectionView,
) -> bool {
    let st = presented(document, options, projection);
    &&& pv.document == document
    &&& pv.layout == resolved(options.view_mode, options.split_when_auto)
    &&& pv.rows == st.rows
    &&& pv.gap_info == st.gap_info
    &&& pv.file_ranges == st.file_ranges
    &&& pv.hunk_ranges == st.hunk_ranges
    &&& pv.sources == projection.sources
}

impl View for ReviewSession {
    type V = SessionView;

    closed spec fn view(&self) -> SessionView {
        SessionView {
            document: *self.document,
            presentation: self.presentation@,
            review: self.review@,
            include_file_headers: self.options.include_file_headers,
            view_mode: self.view_mode,
            split_when_auto: self.split_when_auto,
            selected_file: self.selected_file,
            selected_row: self.selected_row,
            selected_side: self.selected_side,
            draft: draft_opt(self.draft),
            projection: self.projection@,
            projection_revision: self.projection_revision,
            pending_source_restore: opt_location(self.pending_source_restore),
        }
    }
}

impl ReviewSession {
    /// The presentation always shows the session's document with its view
    /// options and reveal state, and a draft keeps its cursor between
    /// characters.
    pub closed spec fn wf(&self) -> bool {
        &&& presents(
            self.presentation@,
            *self.document,
            session_options(self.view_mode, self.split_when_auto, self.options.include_file_headers),
            self.projection@,
        )
        &&& (self.draft matches Some(d) ==> d.wf())
    }

    /// The selected row's cell on the selected side, or its primary cell.
    pub open spec fn spec_selected_cell(self) -> Option<CellView> {
        let rows = self@.presentation.rows;
        if self@.selected_row < rows.len() {
            preferred_of(rows[self@.selected_row as int], self@.selected_side)
        } else {
            None
        }
    }

    /// The anchor of the selected cell.
    pub open spec fn spec_selected_anchor(self) -> Option<LineAnchorView> {
        let rows = self@.presentation.rows;
        match self.spec_selected_cell() {
            Some(c) => cell_anchor_of(self@.presentation.document, rows[self@.selected_row as int].file_index, c),
            None => None,
        }
    }

    fn normalize_selected_side(&mut self)
        ensures
            final(self)@ == (SessionView {
                selected_side: normalized_side(old(self)@.presentation.rows, old(self)@.selected_row, old(self)@.selected_side),
                ..old(self)@
            }),
            old(self).wf() ==> final(self).wf(),
    {
        let row = match self.presentation.row(self.selected_row) {
            Some(r) => r,
            None => return,
        };
        let side = self.selected_side;
        if row.cell(side).is_none() && row.cell(side.opposite()).is_some() {
            self.selected_side = side.opposite();
        }
    }

    fn select_first_row(&mut self)
        ensures
            final(self)@ == (SessionView {
                selected_row: first_row_of(old(self)@.presentation, old(self)@.selected_file),
                selected_side: normalized_side(
                    old(self)@.presentation.rows,
                    first_row_of(old(self)@.presentation, old(self)@.selected_file),
                    old(self)@.selected_side,
                ),
                ..old(self)@
            }),
            old(self).wf() ==> final(self).wf(),
    {
        match self.presentation.file_range(self.selected_file) {
            Some(range) => {
                let start = range.start;
                self.selected_row = match self.presentation.first_navigable(range) {
                    Some(i) => i,
                    None => start,
                };
            },
            None => {
                self.selected_row = 0;
            },
        }
        self.normalize_selected_side();
    }

    pub fn document(&self) -> (res: &Arc<DiffDocument>)
        ensures
            **res == self@.document,
    {
        &self.document
    }

    pub fn presentation(&self) -> (res: &DiffPresentation)
        ensures
            res@ == self@.presentation,
    {
        &self.presentation
    }

    pub fn review(&self) -> (res: &Review)
        ensures
            res@ == self@.review,
    {
        &self.review
    }

    pub fn view_mode(&self) -> (res: ViewMode)
        ensures
            res == self@.view_mode,
    {
        self.view_mode
    }

    pub fn layout(&self) -> (res: Layout)
        ensures
            res == resolved(self@.view_mode, self@.split_when_auto),
    {
        self.view_mode.resolve(self.split_when_auto)
    }

    /// The selected file, where the document has one.
    pub fn selected_file(&self) -> (res: Option<usize>)
        ensures
            res == if self@.document.files@.len() > 0 {
                Some(self@.selected_file)
            } else {
                None
            },
    {
        if self.document.files.len() > 0 {
            Some(self.selected_file)
        } else {
            None
        }
    }

    /// The selected row, where the presentation has rows.
    pub fn selected_row(&self) -> (res: Option<usize>)
        ensures
            res == if self@.presentation.rows.len() > 0 {
                Some(self@.selected_row)
            } else {
                None
            },
    {
        if self.presentation.row_count() != 0 {
            Some(self.selected_row)
        } else {
            None
        }
    }

    pub fn selected_side(&self) -> (res: DiffSide)
        ensures
            res == self@.selected_side,
    {
        self.selected_side
    }

    /// The rows of the selected file.
    pub fn selected_file_range(&self) -> (res: Option<Range<usize>>)
        ensures
            match res {
                Some(r) => self@.selected_file < self@.presentation.file_ranges.len() && r
                    == self@.presentation.file_ranges[self@.selected_file as int],
                None => self@.selected_file >= self@.presentation.file_ranges.len(),
            },
    {
        self.presentation.file_range(self.selected_file)
    }

    pub fn draft(&self) -> (res: Option<&CommentDraft>)
        ensures
            match res {
                Some(d) => self@.draft == Some(d@),
                None => self@.draft is None,
            },
    {
        match &self.draft {
            Some(d) => Some(d),
            None => None,
        }
    }

    pub fn projection_revision(&self) -> (res: u64)
        ensures
            res == self@.projection_revision,
    {
        self.projection_revision
    }

    /// The selected row, if it exists.
    pub fn selected_presented_row(&self) -> (res: Option<&PresentedRow>)
        ensures
            match res {
                Some(r) => self@.selected_row < self@.presentation.rows.len() && r@
                    == self@.presentation.rows[self@.selected_row as int],
                None => self@.selected_row >= self@.presentation.rows.len(),
            },
    {
        self.presentation.row(self.selected_row)
    }

    /// The selected cell: on the selected side, or the row's primary cell.
    pub fn selected_cell(&self) -> (res: Option<&PresentedCell>)
        ensures
            crate::presentation::cell_ref_view(res) == self.spec_selected_cell(),
    {
        match self.selected_presented_row() {
            Some(row) => row.preferred_cell(self.selected_side),
            None => None,
        }
    }

    /// The anchor of the selected cell.
    pub fn selected_anchor(&self) -> (res: Option<LineAnchor>)
        ensures
            crate::presentation::anchor_opt(res) == self.spec_selected_anchor(),
    {
        let row = match self.selected_presented_row() {
            Some(r) => r,
            None => return None,
        };
        match row.preferred_cell(self.selected_side) {
            Some(cell) => self.presentation.cell_anchor(row, cell),
            None => None,
        }
    }

    /// The source location of the selected cell.
    pub fn selected_source_line(&self) -> (res: Option<SourceLocation>)
        ensures
            match self.spec_selected_cell() {
                Some(c) => match c.source_line {
                    Some(l) => {
                        let f = self@.presentation.rows[self@.selected_row as int].file_index;
                        if f < self@.presentation.document.files@.len() {
                            res matches Some(loc) && loc.path == self@.presentation.document.files@[f as int].path
                                && loc.side == l.side && loc.line_number == l.line_number
                        } else {
                            res is None
                        }
                    },
                    None => res is None,
                },
                None => res is None,
            },
    {
        let row = match self.selected_presented_row() {
            Some(r) => r,
            None => return None,
        };
        match row.preferred_cell(self.selected_side) {
            Some(cell) => self.presentation.source_location(row, cell),
            None => None,
        }
    }

    /// The identifier of the last comment on the selected anchor.
    pub fn comment_id_at_selection(&self) -> (res: Option<u64>)
        ensures
            res == selected_comment_id(self@.review.comments, self.spec_selected_anchor()),
    {
        let anchor = match self.selected_anchor() {
            Some(a) => a,
            None => return None,
        };
        let on = self.review.comments_for_anchor(&anchor);
        if on.len() > 0 {
            proof {
                assert(crate::review::comment_views(on@)[on@.len() - 1] == on@[on@.len() - 1]@);
            }
            Some(on[on.len() - 1].id)
        } else {
            None
        }
    }

    /// The identifier of the most recent comment.
    pub fn last_comment_id(&self) -> (res: Option<u64>)
        ensures
            res == if self@.review.comments.len() > 0 {
                Some(self@.review.comments.last().id)
            } else {
                None
            },
    {
        let comments = self.review.comments();
        if comments.len() > 0 {
            proof {
                assert(crate::review::comment_views(comments@)[comments@.len() - 1] == comments@[comments@.len() - 1]@);
            }
            Some(comments[comments.len() - 1].id)
        } else {
            None
        }
    }

    /// The review's submission.
    pub fn submission(&self) -> (res: ReviewSubmission)
        ensures
            crate::review::comment_views(res.comments@) == self@.review.comments,
            res.formatted@ == crate::review::formatted_review(
                self@.review.comments,
                "I'm reviewing the working tree diff. Here are my comments:"@,
                true,
            ),
    {
        self.review.submission()
    }

    /// Discards every comment and the draft.
    pub fn clear_review(&mut self)
        requires
            old(self).wf(),
        ensures
            final(self).wf(),
            final(self)@ == (SessionView {
                review: ReviewView { comments: Seq::empty(), next_id: old(self)@.review.next_id },
                draft: None,
                ..old(self)@
            }),
    {
        self.review.clear();
        self.draft = None;
    }

    /// Discards the draft.
    pub fn cancel_draft(&mut self)
        requires
            old(self).wf(),
        ensures
            final(self).wf(),
            final(self)@ == (SessionView { draft: None, ..old(self)@ }),
    {
        self.draft = None;
    }
}


/// The first row with an identity.
pub open spec fn first_row_with_id(rows: Seq<RowView>, id: RowId) -> Option<usize>
    decreases rows.len(),
{
    if rows.len() == 0 {
        None
    } else {
        match first_row_with_id(rows.drop_last(), id) {
            Some(i) => Some(i),
            None => if rows.last().id == id {
                Some((rows.len() - 1) as usize)
            } else {
                None
            },
        }
    }
}

/// The row of a presentation that shows a source location.
pub open spec fn source_row_of(pv: PresentationView, l: (Seq<char>, DiffSide, usize)) -> Option<usize> {
    match file_at(pv.document.files@, l.0) {
        Some(f) => last_source_row(pv.rows, f, l.1, l.2),
        None => None,
    }
}

/// The row of a presentation that shows an anchor.
pub open spec fn anchor_row_of(pv: PresentationView, a: LineAnchorView) -> Option<usize> {
    match (file_at(pv.document.files@, a.path), a.view_number()) {
        (Some(f), Some(n)) => last_patch_row(pv.rows, f, a.side, n),
        _ => None,
    }
}

/// The first of `cells` with a patch source on `side` and line number `n`.
pub open spec fn matching_cell(cells: Seq<CellView>, side: DiffSide, n: Option<usize>) -> Option<CellView>
    decreases cells.len(),
{
    if cells.len() == 0 {
        None
    } else if (cells[0].patch_source matches Some(s) && s.side == side)
        && crate::presentation::cell_line_number(cells[0]) == n {
        Some(cells[0])
    } else {
        matching_cell(cells.drop_first(), side, n)
    }
}

/// Whether a draft's anchor still addresses the same line in a presentation.
pub open spec fn draft_current(pv: PresentationView, a: LineAnchorView) -> bool {
    match anchor_row_of(pv, a) {
        Some(r) => r < pv.rows.len() && match matching_cell(row_cells(pv.rows[r as int]), a.side, a.view_number()) {
            Some(c) => cell_anchor_of(pv.document, pv.rows[r as int].file_index, c) == Some(a),
            None => false,
        },
        None => false,
    }
}

/// The location of a session's selected cell, as a view.
pub open spec fn selected_location(sv: SessionView) -> Option<(Seq<char>, DiffSide, usize)> {
    let rows = sv.presentation.rows;
    if sv.selected_row < rows.len() {
        match preferred_of(rows[sv.selected_row as int], sv.selected_side) {
            Some(c) => match c.source_line {
                Some(l) => {
                    let f = rows[sv.selected_row as int].file_index;
                    if f < sv.presentation.document.files@.len() {
                        Some((sv.presentation.document.files@[f as int].path@, l.side, l.line_number))
                    } else {
                        None
                    }
                },
                None => None,
            },
            None => None,
        }
    } else {
        None
    }
}

/// The anchor of a session's selected cell.
pub open spec fn selected_anchor_of(sv: SessionView) -> Option<LineAnchorView> {
    let rows = sv.presentation.rows;
    if sv.selected_row < rows.len() {
        match preferred_of(rows[sv.selected_row as int], sv.selected_side) {
            Some(c) => cell_anchor_of(sv.presentation.document, rows[sv.selected_row as int].file_index, c),
            None => None,
        }
    } else {
        None
    }
}

/// The selection after a rebuild: the row showing `source`, else the row
/// with identity `selected_id`, else the row showing `anchor`, else the
/// selected file's first row; a source line that is not shown stays pending.
pub open spec fn restored_selection(
    sv: SessionView,
    source: Option<(Seq<char>, DiffSide, usize)>,
    selected_id: Option<RowId>,
    anchor: Option<LineAnchorView>,
) -> SessionView {
    let pv = sv.presentation;
    let source_row = match source {
        Some(l) => source_row_of(pv, l),
        None => None,
    };
    let restored = match source_row {
        Some(r) => Some(r),
        None => match (match selected_id {
            Some(id) => first_row_with_id(pv.rows, id),
            None => None,
        }) {
            Some(r) => Some(r),
            None => match anchor {
                Some(a) => anchor_row_of(pv, a),
                None => None,
            },
        },
    };
    let (row, file) = match restored {
        Some(r) => (r, if r < pv.rows.len() {
            pv.rows[r as int].file_index
        } else {
            sv.selected_file
        }),
        None => (first_row_of(pv, sv.selected_file), sv.selected_file),
    };
    SessionView {
        pending_source_restore: if source_row is None {
            source
        } else {
            None
        },
        selected_row: row,
        selected_file: file,
        selected_side: normalized_side(pv.rows, row, sv.selected_side),
        ..sv
    }
}

/// A session after its presentation is rebuilt as `pv`: the selection is
/// restored from the previous one, and a draft whose line changed is
/// dropped.
pub open spec fn rebuilt(old: SessionView, pv: PresentationView) -> SessionView {
    let source = match old.pending_source_restore {
        Some(l) => Some(l),
        None => selected_location(old),
    };
    let selected_id = if old.selected_row < old.presentation.rows.len() {
        Some(old.presentation.rows[old.selected_row as int].id)
    } else {
        None
    };
    let mid = SessionView {
        presentation: pv,
        projection_revision: (if old.projection_revision == u64::MAX {
            0
        } else {
            old.projection_revision + 1
        }) as u64,
        ..old
    };
    let sel = restored_selection(mid, source, selected_id, selected_anchor_of(old));
    let keep_draft = match old.draft {
        Some(d) => draft_current(pv, d.anchor),
        None => true,
    };
    SessionView {
        draft: if keep_draft {
            old.draft
        } else {
            None
        },
        ..sel
    }
}

fn duplicate_location(l: &SourceLocation) -> (res: SourceLocation)
    ensures
        res == *l,
{
    SourceLocation { path: l.path.duplicate(), side: l.side, line_number: l.line_number }
}

fn find_row_with_id(presentation: &DiffPresentation, id: RowId) -> (res: Option<usize>)
    ensures
        res == first_row_with_id(presentation@.rows, id),
{
    let n = presentation.row_count();
    let mut i: usize = 0;
    while i < n
        invariant
            i <= n,
            n == presentation@.rows.len(),
            first_row_with_id(presentation@.rows.take(i as int), id) is None,
        decreases n - i,
    {
        let row = presentation.row(i).unwrap();
        proof {
            assert(presentation@.rows.take(i + 1).drop_last() =~= presentation@.rows.take(i as int));
        }
        if row.id == id {
            proof {
                lemma_first_row_prefix(presentation@.rows, id, i + 1);
            }
            return Some(i);
        }
        i = i + 1;
    }
    proof {
        assert(presentation@.rows.take(i as int) =~= presentation@.rows);
    }
    None
}

proof fn lemma_first_row_prefix(rows: Seq<RowView>, id: RowId, n: int)
    requires
        0 <= n <= rows.len(),
        first_row_with_id(rows.take(n), id) is Some,
    ensures
        first_row_with_id(rows, id) == first_row_with_id(rows.take(n), id),
    decreases rows.len(),
{
    if n < rows.len() {
        assert(rows.drop_last().take(n) =~= rows.take(n));
        lemma_first_row_prefix(rows.drop_last(), id, n);
    } else {
        assert(rows.take(n) =~= rows);
    }
}

fn matching_cell_of<'a>(row: &'a PresentedRow, side: DiffSide, n: Option<usize>) -> (res: Option<&'a PresentedCell>)
    ensures
        crate::presentation::cell_ref_view(res) == matching_cell(row_cells(row@), side, n),
{
    let ghost cells = row_cells(row@);
    proof {
        reveal_with_fuel(matching_cell, 3);
    }
    match &row.left {
        Some(c) => {
            proof {
                assert(cells[0] == c@);
            }
            let hit = match c.patch_source {
                Some(s) => s.side == side && c.line_number() == n,
                None => false,
            };
            if hit {
                return Some(c);
            }
            proof {
                assert(cells.drop_first() =~= match row@.right {
                    Some(r) => seq![r],
                    None => Seq::<CellView>::empty(),
                });
            }
        },
        None => {
            proof {
                assert(cells =~= match row@.right {
                    Some(r) => seq![r],
                    None => Seq::<CellView>::empty(),
                });
            }
        },
    }
    match &row.right {
        Some(c) => {
            let hit = match c.patch_source {
                Some(s) => s.side == side && c.line_number() == n,
                None => false,
            };
            proof {
                let one = seq![c@];
                assert(one[0] == c@);
                assert(one.drop_first() =~= Seq::<CellView>::empty());
            }
            if hit {
                Some(c)
            } else {
                None
            }
        },
        None => None,
    }
}

fn draft_is_current(presentation: &DiffPresentation, anchor: &LineAnchor) -> (res: bool)
    ensures
        res == draft_current(presentation@, anchor@),
{
    let r = match presentation.row_showing_anchor(anchor) {
        Some(r) => r,
        None => return false,
    };
    let row = match presentation.row(r) {
        Some(row) => row,
        None => return false,
    };
    let n = anchor.line_number();
    match matching_cell_of(row, anchor.side, n) {
        Some(cell) => match presentation.cell_anchor(row, cell) {
            Some(current) => current.same_as(anchor),
            None => false,
        },
        None => false,
    }
}

impl ReviewSession {
    fn restore_selection(
        &mut self,
        source: Option<SourceLocation>,
        selected_id: Option<RowId>,
        anchor: Option<LineAnchor>,
    )
        ensures
            final(self)@ == restored_selection(
                old(self)@,
                opt_location(source),
                selected_id,
                crate::presentation::anchor_opt(anchor),
            ),
            old(self).wf() ==> final(self).wf(),
    {
        let source_row = match &source {
            Some(l) => self.presentation.row_showing_source(l),
            None => None,
        };
        self.pending_source_restore = if source_row.is_none() {
            source
        } else {
            None
        };
        let by_id = match source_row {
            Some(_) => None,
            None => match selected_id {
                Some(id) => find_row_with_id(&self.presentation, id),
                None => None,
            },
        };
        let restored = match source_row {
            Some(r) => Some(r),
            None => match by_id {
                Some(r) => Some(r),
                None => match &anchor {
                    Some(a) => self.presentation.row_showing_anchor(a),
                    None => None,
                },
            },
        };
        match restored {
            Some(r) => {
                self.selected_row = r;
                self.selected_file = match self.presentation.row(r) {
                    Some(row) => row.file_index,
                    None => self.selected_file,
                };
                self.normalize_selected_side();
            },
            None => {
                self.select_first_row();
            },
        }
    }
}

impl ReviewSession {
    #[verifier::spinoff_prover]
    fn rebuild(&mut self)
        requires
            old(self).draft matches Some(d) ==> d.wf(),
        ensures
            final(self).wf(),
            is_rebuild_of(final(self)@, old(self)@),
    {
        let source: Option<SourceLocation> = match &self.pending_source_restore {
            Some(l) => Some(duplicate_location(l)),
            None => self.selected_source_line(),
        };
        let selected_id = match self.presentation.row(self.selected_row) {
            Some(row) => Some(row.id),
            None => None,
        };
        let anchor = self.selected_anchor();
        let draft_anchor = match &self.draft {
            Some(d) => Some(d.anchor().duplicate()),
            None => None,
        };
        let ghost old_view = self@;
        let options = PresentationOptions {
            view_mode: self.view_mode,
            split_when_auto: self.split_when_auto,
            include_file_headers: self.options.include_file_headers,
        };
        self.presentation = DiffPresentation::with_sources(self.document.clone(), options, &self.projection);
        self.projection_revision = self.projection_revision.wrapping_add(1);
        let ghost mid = self@;
        self.restore_selection(source, selected_id, anchor);
        let keep = match &draft_anchor {
            Some(a) => draft_is_current(&self.presentation, a),
            None => true,
        };
        if !keep {
            self.draft = None;
        }
        proof {
            let pv = self.presentation@;
            assert(opt_location(source) == match old_view.pending_source_restore {
                Some(l) => Some(l),
                None => selected_location(old_view),
            });
            assert(self@ == rebuilt(old_view, pv));
        }
    }
}

/// The identifier of the last comment on an anchor.
pub open spec fn selected_comment_id(
    comments: Seq<crate::review::ReviewCommentView>,
    anchor: Option<LineAnchorView>,
) -> Option<u64> {
    match anchor {
        Some(a) => {
            let on = comments.filter(|c: crate::review::ReviewCommentView| c.anchor == a);
            if on.len() > 0 {
                Some(on.last().id)
            } else {
                None
            }
        },
        None => None,
    }
}

/// Every element of a filtered sequence is an element of the sequence.
pub proof fn lemma_filter_member<A>(s: Seq<A>, pred: spec_fn(A) -> bool, i: int)
    requires
        0 <= i < s.filter(pred).len(),
    ensures
        exists|k: int| 0 <= k < s.len() && s[k] == s.filter(pred)[i],
    decreases s.len(),
{
    reveal(Seq::filter);
    if s.len() > 0 {
        let init = s.drop_last();
        let f = init.filter(pred);
        if i < f.len() {
            lemma_filter_member(init, pred, i);
            let k = choose|k: int| 0 <= k < init.len() && init[k] == f[i];
            assert(s[k] == init[k]);
            assert(s.filter(pred)[i] == f[i]);
        } else {
            assert(s.filter(pred)[i] == s.last());
            assert(s[s.len() - 1] == s.last());
        }
    }
}

/// Whether a character is Unicode white space.
pub open spec fn is_white(c: char) -> bool {
    ||| c == '\t' || c == '\n' || c == '\u{0B}' || c == '\u{0C}' || c == '\r' || c == ' '
    ||| c == '\u{85}' || c == '\u{A0}' || c == '\u{1680}'
    ||| ('\u{2000}' <= c && c <= '\u{200A}')
    ||| c == '\u{2028}' || c == '\u{2029}' || c == '\u{202F}' || c == '\u{205F}' || c == '\u{3000}'
}

/// Whether a text holds nothing but white space.
pub open spec fn is_blank(text: Seq<char>) -> bool {
    forall|i: int| 0 <= i < text.len() ==> is_white(#[trigger] text[i])
}

pub(crate) fn white(c: char) -> (res: bool)
    ensures
        res == is_white(c),
{
    c == '\t' || c == '\n' || c == '\u{0B}' || c == '\u{0C}' || c == '\r' || c == ' ' || c == '\u{85}'
        || c == '\u{A0}' || c == '\u{1680}' || ('\u{2000}' <= c && c <= '\u{200A}') || c == '\u{2028}'
        || c == '\u{2029}' || c == '\u{202F}' || c == '\u{205F}' || c == '\u{3000}'
}

pub(crate) fn blank(text: &str) -> (res: bool)
    ensures
        res == is_blank(text@),
{
    let chars = chars_of(text);
    let mut i: usize = 0;
    while i < chars.len()
        invariant
            i <= chars@.len(),
            chars@ == text@,
            forall|k: int| 0 <= k < i ==> is_white(#[trigger] chars@[k]),
        decreases chars@.len() - i,
    {
        if !white(chars[i]) {
            return false;
        }
        i = i + 1;
    }
    true
}

/// The gap that revealing from a session's selection opens: the selected gap
/// row's, else the edge of the selected code cell's hunk nearest to it.
pub open spec fn reveal_target(sv: SessionView) -> Option<GapId> {
    let rows = sv.presentation.rows;
    let r = sv.selected_row;
    match crate::presentation::lookup(sv.presentation.gap_info, r) {
        Some(info) => Some(info.id),
        None => if r < rows.len() {
            match preferred_of(rows[r as int], sv.selected_side) {
                Some(c) => match c.patch_source {
                    Some(s) => {
                        let f = rows[r as int].file_index;
                        let files = sv.presentation.document.files@;
                        if f < files.len() && s.hunk_index < files[f as int].hunks@.len() {
                            let count = files[f as int].hunks@[s.hunk_index as int].lines@.len();
                            let after = 2 * s.line_index >= count;
                            Some(
                                GapId {
                                    file_index: f,
                                    gap_index: (s.hunk_index + if after {
                                        1int
                                    } else {
                                        0int
                                    }) as usize,
                                },
                            )
                        } else {
                            None
                        }
                    },
                    None => None,
                },
                None => None,
            }
        } else {
            None
        },
    }
}

/// A gap's expansion after revealing `amount` more lines: at the end facing
/// a hunk on each side (both ends for a file without hunks).
pub open spec fn revealed(e: GapExpansion, gap_index: usize, hunk_count: usize, amount: usize) -> GapExpansion {
    GapExpansion {
        revealed_prefix: if gap_index != 0 || hunk_count == 0 {
            sat_add(e.revealed_prefix, amount)
        } else {
            e.revealed_prefix
        },
        revealed_suffix: if gap_index != hunk_count || hunk_count == 0 {
            sat_add(e.revealed_suffix, amount)
        } else {
            e.revealed_suffix
        },
    }
}

pub open spec fn amount_of(amount: RevealAmount) -> usize {
    match amount {
        RevealAmount::Step => EXPAND_STEP,
        RevealAmount::All => usize::MAX,
    }
}

/// Whether a rebuilt session is what `rebuilt` makes of `before`.
pub open spec fn is_rebuild_of(after: SessionView, before: SessionView) -> bool {
    &&& presents(
        after.presentation,
        before.document,
        session_options(before.view_mode, before.split_when_auto, before.include_file_headers),
        before.projection,
    )
    &&& after == rebuilt(before, after.presentation)
}

impl ReviewSession {
    /// A session over a document with the default options.
    pub fn new(document: Arc<DiffDocument>) -> (res: ReviewSession)
        ensures
            res.wf(),
            res@.document == *document,
            res@.include_file_headers,
            res@.view_mode == ViewMode::Auto,
            !res@.split_when_auto,
            res@.review.comments == Seq::<crate::review::ReviewCommentView>::empty(),
            res@.review.next_id == 0,
            res@.projection.sources == Seq::<((Seq<char>, DiffSide), crate::file_diff::SourceResult)>::empty(),
            res@.projection.expansions == Seq::<(GapId, GapExpansion)>::empty(),
            res@.projection.full_files == Seq::<Seq<char>>::empty(),
            res@.selected_file == 0,
            res@.selected_row == first_row_of(res@.presentation, 0),
            res@.selected_side == normalized_side(res@.presentation.rows, res@.selected_row, DiffSide::New),
            res@.draft is None,
            res@.projection_revision == 0,
            res@.pending_source_restore is None,
    {
        ReviewSession::with_options(document, SessionOptions::default())
    }

    /// A session over a document, selecting the first file's first row.
    pub fn with_options(document: Arc<DiffDocument>, options: SessionOptions) -> (res: ReviewSession)
        ensures
            res.wf(),
            res@.document == *document,
            res@.include_file_headers == options.include_file_headers,
            res@.view_mode == ViewMode::Auto,
            !res@.split_when_auto,
            res@.review.comments == Seq::<crate::review::ReviewCommentView>::empty(),
            res@.review.next_id == 0,
            res@.projection.sources == Seq::<((Seq<char>, DiffSide), crate::file_diff::SourceResult)>::empty(),
            res@.projection.expansions == Seq::<(GapId, GapExpansion)>::empty(),
            res@.projection.full_files == Seq::<Seq<char>>::empty(),
            res@.selected_file == 0,
            res@.selected_row == first_row_of(res@.presentation, 0),
            res@.selected_side == normalized_side(res@.presentation.rows, res@.selected_row, DiffSide::New),
            res@.draft is None,
            res@.projection_revision == 0,
            res@.pending_source_restore is None,
    {
        let presentation = DiffPresentation::new(
            document.clone(),
            PresentationOptions {
                view_mode: ViewMode::Auto,
                split_when_auto: false,
                include_file_headers: options.include_file_headers,
            },
        );
        let mut session = ReviewSession {
            presentation,
            document,
            review: Review::default(),
            options,
            view_mode: ViewMode::Auto,
            split_when_auto: false,
            selected_file: 0,
            selected_row: 0,
            selected_side: DiffSide::New,
            draft: None,
            projection: ContentProjection::default(),
            projection_revision: 0,
            pending_source_restore: None,
        };
        session.select_first_row();
        session
    }

    /// A session over a complete snapshot, its sources loaded.
    pub fn from_snapshot(snapshot: DiffSnapshot) -> (res: ReviewSession)
        ensures
            res.wf(),
            res@.document == snapshot@.document,
            res@.projection.sources == snapshot@.sources,
            res@.projection.expansions == Seq::<(GapId, GapExpansion)>::empty(),
            res@.projection.full_files == Seq::<Seq<char>>::empty(),
            res@.review.comments == Seq::<crate::review::ReviewCommentView>::empty(),
            res@.view_mode == ViewMode::Auto,
            !res@.split_when_auto,
            res@.draft is None,
    {
        let (document, sources) = snapshot.into_parts();
        let mut session = ReviewSession::new(document);
        session.projection.replace_sources(sources);
        session.rebuild();
        session
    }

    /// Replaces the snapshot while preserving review and view state.
    pub fn set_snapshot(&mut self, snapshot: DiffSnapshot)
        requires
            old(self).wf(),
        ensures
            final(self).wf(),
            final(self)@.document == snapshot@.document,
            final(self)@.projection.sources == snapshot@.sources,
            final(self)@.view_mode == old(self)@.view_mode,
            final(self)@.split_when_auto == old(self)@.split_when_auto,
    {
        let (document, sources) = snapshot.into_parts();
        self.set_document(document);
        self.projection.replace_sources(sources);
        self.rebuild();
    }

    /// Installs a replacement document: comments are reconciled against it,
    /// the selected path stays selected where it still exists, sources and
    /// expansions are forgotten, and the presentation is rebuilt.
    pub fn set_document(&mut self, document: Arc<DiffDocument>)
        requires
            old(self).wf(),
        ensures
            final(self).wf(),
            final(self)@.document == *document,
            final(self)@.review.next_id == old(self)@.review.next_id,
            final(self)@.review.comments.len() == old(self)@.review.comments.len(),
            forall|i: int|
                0 <= i < old(self)@.review.comments.len() ==> #[trigger] final(self)@.review.comments[i]
                    == crate::review::reconciled(old(self)@.review.comments[i], *document),
            final(self)@.projection.sources == Seq::<((Seq<char>, DiffSide), crate::file_diff::SourceResult)>::empty(),
            final(self)@.projection.expansions == Seq::<(GapId, GapExpansion)>::empty(),
            final(self)@.projection.full_files == old(self)@.projection.full_files.filter(
                |p: Seq<char>| file_at(document.files@, p) is Some,
            ),
            final(self)@.view_mode == old(self)@.view_mode,
            final(self)@.split_when_auto == old(self)@.split_when_auto,
    {
        let selected_path = if self.selected_file < self.document.files.len() {
            Some(self.document.files[self.selected_file].path.duplicate())
        } else {
            None
        };
        self.review.reconcile(&document);
        let found = match &selected_path {
            Some(p) => document.file_index(p),
            None => None,
        };
        let index = match found {
            Some(i) => i,
            None => 0,
        };
        let last = if document.files.len() > 0 {
            document.files.len() - 1
        } else {
            0
        };
        self.selected_file = if index <= last {
            index
        } else {
            last
        };
        self.projection.reset_for(&document);
        let drop_pending = match &self.pending_source_restore {
            Some(l) => document.file_index(&l.path).is_none(),
            None => false,
        };
        if drop_pending {
            self.pending_source_restore = None;
        }
        self.document = document;
        self.rebuild();
    }

    /// Sets the requested view mode; rebuilds where the layout changes.
    /// Returns whether the mode changed.
    pub fn set_view_mode(&mut self, mode: ViewMode) -> (res: bool)
        requires
            old(self).wf(),
        ensures
            final(self).wf(),
            res == (old(self)@.view_mode != mode),
            !res ==> final(self)@ == old(self)@,
            res && resolved(mode, old(self)@.split_when_auto) == resolved(old(self)@.view_mode, old(self)@.split_when_auto)
                ==> final(self)@ == (SessionView { view_mode: mode, ..old(self)@ }),
            res && resolved(mode, old(self)@.split_when_auto) != resolved(old(self)@.view_mode, old(self)@.split_when_auto)
                ==> is_rebuild_of(final(self)@, SessionView { view_mode: mode, ..old(self)@ }),
    {
        if self.view_mode == mode {
            return false;
        }
        let previous = self.layout();
        self.view_mode = mode;
        if self.layout() != previous {
            self.rebuild();
        } else {
            proof {
                crate::presentation::lemma_presented_by_layout(
                    self@.document,
                    session_options(mode, self.split_when_auto, self.options.include_file_headers),
                    session_options(old(self)@.view_mode, self.split_when_auto, self.options.include_file_headers),
                    self.projection@,
                );
            }
        }
        true
    }

    /// Moves to the next view mode.
    pub fn cycle_view_mode(&mut self) -> (res: bool)
        requires
            old(self).wf(),
        ensures
            final(self).wf(),
            res,
            final(self)@.view_mode == crate::presentation::mode_after(old(self)@.view_mode),
    {
        let next = self.view_mode.next();
        self.set_view_mode(next)
    }

    /// Sets how `Auto` resolves. Returns whether the layout changed, which
    /// is when the presentation is rebuilt.
    pub fn set_split_when_auto(&mut self, split: bool) -> (res: bool)
        requires
            old(self).wf(),
        ensures
            final(self).wf(),
            old(self)@.split_when_auto == split ==> !res && final(self)@ == old(self)@,
            old(self)@.split_when_auto != split ==> (res == (resolved(old(self)@.view_mode, split)
                != resolved(old(self)@.view_mode, old(self)@.split_when_auto))),
            old(self)@.split_when_auto != split && !res ==> final(self)@ == (SessionView {
                split_when_auto: split,
                ..old(self)@
            }),
            res ==> is_rebuild_of(final(self)@, SessionView { split_when_auto: split, ..old(self)@ }),
    {
        if self.split_when_auto == split {
            return false;
        }
        let previous = self.layout();
        self.split_when_auto = split;
        if self.layout() == previous {
            proof {
                crate::presentation::lemma_presented_by_layout(
                    self@.document,
                    session_options(self.view_mode, split, self.options.include_file_headers),
                    session_options(self.view_mode, old(self)@.split_when_auto, self.options.include_file_headers),
                    self.projection@,
                );
            }
            return false;
        }
        self.rebuild();
        true
    }

    /// Selects a file and its first row, dropping the draft.
    pub fn select_file(&mut self, index: usize) -> (res: bool)
        requires
            old(self).wf(),
        ensures
            final(self).wf(),
            res == (index < old(self)@.document.files@.len()),
            !res ==> final(self)@ == old(self)@,
            res ==> final(self)@ == (SessionView {
                selected_file: index,
                selected_row: first_row_of(old(self)@.presentation, index),
                selected_side: normalized_side(
                    old(self)@.presentation.rows,
                    first_row_of(old(self)@.presentation, index),
                    old(self)@.selected_side,
                ),
                draft: None,
                pending_source_restore: None,
                ..old(self)@
            }),
    {
        if index >= self.document.files.len() {
            return false;
        }
        self.pending_source_restore = None;
        self.selected_file = index;
        self.draft = None;
        self.select_first_row();
        true
    }

    /// Moves the file selection by `delta`, clamped to the files.
    pub fn move_file(&mut self, delta: isize) -> (res: Option<usize>)
        requires
            old(self).wf(),
        ensures
            final(self).wf(),
            old(self)@.document.files@.len() == 0 ==> res is None && final(self)@ == old(self)@,
            old(self)@.document.files@.len() > 0 ==> ({
                let index = offset_of(old(self)@.selected_file, delta, (old(self)@.document.files@.len() - 1) as usize);
                res == if index < old(self)@.document.files@.len() {
                    Some(index)
                } else {
                    None
                }
            }),
    {
        if self.document.files.len() == 0 {
            return None;
        }
        let index = offset(self.selected_file, delta, self.document.files.len() - 1);
        if self.select_file(index) {
            Some(index)
        } else {
            None
        }
    }

    /// Selects a navigable row.
    pub fn select_row(&mut self, index: usize) -> (res: bool)
        requires
            old(self).wf(),
        ensures
            final(self).wf(),
            res == nav_at(old(self)@.presentation.rows, index as int),
            !res ==> final(self)@ == old(self)@,
            res ==> final(self)@ == (SessionView {
                selected_row: index,
                selected_side: normalized_side(old(self)@.presentation.rows, index, old(self)@.selected_side),
                pending_source_restore: None,
                ..old(self)@
            }),
    {
        if !self.presentation.is_navigable(index) {
            return false;
        }
        self.pending_source_restore = None;
        self.selected_row = index;
        self.normalize_selected_side();
        true
    }

    /// Selects the first (or, at `end`, the last) navigable row of the file.
    pub fn select_boundary(&mut self, end: bool)
        requires
            old(self).wf(),
        ensures
            final(self).wf(),
            ({
                let pv = old(self)@.presentation;
                let cleared = SessionView { pending_source_restore: None, ..old(self)@ };
                if old(self)@.selected_file < pv.file_ranges.len() {
                    let r = pv.file_ranges[old(self)@.selected_file as int];
                    let target = if end {
                        last_navigable_in(pv.rows, r.start as int, r.end as int)
                    } else {
                        first_navigable_in(pv.rows, r.start as int, r.end as int)
                    };
                    match target {
                        Some(i) => final(self)@ == (SessionView {
                            selected_row: i,
                            selected_side: normalized_side(pv.rows, i, old(self)@.selected_side),
                            ..cleared
                        }),
                        None => final(self)@ == cleared,
                    }
                } else {
                    final(self)@ == cleared
                }
            }),
    {
        self.pending_source_restore = None;
        let range = match self.selected_file_range() {
            Some(r) => r,
            None => return,
        };
        let selected = if end {
            self.presentation.last_navigable(range)
        } else {
            self.presentation.first_navigable(range)
        };
        match selected {
            Some(index) => {
                self.selected_row = index;
                self.normalize_selected_side();
            },
            None => {},
        }
    }

    /// Selects a side where the selected row has a cell on it; returns
    /// whether it has.
    pub fn set_selected_side(&mut self, side: DiffSide) -> (res: bool)
        requires
            old(self).wf(),
        ensures
            final(self).wf(),
            ({
                let rows = old(self)@.presentation.rows;
                let r = old(self)@.selected_row;
                let available = rows.len() > 0 && r < rows.len() && (match side {
                    DiffSide::Old => rows[r as int].left,
                    DiffSide::New => rows[r as int].right,
                }) is Some;
                &&& res == available
                &&& final(self)@ == (SessionView {
                    selected_side: if available {
                        side
                    } else {
                        old(self)@.selected_side
                    },
                    pending_source_restore: None,
                    ..old(self)@
                })
            }),
    {
        self.pending_source_restore = None;
        let available = match self.selected_row() {
            Some(index) => match self.presentation.row(index) {
                Some(row) => row.cell(side).is_some(),
                None => false,
            },
            None => false,
        };
        if available {
            self.selected_side = side;
        }
        available
    }

    /// Moves the selection by `delta` navigable rows within the file; an
    /// unselectable row first moves to the file's first navigable row.
    pub fn move_row(&mut self, delta: isize)
        requires
            old(self).wf(),
        ensures
            final(self).wf(),
            ({
                let pv = old(self)@.presentation;
                let cleared = SessionView { pending_source_restore: None, ..old(self)@ };
                if old(self)@.selected_file < pv.file_ranges.len() {
                    let range = pv.file_ranges[old(self)@.selected_file as int];
                    if nav_at(pv.rows, old(self)@.selected_row as int) {
                        let to = walked(pv.rows, old(self)@.selected_row, delta < 0, range, abs_of(delta));
                        final(self)@ == (SessionView {
                            selected_row: to,
                            selected_side: normalized_side(pv.rows, to, old(self)@.selected_side),
                            ..cleared
                        })
                    } else {
                        match first_navigable_in(pv.rows, range.start as int, range.end as int) {
                            Some(first) => if delta <= 0 {
                                final(self)@ == (SessionView { selected_row: first, ..cleared })
                            } else {
                                let to = walked(pv.rows, first, false, range, abs_of(delta));
                                final(self)@ == (SessionView {
                                    selected_row: to,
                                    selected_side: normalized_side(pv.rows, to, old(self)@.selected_side),
                                    ..cleared
                                })
                            },
                            None => final(self)@ == cleared,
                        }
                    }
                } else {
                    final(self)@ == cleared
                }
            }),
    {
        self.pending_source_restore = None;
        let range = match self.selected_file_range() {
            Some(r) => r,
            None => return,
        };
        let mut current = self.selected_row;
        if !self.presentation.is_navigable(current) {
            let first = match self.presentation.first_navigable(Range { start: range.start, end: range.end }) {
                Some(f) => f,
                None => return,
            };
            current = first;
            if delta <= 0 {
                self.selected_row = current;
                return;
            }
        }
        let backward = delta < 0;
        let steps: usize = if delta == isize::MIN {
            (isize::MAX as usize) + 1
        } else if delta < 0 {
            (-delta) as usize
        } else {
            delta as usize
        };
        let ghost start = current;
        let mut k: usize = 0;
        let mut stuck = false;
        while k < steps && !stuck
            invariant
                k <= steps,
                steps == abs_of(delta),
                backward == (delta < 0),
                walked(self@.presentation.rows, start, backward, range, steps as nat) == if stuck {
                    current
                } else {
                    walked(self@.presentation.rows, current, backward, range, (steps - k) as nat)
                },
            decreases steps - k,
        {
            match self.presentation.step_navigable(current, backward, &range) {
                Some(next) => {
                    current = next;
                },
                None => {
                    stuck = true;
                },
            }
            k = k + 1;
        }
        self.selected_row = current;
        self.normalize_selected_side();
    }
}

/// The magnitude of a step count.
pub open spec fn abs_of(delta: isize) -> nat {
    if delta < 0 {
        (-delta) as nat
    } else {
        delta as nat
    }
}


impl ReviewSession {
    /// Moves to the first navigable row of the hunk `delta` hunks away from
    /// the selected row's hunk, clamped to the file's hunks.
    pub fn move_hunk(&mut self, delta: isize) -> (res: bool)
        requires
            old(self).wf(),
        ensures
            final(self).wf(),
            ({
                let sv = old(self)@;
                let pv = sv.presentation;
                let files = sv.document.files@;
                let cleared = SessionView { pending_source_restore: None, ..sv };
                if sv.selected_file < files.len() && files[sv.selected_file as int].hunks@.len() > 0 {
                    let count = files[sv.selected_file as int].hunks@.len();
                    let current = if sv.selected_row < pv.rows.len() {
                        match pv.rows[sv.selected_row as int].hunk_index {
                            Some(h) => h,
                            None => 0,
                        }
                    } else {
                        0
                    };
                    let target = offset_of(current, delta, (count - 1) as usize);
                    if sv.selected_file < pv.hunk_ranges.len() && target < pv.hunk_ranges[sv.selected_file as int].len() {
                        let r = pv.hunk_ranges[sv.selected_file as int][target as int];
                        let row = match first_navigable_in(pv.rows, r.start as int, r.end as int) {
                            Some(i) => i,
                            None => sv.selected_row,
                        };
                        res && final(self)@ == (SessionView {
                            selected_row: row,
                            selected_side: normalized_side(pv.rows, row, sv.selected_side),
                            ..cleared
                        })
                    } else {
                        !res && final(self)@ == cleared
                    }
                } else {
                    !res && final(self)@ == cleared
                }
            }),
    {
        self.pending_source_restore = None;
        if self.selected_file >= self.document.files.len() {
            return false;
        }
        let count = self.document.files[self.selected_file].hunks.len();
        if count == 0 {
            return false;
        }
        let current = match self.presentation.row(self.selected_row) {
            Some(row) => match row.hunk_index {
                Some(h) => h,
                None => 0,
            },
            None => 0,
        };
        let target = offset(current, delta, count - 1);
        let range = match self.presentation.hunk_range(self.selected_file, target) {
            Some(r) => r,
            None => return false,
        };
        self.selected_row = match self.presentation.first_navigable(range) {
            Some(i) => i,
            None => self.selected_row,
        };
        self.normalize_selected_side();
        true
    }

    fn reveal_target_id(&self) -> (res: Option<GapId>)
        ensures
            res == reveal_target(self@),
    {
        match self.presentation.gap_info(self.selected_row) {
            Some(info) => Some(info.id),
            None => match self.presentation.row(self.selected_row) {
                Some(row) => match row.preferred_cell(self.selected_side) {
                    Some(cell) => match cell.patch_source {
                        Some(source) => {
                            let files = &self.presentation.document().files;
                            if row.file_index < files.len() && source.hunk_index
                                < files[row.file_index].hunks.len() {
                                let count = files[row.file_index].hunks[source.hunk_index].lines.len();
                                let after = if source.line_index > count {
                                    true
                                } else {
                                    source.line_index >= count - source.line_index
                                };
                                Some(
                                    GapId {
                                        file_index: row.file_index,
                                        gap_index: if after {
                                            source.hunk_index + 1
                                        } else {
                                            source.hunk_index
                                        },
                                    },
                                )
                            } else {
                                None
                            }
                        },
                        None => None,
                    },
                    None => None,
                },
                None => None,
            },
        }
    }

    /// Reveals more of the selected gap (or of the gap at the nearest edge
    /// of the selected code cell's hunk) and rebuilds. Returns whether there
    /// was such a gap.
    pub fn reveal_selected_gap(&mut self, amount: RevealAmount) -> (res: bool)
        requires
            old(self).wf(),
        ensures
            final(self).wf(),
            match reveal_target(old(self)@) {
                Some(id) => if id.file_index < old(self)@.document.files@.len() {
                    let count = old(self)@.document.files@[id.file_index as int].hunks@.len() as usize;
                    let e = match crate::presentation::lookup(old(self)@.projection.expansions, id) {
                        Some(e) => e,
                        None => GapExpansion { revealed_prefix: 0, revealed_suffix: 0 },
                    };
                    res && is_rebuild_of(
                        final(self)@,
                        SessionView {
                            projection: ProjectionView {
                                expansions: crate::presentation::with_entry(
                                    old(self)@.projection.expansions,
                                    id,
                                    revealed(e, id.gap_index, count, amount_of(amount)),
                                ),
                                ..old(self)@.projection
                            },
                            ..old(self)@
                        },
                    )
                } else {
                    !res && final(self)@ == old(self)@
                },
                None => !res && final(self)@ == old(self)@,
            },
    {
        let id = self.reveal_target_id();
        let id = match id {
            Some(id) => id,
            None => return false,
        };
        if id.file_index >= self.document.files.len() {
            return false;
        }
        let hunk_count = self.document.files[id.file_index].hunks.len();
        let current = match self.projection.expansion(id) {
            Some(e) => e,
            None => GapExpansion { revealed_prefix: 0, revealed_suffix: 0 },
        };
        let step: usize = match amount {
            RevealAmount::Step => EXPAND_STEP,
            RevealAmount::All => usize::MAX,
        };
        let prefix = if id.gap_index != 0 || hunk_count == 0 {
            current.revealed_prefix.saturating_add(step)
        } else {
            current.revealed_prefix
        };
        let suffix = if id.gap_index != hunk_count || hunk_count == 0 {
            current.revealed_suffix.saturating_add(step)
        } else {
            current.revealed_suffix
        };
        self.projection.set_expansion(id, GapExpansion { revealed_prefix: prefix, revealed_suffix: suffix });
        self.rebuild();
        true
    }

    /// Shows the selected file in full, or stops showing it so, and
    /// rebuilds; binary and omitted files cannot be shown in full.
    pub fn toggle_full_file(&mut self) -> (res: bool)
        requires
            old(self).wf(),
        ensures
            final(self).wf(),
            ({
                let sv = old(self)@;
                let files = sv.document.files@;
                if sv.selected_file < files.len() && !files[sv.selected_file as int].binary
                    && files[sv.selected_file as int].omitted_bytes is None {
                    let path = files[sv.selected_file as int].path@;
                    let full = sv.projection.full_files;
                    res && is_rebuild_of(
                        final(self)@,
                        SessionView {
                            projection: ProjectionView {
                                full_files: if full.contains(path) {
                                    crate::presentation::without_path(full, path)
                                } else {
                                    full.push(path)
                                },
                                ..sv.projection
                            },
                            ..sv
                        },
                    )
                } else {
                    !res && final(self)@ == sv
                }
            }),
    {
        if self.selected_file >= self.document.files.len() {
            return false;
        }
        let file = &self.document.files[self.selected_file];
        if file.binary || file.omitted_bytes.is_some() {
            return false;
        }
        let path = file.path.duplicate();
        let enabled = !self.projection.is_full_file(&path);
        self.projection.set_full_file(path, enabled);
        self.rebuild();
        true
    }

    /// Starts a draft on the selected anchor, with the body of the comment
    /// it edits, if any. Fails where there is no anchor or no such comment.
    pub fn begin_draft(&mut self, editing: Option<u64>) -> (res: bool)
        requires
            old(self).wf(),
        ensures
            final(self).wf(),
            ({
                let sv = old(self)@;
                let known = match editing {
                    Some(id) => crate::review::find_comment(sv.review.comments, id) is Some,
                    None => true,
                };
                if known && old(self).spec_selected_anchor() is Some {
                    let body = match editing {
                        Some(id) => sv.review.comments[crate::review::find_comment(sv.review.comments, id)->0].body,
                        None => Seq::<char>::empty(),
                    };
                    let line_text = match old(self).spec_selected_cell() {
                        Some(c) => c.text,
                        None => Seq::<char>::empty(),
                    };
                    res && final(self)@ == (SessionView {
                        draft: Some(
                            DraftView {
                                anchor: old(self).spec_selected_anchor()->0,
                                line_text,
                                body,
                                position: body.len(),
                                editing,
                            },
                        ),
                        ..sv
                    })
                } else {
                    !res && final(self)@ == sv
                }
            }),
    {
        match editing {
            Some(id) => {
                if self.review.comment(id).is_none() {
                    return false;
                }
            },
            None => {},
        }
        let anchor = match self.selected_anchor() {
            Some(a) => a,
            None => return false,
        };
        let line_text = match self.selected_cell() {
            Some(cell) => cell.text.clone(),
            None => String::new(),
        };
        let body = match editing {
            Some(id) => match self.review.comment(id) {
                Some(c) => c.body.clone(),
                None => String::new(),
            },
            None => String::new(),
        };
        self.draft = Some(CommentDraft::new(anchor, line_text, body, editing));
        true
    }

    /// Saves the draft: a new comment, or the edited comment's new body.
    /// A blank draft, or one for a comment that is gone, saves nothing; the
    /// draft is closed either way.
    pub fn submit_draft(&mut self) -> (res: Option<u64>)
        requires
            old(self).wf(),
        ensures
            final(self).wf(),
            final(self)@.draft is None,
            final(self)@.presentation == old(self)@.presentation,
            final(self)@.selected_row == old(self)@.selected_row,
            match old(self)@.draft {
                None => res is None && final(self)@ == old(self)@,
                Some(d) => if is_blank(d.body) {
                    res is None && final(self)@.review == old(self)@.review
                } else {
                    match d.editing {
                        Some(id) => match crate::review::find_comment(old(self)@.review.comments, id) {
                            Some(i) => res == Some(id) && final(self)@.review == (ReviewView {
                                comments: old(self)@.review.comments.update(
                                    i,
                                    crate::review::ReviewCommentView { body: d.body, ..old(self)@.review.comments[i] },
                                ),
                                ..old(self)@.review
                            }),
                            None => res is None && final(self)@.review == old(self)@.review,
                        },
                        None => res == Some(old(self)@.review.next_id) && final(self)@.review.comments
                            == old(self)@.review.comments.push(
                            crate::review::new_comment(old(self)@.review.next_id, d.anchor, d.line_text, d.body),
                        ),
                    }
                },
            },
    {
        let draft = match &self.draft {
            Some(d) => d,
            None => return None,
        };
        let body = draft.body.clone();
        let editing = draft.editing;
        let anchor = draft.anchor.duplicate();
        let line_text = draft.line_text.clone();
        self.draft = None;
        if blank(body.as_str()) {
            return None;
        }
        match editing {
            Some(id) => {
                if !self.review.edit_comment(id, body.as_str()) {
                    return None;
                }
                Some(id)
            },
            None => Some(self.review.add_comment_with_context(anchor, line_text.as_str(), body.as_str())),
        }
    }

    /// Deletes the last comment on the selected anchor.
    pub fn delete_comment_at_selection(&mut self) -> (res: bool)
        requires
            old(self).wf(),
        ensures
            final(self).wf(),
            match selected_comment_id(old(self)@.review.comments, old(self).spec_selected_anchor()) {
                Some(id) => res && final(self)@ == (SessionView {
                    review: ReviewView {
                        comments: old(self)@.review.comments.remove(
                            crate::review::find_comment(old(self)@.review.comments, id)->0,
                        ),
                        ..old(self)@.review
                    },
                    ..old(self)@
                }),
                None => !res && final(self)@ == old(self)@,
            },
    {
        let id = match self.comment_id_at_selection() {
            Some(id) => id,
            None => return false,
        };
        proof {
            let a = self.spec_selected_anchor()->0;
            let pred = |c: crate::review::ReviewCommentView| c.anchor == a;
            let comments = self@.review.comments;
            let on = comments.filter(pred);
            lemma_filter_member(comments, pred, on.len() - 1);
            let k = choose|k: int| 0 <= k < comments.len() && comments[k] == on[on.len() - 1];
            assert(comments[k].id == id);
            crate::review::lemma_find_comment(comments, id);
        }
        self.review.remove_comment(id).is_some()
    }

    /// The draft, for editing.
    pub fn draft_mut(&mut self) -> (res: Option<&mut CommentDraft>)
        ensures
            res is Some <==> old(self)@.draft is Some,
            res matches Some(d) ==> d@ == old(self)@.draft->0 && final(self)@ == (SessionView {
                draft: Some(final(d)@),
                ..old(self)@
            }) && (old(self).wf() && final(d).wf() ==> final(self).wf()),
            res is None ==> *final(self) == *old(self),
    {
        match &mut self.draft {
            Some(d) => Some(d),
            None => None,
        }
    }

    /// The review, for editing.
    pub fn review_mut(&mut self) -> (res: &mut Review)
        ensures
            res@ == old(self)@.review,
            final(self)@ == (SessionView { review: final(res)@, ..old(self)@ }),
            old(self).wf() ==> final(self).wf(),
    {
        &mut self.review
    }
}

} // verus!
