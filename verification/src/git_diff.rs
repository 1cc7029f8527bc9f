//! Normalization of multi-file Git diffs. The diff text is parsed by diffy;
//! what it finds is held here as plain values, and turned into the model's
//! files, hunks and numbered lines.
use vstd::prelude::*;
use diffy::patch_set::{FileMode, FileOperation, ParseOptions, PatchSet};
use diffy::Line;
use vstd::utf8::{decode_utf8, valid_utf8};
use crate::content::SourceUnavailable;
use crate::file_diff::{side_absent, DiffError, FileDiff, SourceResult};
use crate::model::{hunk_views, DiffSide, FileStatus, StageState};
use crate::parser::{decode_path, decoded_path};
use crate::repo_path::RepoPath;
use crate::model::{line_views, ModeChange, Hunk, HunkView, PatchLine, PatchLineKind, PatchLineView};
use crate::text::{
    chars_of, decimal, lemma_utf8_valid_up_to, push_all, push_decimal, string_from_chars, utf8_text,
    utf8_valid_up_to,
};

verus! {

/// A patch line as the parser found it, with its line ending.
#[derive(Debug, PartialEq, Eq)]
pub enum RawLine {
    Context(Vec<u8>),
    Delete(Vec<u8>),
    Insert(Vec<u8>),
}

pub enum RawLineView {
    Context(Seq<u8>),
    Delete(Seq<u8>),
    Insert(Seq<u8>),
}

impl View for RawLine {
    type V = RawLineView;

    open spec fn view(&self) -> RawLineView {
        match self {
            RawLine::Context(b) => RawLineView::Context(b@),
            RawLine::Delete(b) => RawLineView::Delete(b@),
            RawLine::Insert(b) => RawLineView::Insert(b@),
        }
    }
}

/// A hunk as the parser found it.
#[derive(Debug, PartialEq, Eq)]
pub struct RawHunk {
    pub old_start: usize,
    pub old_len: usize,
    pub new_start: usize,
    pub new_len: usize,
    pub function_context: Option<Vec<u8>>,
    pub lines: Vec<RawLine>,
}

pub struct RawHunkView {
    pub old_start: usize,
    pub old_len: usize,
    pub new_start: usize,
    pub new_len: usize,
    pub function_context: Option<Seq<u8>>,
    pub lines: Seq<RawLineView>,
}

pub open spec fn raw_line_views(lines: Seq<RawLine>) -> Seq<RawLineView> {
    lines.map_values(|l: RawLine| l@)
}

impl View for RawHunk {
    type V = RawHunkView;

    open spec fn view(&self) -> RawHunkView {
        RawHunkView {
            old_start: self.old_start,
            old_len: self.old_len,
            new_start: self.new_start,
            new_len: self.new_len,
            function_context: match self.function_context {
                Some(b) => Some(b@),
                None => None,
            },
            lines: raw_line_views(self.lines@),
        }
    }
}

/// The file operation as the parser found it, with its raw paths.
#[derive(Debug, PartialEq, Eq)]
pub enum RawOperation {
    Create(Vec<u8>),
    Delete(Vec<u8>),
    Modify(Vec<u8>, Vec<u8>),
    Rename(Vec<u8>, Vec<u8>),
    Copy(Vec<u8>, Vec<u8>),
}

pub enum RawOperationView {
    Create(Seq<u8>),
    Delete(Seq<u8>),
    Modify(Seq<u8>, Seq<u8>),
    Rename(Seq<u8>, Seq<u8>),
    Copy(Seq<u8>, Seq<u8>),
}

impl View for RawOperation {
    type V = RawOperationView;

    open spec fn view(&self) -> RawOperationView {
        match self {
            RawOperation::Create(a) => RawOperationView::Create(a@),
            RawOperation::Delete(a) => RawOperationView::Delete(a@),
            RawOperation::Modify(a, b) => RawOperationView::Modify(a@, b@),
            RawOperation::Rename(a, b) => RawOperationView::Rename(a@, b@),
            RawOperation::Copy(a, b) => RawOperationView::Copy(a@, b@),
        }
    }
}

/// A file mode from Git's extended headers.
#[derive(Debug, Clone, Copy, PartialEq, Eq, Structural)]
pub enum RawMode {
    Regular,
    Executable,
    Symlink,
    Gitlink,
}

/// One file's patch as the parser found it: its operation, its hunks (none
/// for a binary patch), and its modes.
#[derive(Debug, PartialEq, Eq)]
pub struct RawFilePatch {
    pub operation: RawOperation,
    pub hunks: Option<Vec<RawHunk>>,
    pub old_mode: Option<RawMode>,
    pub new_mode: Option<RawMode>,
}

pub struct RawFilePatchView {
    pub operation: RawOperationView,
    pub hunks: Option<Seq<RawHunkView>>,
    pub old_mode: Option<RawMode>,
    pub new_mode: Option<RawMode>,
}

pub open spec fn raw_hunk_views(hunks: Seq<RawHunk>) -> Seq<RawHunkView> {
    hunks.map_values(|h: RawHunk| h@)
}

impl View for RawFilePatch {
    type V = RawFilePatchView;

    open spec fn view(&self) -> RawFilePatchView {
        RawFilePatchView {
            operation: self.operation@,
            hunks: match self.hunks {
                Some(hs) => Some(raw_hunk_views(hs@)),
                None => None,
            },
            old_mode: self.old_mode,
            new_mode: self.new_mode,
        }
    }
}

pub open spec fn raw_result(r: Result<RawFilePatch, String>) -> Result<RawFilePatchView, Seq<char>> {
    match r {
        Ok(p) => Ok(p@),
        Err(e) => Err(e@),
    }
}

pub open spec fn raw_results(rs: Seq<Result<RawFilePatch, String>>) -> Seq<Result<RawFilePatchView, Seq<char>>> {
    rs.map_values(|r: Result<RawFilePatch, String>| raw_result(r))
}

/// What diffy's Git-diff parser finds in the given bytes: per file, its patch
/// or the description of the parse error.
pub uninterp spec fn parsed_patch_set(bytes: Seq<u8>) -> Seq<Result<RawFilePatchView, Seq<char>>>;

/// `diffy::patch_set::PatchSet::parse_bytes` with Git-diff options, file by
/// file: the description of each parse error, and nothing for each file that
/// parsed. The parser's results are named, not stated.
#[verifier::external_body]
fn parse_errors(bytes: &[u8]) -> (res: Vec<Option<String>>)
    ensures
        res@.len() == parsed_patch_set(bytes@).len(),
        forall|i: int|
            0 <= i < res@.len() ==> match #[trigger] parsed_patch_set(bytes@)[i] {
                Ok(_) => res@[i] is None,
                Err(m) => res@[i] matches Some(e) && e@ == m,
            },
{
    PatchSet::parse_bytes(bytes, ParseOptions::gitdiff())
        .map(|r| r.err().map(|e| e.to_string()))
        .collect()
}

/// The same parse: each parsed file's operation, with its raw paths.
#[verifier::external_body]
fn parse_operations(bytes: &[u8]) -> (res: Vec<Option<RawOperation>>)
    ensures
        res@.len() == parsed_patch_set(bytes@).len(),
        forall|i: int|
            0 <= i < res@.len() ==> match #[trigger] parsed_patch_set(bytes@)[i] {
                Ok(p) => res@[i] matches Some(o) && o@ == p.operation,
                Err(_) => res@[i] is None,
            },
{
    PatchSet::parse_bytes(bytes, ParseOptions::gitdiff()).map(|r| r.ok().map(|p| match p.operation() {
        FileOperation::Create(a) => RawOperation::Create(a.to_vec()),
        FileOperation::Delete(a) => RawOperation::Delete(a.to_vec()),
        FileOperation::Modify { original, modified } => RawOperation::Modify(original.to_vec(), modified.to_vec()),
        FileOperation::Rename { from, to } => RawOperation::Rename(from.to_vec(), to.to_vec()),
        FileOperation::Copy { from, to } => RawOperation::Copy(from.to_vec(), to.to_vec()),
    })).collect()
}

/// The same parse: each parsed file's old and new modes.
#[verifier::external_body]
fn parse_modes(bytes: &[u8]) -> (res: Vec<Option<(Option<RawMode>, Option<RawMode>)>>)
    ensures
        res@.len() == parsed_patch_set(bytes@).len(),
        forall|i: int|
            0 <= i < res@.len() ==> match #[trigger] parsed_patch_set(bytes@)[i] {
                Ok(p) => res@[i] == Some((p.old_mode, p.new_mode)),
                Err(_) => res@[i] is None,
            },
{
    let mode = |m: &FileMode| match m { FileMode::Regular => RawMode::Regular, FileMode::Executable => RawMode::Executable, FileMode::Symlink => RawMode::Symlink, FileMode::Gitlink => RawMode::Gitlink };
    PatchSet::parse_bytes(bytes, ParseOptions::gitdiff())
        .map(|r| r.ok().map(|p| (p.old_mode().map(mode), p.new_mode().map(mode))))
        .collect()
}

/// The same parse: the ranges and function context of each hunk of each
/// parsed text patch; nothing for a binary patch.
#[verifier::external_body]
fn parse_hunk_heads(bytes: &[u8]) -> (res: Vec<Option<Option<Vec<(usize, usize, usize, usize, Option<Vec<u8>>)>>>>)
    ensures
        res@.len() == parsed_patch_set(bytes@).len(),
        forall|i: int|
            0 <= i < res@.len() ==> match #[trigger] parsed_patch_set(bytes@)[i] {
                Ok(p) => res@[i] matches Some(hs) && heads_match(hs, p.hunks),
                Err(_) => res@[i] is None,
            },
{
    PatchSet::parse_bytes(bytes, ParseOptions::gitdiff()).map(|r| r.ok().map(|p| p.patch().as_text().map(|t| t.hunks().iter().map(|h| {
        (h.old_range().start(), h.old_range().len(), h.new_range().start(), h.new_range().len(), h.function_context().map(|c| c.to_vec()))
    }).collect()))).collect()
}

/// The same parse: the lines of each hunk of each parsed text patch.
#[verifier::external_body]
fn parse_hunk_lines(bytes: &[u8]) -> (res: Vec<Option<Option<Vec<Vec<RawLine>>>>>)
    ensures
        res@.len() == parsed_patch_set(bytes@).len(),
        forall|i: int|
            0 <= i < res@.len() ==> match #[trigger] parsed_patch_set(bytes@)[i] {
                Ok(p) => res@[i] matches Some(ls) && lines_match(ls, p.hunks),
                Err(_) => res@[i] is None,
            },
{
    let line = |l: &Line<'_, [u8]>| match l { Line::Context(b) => RawLine::Context(b.to_vec()), Line::Delete(b) => RawLine::Delete(b.to_vec()), Line::Insert(b) => RawLine::Insert(b.to_vec()) };
    PatchSet::parse_bytes(bytes, ParseOptions::gitdiff()).map(|r| r.ok().map(|p| p.patch().as_text().map(|t| t.hunks().iter().map(|h| h.lines().iter().map(line).collect()).collect()))).collect()
}

pub open spec fn opt_bytes(b: Option<Vec<u8>>) -> Option<Seq<u8>> {
    match b {
        Some(v) => Some(v@),
        None => None,
    }
}

/// Whether the hunk heads are those of the parsed hunks (none for a binary
/// patch).
pub open spec fn heads_match(
    heads: Option<Vec<(usize, usize, usize, usize, Option<Vec<u8>>)>>,
    hunks: Option<Seq<RawHunkView>>,
) -> bool {
    match (heads, hunks) {
        (Some(h), Some(v)) => h@.len() == v.len() && forall|j: int|
            0 <= j < v.len() ==> {
                let x = #[trigger] h@[j];
                &&& x.0 == v[j].old_start
                &&& x.1 == v[j].old_len
                &&& x.2 == v[j].new_start
                &&& x.3 == v[j].new_len
                &&& opt_bytes(x.4) == v[j].function_context
            },
        (None, None) => true,
        _ => false,
    }
}

/// Whether the hunk lines are those of the parsed hunks.
pub open spec fn lines_match(lines: Option<Vec<Vec<RawLine>>>, hunks: Option<Seq<RawHunkView>>) -> bool {
    match (lines, hunks) {
        (Some(l), Some(v)) => l@.len() == v.len() && forall|j: int|
            0 <= j < v.len() ==> raw_line_views((#[trigger] l@[j])@) == v[j].lines,
        (None, None) => true,
        _ => false,
    }
}

fn assemble_hunks(
    heads: Vec<(usize, usize, usize, usize, Option<Vec<u8>>)>,
    lines: Vec<Vec<RawLine>>,
    Ghost(expected): Ghost<Seq<RawHunkView>>,
) -> (res: Vec<RawHunk>)
    requires
        heads_match(Some(heads), Some(expected)),
        lines_match(Some(lines), Some(expected)),
    ensures
        raw_hunk_views(res@) == expected,
{
    let ghost h0 = heads@;
    let ghost l0 = lines@;
    let mut heads = heads;
    let mut lines = lines;
    let mut out: Vec<RawHunk> = Vec::new();
    while heads.len() > 0
        invariant
            heads@ == h0.skip(out@.len() as int),
            lines@ == l0.skip(out@.len() as int),
            h0.len() == expected.len(),
            l0.len() == expected.len(),
            out@.len() <= expected.len(),
            forall|j: int|
                0 <= j < expected.len() ==> {
                    let x = #[trigger] h0[j];
                    &&& x.0 == expected[j].old_start
                    &&& x.1 == expected[j].old_len
                    &&& x.2 == expected[j].new_start
                    &&& x.3 == expected[j].new_len
                    &&& opt_bytes(x.4) == expected[j].function_context
                },
            forall|j: int| 0 <= j < expected.len() ==> raw_line_views((#[trigger] l0[j])@) == expected[j].lines,
            forall|j: int| 0 <= j < out@.len() ==> #[trigger] out@[j]@ == expected[j],
        decreases heads@.len(),
    {
        let ghost k = out@.len() as int;
        let (old_start, old_len, new_start, new_len, function_context) = heads.remove(0);
        let ls = lines.remove(0);
        proof {
            assert(h0[k] == (old_start, old_len, new_start, new_len, function_context));
            assert(l0[k] == ls);
            assert(heads@ =~= h0.skip(k + 1));
            assert(lines@ =~= l0.skip(k + 1));
        }
        out.push(RawHunk { old_start, old_len, new_start, new_len, function_context, lines: ls });
        proof {
            assert(out@[k]@ == expected[k]) by {
                assert(raw_line_views(l0[k]@) == expected[k].lines);
            }
        }
    }
    proof {
        assert(raw_hunk_views(out@) =~= expected);
    }
    out
}

/// Parses the bytes of a Git diff into plain file patches, or the parser's
/// description of each file it could not parse.
pub fn parse_patch_set(bytes: &[u8]) -> (res: Vec<Result<RawFilePatch, String>>)
    ensures
        raw_results(res@) == parsed_patch_set(bytes@),
{
    let ghost parsed = parsed_patch_set(bytes@);
    let mut errors = parse_errors(bytes);
    let mut operations = parse_operations(bytes);
    let mut modes = parse_modes(bytes);
    let mut heads = parse_hunk_heads(bytes);
    let mut lines = parse_hunk_lines(bytes);
    let ghost e0 = errors@;
    let ghost o0 = operations@;
    let ghost m0 = modes@;
    let ghost h0 = heads@;
    let ghost l0 = lines@;
    let mut out: Vec<Result<RawFilePatch, String>> = Vec::new();
    while errors.len() > 0
        invariant
            e0.len() == parsed.len() && o0.len() == parsed.len() && m0.len() == parsed.len()
                && h0.len() == parsed.len() && l0.len() == parsed.len(),
            out@.len() <= parsed.len(),
            errors@ == e0.skip(out@.len() as int),
            operations@ == o0.skip(out@.len() as int),
            modes@ == m0.skip(out@.len() as int),
            heads@ == h0.skip(out@.len() as int),
            lines@ == l0.skip(out@.len() as int),
            forall|i: int|
                0 <= i < parsed.len() ==> match #[trigger] parsed[i] {
                    Ok(_) => e0[i] is None,
                    Err(m) => e0[i] matches Some(e) && e@ == m,
                },
            forall|i: int|
                0 <= i < parsed.len() ==> match #[trigger] parsed[i] {
                    Ok(p) => o0[i] matches Some(o) && o@ == p.operation,
                    Err(_) => true,
                },
            forall|i: int|
                0 <= i < parsed.len() ==> match #[trigger] parsed[i] {
                    Ok(p) => m0[i] == Some((p.old_mode, p.new_mode)),
                    Err(_) => true,
                },
            forall|i: int|
                0 <= i < parsed.len() ==> match #[trigger] parsed[i] {
                    Ok(p) => h0[i] matches Some(hs) && heads_match(hs, p.hunks),
                    Err(_) => true,
                },
            forall|i: int|
                0 <= i < parsed.len() ==> match #[trigger] parsed[i] {
                    Ok(p) => l0[i] matches Some(ls) && lines_match(ls, p.hunks),
                    Err(_) => true,
                },
            forall|i: int| 0 <= i < out@.len() ==> raw_result(#[trigger] out@[i]) == parsed[i],
        decreases errors@.len(),
    {
        let ghost k = out@.len() as int;
        let error = errors.remove(0);
        let operation = operations.remove(0);
        let mode = modes.remove(0);
        let head = heads.remove(0);
        let line = lines.remove(0);
        proof {
            assert(errors@ =~= e0.skip(k + 1));
            assert(operations@ =~= o0.skip(k + 1));
            assert(modes@ =~= m0.skip(k + 1));
            assert(heads@ =~= h0.skip(k + 1));
            assert(lines@ =~= l0.skip(k + 1));
            assert(e0[k] == error && o0[k] == operation && m0[k] == mode && h0[k] == head && l0[k] == line);
        }
        match error {
            Some(message) => {
                out.push(Err(message));
            },
            None => {
                let ghost p = parsed[k]->Ok_0;
                match (operation, mode, head, line) {
                    (Some(op), Some((old_mode, new_mode)), Some(hs), Some(ls)) => {
                        let hunks = match (hs, ls) {
                            (Some(h), Some(l)) => Some(assemble_hunks(h, l, Ghost(p.hunks->Some_0))),
                            _ => None,
                        };
                        out.push(Ok(RawFilePatch { operation: op, hunks, old_mode, new_mode }));
                    },
                    _ => {
                        proof {
                            assert(false);
                        }
                        out.push(Err(String::new()));
                    },
                }
            },
        }
    }
    proof {
        assert(raw_results(out@) =~= parsed);
    }
    out
}

/// The kind of a raw line.
pub open spec fn raw_kind(l: RawLineView) -> PatchLineKind {
    match l {
        RawLineView::Context(_) => PatchLineKind::Context,
        RawLineView::Delete(_) => PatchLineKind::Removed,
        RawLineView::Insert(_) => PatchLineKind::Added,
    }
}

/// The bytes of a raw line.
pub open spec fn raw_bytes(l: RawLineView) -> Seq<u8> {
    match l {
        RawLineView::Context(b) => b,
        RawLineView::Delete(b) => b,
        RawLineView::Insert(b) => b,
    }
}

/// Whether a line's bytes end with a newline.
pub open spec fn ends_with_newline(b: Seq<u8>) -> bool {
    b.len() > 0 && b.last() == 10u8
}

/// A line's bytes without its final newline.
pub open spec fn line_body(b: Seq<u8>) -> Seq<u8> {
    if ends_with_newline(b) {
        b.drop_last()
    } else {
        b
    }
}

/// The error for bytes that are not UTF-8.
pub open spec fn utf8_error(b: Seq<u8>) -> DiffError {
    DiffError::Utf8 { valid_up_to: utf8_valid_up_to(b) as usize }
}

/// The lines of a hunk numbered from `o` on the old side and `n` on the new
/// side: context lines take a number on both, removed lines on the old side,
/// added lines on the new side. Fails at the first line that is not UTF-8.
pub open spec fn numbered_raw(lines: Seq<RawLineView>, o: int, n: int) -> Result<Seq<PatchLineView>, DiffError>
    decreases lines.len(),
{
    if lines.len() == 0 {
        Ok(Seq::empty())
    } else {
        let l = lines[0];
        let kind = raw_kind(l);
        let bytes = raw_bytes(l);
        let body = line_body(bytes);
        let on_old = kind != PatchLineKind::Added;
        let on_new = kind != PatchLineKind::Removed;
        if !valid_utf8(body) {
            Err(utf8_error(body))
        } else {
            let line = PatchLineView {
                kind,
                text: decode_utf8(body),
                old_line_no: if on_old {
                    Some(o as usize)
                } else {
                    None
                },
                new_line_no: if on_new {
                    Some(n as usize)
                } else {
                    None
                },
                no_newline: !ends_with_newline(bytes),
            };
            match numbered_raw(
                lines.drop_first(),
                if on_old {
                    o + 1
                } else {
                    o
                },
                if on_new {
                    n + 1
                } else {
                    n
                },
            ) {
                Ok(rest) => Ok(seq![line] + rest),
                Err(e) => Err(e),
            }
        }
    }
}

/// How many lines of a hunk are on the old side (or the new side).
pub open spec fn side_lines(lines: Seq<RawLineView>, old: bool) -> nat
    decreases lines.len(),
{
    if lines.len() == 0 {
        0
    } else {
        side_lines(lines.drop_first(), old) + if (old && raw_kind(lines[0]) != PatchLineKind::Added)
            || (!old && raw_kind(lines[0]) != PatchLineKind::Removed) {
            1nat
        } else {
            0nat
        }
    }
}

/// Whether numbering a hunk's lines stays within `usize`.
pub open spec fn numbering_fits(h: RawHunkView) -> bool {
    h.old_start + side_lines(h.lines, true) <= usize::MAX && h.new_start + side_lines(h.lines, false)
        <= usize::MAX
}

fn raw_line_parts(l: &RawLine) -> (res: (PatchLineKind, &Vec<u8>))
    ensures
        res.0 == raw_kind(l@),
        res.1@ == raw_bytes(l@),
{
    match l {
        RawLine::Context(b) => (PatchLineKind::Context, b),
        RawLine::Delete(b) => (PatchLineKind::Removed, b),
        RawLine::Insert(b) => (PatchLineKind::Added, b),
    }
}

fn prefix_bytes(b: &Vec<u8>, len: usize) -> (res: Vec<u8>)
    requires
        len <= b@.len(),
    ensures
        res@ == b@.take(len as int),
{
    let mut out: Vec<u8> = Vec::new();
    let mut i: usize = 0;
    while i < len
        invariant
            i <= len <= b@.len(),
            out@ == b@.take(i as int),
        decreases len - i,
    {
        out.push(b[i]);
        proof {
            assert(b@.take(i + 1) =~= b@.take(i as int).push(b@[i as int]));
        }
        i = i + 1;
    }
    out
}

/// The text of bytes that should be UTF-8, or the error that says where they
/// stop being so.
fn utf8_string(b: &Vec<u8>) -> (res: Result<String, DiffError>)
    ensures
        match res {
            Ok(s) => valid_utf8(b@) && s@ == decode_utf8(b@),
            Err(e) => !valid_utf8(b@) && e == utf8_error(b@),
        },
{
    match utf8_text(b.as_slice()) {
        Ok(chars) => Ok(crate::text::string_from_chars(chars.as_slice())),
        Err(k) => {
            proof {
                lemma_utf8_valid_up_to(b@, k as int);
            }
            Err(DiffError::Utf8 { valid_up_to: k })
        },
    }
}

proof fn lemma_side_lines_step(lines: Seq<RawLineView>, old: bool)
    requires
        lines.len() > 0,
    ensures
        side_lines(lines, old) == side_lines(lines.drop_first(), old) + if (old && raw_kind(lines[0])
            != PatchLineKind::Added) || (!old && raw_kind(lines[0]) != PatchLineKind::Removed) {
            1nat
        } else {
            0nat
        },
{
}

/// Numbers a hunk's lines from its start on each side.
pub fn number_raw_lines(lines: &Vec<RawLine>, old_start: usize, new_start: usize) -> (res: Result<Vec<PatchLine>, DiffError>)
    requires
        old_start + side_lines(raw_line_views(lines@), true) <= usize::MAX,
        new_start + side_lines(raw_line_views(lines@), false) <= usize::MAX,
    ensures
        match (res, numbered_raw(raw_line_views(lines@), old_start as int, new_start as int)) {
            (Ok(ls), Ok(vs)) => line_views(ls@) == vs,
            (Err(e), Err(d)) => e == d,
            _ => false,
        },
{
    let ghost all = raw_line_views(lines@);
    let mut out: Vec<PatchLine> = Vec::new();
    let mut o = old_start;
    let mut n = new_start;
    let mut i: usize = 0;
    proof {
        assert(all.skip(0) =~= all);
    }
    while i < lines.len()
        invariant
            i <= lines@.len(),
            all == raw_line_views(lines@),
            o + side_lines(all.skip(i as int), true) <= usize::MAX,
            n + side_lines(all.skip(i as int), false) <= usize::MAX,
            numbered_raw(all, old_start as int, new_start as int) == match numbered_raw(
                all.skip(i as int),
                o as int,
                n as int,
            ) {
                Ok(rest) => Ok(line_views(out@) + rest),
                Err(e) => Err::<Seq<PatchLineView>, DiffError>(e),
            },
        decreases lines@.len() - i,
    {
        let ghost tail = all.skip(i as int);
        proof {
            assert(tail[0] == lines@[i as int]@);
            assert(tail.drop_first() =~= all.skip(i + 1));
            lemma_side_lines_step(tail, true);
            lemma_side_lines_step(tail, false);
        }
        let (kind, bytes) = raw_line_parts(&lines[i]);
        let ends = bytes.len() > 0 && bytes[bytes.len() - 1] == 10u8;
        let body = if ends {
            prefix_bytes(bytes, bytes.len() - 1)
        } else {
            prefix_bytes(bytes, bytes.len())
        };
        proof {
            assert(body@ =~= line_body(bytes@));
        }
        let text = match utf8_string(&body) {
            Ok(t) => t,
            Err(e) => {
                return Err(e);
            },
        };
        let old_line_no = if kind != PatchLineKind::Added {
            let number = o;
            o = o + 1;
            Some(number)
        } else {
            None
        };
        let new_line_no = if kind != PatchLineKind::Removed {
            let number = n;
            n = n + 1;
            Some(number)
        } else {
            None
        };
        let ghost before = line_views(out@);
        out.push(PatchLine { kind, text, old_line_no, new_line_no, no_newline: !ends });
        proof {
            assert(line_views(out@) =~= before.push(out@.last()@));
            match numbered_raw(all.skip(i + 1), o as int, n as int) {
                Ok(rest) => {
                    assert(before + (seq![out@.last()@] + rest) =~= line_views(out@) + rest);
                },
                Err(_) => {},
            }
        }
        i = i + 1;
    }
    proof {
        assert(all.skip(i as int) =~= Seq::<RawLineView>::empty());
        assert(line_views(out@) + Seq::<PatchLineView>::empty() =~= line_views(out@));
    }
    Ok(out)
}

/// `s` without its trailing carriage returns and line feeds.
pub open spec fn trim_line_ends(s: Seq<char>) -> Seq<char>
    decreases s.len(),
{
    if s.len() > 0 && (s.last() == '\r' || s.last() == '\n') {
        trim_line_ends(s.drop_last())
    } else {
        s
    }
}

/// A hunk range as diffy displays it: the start, then the length after a
/// comma unless it is one.
pub open spec fn range_text(start: usize, len: usize) -> Seq<char> {
    decimal(start as nat) + if len != 1 {
        seq![','] + decimal(len as nat)
    } else {
        Seq::empty()
    }
}

/// A hunk's header line, with its function context after a space.
pub open spec fn hunk_header(h: RawHunkView, context: Option<Seq<char>>) -> Seq<char> {
    "@@ -"@ + range_text(h.old_start, h.old_len) + " +"@ + range_text(h.new_start, h.new_len) + " @@"@
        + match context {
        Some(c) => seq![' '] + c,
        None => Seq::empty(),
    }
}

/// The model's hunk for a raw hunk: numbered lines, then the function
/// context without its line ending. Fails at the first text that is not
/// UTF-8, lines first.
pub open spec fn normalized_hunk(h: RawHunkView) -> Result<HunkView, DiffError> {
    match numbered_raw(h.lines, h.old_start as int, h.new_start as int) {
        Err(e) => Err(e),
        Ok(lines) => {
            let context = match h.function_context {
                Some(b) => if valid_utf8(b) {
                    Ok(Some(trim_line_ends(decode_utf8(b))))
                } else {
                    Err(utf8_error(b))
                },
                None => Ok(None),
            };
            match context {
                Err(e) => Err(e),
                Ok(c) => Ok(
                    HunkView {
                        header: hunk_header(h, c),
                        function_context: c,
                        old_start: h.old_start,
                        old_count: h.old_len,
                        new_start: h.new_start,
                        new_count: h.new_len,
                        lines,
                    },
                ),
            }
        },
    }
}

/// The model's hunks for raw hunks, failing at the first that fails.
pub open spec fn normalized_hunks(hs: Seq<RawHunkView>) -> Result<Seq<HunkView>, DiffError>
    decreases hs.len(),
{
    if hs.len() == 0 {
        Ok(Seq::empty())
    } else {
        match normalized_hunk(hs[0]) {
            Err(e) => Err(e),
            Ok(h) => match normalized_hunks(hs.drop_first()) {
                Err(e) => Err(e),
                Ok(rest) => Ok(seq![h] + rest),
            },
        }
    }
}

fn trimmed_line_ends(s: String) -> (res: String)
    ensures
        res@ == trim_line_ends(s@),
{
    let chars = chars_of(s.as_str());
    let mut end = chars.len();
    proof {
        assert(chars@.take(end as int) =~= chars@);
    }
    while end > 0 && (chars[end - 1] == '\r' || chars[end - 1] == '\n')
        invariant
            end <= chars@.len(),
            chars@ == s@,
            trim_line_ends(s@) == trim_line_ends(chars@.take(end as int)),
        decreases end,
    {
        proof {
            assert(chars@.take(end as int).drop_last() =~= chars@.take(end - 1));
        }
        end = end - 1;
    }
    let mut out: Vec<char> = Vec::new();
    let mut i: usize = 0;
    while i < end
        invariant
            i <= end <= chars@.len(),
            out@ == chars@.take(i as int),
        decreases end - i,
    {
        out.push(chars[i]);
        proof {
            assert(chars@.take(i + 1) =~= chars@.take(i as int).push(chars@[i as int]));
        }
        i = i + 1;
    }
    string_from_chars(out.as_slice())
}

fn push_range(out: &mut Vec<char>, start: usize, len: usize)
    ensures
        final(out)@ == old(out)@ + range_text(start, len),
{
    push_decimal(out, start as u64);
    if len != 1 {
        let ghost mid = out@;
        out.push(',');
        push_decimal(out, len as u64);
        proof {
            assert(out@ =~= mid + (seq![','] + decimal(len as nat)));
        }
    } else {
        proof {
            assert(out@ =~= out@ + Seq::<char>::empty());
        }
    }
}

fn push_str_chars(out: &mut Vec<char>, s: &str)
    ensures
        final(out)@ == old(out)@ + s@,
{
    let chars = chars_of(s);
    push_all(out, chars.as_slice());
}

/// Normalizes one raw hunk.
pub fn normalize_hunk(h: &RawHunk) -> (res: Result<Hunk, DiffError>)
    requires
        numbering_fits(h@),
    ensures
        match (res, normalized_hunk(h@)) {
            (Ok(x), Ok(v)) => x@ == v,
            (Err(e), Err(d)) => e == d,
            _ => false,
        },
{
    let lines = match number_raw_lines(&h.lines, h.old_start, h.new_start) {
        Ok(ls) => ls,
        Err(e) => {
            return Err(e);
        },
    };
    let context = match &h.function_context {
        Some(b) => match utf8_string(b) {
            Ok(t) => Some(trimmed_line_ends(t)),
            Err(e) => {
                return Err(e);
            },
        },
        None => None,
    };
    let mut header: Vec<char> = Vec::new();
    push_str_chars(&mut header, "@@ -");
    push_range(&mut header, h.old_start, h.old_len);
    push_str_chars(&mut header, " +");
    push_range(&mut header, h.new_start, h.new_len);
    push_str_chars(&mut header, " @@");
    let ghost fixed = header@;
    match &context {
        Some(c) => {
            header.push(' ');
            push_str_chars(&mut header, c.as_str());
            proof {
                assert(header@ =~= fixed + (seq![' '] + c@));
            }
        },
        None => {
            proof {
                assert(header@ =~= fixed + Seq::<char>::empty());
            }
        },
    }
    let ghost cv = crate::model::opt_view(context);
    proof {
        assert(header@ =~= hunk_header(h@, cv));
    }
    Ok(Hunk {
        header: string_from_chars(header.as_slice()),
        function_context: context,
        old_start: h.old_start,
        old_count: h.old_len,
        new_start: h.new_start,
        new_count: h.new_len,
        lines,
    })
}

/// The path bytes with a leading `prefix` removed, where they have it.
pub open spec fn strip_prefix(b: Seq<u8>, prefix: Seq<u8>) -> Seq<u8> {
    if prefix.len() <= b.len() && b.take(prefix.len() as int) == prefix {
        b.skip(prefix.len() as int)
    } else {
        b
    }
}

pub open spec fn old_prefix() -> Seq<u8> {
    seq![97u8, 47u8]
}

pub open spec fn new_prefix() -> Seq<u8> {
    seq![98u8, 47u8]
}

/// The previous path, current path and status of a file operation.
pub open spec fn normalized_operation(op: RawOperationView) -> Result<
    (Option<Seq<char>>, Seq<char>, FileStatus),
    DiffError,
> {
    match op {
        RawOperationView::Create(a) => match decoded_path(strip_prefix(a, new_prefix())) {
            Ok(p) => Ok((None, p, FileStatus::Added)),
            Err(e) => Err(e),
        },
        RawOperationView::Delete(a) => match decoded_path(strip_prefix(a, old_prefix())) {
            Ok(p) => Ok((Some(p), p, FileStatus::Deleted)),
            Err(e) => Err(e),
        },
        RawOperationView::Modify(a, b) => match decoded_path(strip_prefix(a, old_prefix())) {
            Err(e) => Err(e),
            Ok(before) => match decoded_path(strip_prefix(b, new_prefix())) {
                Err(e) => Err(e),
                Ok(after) => Ok(
                    (
                        Some(before),
                        after,
                        if before == after {
                            FileStatus::Modified
                        } else {
                            FileStatus::Renamed
                        },
                    ),
                ),
            },
        },
        RawOperationView::Rename(a, b) => match decoded_path(a) {
            Err(e) => Err(e),
            Ok(from) => match decoded_path(b) {
                Err(e) => Err(e),
                Ok(to) => Ok((Some(from), to, FileStatus::Renamed)),
            },
        },
        RawOperationView::Copy(a, b) => match decoded_path(a) {
            Err(e) => Err(e),
            Ok(from) => match decoded_path(b) {
                Err(e) => Err(e),
                Ok(to) => Ok((Some(from), to, FileStatus::Copied)),
            },
        },
    }
}

fn strip_and_decode(b: &Vec<u8>, prefix: u8) -> (res: Result<RepoPath, DiffError>)
    ensures
        match (res, decoded_path(strip_prefix(b@, seq![prefix, 47u8]))) {
            (Ok(p), Ok(q)) => p@ == q,
            (Err(e), Err(d)) => e == d,
            _ => false,
        },
{
    if b.len() >= 2 && b[0] == prefix && b[1] == 47u8 {
        let mut rest: Vec<u8> = Vec::new();
        let mut i: usize = 2;
        while i < b.len()
            invariant
                2 <= i <= b@.len(),
                rest@ == b@.subrange(2, i as int),
            decreases b@.len() - i,
        {
            rest.push(b[i]);
            proof {
                assert(b@.subrange(2, i + 1) =~= b@.subrange(2, i as int).push(b@[i as int]));
            }
            i = i + 1;
        }
        proof {
            assert(b@.take(2) =~= seq![prefix, 47u8]);
            assert(rest@ =~= b@.skip(2));
        }
        decode_path(rest.as_slice())
    } else {
        proof {
            if 2 <= b@.len() && b@.take(2) == seq![prefix, 47u8] {
                assert(b@.take(2)[0] == prefix);
                assert(b@.take(2)[1] == 47u8);
            }
        }
        decode_path(b.as_slice())
    }
}

fn normalize_operation(op: &RawOperation) -> (res: Result<(Option<RepoPath>, RepoPath, FileStatus), DiffError>)
    ensures
        match (res, normalized_operation(op@)) {
            (Ok((a, b, c)), Ok((x, y, z))) => opt_path(a) == x && b@ == y && c == z,
            (Err(e), Err(d)) => e == d,
            _ => false,
        },
{
    proof {
        assert(old_prefix() == seq![97u8, 47u8]);
        assert(new_prefix() == seq![98u8, 47u8]);
    }
    match op {
        RawOperation::Create(a) => match strip_and_decode(a, 98u8) {
            Ok(p) => Ok((None, p, FileStatus::Added)),
            Err(e) => Err(e),
        },
        RawOperation::Delete(a) => match strip_and_decode(a, 97u8) {
            Ok(p) => Ok((Some(p.duplicate()), p, FileStatus::Deleted)),
            Err(e) => Err(e),
        },
        RawOperation::Modify(a, b) => match strip_and_decode(a, 97u8) {
            Err(e) => Err(e),
            Ok(before) => match strip_and_decode(b, 98u8) {
                Err(e) => Err(e),
                Ok(after) => {
                    let status = if before.same_as(&after) {
                        FileStatus::Modified
                    } else {
                        FileStatus::Renamed
                    };
                    Ok((Some(before), after, status))
                },
            },
        },
        RawOperation::Rename(a, b) => match decode_path(a.as_slice()) {
            Err(e) => Err(e),
            Ok(from) => match decode_path(b.as_slice()) {
                Err(e) => Err(e),
                Ok(to) => Ok((Some(from), to, FileStatus::Renamed)),
            },
        },
        RawOperation::Copy(a, b) => match decode_path(a.as_slice()) {
            Err(e) => Err(e),
            Ok(from) => match decode_path(b.as_slice()) {
                Err(e) => Err(e),
                Ok(to) => Ok((Some(from), to, FileStatus::Copied)),
            },
        },
    }
}

pub open spec fn opt_path(p: Option<RepoPath>) -> Option<Seq<char>> {
    match p {
        Some(q) => Some(q@),
        None => None,
    }
}

/// The most patch lines of one file that are normalized.
pub const MAX_TRACKED_PATCH_LINES: usize = 20000;

/// The most patch bytes of one file that are normalized.
pub const MAX_TRACKED_PATCH_BYTES: u64 = 8388608;

/// All lines of a list of hunks, in order.
pub open spec fn all_lines(hs: Seq<RawHunkView>) -> Seq<RawLineView>
    decreases hs.len(),
{
    if hs.len() == 0 {
        Seq::empty()
    } else {
        all_lines(hs.drop_last()) + hs.last().lines
    }
}

/// The number of bytes of a list of lines.
pub open spec fn bytes_of_lines(ls: Seq<RawLineView>) -> nat
    decreases ls.len(),
{
    if ls.len() == 0 {
        0
    } else {
        bytes_of_lines(ls.drop_last()) + raw_bytes(ls.last()).len()
    }
}

pub open spec fn saturated(n: nat, max: nat) -> nat {
    if n > max {
        max
    } else {
        n
    }
}

/// The byte size reported for a patch: its bytes, saturated at `u64::MAX`.
pub open spec fn patch_bytes(hs: Seq<RawHunkView>) -> nat {
    saturated(bytes_of_lines(all_lines(hs)), u64::MAX as nat)
}

/// Whether a text patch is too large to normalize.
pub open spec fn too_large(hs: Seq<RawHunkView>) -> bool {
    all_lines(hs).len() > MAX_TRACKED_PATCH_LINES || patch_bytes(hs) > MAX_TRACKED_PATCH_BYTES
}

/// Counts the lines and bytes of a text patch, each saturating.
fn patch_size(hunks: &Vec<RawHunk>) -> (res: (usize, u64))
    ensures
        res.0 == saturated(all_lines(raw_hunk_views(hunks@)).len(), usize::MAX as nat),
        res.1 == patch_bytes(raw_hunk_views(hunks@)),
{
    let ghost hs = raw_hunk_views(hunks@);
    let mut lines: usize = 0;
    let mut bytes: u64 = 0;
    let mut i: usize = 0;
    while i < hunks.len()
        invariant
            i <= hunks@.len(),
            hs == raw_hunk_views(hunks@),
            lines == saturated(all_lines(hs.take(i as int)).len(), usize::MAX as nat),
            bytes == saturated(bytes_of_lines(all_lines(hs.take(i as int))), u64::MAX as nat),
        decreases hunks@.len() - i,
    {
        let h = &hunks[i];
        let ghost before = all_lines(hs.take(i as int));
        proof {
            assert(hs.take(i + 1).drop_last() =~= hs.take(i as int));
            assert(hs.take(i + 1).last() == h@);
        }
        let mut j: usize = 0;
        while j < h.lines.len()
            invariant
                j <= h.lines@.len(),
                h@.lines == raw_line_views(h.lines@),
                lines == saturated((before.len() + j) as nat, usize::MAX as nat),
                bytes == saturated(bytes_of_lines(before + h@.lines.take(j as int)), u64::MAX as nat),
            decreases h.lines@.len() - j,
        {
            let (_, b) = raw_line_parts(&h.lines[j]);
            lines = lines.saturating_add(1);
            let len = b.len();
            let step: u64 = if len as u128 > u64::MAX as u128 {
                u64::MAX
            } else {
                len as u64
            };
            bytes = bytes.saturating_add(step);
            proof {
                let t = before + h@.lines.take(j + 1);
                assert(t.drop_last() =~= before + h@.lines.take(j as int));
                assert(t.last() == h@.lines[j as int]);
            }
            j = j + 1;
        }
        proof {
            assert(h@.lines.take(j as int) =~= h@.lines);
        }
        i = i + 1;
    }
    proof {
        assert(hs.take(i as int) =~= hs);
    }
    (lines, bytes)
}

/// Git's six-digit form of a file mode.
pub open spec fn mode_text(m: RawMode) -> Seq<char> {
    match m {
        RawMode::Regular => "100644"@,
        RawMode::Executable => "100755"@,
        RawMode::Symlink => "120000"@,
        RawMode::Gitlink => "160000"@,
    }
}

pub open spec fn opt_mode_text(m: Option<RawMode>) -> Option<Seq<char>> {
    match m {
        Some(x) => Some(mode_text(x)),
        None => None,
    }
}

/// The mode change of a patch: present where its modes differ.
pub open spec fn normalized_mode(old: Option<RawMode>, new: Option<RawMode>) -> Option<
    (Option<Seq<char>>, Option<Seq<char>>),
> {
    if old != new && (old is Some || new is Some) {
        Some((opt_mode_text(old), opt_mode_text(new)))
    } else {
        None
    }
}

fn mode_string(m: RawMode) -> (res: String)
    ensures
        res@ == mode_text(m),
{
    let text = match m {
        RawMode::Regular => "100644",
        RawMode::Executable => "100755",
        RawMode::Symlink => "120000",
        RawMode::Gitlink => "160000",
    };
    let chars = chars_of(text);
    string_from_chars(chars.as_slice())
}

fn opt_mode_string(m: Option<RawMode>) -> (res: Option<String>)
    ensures
        crate::model::opt_view(res) == opt_mode_text(m),
{
    match m {
        Some(x) => Some(mode_string(x)),
        None => None,
    }
}

pub open spec fn mode_view(m: Option<ModeChange>) -> Option<(Option<Seq<char>>, Option<Seq<char>>)> {
    match m {
        Some(c) => Some((crate::model::opt_view(c.old), crate::model::opt_view(c.new))),
        None => None,
    }
}

fn normalize_mode(old: Option<RawMode>, new: Option<RawMode>) -> (res: Option<ModeChange>)
    ensures
        mode_view(res) == normalized_mode(old, new),
{
    if old != new && (old.is_some() || new.is_some()) {
        Some(ModeChange { old: opt_mode_string(old), new: opt_mode_string(new) })
    } else {
        None
    }
}

/// What one file's patch normalizes to.
pub struct NormalizedFile {
    pub old_path: Option<Seq<char>>,
    pub path: Seq<char>,
    pub status: FileStatus,
    pub hunks: Seq<HunkView>,
    pub binary: bool,
    pub mode: Option<(Option<Seq<char>>, Option<Seq<char>>)>,
    pub no_newline_at_end: bool,
    pub omitted_bytes: Option<u64>,
}

/// Whether any line of the hunks lacks its final newline.
pub open spec fn any_no_newline(hs: Seq<HunkView>) -> bool {
    exists|i: int, j: int|
        0 <= i < hs.len() && 0 <= j < hs[i].lines.len() && (#[trigger] hs[i].lines[j]).no_newline
}

/// Whether every hunk of a text patch that is normalized can be numbered.
pub open spec fn patch_fits(raw: RawFilePatchView) -> bool {
    match raw.hunks {
        Some(hs) => too_large(hs) || forall|i: int| 0 <= i < hs.len() ==> numbering_fits(#[trigger] hs[i]),
        None => true,
    }
}

/// What a raw file patch normalizes to: its operation gives the paths and
/// status; a text patch that is too large keeps no hunks and reports its
/// size; a binary patch has no hunks.
pub open spec fn normalized_file(raw: RawFilePatchView) -> Result<NormalizedFile, DiffError> {
    match normalized_operation(raw.operation) {
        Err(e) => Err(e),
        Ok((previous, current, status)) => {
            let (hunks, omitted) = match raw.hunks {
                None => (Ok(Seq::<HunkView>::empty()), None),
                Some(hs) => if too_large(hs) {
                    (Ok(Seq::<HunkView>::empty()), Some(patch_bytes(hs) as u64))
                } else {
                    (normalized_hunks(hs), None)
                },
            };
            match hunks {
                Err(e) => Err(e),
                Ok(hunks) => Ok(
                    NormalizedFile {
                        old_path: previous,
                        path: current,
                        status,
                        hunks,
                        binary: raw.hunks is None,
                        mode: normalized_mode(raw.old_mode, raw.new_mode),
                        no_newline_at_end: any_no_newline(hunks),
                        omitted_bytes: omitted,
                    },
                ),
            }
        },
    }
}

/// Whether a file diff is the normalized file: unstaged, with its sides not
/// captured (absent where its status says a side does not exist).
pub open spec fn file_is(f: FileDiff, n: NormalizedFile) -> bool {
    &&& opt_path(f.old_path) == n.old_path
    &&& f.path@ == n.path
    &&& f.status == n.status
    &&& f.staged == StageState::Unstaged
    &&& hunk_views(f.hunks@) == n.hunks
    &&& f.binary == n.binary
    &&& mode_view(f.mode) == n.mode
    &&& f.no_newline_at_end == n.no_newline_at_end
    &&& f.omitted_bytes == n.omitted_bytes
    &&& f.old_source == uncaptured(n.status, DiffSide::Old)
    &&& f.new_source == uncaptured(n.status, DiffSide::New)
}

/// The source recorded for a side that a patch does not carry.
pub open spec fn uncaptured(status: FileStatus, side: DiffSide) -> SourceResult {
    if side_absent(status, side) {
        Err(SourceUnavailable::Absent)
    } else {
        Err(SourceUnavailable::NotCaptured)
    }
}

fn normalize_hunk_list(hunks: &Vec<RawHunk>) -> (res: Result<Vec<Hunk>, DiffError>)
    requires
        forall|i: int| 0 <= i < hunks@.len() ==> numbering_fits(#[trigger] hunks@[i]@),
    ensures
        match (res, normalized_hunks(raw_hunk_views(hunks@))) {
            (Ok(hs), Ok(vs)) => hunk_views(hs@) == vs,
            (Err(e), Err(d)) => e == d,
            _ => false,
        },
{
    let ghost all = raw_hunk_views(hunks@);
    let mut out: Vec<Hunk> = Vec::new();
    let mut i: usize = 0;
    proof {
        assert(all.skip(0) =~= all);
    }
    while i < hunks.len()
        invariant
            i <= hunks@.len(),
            all == raw_hunk_views(hunks@),
            forall|k: int| 0 <= k < hunks@.len() ==> numbering_fits(#[trigger] hunks@[k]@),
            normalized_hunks(all) == match normalized_hunks(all.skip(i as int)) {
                Ok(rest) => Ok(hunk_views(out@) + rest),
                Err(e) => Err::<Seq<HunkView>, DiffError>(e),
            },
        decreases hunks@.len() - i,
    {
        proof {
            assert(all.skip(i as int)[0] == hunks@[i as int]@);
            assert(all.skip(i as int).drop_first() =~= all.skip(i + 1));
        }
        let h = match normalize_hunk(&hunks[i]) {
            Ok(h) => h,
            Err(e) => {
                return Err(e);
            },
        };
        let ghost before = hunk_views(out@);
        out.push(h);
        proof {
            assert(hunk_views(out@) =~= before.push(out@.last()@));
            match normalized_hunks(all.skip(i + 1)) {
                Ok(rest) => {
                    assert(before + (seq![out@.last()@] + rest) =~= hunk_views(out@) + rest);
                },
                Err(_) => {},
            }
        }
        i = i + 1;
    }
    proof {
        assert(all.skip(i as int) =~= Seq::<RawHunkView>::empty());
        assert(hunk_views(out@) + Seq::<HunkView>::empty() =~= hunk_views(out@));
    }
    Ok(out)
}

fn has_no_newline(hunks: &Vec<Hunk>) -> (res: bool)
    ensures
        res == any_no_newline(hunk_views(hunks@)),
{
    let ghost hs = hunk_views(hunks@);
    let mut i: usize = 0;
    while i < hunks.len()
        invariant
            i <= hunks@.len(),
            hs == hunk_views(hunks@),
            forall|a: int, b: int|
                0 <= a < i && 0 <= b < hs[a].lines.len() ==> !(#[trigger] hs[a].lines[b]).no_newline,
        decreases hunks@.len() - i,
    {
        let lines = &hunks[i].lines;
        let mut j: usize = 0;
        while j < lines.len()
            invariant
                j <= lines@.len(),
                i < hunks@.len(),
                lines@ == hunks@[i as int].lines@,
                hs == hunk_views(hunks@),
                hs[i as int].lines == line_views(lines@),
                forall|b: int| 0 <= b < j ==> !(#[trigger] hs[i as int].lines[b]).no_newline,
            decreases lines@.len() - j,
        {
            if lines[j].no_newline {
                proof {
                    assert(hs[i as int].lines[j as int].no_newline);
                }
                return true;
            }
            j = j + 1;
        }
        i = i + 1;
    }
    false
}

/// Normalizes one file's raw patch.
pub fn normalize_patch(raw: &RawFilePatch) -> (res: Result<FileDiff, DiffError>)
    requires
        patch_fits(raw@),
    ensures
        match (res, normalized_file(raw@)) {
            (Ok(f), Ok(n)) => file_is(f, n),
            (Err(e), Err(d)) => e == d,
            _ => false,
        },
{
    let (previous, current, status) = match normalize_operation(&raw.operation) {
        Ok(t) => t,
        Err(e) => {
            return Err(e);
        },
    };
    let (hunks, omitted) = match &raw.hunks {
        None => (Vec::new(), None),
        Some(hs) => {
            let (lines, bytes) = patch_size(hs);
            if lines > MAX_TRACKED_PATCH_LINES || bytes > MAX_TRACKED_PATCH_BYTES {
                (Vec::new(), Some(bytes))
            } else {
                proof {
                    assert forall|i: int| 0 <= i < hs@.len() implies numbering_fits(#[trigger] hs@[i]@) by {
                        assert(raw_hunk_views(hs@)[i] == hs@[i]@);
                    }
                }
                match normalize_hunk_list(hs) {
                    Ok(list) => (list, None),
                    Err(e) => {
                        return Err(e);
                    },
                }
            }
        },
    };
    let no_newline_at_end = has_no_newline(&hunks);
    proof {
        assert(hunk_views(Seq::<Hunk>::empty()) =~= Seq::<HunkView>::empty());
    }
    Ok(FileDiff {
        old_path: previous,
        path: current,
        status,
        staged: StageState::Unstaged,
        hunks,
        binary: raw.hunks.is_none(),
        mode: normalize_mode(raw.old_mode, raw.new_mode),
        no_newline_at_end,
        omitted_bytes: omitted,
        old_source: FileDiff::uncaptured_source(status, DiffSide::Old),
        new_source: FileDiff::uncaptured_source(status, DiffSide::New),
    })
}

fn side_count(lines: &Vec<RawLine>, old: bool) -> (res: usize)
    ensures
        res == side_lines(raw_line_views(lines@), old),
{
    let ghost all = raw_line_views(lines@);
    let mut count: usize = 0;
    let total = lines.len();
    let mut i: usize = lines.len();
    proof {
        assert(all.skip(i as int) =~= Seq::<RawLineView>::empty());
    }
    while i > 0
        invariant
            i <= lines@.len(),
            all == raw_line_views(lines@),
            count == side_lines(all.skip(i as int), old),
            count <= lines@.len() - i,
            total == lines@.len(),
        decreases i,
    {
        let (kind, _) = raw_line_parts(&lines[i - 1]);
        proof {
            assert(all.skip(i - 1).drop_first() =~= all.skip(i as int));
            assert(all.skip(i - 1)[0] == lines@[i - 1]@);
            lemma_side_lines_step(all.skip(i - 1), old);
        }
        if (old && kind != PatchLineKind::Added) || (!old && kind != PatchLineKind::Removed) {
            count = count + 1;
        }
        i = i - 1;
    }
    proof {
        assert(all.skip(0) =~= all);
    }
    count
}

/// Whether every hunk of a raw patch that would be normalized can be
/// numbered.
pub fn fits(raw: &RawFilePatch) -> (res: bool)
    ensures
        res == patch_fits(raw@),
{
    match &raw.hunks {
        None => true,
        Some(hs) => {
            let (lines, bytes) = patch_size(hs);
            if lines > MAX_TRACKED_PATCH_LINES || bytes > MAX_TRACKED_PATCH_BYTES {
                return true;
            }
            let ghost views = raw_hunk_views(hs@);
            proof {
                assert(!too_large(views));
            }
            let mut i: usize = 0;
            while i < hs.len()
                invariant
                    i <= hs@.len(),
                    views == raw_hunk_views(hs@),
                    raw@.hunks == Some(views),
                    !too_large(views),
                    forall|k: int| 0 <= k < i ==> numbering_fits(#[trigger] views[k]),
                decreases hs@.len() - i,
            {
                let h = &hs[i];
                let old_side = side_count(&h.lines, true);
                let new_side = side_count(&h.lines, false);
                proof {
                    assert(views[i as int] == h@);
                }
                if h.old_start.checked_add(old_side).is_none() || h.new_start.checked_add(new_side).is_none() {
                    proof {
                        assert(!numbering_fits(views[i as int]));
                        assert(raw@.hunks == Some(views));
                        assert(!patch_fits(raw@));
                    }
                    return false;
                }
                i = i + 1;
            }
            true
        },
    }
}

/// The description given when a hunk's line numbers would pass `usize::MAX`.
pub const NUMBERING_OVERFLOW: &'static str = "hunk line numbers exceed the platform's range";

/// Why a diff could not be normalized: the parser's description, or a model
/// error.
pub enum FailureView {
    Parse(Seq<char>),
    Error(DiffError),
}

pub open spec fn failure_of(e: DiffError) -> FailureView {
    match e {
        DiffError::Parse(s) => FailureView::Parse(s@),
        _ => FailureView::Error(e),
    }
}

/// What the parser's results normalize to, failing at the first file that
/// fails.
pub open spec fn normalized_files(raws: Seq<Result<RawFilePatchView, Seq<char>>>) -> Result<
    Seq<NormalizedFile>,
    FailureView,
>
    decreases raws.len(),
{
    if raws.len() == 0 {
        Ok(Seq::empty())
    } else {
        match normalized_one(raws[0]) {
            Err(f) => Err(f),
            Ok(n) => match normalized_files(raws.drop_first()) {
                Err(f) => Err(f),
                Ok(rest) => Ok(seq![n] + rest),
            },
        }
    }
}

/// What one of the parser's results normalizes to: its parse error, a
/// numbering that would overflow, or its normalization.
pub open spec fn normalized_one(r: Result<RawFilePatchView, Seq<char>>) -> Result<NormalizedFile, FailureView> {
    match r {
        Err(msg) => Err(FailureView::Parse(msg)),
        Ok(raw) => if !patch_fits(raw) {
            Err(FailureView::Parse(NUMBERING_OVERFLOW@))
        } else {
            match normalized_file(raw) {
                Err(e) => Err(failure_of(e)),
                Ok(n) => Ok(n),
            }
        },
    }
}

fn normalize_one(r: &Result<RawFilePatch, String>) -> (res: Result<FileDiff, DiffError>)
    ensures
        match (res, normalized_one(raw_result(*r))) {
            (Ok(f), Ok(n)) => file_is(f, n),
            (Err(e), Err(d)) => failure_of(e) == d,
            _ => false,
        },
{
    match r {
        Err(msg) => Err(DiffError::Parse(msg.clone())),
        Ok(raw) => {
            if !fits(raw) {
                let chars = chars_of(NUMBERING_OVERFLOW);
                return Err(DiffError::Parse(string_from_chars(chars.as_slice())));
            }
            normalize_patch(raw)
        },
    }
}

/// Whether a byte is ASCII white space.
pub open spec fn ascii_white(b: u8) -> bool {
    b == 32u8 || b == 9u8 || b == 10u8 || b == 12u8 || b == 13u8
}

/// What a Git diff normalizes to: nothing for blank input, else the
/// normalized files of what the parser found.
pub open spec fn git_diff_files(bytes: Seq<u8>) -> Result<Seq<NormalizedFile>, FailureView> {
    if forall|i: int| 0 <= i < bytes.len() ==> ascii_white(#[trigger] bytes[i]) {
        Ok(Seq::empty())
    } else {
        normalized_files(parsed_patch_set(bytes))
    }
}

/// Whether files are the normalized files, one for one.
pub open spec fn files_are(fs: Seq<FileDiff>, ns: Seq<NormalizedFile>) -> bool {
    fs.len() == ns.len() && forall|i: int| 0 <= i < fs.len() ==> file_is(#[trigger] fs[i], ns[i])
}

/// Normalizes the parser's results for a diff.
#[verifier::spinoff_prover]
#[verifier::rlimit(40)]
pub fn normalize_patch_set(raws: &Vec<Result<RawFilePatch, String>>) -> (res: Result<Vec<FileDiff>, DiffError>)
    ensures
        match (res, normalized_files(raw_results(raws@))) {
            (Ok(fs), Ok(ns)) => files_are(fs@, ns),
            (Err(e), Err(d)) => failure_of(e) == d,
            _ => false,
        },
{
    let ghost all = raw_results(raws@);
    let ghost done: Seq<NormalizedFile> = Seq::empty();
    let mut out: Vec<FileDiff> = Vec::new();
    let mut i: usize = 0;
    proof {
        assert(all.skip(0) =~= all);
        assert(done + Seq::<NormalizedFile>::empty() =~= done);
    }
    while i < raws.len()
        invariant
            i <= raws@.len(),
            all == raw_results(raws@),
            files_are(out@, done),
            normalized_files(all) == match normalized_files(all.skip(i as int)) {
                Ok(rest) => Ok(done + rest),
                Err(f) => Err::<Seq<NormalizedFile>, FailureView>(f),
            },
        decreases raws@.len() - i,
    {
        let ghost tail = all.skip(i as int);
        proof {
            assert(tail[0] == all[i as int]);
            assert(tail.drop_first() =~= all.skip(i + 1));
        }
        proof {
            assert(raw_result(raws@[i as int]) == all[i as int]);
        }
        match normalize_one(&raws[i]) {
            Err(e) => {
                return Err(e);
            },
            Ok(f) => {
                let ghost n = normalized_one(all[i as int])->Ok_0;
                out.push(f);
                proof {
                    let old_done = done;
                    done = done.push(n);
                    assert forall|k: int| 0 <= k < out@.len() implies file_is(#[trigger] out@[k], done[k]) by {
                        if k < out@.len() - 1 {
                            assert(done[k] == old_done[k]);
                        }
                    }
                    match normalized_files(all.skip(i + 1)) {
                        Ok(rest) => {
                            assert(old_done + (seq![n] + rest) =~= done + rest);
                        },
                        Err(_) => {},
                    }
                }
            },
        }
        i = i + 1;
    }
    proof {
        assert(all.skip(i as int) =~= Seq::<Result<RawFilePatchView, Seq<char>>>::empty());
        assert(done + Seq::<NormalizedFile>::empty() =~= done);
    }
    Ok(out)
}

/// Parses and normalizes a multi-file Git diff. Blank input has no files.
pub fn parse_git_diff(bytes: &[u8]) -> (res: Result<Vec<FileDiff>, DiffError>)
    ensures
        match (res, git_diff_files(bytes@)) {
            (Ok(fs), Ok(ns)) => files_are(fs@, ns),
            (Err(e), Err(d)) => failure_of(e) == d,
            _ => false,
        },
{
    let mut i: usize = 0;
    while i < bytes.len()
        invariant
            i <= bytes@.len(),
            forall|k: int| 0 <= k < i ==> ascii_white(#[trigger] bytes@[k]),
        decreases bytes@.len() - i,
    {
        let b = bytes[i];
        if !(b == 32u8 || b == 9u8 || b == 10u8 || b == 12u8 || b == 13u8) {
            let raws = parse_patch_set(bytes);
            proof {
                assert(!ascii_white(bytes@[i as int]));
            }
            return normalize_patch_set(&raws);
        }
        i = i + 1;
    }
    Ok(Vec::new())
}

} // verus!
