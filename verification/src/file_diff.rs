//! One changed file with its patch and complete sides, and a document of them.
use std::sync::Arc;
use vstd::prelude::*;
use vstd::utf8::encode_utf8;
use crate::content::{
    capture_limit, document_fields, line_starts_of, share_source, unavailable_text, SourceDocument,
    SourceUnavailable,
};
use crate::fingerprint::{blake3_digest, encode_fields, field_views, le_bytes, push_le_u64, Fingerprint};
use crate::model::{kind_name, PatchLineView};
use crate::line_diff::{derive_patch, derived_hunks, incomplete_final_line};
use crate::model::{
    count_kind, hunk_views, DiffSide, FileStatus, Hunk, HunkView, ModeChange, PatchLine,
    PatchLineKind, StageState,
};
use crate::repo_path::{path_error, RepoPath, RepoPathError};

verus! {

/// A captured complete side, or why it is unavailable.
pub type SourceResult = Result<Arc<SourceDocument>, SourceUnavailable>;

/// Errors shared by model and parser adapters.
#[derive(Debug, Clone, PartialEq, Eq)]
pub enum DiffError {
    /// A path in Git output was not valid UTF-8; holds the length of its
    /// valid prefix.
    UnsupportedPathEncoding { valid_up_to: usize },
    /// A path failed the relative-path contract.
    InvalidPath(RepoPathError),
    /// A diff could not be parsed; holds the parser's description.
    Parse(String),
    /// Text in Git output was not valid UTF-8; holds the length of its valid
    /// prefix.
    Utf8 { valid_up_to: usize },
    /// A NUL-delimited porcelain record did not follow Git's v1 grammar.
    InvalidPorcelainEntry,
}

/// The view of a side: its text, or why it is unavailable.
pub open spec fn source_view(r: SourceResult) -> Result<Seq<char>, SourceUnavailable> {
    match r {
        Ok(doc) => Ok(doc@),
        Err(e) => Err(e),
    }
}

/// What capturing `text` as a complete side yields.
pub open spec fn captured(text: Seq<char>) -> Result<Seq<char>, SourceUnavailable> {
    match capture_limit(encode_utf8(text).len(), line_starts_of(encode_utf8(text)).len()) {
        Some(e) => Err(e),
        None => Ok(text),
    }
}

/// The status of a file built from two complete texts.
pub open spec fn status_for_texts(old: Seq<char>, new: Seq<char>) -> FileStatus {
    if old.len() == 0 && new.len() > 0 {
        FileStatus::Added
    } else if old.len() > 0 && new.len() == 0 {
        FileStatus::Deleted
    } else {
        FileStatus::Modified
    }
}

/// Whether the status says that a side cannot exist.
pub open spec fn side_absent(status: FileStatus, side: DiffSide) -> bool {
    match side {
        DiffSide::Old => status == FileStatus::Added || status == FileStatus::Untracked,
        DiffSide::New => status == FileStatus::Deleted,
    }
}

/// The complete text of a side: the captured source, or empty where the
/// status says the side does not exist and it is recorded absent.
pub open spec fn side_text_of(
    r: Result<Seq<char>, SourceUnavailable>,
    status: FileStatus,
    side: DiffSide,
) -> Option<Seq<char>> {
    match r {
        Ok(t) => Some(t),
        Err(SourceUnavailable::Absent) => if side_absent(status, side) {
            Some(Seq::<char>::empty())
        } else {
            None
        },
        Err(_) => None,
    }
}

/// What `FileDiff::from_texts` builds at a valid path from two texts.
pub open spec fn built_from_texts(f: FileDiff, path: Seq<char>, old: Seq<char>, new: Seq<char>) -> bool {
    &&& f.path@ == path
    &&& f.status == status_for_texts(old, new)
    &&& (match f.old_path {
        Some(p) => f.status != FileStatus::Added && p == f.path,
        None => f.status == FileStatus::Added,
    })
    &&& f.staged == StageState::Unstaged
    &&& hunk_views(f.hunks@) == derived_hunks(old, new)
    &&& !f.binary
    &&& f.mode is None
    &&& f.no_newline_at_end == (incomplete_final_line(old) || incomplete_final_line(new))
    &&& f.omitted_bytes is None
    &&& source_view(f.old_source) == (if f.status == FileStatus::Added {
        Err(SourceUnavailable::Absent)
    } else {
        captured(old)
    })
    &&& source_view(f.new_source) == (if f.status == FileStatus::Deleted {
        Err(SourceUnavailable::Absent)
    } else {
        captured(new)
    })
}

/// Sum of the added (or removed) lines of a list of hunks.
pub open spec fn total_kind(hunks: Seq<Hunk>, kind: PatchLineKind) -> nat
    decreases hunks.len(),
{
    if hunks.len() == 0 {
        0
    } else {
        total_kind(hunks.drop_last(), kind) + count_kind(hunks.last().lines@, kind)
    }
}

/// A copy of a side's source result, sharing the document.
pub fn duplicate_source(r: &SourceResult) -> (res: SourceResult)
    ensures
        res == *r,
{
    match r {
        Ok(doc) => Ok(share_source(doc)),
        Err(e) => Err(e.duplicate()),
    }
}

fn duplicate_path(p: &Option<RepoPath>) -> (res: Option<RepoPath>)
    ensures
        res == *p,
{
    match p {
        Some(q) => Some(q.duplicate()),
        None => None,
    }
}

fn duplicate_mode(m: &Option<ModeChange>) -> (res: Option<ModeChange>)
    ensures
        res == *m,
{
    match m {
        Some(q) => Some(q.duplicate()),
        None => None,
    }
}

/// A copy of a list of hunks.
pub fn duplicate_hunks(hunks: &Vec<Hunk>) -> (res: Vec<Hunk>)
    ensures
        hunk_views(res@) == hunk_views(hunks@),
{
    let mut out: Vec<Hunk> = Vec::new();
    let mut i: usize = 0;
    while i < hunks.len()
        invariant
            i <= hunks@.len(),
            out@.len() == i,
            hunk_views(out@) == hunk_views(hunks@.take(i as int)),
        decreases hunks@.len() - i,
    {
        let ghost prev = out@;
        out.push(hunks[i].duplicate());
        proof {
            assert forall|k: int| 0 <= k < i + 1 implies #[trigger] hunk_views(out@)[k]
                == hunk_views(hunks@.take(i + 1))[k] by {
                if k < i {
                    assert(out@[k] == prev[k]);
                    assert(hunk_views(prev)[k] == hunk_views(hunks@.take(i as int))[k]);
                }
            }
            assert(hunk_views(out@) =~= hunk_views(hunks@.take(i + 1)));
        }
        i = i + 1;
    }
    proof {
        assert(hunks@.take(i as int) =~= hunks@);
    }
    out
}

/// One changed file.
///
/// `old_source` and `new_source` hold the complete versions of each side.
/// When both are available the hunks are derived from them, so equal sides
/// imply equal hunks; otherwise the hunks are the patch as supplied.
#[derive(Debug, PartialEq, Eq)]
pub struct FileDiff {
    pub old_path: Option<RepoPath>,
    pub path: RepoPath,
    pub status: FileStatus,
    pub staged: StageState,
    pub hunks: Vec<Hunk>,
    pub binary: bool,
    pub mode: Option<ModeChange>,
    pub no_newline_at_end: bool,
    pub omitted_bytes: Option<u64>,
    pub old_source: SourceResult,
    pub new_source: SourceResult,
}

/// The mathematical content of a file diff.
pub struct FileDiffView {
    pub old_path: Option<RepoPath>,
    pub path: RepoPath,
    pub status: FileStatus,
    pub staged: StageState,
    pub hunks: Seq<HunkView>,
    pub binary: bool,
    pub mode: Option<ModeChange>,
    pub no_newline_at_end: bool,
    pub omitted_bytes: Option<u64>,
    pub old_source: SourceResult,
    pub new_source: SourceResult,
}

impl View for FileDiff {
    type V = FileDiffView;

    open spec fn view(&self) -> FileDiffView {
        FileDiffView {
            old_path: self.old_path,
            path: self.path,
            status: self.status,
            staged: self.staged,
            hunks: hunk_views(self.hunks@),
            binary: self.binary,
            mode: self.mode,
            no_newline_at_end: self.no_newline_at_end,
            omitted_bytes: self.omitted_bytes,
            old_source: self.old_source,
            new_source: self.new_source,
        }
    }
}

impl Clone for FileDiff {
    fn clone(&self) -> (res: FileDiff)
        ensures
            res@ == self@,
    {
        self.duplicate()
    }
}

impl FileDiff {
    /// A copy of this file, sharing its source documents.
    pub fn duplicate(&self) -> (res: FileDiff)
        ensures
            res@ == self@,
    {
        FileDiff {
            old_path: duplicate_path(&self.old_path),
            path: self.path.duplicate(),
            status: self.status,
            staged: self.staged,
            hunks: duplicate_hunks(&self.hunks),
            binary: self.binary,
            mode: duplicate_mode(&self.mode),
            no_newline_at_end: self.no_newline_at_end,
            omitted_bytes: self.omitted_bytes,
            old_source: duplicate_source(&self.old_source),
            new_source: duplicate_source(&self.new_source),
        }
    }

    pub open spec fn spec_source(&self, side: DiffSide) -> SourceResult {
        match side {
            DiffSide::Old => self.old_source,
            DiffSide::New => self.new_source,
        }
    }

    pub open spec fn spec_path_for_side(&self, side: DiffSide) -> RepoPath {
        match side {
            DiffSide::Old => match self.old_path {
                Some(p) => p,
                None => self.path,
            },
            DiffSide::New => self.path,
        }
    }

    /// Returns the repository path used by one side of this file version.
    pub fn path_for_side(&self, side: DiffSide) -> (res: &RepoPath)
        ensures
            *res == self.spec_path_for_side(side),
    {
        match side {
            DiffSide::Old => match &self.old_path {
                Some(p) => p,
                None => &self.path,
            },
            DiffSide::New => &self.path,
        }
    }

    fn capture_side(text: &str, absent: bool) -> (res: SourceResult)
        ensures
            source_view(res) == (if absent {
                Err(SourceUnavailable::Absent)
            } else {
                captured(text@)
            }),
    {
        if absent {
            Err(SourceUnavailable::Absent)
        } else {
            match SourceDocument::new(text) {
                Ok(doc) => Ok(Arc::new(doc)),
                Err(e) => Err(e),
            }
        }
    }

    /// Builds a one-file diff at a validated path from complete old and new
    /// text snapshots.
    pub fn from_texts_at(path: RepoPath, old: &str, new: &str) -> (res: FileDiff)
        ensures
            res.path == path,
            res.status == status_for_texts(old@, new@),
            res.old_path == (if res.status == FileStatus::Added {
                None
            } else {
                Some(path)
            }),
            res.staged == StageState::Unstaged,
            hunk_views(res.hunks@) == derived_hunks(old@, new@),
            !res.binary,
            res.mode is None,
            res.no_newline_at_end == (incomplete_final_line(old@) || incomplete_final_line(
                new@,
            )),
            res.omitted_bytes is None,
            source_view(res.old_source) == (if res.status == FileStatus::Added {
                Err(SourceUnavailable::Absent)
            } else {
                captured(old@)
            }),
            source_view(res.new_source) == (if res.status == FileStatus::Deleted {
                Err(SourceUnavailable::Absent)
            } else {
                captured(new@)
            }),
    {
        let old_empty = old.is_empty();
        let new_empty = new.is_empty();
        let status = if old_empty && !new_empty {
            FileStatus::Added
        } else if !old_empty && new_empty {
            FileStatus::Deleted
        } else {
            FileStatus::Modified
        };
        let (hunks, no_newline_at_end) = derive_patch(old, new);
        let old_path = if status == FileStatus::Added {
            None
        } else {
            Some(path.duplicate())
        };
        let old_source = FileDiff::capture_side(old, status == FileStatus::Added);
        let new_source = FileDiff::capture_side(new, status == FileStatus::Deleted);
        FileDiff {
            old_path,
            path,
            status,
            staged: StageState::Unstaged,
            hunks,
            binary: false,
            mode: None,
            no_newline_at_end,
            omitted_bytes: None,
            old_source,
            new_source,
        }
    }

    /// Builds a one-file diff from complete old and new text snapshots.
    ///
    /// Returns an error when `path` is not a valid repository-relative path.
    pub fn from_texts(path: &str, old: &str, new: &str) -> (res: Result<FileDiff, DiffError>)
        ensures
            match res {
                Ok(f) => path_error(path@) is None && built_from_texts(f, path@, old@, new@),
                Err(e) => path_error(path@) matches Some(p) && e == DiffError::InvalidPath(p),
            },
    {
        match RepoPath::new(path) {
            Ok(p) => Ok(FileDiff::from_texts_at(p, old, new)),
            Err(e) => Err(DiffError::InvalidPath(e)),
        }
    }

    /// The complete text of a side, as `side_text_of` describes it.
    pub fn side_text(&self, side: DiffSide) -> (res: Option<&str>)
        ensures
            match res {
                Some(t) => side_text_of(source_view(self.spec_source(side)), self.status, side)
                    == Some(t@),
                None => side_text_of(source_view(self.spec_source(side)), self.status, side)
                    is None,
            },
    {
        match self.source(side) {
            Ok(doc) => Some(doc.text()),
            Err(SourceUnavailable::Absent) => if FileDiff::side_is_absent(self.status, side) {
                proof {
                    assert(""@ =~= Seq::<char>::empty()) by {
                        reveal_strlit("");
                    }
                }
                Some("")
            } else {
                None
            },
            Err(_) => None,
        }
    }

    /// Attaches captured source versions, re-deriving the hunks from them when
    /// both sides are known. Git metadata such as status, staging, mode, and
    /// paths is kept as supplied; a binary file keeps its patch untouched.
    pub fn with_sources(self, old: SourceResult, new: SourceResult) -> (res: FileDiff)
        ensures
            res.old_source == old,
            res.new_source == new,
            res.old_path == self.old_path,
            res.path == self.path,
            res.status == self.status,
            res.staged == self.staged,
            res.binary == self.binary,
            res.mode == self.mode,
            res.omitted_bytes == self.omitted_bytes,
            ({
                let ot = side_text_of(source_view(old), self.status, DiffSide::Old);
                let nt = side_text_of(source_view(new), self.status, DiffSide::New);
                if !self.binary && ot is Some && nt is Some {
                    &&& hunk_views(res.hunks@) == derived_hunks(ot->0, nt->0)
                    &&& res.no_newline_at_end == (incomplete_final_line(ot->0)
                        || incomplete_final_line(nt->0))
                } else {
                    &&& res.hunks == self.hunks
                    &&& res.no_newline_at_end == self.no_newline_at_end
                }
            }),
    {
        let mut file = self;
        file.old_source = old;
        file.new_source = new;
        if file.binary {
            return file;
        }
        let derived = match (file.side_text(DiffSide::Old), file.side_text(DiffSide::New)) {
            (Some(o), Some(n)) => Some(derive_patch(o, n)),
            _ => None,
        };
        match derived {
            Some((hunks, no_newline_at_end)) => {
                file.hunks = hunks;
                file.no_newline_at_end = no_newline_at_end;
            },
            None => {},
        }
        file
    }

    /// Whether the status says that a side cannot exist.
    pub fn side_is_absent(status: FileStatus, side: DiffSide) -> (res: bool)
        ensures
            res == side_absent(status, side),
    {
        match side {
            DiffSide::Old => status == FileStatus::Added || status == FileStatus::Untracked,
            DiffSide::New => status == FileStatus::Deleted,
        }
    }

    /// The source result recorded for a side of a file whose complete versions
    /// were not captured: absent where the status says the side cannot exist,
    /// not captured otherwise.
    pub fn uncaptured_source(status: FileStatus, side: DiffSide) -> (res: SourceResult)
        ensures
            res == (if side_absent(status, side) {
                Err::<Arc<SourceDocument>, SourceUnavailable>(SourceUnavailable::Absent)
            } else {
                Err(SourceUnavailable::NotCaptured)
            }),
    {
        if FileDiff::side_is_absent(status, side) {
            Err(SourceUnavailable::Absent)
        } else {
            Err(SourceUnavailable::NotCaptured)
        }
    }

    /// Returns the complete source result for one side.
    pub fn source(&self, side: DiffSide) -> (res: &SourceResult)
        ensures
            *res == self.spec_source(side),
    {
        match side {
            DiffSide::Old => &self.old_source,
            DiffSide::New => &self.new_source,
        }
    }

    /// Returns the complete source document for one side when it is available.
    pub fn source_document(&self, side: DiffSide) -> (res: Option<&Arc<SourceDocument>>)
        ensures
            match self.spec_source(side) {
                Ok(doc) => res == Some(&doc),
                Err(_) => res is None,
            },
    {
        match self.source(side) {
            Ok(doc) => Some(doc),
            Err(_) => None,
        }
    }

    /// Returns why one side has no complete source document.
    pub fn source_unavailable(&self, side: DiffSide) -> (res: Option<&SourceUnavailable>)
        ensures
            match self.spec_source(side) {
                Ok(_) => res is None,
                Err(e) => res == Some(&e),
            },
    {
        match self.source(side) {
            Ok(_) => None,
            Err(e) => Some(e),
        }
    }

    /// Number of added lines.
    pub fn additions(&self) -> (res: usize)
        requires
            total_kind(self.hunks@, PatchLineKind::Added) <= usize::MAX,
        ensures
            res == total_kind(self.hunks@, PatchLineKind::Added),
    {
        total_of_kind(&self.hunks, PatchLineKind::Added)
    }

    /// Number of removed lines.
    pub fn deletions(&self) -> (res: usize)
        requires
            total_kind(self.hunks@, PatchLineKind::Removed) <= usize::MAX,
        ensures
            res == total_kind(self.hunks@, PatchLineKind::Removed),
    {
        total_of_kind(&self.hunks, PatchLineKind::Removed)
    }

    /// Lowercase file extension, without a dot.
    pub fn language(&self) -> (res: String)
        ensures
            res@ == language_of(self.path@),
    {
        let chars = crate::text::chars_of(self.path.as_str());
        let total = chars.len();
        let name_start = match last_index(&chars, 0, '/') {
            Some(i) => i + 1,
            None => 0,
        };
        proof {
            assert(chars@.skip(0) =~= chars@);
            lemma_last_index_bounds(chars@, '/');
        }
        let ghost name = chars@.skip(name_start as int);
        let mut out: Vec<char> = Vec::new();
        match last_index(&chars, name_start, '.') {
            Some(d) => {
                if d >= name_start + 1 {
                    let mut k = d + 1;
                    while k < chars.len()
                        invariant
                            d + 1 <= k <= chars@.len(),
                            out@ == chars@.subrange(d + 1, k as int).map_values(
                                |c: char| ascii_lower(c),
                            ),
                        decreases chars@.len() - k,
                    {
                        out.push(ascii_lowercase(chars[k]));
                        proof {
                            assert(out@ =~= chars@.subrange(d + 1, k + 1).map_values(
                                |c: char| ascii_lower(c),
                            ));
                        }
                        k = k + 1;
                    }
                    proof {
                        assert(name.skip(d - name_start + 1) =~= chars@.subrange(d + 1, k as int));
                    }
                }
            },
            None => {},
        }
        proof {
            assert(out@ =~= language_of(self.path@));
        }
        crate::text::string_from_chars(out.as_slice())
    }

    /// A patch line by hunk and line index.
    pub fn line(&self, hunk: usize, line: usize) -> (res: Option<&PatchLine>)
        ensures
            match res {
                Some(l) => hunk < self.hunks@.len() && line < self.hunks@[hunk as int].lines@.len()
                    && *l == self.hunks@[hunk as int].lines@[line as int],
                None => hunk >= self.hunks@.len() || line >= self.hunks@[hunk as int].lines@.len(),
            },
    {
        if hunk < self.hunks.len() && line < self.hunks[hunk].lines.len() {
            Some(&self.hunks[hunk].lines[line])
        } else {
            None
        }
    }
}

/// The index of the last `c` in `s`, or -1.
pub open spec fn last_index_of(s: Seq<char>, c: char) -> int
    decreases s.len(),
{
    if s.len() == 0 {
        -1
    } else if s.last() == c {
        s.len() - 1
    } else {
        last_index_of(s.drop_last(), c)
    }
}

pub(crate) proof fn lemma_last_index_bounds(s: Seq<char>, c: char)
    ensures
        -1 <= last_index_of(s, c) < s.len(),
    decreases s.len(),
{
    if s.len() > 0 {
        lemma_last_index_bounds(s.drop_last(), c);
    }
}

/// The last component of a path.
pub open spec fn file_name_of(path: Seq<char>) -> Seq<char> {
    path.skip(last_index_of(path, '/') + 1)
}

/// The characters after the last dot of a name, where that dot follows at
/// least one other character; empty otherwise.
pub open spec fn extension_of(name: Seq<char>) -> Seq<char> {
    let d = last_index_of(name, '.');
    if d >= 1 {
        name.skip(d + 1)
    } else {
        Seq::empty()
    }
}

pub open spec fn ascii_lower(c: char) -> char {
    if 'A' <= c <= 'Z' {
        ((c as u32) + 32) as char
    } else {
        c
    }
}

/// The lowercase extension of a path's file name, without the dot; empty
/// where the name has none.
pub open spec fn language_of(path: Seq<char>) -> Seq<char> {
    extension_of(file_name_of(path)).map_values(|c: char| ascii_lower(c))
}

/// ASCII capitals become small letters, every other character is
/// unchanged, as `char::to_ascii_lowercase` does.
pub(crate) fn ascii_lowercase(c: char) -> (res: char)
    ensures
        res == ascii_lower(c),
{
    if 'A' <= c && c <= 'Z' {
        let b = c as u8;
        assert(b == c as u32);
        ((b + 32) as u8) as char
    } else {
        c
    }
}

pub(crate) fn last_index(s: &Vec<char>, from: usize, c: char) -> (res: Option<usize>)
    requires
        from <= s@.len(),
    ensures
        match res {
            Some(i) => from <= i < s@.len() && last_index_of(s@.skip(from as int), c) == i - from,
            None => last_index_of(s@.skip(from as int), c) == -1,
        },
{
    let ghost t = s@.skip(from as int);
    let mut found: Option<usize> = None;
    let mut i = from;
    while i < s.len()
        invariant
            from <= i <= s@.len(),
            t == s@.skip(from as int),
            match found {
                Some(k) => from <= k < i && last_index_of(t.take(i - from), c) == k - from,
                None => last_index_of(t.take(i - from), c) == -1,
            },
        decreases s@.len() - i,
    {
        proof {
            assert(t.take(i + 1 - from).drop_last() =~= t.take(i - from));
            assert(t.take(i + 1 - from).last() == s@[i as int]);
        }
        if s[i] == c {
            found = Some(i);
        }
        i = i + 1;
    }
    proof {
        assert(t.take(i - from) =~= t);
    }
    found
}

/// The byte of a status code.
pub open spec fn status_byte(status: FileStatus) -> u8 {
    match status {
        FileStatus::Modified => 77,
        FileStatus::Added => 65,
        FileStatus::Deleted => 68,
        FileStatus::Renamed => 82,
        FileStatus::Copied => 67,
        FileStatus::Untracked => 63,
    }
}

/// The field that a side contributes to a file's content identity: the
/// document's identity, or the text of why it is unavailable.
pub open spec fn side_field(r: SourceResult) -> Seq<u8> {
    match r {
        Ok(doc) => blake3_digest(encode_fields(document_fields(doc@))),
        Err(reason) => encode_utf8(unavailable_text(reason)),
    }
}

pub open spec fn number_field(n: Option<usize>) -> Seq<u8> {
    le_bytes(
        match n {
            Some(v) => v as nat,
            None => 0,
        },
        8,
    )
}

/// The fields of a patch line in a content identity.
pub open spec fn line_fields(l: PatchLineView) -> Seq<Seq<u8>> {
    seq![
        encode_utf8(kind_name(l.kind)),
        encode_utf8(l.text),
        number_field(l.old_line_no) + number_field(l.new_line_no) + seq![
            if l.no_newline {
                1u8
            } else {
                0u8
            },
        ],
    ]
}

pub open spec fn lines_fields(ls: Seq<PatchLineView>) -> Seq<Seq<u8>>
    decreases ls.len(),
{
    if ls.len() == 0 {
        Seq::empty()
    } else {
        lines_fields(ls.drop_last()) + line_fields(ls.last())
    }
}

pub open spec fn hunks_fields(hs: Seq<HunkView>) -> Seq<Seq<u8>>
    decreases hs.len(),
{
    if hs.len() == 0 {
        Seq::empty()
    } else {
        hunks_fields(hs.drop_last()) + seq![encode_utf8(hs.last().header)] + lines_fields(
            hs.last().lines,
        )
    }
}

/// The fields of a file's content identity: a domain tag, the status and
/// binary flag, both sides, and the hunks where a side is unavailable.
pub open spec fn file_fields(file: FileDiff) -> Seq<Seq<u8>> {
    let head = seq![
        encode_utf8("diff-file-content-v1"@),
        seq![
            status_byte(file.status),
            if file.binary {
                1u8
            } else {
                0u8
            },
        ],
        side_field(file.old_source),
        side_field(file.new_source),
    ];
    if file.old_source is Ok && file.new_source is Ok {
        head
    } else {
        head + hunks_fields(hunk_views(file.hunks@))
    }
}

fn side_bytes(r: &SourceResult) -> (res: Vec<u8>)
    ensures
        res@ == side_field(*r),
{
    match r {
        Ok(doc) => {
            let id = doc.content_id();
            crate::text::bytes_to_vec(id.as_bytes())
        },
        Err(reason) => {
            let text = reason.describe();
            let mut out: Vec<u8> = Vec::new();
            crate::text::push_str_bytes(&mut out, text.as_str());
            out
        },
    }
}

fn push_line_fields(fields: &mut Vec<Vec<u8>>, line: &PatchLine)
    ensures
        field_views(final(fields)@) == field_views(old(fields)@) + line_fields(line@),
{
    let mut kind: Vec<u8> = Vec::new();
    crate::text::push_str_bytes(&mut kind, line.kind.as_str());
    let mut text: Vec<u8> = Vec::new();
    crate::text::push_str_bytes(&mut text, line.text.as_str());
    let mut numbers: Vec<u8> = Vec::new();
    let old_no: usize = match line.old_line_no {
        Some(v) => v,
        None => 0,
    };
    let new_no: usize = match line.new_line_no {
        Some(v) => v,
        None => 0,
    };
    push_le_u64(&mut numbers, old_no as u64);
    push_le_u64(&mut numbers, new_no as u64);
    numbers.push(if line.no_newline {
        1u8
    } else {
        0u8
    });
    proof {
        assert(numbers@ =~= number_field(line.old_line_no) + number_field(line.new_line_no) + seq![
            if line.no_newline {
                1u8
            } else {
                0u8
            },
        ]);
    }
    let ghost prev = fields@;
    fields.push(kind);
    fields.push(text);
    fields.push(numbers);
    proof {
        assert(field_views(fields@) =~= field_views(prev) + line_fields(line@));
    }
}

impl FileDiff {
    /// Content identity used to decide whether presentation state derived
    /// from this file still applies after a replacement. It covers both
    /// sides, and the hunks only when a side is unavailable.
    pub fn content_id(&self) -> (res: Fingerprint)
        ensures
            res.bytes@ == blake3_digest(encode_fields(file_fields(*self))),
    {
        let mut fields: Vec<Vec<u8>> = Vec::new();
        let mut domain: Vec<u8> = Vec::new();
        crate::text::push_str_bytes(&mut domain, "diff-file-content-v1");
        fields.push(domain);
        let code: u8 = match self.status {
            FileStatus::Modified => 77,
            FileStatus::Added => 65,
            FileStatus::Deleted => 68,
            FileStatus::Renamed => 82,
            FileStatus::Copied => 67,
            FileStatus::Untracked => 63,
        };
        let mut flags: Vec<u8> = Vec::new();
        flags.push(code);
        flags.push(if self.binary {
            1u8
        } else {
            0u8
        });
        fields.push(flags);
        fields.push(side_bytes(&self.old_source));
        fields.push(side_bytes(&self.new_source));
        let ghost head = field_views(fields@);
        proof {
            assert(flags@ =~= seq![
                status_byte(self.status),
                if self.binary {
                    1u8
                } else {
                    0u8
                },
            ]);
            assert(head =~= file_fields(*self).take(4));
        }
        let complete = self.old_source.is_ok() && self.new_source.is_ok();
        if !complete {
            let ghost hv = hunk_views(self.hunks@);
            let mut h: usize = 0;
            while h < self.hunks.len()
                invariant
                    h <= self.hunks@.len(),
                    hv == hunk_views(self.hunks@),
                    field_views(fields@) == head + hunks_fields(hv.take(h as int)),
                decreases self.hunks@.len() - h,
            {
                let hunk = &self.hunks[h];
                let mut header: Vec<u8> = Vec::new();
                crate::text::push_str_bytes(&mut header, hunk.header.as_str());
                let ghost before = field_views(fields@);
                fields.push(header);
                proof {
                    assert(field_views(fields@) =~= before.push(encode_utf8(hunk.header@)));
                }
                let ghost lv = hv[h as int].lines;
                let ghost mid = field_views(fields@);
                let mut i: usize = 0;
                while i < hunk.lines.len()
                    invariant
                        i <= hunk.lines@.len(),
                        lv == hunk@.lines,
                        field_views(fields@) == mid + lines_fields(lv.take(i as int)),
                    decreases hunk.lines@.len() - i,
                {
                    push_line_fields(&mut fields, &hunk.lines[i]);
                    proof {
                        assert(lv.take(i + 1).drop_last() =~= lv.take(i as int));
                        assert(lv.take(i + 1).last() == hunk.lines@[i as int]@);
                        assert(field_views(fields@) =~= mid + lines_fields(lv.take(i + 1)));
                    }
                    i = i + 1;
                }
                proof {
                    assert(lv.take(i as int) =~= lv);
                    assert(hv.take(h + 1).drop_last() =~= hv.take(h as int));
                    assert(hv.take(h + 1).last() == hunk@);
                    assert(field_views(fields@) =~= head + hunks_fields(hv.take(h + 1)));
                }
                h = h + 1;
            }
            proof {
                assert(hv.take(h as int) =~= hv);
                assert(field_views(fields@) =~= file_fields(*self));
            }
        } else {
            proof {
                assert(field_views(fields@) =~= file_fields(*self));
            }
        }
        Fingerprint::of(&fields)
    }
}

proof fn lemma_total_kind_monotone(hunks: Seq<Hunk>, i: int, kind: PatchLineKind)
    requires
        0 <= i <= hunks.len(),
    ensures
        total_kind(hunks.take(i), kind) <= total_kind(hunks, kind),
    decreases hunks.len(),
{
    if i < hunks.len() {
        assert(hunks.drop_last().take(i) =~= hunks.take(i));
        lemma_total_kind_monotone(hunks.drop_last(), i, kind);
    } else {
        assert(hunks.take(i) =~= hunks);
    }
}

fn total_of_kind(hunks: &Vec<Hunk>, kind: PatchLineKind) -> (res: usize)
    requires
        total_kind(hunks@, kind) <= usize::MAX,
    ensures
        res == total_kind(hunks@, kind),
{
    let mut total: usize = 0;
    let mut i: usize = 0;
    while i < hunks.len()
        invariant
            i <= hunks@.len(),
            total == total_kind(hunks@.take(i as int), kind),
            total_kind(hunks@, kind) <= usize::MAX,
        decreases hunks@.len() - i,
    {
        proof {
            assert(hunks@.take(i + 1).drop_last() =~= hunks@.take(i as int));
            lemma_total_kind_monotone(hunks@, i + 1, kind);
        }
        let n = crate::model::count_lines_of_kind(&hunks[i].lines, kind);
        total = total + n;
        i = i + 1;
    }
    proof {
        assert(hunks@.take(i as int) =~= hunks@);
    }
    total
}

/// A complete renderer-neutral review snapshot: every changed file with its
/// patch and, when captured, both complete source versions.
#[derive(Debug, Clone, PartialEq, Eq)]
pub struct DiffDocument {
    pub repo_root: String,
    pub files: Vec<FileDiff>,
}

impl DiffDocument {
    pub fn empty() -> (res: DiffDocument)
        ensures
            res.repo_root@ == Seq::<char>::empty(),
            res.files@ == Seq::<FileDiff>::empty(),
    {
        DiffDocument { repo_root: String::new(), files: Vec::new() }
    }

    /// Builds a complete document from full old/new text pairs, deriving each
    /// file's patch; the first invalid path is the error.
    pub fn from_texts(files: &Vec<(&str, &str, &str)>) -> (res: Result<DiffDocument, DiffError>)
        ensures
            match res {
                Ok(d) => {
                    &&& d.repo_root@ == Seq::<char>::empty()
                    &&& d.files@.len() == files@.len()
                    &&& forall|i: int|
                        0 <= i < files@.len() ==> path_error(files@[i].0@) is None
                            && built_from_texts(
                            #[trigger] d.files@[i],
                            files@[i].0@,
                            files@[i].1@,
                            files@[i].2@,
                        )
                },
                Err(e) => exists|i: int|
                    #![trigger files@[i]]
                    0 <= i < files@.len() && (forall|j: int|
                        0 <= j < i ==> #[trigger] path_error(files@[j].0@) is None) && (
                    path_error(files@[i].0@) matches Some(p) && e == DiffError::InvalidPath(p)),
            },
    {
        let mut out: Vec<FileDiff> = Vec::new();
        let mut i: usize = 0;
        while i < files.len()
            invariant
                i <= files@.len(),
                out@.len() == i,
                forall|k: int| 0 <= k < i ==> path_error(#[trigger] files@[k].0@) is None,
                forall|k: int|
                    0 <= k < i ==> built_from_texts(
                        #[trigger] out@[k],
                        files@[k].0@,
                        files@[k].1@,
                        files@[k].2@,
                    ),
            decreases files@.len() - i,
        {
            let (path, old, new) = files[i];
            match FileDiff::from_texts(path, old, new) {
                Ok(f) => {
                    out.push(f);
                },
                Err(e) => {
                    return Err(e);
                },
            }
            i = i + 1;
        }
        Ok(DiffDocument { repo_root: String::new(), files: out })
    }

    /// The index of the first file at `path`.
    pub fn file_index(&self, path: &RepoPath) -> (res: Option<usize>)
        ensures
            match res {
                Some(i) => i < self.files@.len() && self.files@[i as int].path@ == path@
                    && forall|k: int| 0 <= k < i ==> (#[trigger] self.files@[k]).path@ != path@,
                None => forall|k: int|
                    0 <= k < self.files@.len() ==> (#[trigger] self.files@[k]).path@ != path@,
            },
    {
        let mut i: usize = 0;
        while i < self.files.len()
            invariant
                i <= self.files@.len(),
                forall|k: int| 0 <= k < i ==> (#[trigger] self.files@[k]).path@ != path@,
            decreases self.files@.len() - i,
        {
            if self.files[i].path.same_as(path) {
                return Some(i);
            }
            i = i + 1;
        }
        None
    }
}

} // verus!
