//! Owned diff domain types: sides, scopes, statuses, patch lines, and hunks.
use vstd::prelude::*;
use crate::text::{chars_equal, chars_of, string_from_chars};

verus! {

/// The side of a patch to which a line or comment belongs.
#[derive(Debug, Clone, Copy, PartialEq, Eq, Hash, PartialOrd, Ord, Structural)]
pub enum DiffSide {
    Old,
    New,
}

impl DiffSide {
    pub fn opposite(self) -> (res: DiffSide)
        ensures
            res != self,
    {
        match self {
            DiffSide::Old => DiffSide::New,
            DiffSide::New => DiffSide::Old,
        }
    }

    pub fn as_str(self) -> (res: &'static str)
        ensures
            res@ == side_name(self),
    {
        match self {
            DiffSide::Old => "old",
            DiffSide::New => "new",
        }
    }
}

pub open spec fn side_name(side: DiffSide) -> Seq<char> {
    match side {
        DiffSide::Old => "old"@,
        DiffSide::New => "new"@,
    }
}

/// Error returned when parsing an unknown scope name; holds the input.
#[derive(Debug, Clone, PartialEq, Eq)]
pub struct ParseDiffScopeError(pub String);

/// The snapshot included in a document.
#[derive(Debug, Clone, Copy, PartialEq, Eq, Default, Structural)]
pub enum DiffScope {
    Unstaged,
    Staged,
    #[default]
    Both,
}

pub open spec fn scope_name(scope: DiffScope) -> Seq<char> {
    match scope {
        DiffScope::Unstaged => "unstaged"@,
        DiffScope::Staged => "staged"@,
        DiffScope::Both => "both"@,
    }
}

pub open spec fn scope_after(scope: DiffScope) -> DiffScope {
    match scope {
        DiffScope::Unstaged => DiffScope::Staged,
        DiffScope::Staged => DiffScope::Both,
        DiffScope::Both => DiffScope::Unstaged,
    }
}

/// Cycling the diff scope three times returns to the starting scope, and no
/// fewer steps do.
pub proof fn lemma_scope_cycle(scope: DiffScope)
    ensures
        scope_after(scope_after(scope_after(scope))) == scope,
        scope_after(scope) != scope,
        scope_after(scope_after(scope)) != scope,
{
}

impl DiffScope {
    pub fn as_str(self) -> (res: &'static str)
        ensures
            res@ == scope_name(self),
    {
        match self {
            DiffScope::Unstaged => "unstaged",
            DiffScope::Staged => "staged",
            DiffScope::Both => "both",
        }
    }

    /// The next scope in the cycle unstaged, staged, both.
    pub fn next(self) -> (res: DiffScope)
        ensures
            res == scope_after(self),
    {
        match self {
            DiffScope::Unstaged => DiffScope::Staged,
            DiffScope::Staged => DiffScope::Both,
            DiffScope::Both => DiffScope::Unstaged,
        }
    }

    /// Parses a scope name; any other text is an error that holds it.
    pub fn parse(value: &str) -> (res: Result<DiffScope, ParseDiffScopeError>)
        ensures
            match res {
                Ok(scope) => scope_name(scope) == value@,
                Err(e) => e.0@ == value@ && value@ != "unstaged"@ && value@ != "staged"@
                    && value@ != "both"@,
            },
    {
        let chars = chars_of(value);
        let unstaged = chars_of("unstaged");
        let staged = chars_of("staged");
        let both = chars_of("both");
        if chars_equal(&chars, &unstaged) {
            Ok(DiffScope::Unstaged)
        } else if chars_equal(&chars, &staged) {
            Ok(DiffScope::Staged)
        } else if chars_equal(&chars, &both) {
            Ok(DiffScope::Both)
        } else {
            Err(ParseDiffScopeError(string_from_chars(&chars)))
        }
    }
}

impl core::str::FromStr for DiffScope {
    type Err = ParseDiffScopeError;

    fn from_str(value: &str) -> Result<DiffScope, ParseDiffScopeError> {
        DiffScope::parse(value)
    }
}

/// Git's file operation classification.
#[derive(Debug, Clone, Copy, PartialEq, Eq, Structural)]
pub enum FileStatus {
    Modified,
    Added,
    Deleted,
    Renamed,
    Copied,
    Untracked,
}

pub open spec fn status_code(status: FileStatus) -> char {
    match status {
        FileStatus::Modified => 'M',
        FileStatus::Added => 'A',
        FileStatus::Deleted => 'D',
        FileStatus::Renamed => 'R',
        FileStatus::Copied => 'C',
        FileStatus::Untracked => '?',
    }
}

impl FileStatus {
    /// Git's one-letter status code.
    pub fn code(self) -> (res: char)
        ensures
            res == status_code(self),
    {
        match self {
            FileStatus::Modified => 'M',
            FileStatus::Added => 'A',
            FileStatus::Deleted => 'D',
            FileStatus::Renamed => 'R',
            FileStatus::Copied => 'C',
            FileStatus::Untracked => '?',
        }
    }
}

/// Index/worktree staging state.
#[derive(Debug, Clone, Copy, PartialEq, Eq, Structural)]
pub enum StageState {
    Unstaged,
    Staged,
    PartiallyStaged,
}

/// Semantic tint used when presenting a line.
#[derive(Debug, Clone, Copy, PartialEq, Eq, Hash, Structural)]
pub enum DiffTone {
    Context,
    Added,
    Removed,
    Meta,
}

/// A line's semantic patch kind.
#[derive(Debug, Clone, Copy, PartialEq, Eq, Hash, Structural)]
pub enum PatchLineKind {
    HunkHeader,
    Context,
    Added,
    Removed,
    Meta,
}

pub open spec fn kind_name(kind: PatchLineKind) -> Seq<char> {
    match kind {
        PatchLineKind::HunkHeader => "HunkHeader"@,
        PatchLineKind::Context => "Context"@,
        PatchLineKind::Added => "Added"@,
        PatchLineKind::Removed => "Removed"@,
        PatchLineKind::Meta => "Meta"@,
    }
}

/// The sides on which a line of this kind exists.
pub open spec fn kind_sides(kind: PatchLineKind) -> Seq<DiffSide> {
    match kind {
        PatchLineKind::Removed => seq![DiffSide::Old],
        PatchLineKind::Added => seq![DiffSide::New],
        _ => seq![DiffSide::Old, DiffSide::New],
    }
}

pub open spec fn kind_tone(kind: PatchLineKind) -> DiffTone {
    match kind {
        PatchLineKind::Added => DiffTone::Added,
        PatchLineKind::Removed => DiffTone::Removed,
        PatchLineKind::Meta | PatchLineKind::HunkHeader => DiffTone::Meta,
        PatchLineKind::Context => DiffTone::Context,
    }
}

impl PatchLineKind {
    pub fn as_str(self) -> (res: &'static str)
        ensures
            res@ == kind_name(self),
    {
        match self {
            PatchLineKind::HunkHeader => "HunkHeader",
            PatchLineKind::Context => "Context",
            PatchLineKind::Added => "Added",
            PatchLineKind::Removed => "Removed",
            PatchLineKind::Meta => "Meta",
        }
    }

    pub fn sides(self) -> (res: Vec<DiffSide>)
        ensures
            res@ == kind_sides(self),
    {
        match self {
            PatchLineKind::Removed => vec![DiffSide::Old],
            PatchLineKind::Added => vec![DiffSide::New],
            _ => vec![DiffSide::Old, DiffSide::New],
        }
    }

    /// Semantic tint used when presenting a line of this kind.
    pub fn tone(self) -> (res: DiffTone)
        ensures
            res == kind_tone(self),
    {
        match self {
            PatchLineKind::Added => DiffTone::Added,
            PatchLineKind::Removed => DiffTone::Removed,
            PatchLineKind::Meta | PatchLineKind::HunkHeader => DiffTone::Meta,
            PatchLineKind::Context => DiffTone::Context,
        }
    }
}

/// A file mode change, represented as Git's six-digit mode strings.
#[derive(Debug, PartialEq, Eq)]
pub struct ModeChange {
    pub old: Option<String>,
    pub new: Option<String>,
}

fn duplicate_text(s: &Option<String>) -> (res: Option<String>)
    ensures
        res == *s,
{
    match s {
        Some(t) => Some(t.clone()),
        None => None,
    }
}

impl ModeChange {
    /// A copy of this mode change.
    pub fn duplicate(&self) -> (res: ModeChange)
        ensures
            res == *self,
    {
        ModeChange { old: duplicate_text(&self.old), new: duplicate_text(&self.new) }
    }
}

impl Clone for ModeChange {
    fn clone(&self) -> (res: ModeChange)
        ensures
            res == *self,
    {
        self.duplicate()
    }
}

/// A line in a hunk, including canonical old/new numbering.
#[derive(Debug, PartialEq, Eq)]
pub struct PatchLine {
    pub kind: PatchLineKind,
    pub text: String,
    pub old_line_no: Option<usize>,
    pub new_line_no: Option<usize>,
    pub no_newline: bool,
}

/// The mathematical content of a patch line.
pub struct PatchLineView {
    pub kind: PatchLineKind,
    pub text: Seq<char>,
    pub old_line_no: Option<usize>,
    pub new_line_no: Option<usize>,
    pub no_newline: bool,
}

impl View for PatchLine {
    type V = PatchLineView;

    open spec fn view(&self) -> PatchLineView {
        PatchLineView {
            kind: self.kind,
            text: self.text@,
            old_line_no: self.old_line_no,
            new_line_no: self.new_line_no,
            no_newline: self.no_newline,
        }
    }
}

pub open spec fn line_views(lines: Seq<PatchLine>) -> Seq<PatchLineView> {
    lines.map_values(|l: PatchLine| l@)
}

pub open spec fn opt_view(s: Option<String>) -> Option<Seq<char>> {
    match s {
        Some(t) => Some(t@),
        None => None,
    }
}

/// The mathematical content of a hunk.
pub struct HunkView {
    pub header: Seq<char>,
    pub function_context: Option<Seq<char>>,
    pub old_start: usize,
    pub old_count: usize,
    pub new_start: usize,
    pub new_count: usize,
    pub lines: Seq<PatchLineView>,
}

impl View for Hunk {
    type V = HunkView;

    open spec fn view(&self) -> HunkView {
        HunkView {
            header: self.header@,
            function_context: opt_view(self.function_context),
            old_start: self.old_start,
            old_count: self.old_count,
            new_start: self.new_start,
            new_count: self.new_count,
            lines: line_views(self.lines@),
        }
    }
}

pub open spec fn hunk_views(hunks: Seq<Hunk>) -> Seq<HunkView> {
    hunks.map_values(|h: Hunk| h@)
}

pub open spec fn line_number_of(line: PatchLine, side: DiffSide) -> Option<usize> {
    match side {
        DiffSide::Old => line.old_line_no,
        DiffSide::New => line.new_line_no,
    }
}

impl PatchLine {
    /// Creates an added line.
    pub fn added(text: String, new_line_no: usize) -> (res: PatchLine)
        ensures
            res == (PatchLine {
                kind: PatchLineKind::Added,
                text,
                old_line_no: None,
                new_line_no: Some(new_line_no),
                no_newline: false,
            }),
    {
        PatchLine {
            kind: PatchLineKind::Added,
            text,
            old_line_no: None,
            new_line_no: Some(new_line_no),
            no_newline: false,
        }
    }

    /// Creates a removed line.
    pub fn removed(text: String, old_line_no: usize) -> (res: PatchLine)
        ensures
            res == (PatchLine {
                kind: PatchLineKind::Removed,
                text,
                old_line_no: Some(old_line_no),
                new_line_no: None,
                no_newline: false,
            }),
    {
        PatchLine {
            kind: PatchLineKind::Removed,
            text,
            old_line_no: Some(old_line_no),
            new_line_no: None,
            no_newline: false,
        }
    }

    /// Creates a context line.
    pub fn context(text: String, old_line_no: usize, new_line_no: usize) -> (res: PatchLine)
        ensures
            res == (PatchLine {
                kind: PatchLineKind::Context,
                text,
                old_line_no: Some(old_line_no),
                new_line_no: Some(new_line_no),
                no_newline: false,
            }),
    {
        PatchLine {
            kind: PatchLineKind::Context,
            text,
            old_line_no: Some(old_line_no),
            new_line_no: Some(new_line_no),
            no_newline: false,
        }
    }

    /// Marks this line as the final line without a trailing newline.
    pub fn without_newline(self) -> (res: PatchLine)
        ensures
            res == (PatchLine { no_newline: true, ..self }),
    {
        PatchLine { no_newline: true, ..self }
    }

    /// Returns the number for a side.
    pub fn line_number(&self, side: DiffSide) -> (res: Option<usize>)
        ensures
            res == line_number_of(*self, side),
    {
        match side {
            DiffSide::Old => self.old_line_no,
            DiffSide::New => self.new_line_no,
        }
    }

    /// A copy of this line.
    pub fn duplicate(&self) -> (res: PatchLine)
        ensures
            res == *self,
    {
        PatchLine {
            kind: self.kind,
            text: self.text.clone(),
            old_line_no: self.old_line_no,
            new_line_no: self.new_line_no,
            no_newline: self.no_newline,
        }
    }
}

/// How many of `lines` have the given kind.
pub open spec fn count_kind(lines: Seq<PatchLine>, kind: PatchLineKind) -> nat
    decreases lines.len(),
{
    if lines.len() == 0 {
        0
    } else {
        count_kind(lines.drop_last(), kind) + if lines.last().kind == kind {
            1nat
        } else {
            0nat
        }
    }
}

pub proof fn lemma_count_kind_bound(lines: Seq<PatchLine>, kind: PatchLineKind)
    ensures
        count_kind(lines, kind) <= lines.len(),
    decreases lines.len(),
{
    if lines.len() > 0 {
        lemma_count_kind_bound(lines.drop_last(), kind);
    }
}

/// Counts the lines of `lines` that have `kind`.
pub fn count_lines_of_kind(lines: &Vec<PatchLine>, kind: PatchLineKind) -> (res: usize)
    ensures
        res == count_kind(lines@, kind),
{
    let mut count: usize = 0;
    let mut i: usize = 0;
    while i < lines.len()
        invariant
            i <= lines@.len(),
            count == count_kind(lines@.take(i as int), kind),
        decreases lines@.len() - i,
    {
        proof {
            assert(lines@.take(i + 1).drop_last() =~= lines@.take(i as int));
            lemma_count_kind_bound(lines@.take(i as int), kind);
        }
        if lines[i].kind == kind {
            count = count + 1;
        }
        i = i + 1;
    }
    proof {
        assert(lines@.take(i as int) =~= lines@);
    }
    count
}

/// A unified-diff hunk.
#[derive(Debug, PartialEq, Eq)]
pub struct Hunk {
    pub header: String,
    pub function_context: Option<String>,
    pub old_start: usize,
    pub old_count: usize,
    pub new_start: usize,
    pub new_count: usize,
    pub lines: Vec<PatchLine>,
}

/// A copy of a list of patch lines.
pub fn duplicate_lines(lines: &Vec<PatchLine>) -> (res: Vec<PatchLine>)
    ensures
        res@ == lines@,
{
    let mut out: Vec<PatchLine> = Vec::new();
    let mut i: usize = 0;
    while i < lines.len()
        invariant
            i <= lines@.len(),
            out@ == lines@.take(i as int),
        decreases lines@.len() - i,
    {
        out.push(lines[i].duplicate());
        proof {
            assert(out@ =~= lines@.take(i + 1));
        }
        i = i + 1;
    }
    proof {
        assert(lines@.take(i as int) =~= lines@);
    }
    out
}

impl Clone for PatchLine {
    fn clone(&self) -> (res: PatchLine)
        ensures
            res == *self,
    {
        self.duplicate()
    }
}

impl Clone for Hunk {
    fn clone(&self) -> (res: Hunk)
        ensures
            res@ == self@,
    {
        self.duplicate()
    }
}

impl Hunk {
    /// A copy of this hunk.
    pub fn duplicate(&self) -> (res: Hunk)
        ensures
            res@ == self@,
    {
        Hunk {
            header: self.header.clone(),
            function_context: duplicate_text(&self.function_context),
            old_start: self.old_start,
            old_count: self.old_count,
            new_start: self.new_start,
            new_count: self.new_count,
            lines: duplicate_lines(&self.lines),
        }
    }

    /// Number of added lines.
    pub fn additions(&self) -> (res: usize)
        ensures
            res == count_kind(self.lines@, PatchLineKind::Added),
    {
        count_lines_of_kind(&self.lines, PatchLineKind::Added)
    }

    /// Number of removed lines.
    pub fn deletions(&self) -> (res: usize)
        ensures
            res == count_kind(self.lines@, PatchLineKind::Removed),
    {
        count_lines_of_kind(&self.lines, PatchLineKind::Removed)
    }
}

} // verus!
