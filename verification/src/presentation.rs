//! Framework-neutral, random-access unified and split row presentation.
use core::ops::Range;
use std::sync::Arc;
use vstd::prelude::*;
use crate::content::{normalized_lines, share_source, unavailable_text, SourceDocument, SourceKey, SourceUnavailable};
use crate::file_diff::{DiffDocument, FileDiff, SourceResult};
use crate::model::{kind_tone, DiffSide, DiffTone, FileStatus, Hunk, PatchLine, PatchLineKind, PatchLineView};
use crate::content::{SourceLineRef, SourceLocation, SourceSequenceId};
use crate::anchor::{anchor_at, LineAnchor, LineAnchorView};
use crate::fingerprint::{blake3_digest, encode_fields, le_bytes, le_value, push_le_u64, Fingerprint};
use vstd::utf8::encode_utf8;
use crate::repo_path::RepoPath;
use crate::text::{chars_of, decimal, push_all, push_decimal, string_from_chars};

verus! {

/// Largest hunk (in total patch lines) served as a fallback syntax sequence.
/// Larger hunks degrade to per-line highlighting so patch-only rendering work
/// stays bounded by the viewport rather than the document.
pub const MAX_HUNK_SEQUENCE_LINES: usize = 512;

/// Requested diff layout.
#[derive(Debug, Clone, Copy, PartialEq, Eq, Structural)]
pub enum ViewMode {
    /// Let an adapter choose based on its own width units.
    Auto,
    Unified,
    Split,
}

/// A concrete layout.
#[derive(Debug, Clone, Copy, PartialEq, Eq, Structural)]
pub enum Layout {
    /// One code column.
    Unified,
    /// Old and new columns aligned side by side.
    Split,
}

pub open spec fn resolved(mode: ViewMode, split_when_auto: bool) -> Layout {
    match mode {
        ViewMode::Split => Layout::Split,
        ViewMode::Auto => if split_when_auto {
            Layout::Split
        } else {
            Layout::Unified
        },
        ViewMode::Unified => Layout::Unified,
    }
}

pub open spec fn mode_after(mode: ViewMode) -> ViewMode {
    match mode {
        ViewMode::Auto => ViewMode::Unified,
        ViewMode::Unified => ViewMode::Split,
        ViewMode::Split => ViewMode::Auto,
    }
}

impl Default for ViewMode {
    fn default() -> (res: ViewMode)
        ensures
            res == ViewMode::Auto,
    {
        ViewMode::Auto
    }
}

impl ViewMode {
    /// The layout this mode asks for, `Auto` going by the adapter's choice.
    pub fn resolve(self, split_when_auto: bool) -> (res: Layout)
        ensures
            res == resolved(self, split_when_auto),
    {
        match self {
            ViewMode::Split => Layout::Split,
            ViewMode::Auto => if split_when_auto {
                Layout::Split
            } else {
                Layout::Unified
            },
            ViewMode::Unified => Layout::Unified,
        }
    }

    /// The next mode in the cycle auto, unified, split.
    pub fn next(self) -> (res: ViewMode)
        ensures
            res == mode_after(self),
    {
        match self {
            ViewMode::Auto => ViewMode::Unified,
            ViewMode::Unified => ViewMode::Split,
            ViewMode::Split => ViewMode::Auto,
        }
    }
}

/// Cycling the view mode three times returns to the starting mode, and no
/// fewer steps do.
pub proof fn lemma_view_mode_cycle(mode: ViewMode)
    ensures
        mode_after(mode_after(mode_after(mode))) == mode,
        mode_after(mode) != mode,
        mode_after(mode_after(mode)) != mode,
{
}

impl Layout {
    pub fn is_split(self) -> (res: bool)
        ensures
            res == (self == Layout::Split),
    {
        match self {
            Layout::Split => true,
            Layout::Unified => false,
        }
    }
}

/// Options used while indexing presentation rows.
#[derive(Debug, Clone, Copy, PartialEq, Eq, Structural)]
pub struct PresentationOptions {
    /// Requested layout mode.
    pub view_mode: ViewMode,
    /// How `Auto` is resolved by the calling adapter.
    pub split_when_auto: bool,
    /// Whether each file begins with a file header row.
    pub include_file_headers: bool,
}

impl Default for PresentationOptions {
    fn default() -> (res: PresentationOptions)
        ensures
            res == (PresentationOptions {
                view_mode: ViewMode::Auto,
                split_when_auto: false,
                include_file_headers: true,
            }),
    {
        PresentationOptions {
            view_mode: ViewMode::Auto,
            split_when_auto: false,
            include_file_headers: true,
        }
    }
}

impl PresentationOptions {
    /// Resolves the requested mode to a concrete layout.
    pub fn layout(self) -> (res: Layout)
        ensures
            res == resolved(self.view_mode, self.split_when_auto),
    {
        self.view_mode.resolve(self.split_when_auto)
    }
}

/// Semantic row type.
#[derive(Debug, Clone, Copy, PartialEq, Eq, Hash, Structural)]
pub enum RowKind {
    FileHeader,
    HunkHeader,
    Meta,
    Code,
    ExpandedContext,
    ExpandGap,
}

/// Stable identity of a gap before, between, or after hunks.
#[derive(Debug, Clone, Copy, PartialEq, Eq, Hash, Structural)]
pub struct GapId {
    pub file_index: usize,
    pub gap_index: usize,
}

/// User-controlled revealed ranges at both hunk-adjacent edges of a gap.
#[derive(Debug, Clone, Copy, PartialEq, Eq, Structural)]
pub struct GapExpansion {
    pub revealed_prefix: usize,
    pub revealed_suffix: usize,
}

impl Default for GapExpansion {
    fn default() -> (res: GapExpansion)
        ensures
            res == (GapExpansion { revealed_prefix: 0, revealed_suffix: 0 }),
    {
        GapExpansion { revealed_prefix: 0, revealed_suffix: 0 }
    }
}

/// One-based half-open source intervals for both sides of a gap.
#[derive(Debug, PartialEq, Eq)]
pub struct GapInterval {
    pub old: Range<usize>,
    pub new: Range<usize>,
}

/// `a + b`, or `usize::MAX` where that overflows.
pub open spec fn sat_add(a: usize, b: usize) -> usize {
    if a + b > usize::MAX {
        usize::MAX
    } else {
        (a + b) as usize
    }
}

/// `a - b`, or zero where that is negative.
pub open spec fn sat_sub(a: usize, b: usize) -> usize {
    if a >= b {
        (a - b) as usize
    } else {
        0
    }
}

pub open spec fn max_usize(a: usize, b: usize) -> usize {
    if a >= b {
        a
    } else {
        b
    }
}

pub open spec fn min_usize(a: usize, b: usize) -> usize {
    if a <= b {
        a
    } else {
        b
    }
}

/// The first line of a side that a hunk occupies: for an empty side, the
/// next real line.
pub open spec fn hunk_boundary(start: usize, count: usize) -> usize {
    if count == 0 {
        sat_add(start, 1)
    } else {
        start
    }
}

/// The first line of a side after a hunk.
pub open spec fn hunk_after(start: usize, count: usize) -> usize {
    if count == 0 {
        sat_add(start, 1)
    } else {
        sat_add(start, count)
    }
}

/// The gaps before each of the first `n` hunks, and the next old and new
/// lines after them.
pub open spec fn gap_walk(hunks: Seq<Hunk>, n: int) -> (Seq<(Range<usize>, Range<usize>)>, usize, usize)
    decreases n,
{
    if n <= 0 {
        (Seq::empty(), 1, 1)
    } else {
        let (gaps, old_next, new_next) = gap_walk(hunks, n - 1);
        let h = hunks[n - 1];
        let old_end = max_usize(hunk_boundary(h.old_start, h.old_count), old_next);
        let new_end = max_usize(hunk_boundary(h.new_start, h.new_count), new_next);
        (
            gaps.push((Range { start: old_next, end: old_end }, Range { start: new_next, end: new_end })),
            max_usize(hunk_after(h.old_start, h.old_count), old_end),
            max_usize(hunk_after(h.new_start, h.new_count), new_end),
        )
    }
}

/// The leading, between-hunk, and trailing intervals of a file whose sides
/// have the given line counts.
pub open spec fn file_gaps(hunks: Seq<Hunk>, old_count: usize, new_count: usize) -> Seq<
    (Range<usize>, Range<usize>),
> {
    if hunks.len() == 0 {
        seq![
            (
                Range { start: 1usize, end: sat_add(old_count, 1) },
                Range { start: 1usize, end: sat_add(new_count, 1) },
            ),
        ]
    } else {
        let (gaps, old_next, new_next) = gap_walk(hunks, hunks.len() as int);
        gaps.push(
            (
                Range { start: old_next, end: max_usize(sat_add(old_count, 1), old_next) },
                Range { start: new_next, end: max_usize(sat_add(new_count, 1), new_next) },
            ),
        )
    }
}

pub open spec fn gap_pairs(gaps: Seq<GapInterval>) -> Seq<(Range<usize>, Range<usize>)> {
    gaps.map_values(|g: GapInterval| (g.old, g.new))
}

fn sat_add_exec(a: usize, b: usize) -> (res: usize)
    ensures
        res == sat_add(a, b),
{
    a.saturating_add(b)
}

fn max_exec(a: usize, b: usize) -> (res: usize)
    ensures
        res == max_usize(a, b),
{
    if a >= b {
        a
    } else {
        b
    }
}

/// Computes leading, between-hunk, and trailing one-based source intervals:
/// one more gap than there are hunks, or one covering each whole side when
/// there are none.
pub fn gaps_for_file(file: &FileDiff, old_line_count: usize, new_line_count: usize) -> (res: Vec<
    GapInterval,
>)
    ensures
        gap_pairs(res@) == file_gaps(file.hunks@, old_line_count, new_line_count),
{
    let mut gaps: Vec<GapInterval> = Vec::new();
    if file.hunks.len() == 0 {
        gaps.push(
            GapInterval {
                old: Range { start: 1, end: sat_add_exec(old_line_count, 1) },
                new: Range { start: 1, end: sat_add_exec(new_line_count, 1) },
            },
        );
        proof {
            assert(gap_pairs(gaps@) =~= file_gaps(file.hunks@, old_line_count, new_line_count));
        }
        return gaps;
    }
    let mut old_next: usize = 1;
    let mut new_next: usize = 1;
    let mut i: usize = 0;
    while i < file.hunks.len()
        invariant
            i <= file.hunks@.len(),
            gap_walk(file.hunks@, i as int) == (gap_pairs(gaps@), old_next, new_next),
        decreases file.hunks@.len() - i,
    {
        let hunk = &file.hunks[i];
        let old_boundary = if hunk.old_count == 0 {
            sat_add_exec(hunk.old_start, 1)
        } else {
            hunk.old_start
        };
        let new_boundary = if hunk.new_count == 0 {
            sat_add_exec(hunk.new_start, 1)
        } else {
            hunk.new_start
        };
        let old_end = max_exec(old_boundary, old_next);
        let new_end = max_exec(new_boundary, new_next);
        let ghost prev = gaps@;
        gaps.push(
            GapInterval {
                old: Range { start: old_next, end: old_end },
                new: Range { start: new_next, end: new_end },
            },
        );
        let old_after = if hunk.old_count == 0 {
            sat_add_exec(hunk.old_start, 1)
        } else {
            sat_add_exec(hunk.old_start, hunk.old_count)
        };
        let new_after = if hunk.new_count == 0 {
            sat_add_exec(hunk.new_start, 1)
        } else {
            sat_add_exec(hunk.new_start, hunk.new_count)
        };
        old_next = max_exec(old_after, old_end);
        new_next = max_exec(new_after, new_end);
        proof {
            assert(gap_pairs(gaps@) =~= gap_pairs(prev).push(
                (Range { start: gaps@.last().old.start, end: old_end }, gaps@.last().new),
            ));
        }
        i = i + 1;
    }
    let ghost prev = gaps@;
    gaps.push(
        GapInterval {
            old: Range { start: old_next, end: max_exec(sat_add_exec(old_line_count, 1), old_next) },
            new: Range { start: new_next, end: max_exec(sat_add_exec(new_line_count, 1), new_next) },
        },
    );
    proof {
        assert(gap_pairs(gaps@) =~= file_gaps(file.hunks@, old_line_count, new_line_count));
    }
    gaps
}

/// The one-based normalized line `n` of a text, if it has one.
pub open spec fn source_line_at(text: Seq<char>, n: int) -> Option<Seq<char>> {
    if 1 <= n <= normalized_lines(text).len() {
        Some(normalized_lines(text)[n - 1])
    } else {
        None
    }
}

impl GapInterval {
    /// Whether both sides of the interval have the same length and the same
    /// lines in `old` and `new`.
    pub fn sources_match(&self, old: &SourceDocument, new: &SourceDocument) -> (res: bool)
        ensures
            res == (sat_sub(self.old.end, self.old.start) == sat_sub(self.new.end, self.new.start)
                && forall|k: int|
                0 <= k < sat_sub(self.old.end, self.old.start) ==> #[trigger] source_line_at(
                    old@,
                    self.old.start + k,
                ) == source_line_at(new@, self.new.start + k)),
    {
        let old_len: usize = if self.old.end >= self.old.start {
            self.old.end - self.old.start
        } else {
            0
        };
        let new_len: usize = if self.new.end >= self.new.start {
            self.new.end - self.new.start
        } else {
            0
        };
        if old_len != new_len {
            return false;
        }
        let mut k: usize = 0;
        while k < old_len
            invariant
                k <= old_len,
                old_len == new_len,
                old_len == sat_sub(self.old.end, self.old.start),
                new_len == sat_sub(self.new.end, self.new.start),
                forall|j: int|
                    0 <= j < k ==> #[trigger] source_line_at(old@, self.old.start + j)
                        == source_line_at(new@, self.new.start + j),
            decreases old_len - k,
        {
            let a = old.line_chars(self.old.start + k);
            let b = new.line_chars(self.new.start + k);
            let same = match (a, b) {
                (Some(x), Some(y)) => crate::text::chars_equal(x.as_slice(), y.as_slice()),
                (None, None) => true,
                _ => false,
            };
            proof {
                let n1 = self.old.start + k;
                let n2 = self.new.start + k;
                match a {
                    Some(x) => assert(source_line_at(old@, n1) == Some(x@)),
                    None => assert(source_line_at(old@, n1) is None),
                }
                match b {
                    Some(y) => assert(source_line_at(new@, n2) == Some(y@)),
                    None => assert(source_line_at(new@, n2) is None),
                }
            }
            if !same {
                return false;
            }
            k = k + 1;
        }
        true
    }
}


/// Adapter-facing state for an expansion affordance.
#[derive(Debug, PartialEq, Eq)]
pub struct GapInfo {
    pub id: GapId,
    pub hidden_lines: usize,
    pub unavailable: Option<SourceUnavailable>,
}

/// The renderer-independent label of a gap.
pub open spec fn gap_message(info: GapInfo) -> Seq<char> {
    match info.unavailable {
        None => "⋯ "@ + decimal(info.hidden_lines as nat) + " unchanged lines"@,
        Some(SourceUnavailable::TooLarge { .. }) => "⋯ source is too large to expand"@,
        Some(reason) => "⋯ "@ + unavailable_text(reason),
    }
}

impl GapInfo {
    /// Returns the deterministic renderer-independent gap label.
    pub fn message(&self) -> (res: String)
        ensures
            res@ == gap_message(*self),
    {
        match &self.unavailable {
            None => {
                let mut out = chars_of("⋯ ");
                push_decimal(&mut out, self.hidden_lines as u64);
                let tail = chars_of(" unchanged lines");
                push_all(&mut out, tail.as_slice());
                string_from_chars(out.as_slice())
            },
            Some(SourceUnavailable::TooLarge { .. }) => "⋯ source is too large to expand".to_owned(),
            Some(reason) => {
                let mut out = chars_of("⋯ ");
                let text = reason.describe();
                let tail = chars_of(text.as_str());
                push_all(&mut out, tail.as_slice());
                string_from_chars(out.as_slice())
            },
        }
    }

    /// A copy of this gap state.
    pub fn duplicate(&self) -> (res: GapInfo)
        ensures
            res == *self,
    {
        GapInfo {
            id: self.id,
            hidden_lines: self.hidden_lines,
            unavailable: match &self.unavailable {
                Some(r) => Some(r.duplicate()),
                None => None,
            },
        }
    }
}

// ---- keyed entries: the first entry with a key is the one that counts ----
/// The index of the first entry whose key is `k`.
pub open spec fn find_key<K, V>(entries: Seq<(K, V)>, k: K) -> Option<int>
    decreases entries.len(),
{
    if entries.len() == 0 {
        None
    } else {
        match find_key(entries.drop_last(), k) {
            Some(i) => Some(i),
            None => if entries.last().0 == k {
                Some(entries.len() - 1)
            } else {
                None
            },
        }
    }
}

/// The value of the first entry whose key is `k`.
pub open spec fn lookup<K, V>(entries: Seq<(K, V)>, k: K) -> Option<V> {
    match find_key(entries, k) {
        Some(i) => Some(entries[i].1),
        None => None,
    }
}

/// Entries with `k` set to `v`: the first entry with that key replaced, or
/// the pair appended where there is none.
pub open spec fn with_entry<K, V>(entries: Seq<(K, V)>, k: K, v: V) -> Seq<(K, V)> {
    match find_key(entries, k) {
        Some(i) => entries.update(i, (k, v)),
        None => entries.push((k, v)),
    }
}

pub proof fn lemma_find_key<K, V>(entries: Seq<(K, V)>, k: K)
    ensures
        match find_key(entries, k) {
            Some(i) => 0 <= i < entries.len() && entries[i].0 == k && forall|j: int|
                0 <= j < i ==> entries[j].0 != k,
            None => forall|j: int| 0 <= j < entries.len() ==> entries[j].0 != k,
        },
    decreases entries.len(),
{
    if entries.len() > 0 {
        let init = entries.drop_last();
        lemma_find_key(init, k);
        assert forall|j: int| 0 <= j < init.len() implies init[j] == entries[j] by {}
    }
}

proof fn lemma_find_key_unique<K, V>(entries: Seq<(K, V)>, k: K, i: int)
    requires
        0 <= i < entries.len(),
        entries[i].0 == k,
        forall|j: int| 0 <= j < i ==> entries[j].0 != k,
    ensures
        find_key(entries, k) == Some(i),
    decreases entries.len(),
{
    lemma_find_key(entries, k);
    if i < entries.len() - 1 {
        let init = entries.drop_last();
        lemma_find_key_unique(init, k, i);
    } else {
        let init = entries.drop_last();
        lemma_find_key(init, k);
        if find_key(init, k) is Some {
            let j = find_key(init, k)->0;
            assert(init[j] == entries[j]);
        }
    }
}

/// Setting a key's value makes it the value read back for that key and
/// leaves every other key's value as it was.
pub proof fn lemma_lookup_after_set<K, V>(entries: Seq<(K, V)>, k: K, v: V, q: K)
    ensures
        lookup(with_entry(entries, k, v), q) == if q == k {
            Some(v)
        } else {
            lookup(entries, q)
        },
{
    lemma_find_key(entries, k);
    lemma_find_key(entries, q);
    let e = with_entry(entries, k, v);
    match find_key(entries, k) {
        Some(i) => {
            if q == k {
                lemma_find_key_unique(e, q, i);
            } else {
                match find_key(entries, q) {
                    Some(j) => {
                        lemma_find_key_unique(e, q, j);
                    },
                    None => {
                        assert forall|j: int| 0 <= j < e.len() implies e[j].0 != q by {}
                        lemma_find_key(e, q);
                    },
                }
            }
        },
        None => {
            if q == k {
                lemma_find_key_unique(e, q, entries.len() as int);
            } else {
                match find_key(entries, q) {
                    Some(j) => {
                        lemma_find_key_unique(e, q, j);
                    },
                    None => {
                        assert forall|j: int| 0 <= j < e.len() implies e[j].0 != q by {}
                        lemma_find_key(e, q);
                    },
                }
            }
        },
    }
}

/// The key of a source entry: its path and side.
pub open spec fn key_view(k: SourceKey) -> (Seq<char>, DiffSide) {
    (k.review_path@, k.side)
}

pub open spec fn source_entries(entries: Seq<(SourceKey, SourceResult)>) -> Seq<
    ((Seq<char>, DiffSide), SourceResult),
> {
    entries.map_values(|e: (SourceKey, SourceResult)| (key_view(e.0), e.1))
}

pub open spec fn path_views(paths: Seq<RepoPath>) -> Seq<Seq<char>> {
    paths.map_values(|p: RepoPath| p@)
}

/// Complete source and reveal state used to project a document.
#[derive(Debug)]
pub struct ContentProjection {
    pub(crate) sources: Vec<(SourceKey, SourceResult)>,
    pub(crate) expansions: Vec<(GapId, GapExpansion)>,
    pub(crate) full_files: Vec<RepoPath>,
}

/// The mathematical content of a projection: sources by path and side,
/// expansions by gap, and the paths shown in full.
pub struct ProjectionView {
    pub sources: Seq<((Seq<char>, DiffSide), SourceResult)>,
    pub expansions: Seq<(GapId, GapExpansion)>,
    pub full_files: Seq<Seq<char>>,
}

impl View for ContentProjection {
    type V = ProjectionView;

    closed spec fn view(&self) -> ProjectionView {
        ProjectionView {
            sources: source_entries(self.sources@),
            expansions: self.expansions@,
            full_files: path_views(self.full_files@),
        }
    }
}

impl Default for ContentProjection {
    fn default() -> (res: ContentProjection)
        ensures
            res@.sources == Seq::<((Seq<char>, DiffSide), SourceResult)>::empty(),
            res@.expansions == Seq::<(GapId, GapExpansion)>::empty(),
            res@.full_files == Seq::<Seq<char>>::empty(),
    {
        let res = ContentProjection {
            sources: Vec::new(),
            expansions: Vec::new(),
            full_files: Vec::new(),
        };
        proof {
            assert(source_entries(res.sources@) =~= Seq::empty());
            assert(path_views(res.full_files@) =~= Seq::empty());
        }
        res
    }
}

fn find_source(entries: &Vec<(SourceKey, SourceResult)>, key: &SourceKey) -> (res: Option<usize>)
    ensures
        match res {
            Some(i) => find_key(source_entries(entries@), key_view(*key)) == Some(i as int),
            None => find_key(source_entries(entries@), key_view(*key)) is None,
        },
{
    let ghost es = source_entries(entries@);
    let mut i: usize = 0;
    while i < entries.len()
        invariant
            i <= entries@.len(),
            es == source_entries(entries@),
            forall|j: int| 0 <= j < i ==> es[j].0 != key_view(*key),
        decreases entries@.len() - i,
    {
        if entries[i].0.same_as(key) {
            proof {
                assert(es[i as int].0 == key_view(*key));
                lemma_find_key_unique(es, key_view(*key), i as int);
            }
            return Some(i);
        }
        i = i + 1;
    }
    proof {
        lemma_find_key(es, key_view(*key));
        if find_key(es, key_view(*key)) is Some {
            let j = find_key(es, key_view(*key))->0;
            assert(es[j].0 != key_view(*key));
        }
    }
    None
}

/// Sets a key's source in a list of entries: replaces the first entry with
/// that key, or appends one.
pub fn set_source_entry(entries: &mut Vec<(SourceKey, SourceResult)>, key: SourceKey, source: SourceResult)
    ensures
        source_entries(final(entries)@) == with_entry(source_entries(old(entries)@), key_view(key), source),
{
    let ghost k = key_view(key);
    let ghost before = entries@;
    proof {
        lemma_find_key(source_entries(entries@), k);
    }
    match find_source(entries, &key) {
        Some(i) => {
            entries.set(i, (key, source));
            proof {
                assert(source_entries(entries@) =~= source_entries(before).update(i as int, (k, source)));
            }
        },
        None => {
            entries.push((key, source));
            proof {
                assert(source_entries(entries@) =~= source_entries(before).push((k, source)));
            }
        },
    }
}

/// The source recorded for a key in a list of entries.
pub fn source_entry<'a>(entries: &'a Vec<(SourceKey, SourceResult)>, key: &SourceKey) -> (res: Option<&'a SourceResult>)
    ensures
        match lookup(source_entries(entries@), key_view(*key)) {
            Some(r) => res == Some(&r),
            None => res is None,
        },
{
    match find_source(entries, key) {
        Some(i) => {
            proof {
                lemma_find_key(source_entries(entries@), key_view(*key));
                assert(source_entries(entries@)[i as int].1 == entries@[i as int].1);
            }
            Some(&entries[i].1)
        },
        None => None,
    }
}

fn find_expansion(entries: &Vec<(GapId, GapExpansion)>, id: GapId) -> (res: Option<usize>)
    ensures
        match res {
            Some(i) => find_key(entries@, id) == Some(i as int),
            None => find_key(entries@, id) is None,
        },
{
    let mut i: usize = 0;
    while i < entries.len()
        invariant
            i <= entries@.len(),
            forall|j: int| 0 <= j < i ==> entries@[j].0 != id,
        decreases entries@.len() - i,
    {
        if entries[i].0 == id {
            proof {
                lemma_find_key_unique(entries@, id, i as int);
            }
            return Some(i);
        }
        i = i + 1;
    }
    proof {
        lemma_find_key(entries@, id);
        if find_key(entries@, id) is Some {
            let j = find_key(entries@, id)->0;
            assert(entries@[j].0 != id);
        }
    }
    None
}

impl ContentProjection {
    /// A projection over the given sources, none expanded and none in full.
    /// A key listed twice keeps its last source.
    pub fn with_sources(sources: Vec<(SourceKey, SourceResult)>) -> (res: ContentProjection)
        ensures
            forall|q: (Seq<char>, DiffSide)| #[trigger] lookup(res@.sources, q) == last_source(
                source_entries(sources@),
                q,
            ),
            res@.expansions == Seq::<(GapId, GapExpansion)>::empty(),
            res@.full_files == Seq::<Seq<char>>::empty(),
    {
        let mut projection = ContentProjection::default();
        let mut i: usize = 0;
        let ghost given = source_entries(sources@);
        while i < sources.len()
            invariant
                i <= sources@.len(),
                given == source_entries(sources@),
                forall|q: (Seq<char>, DiffSide)| #[trigger] lookup(projection@.sources, q)
                    == last_source(given.take(i as int), q),
                projection@.expansions == Seq::<(GapId, GapExpansion)>::empty(),
                projection@.full_files == Seq::<Seq<char>>::empty(),
            decreases sources@.len() - i,
        {
            let (key, source) = (&sources[i].0, &sources[i].1);
            let ghost before = projection@.sources;
            projection.set_source(SourceKey::new(key.review_path.duplicate(), key.side), crate::file_diff::duplicate_source(source));
            proof {
                let t = given.take(i + 1);
                assert(t.drop_last() =~= given.take(i as int));
                assert(t.last() == given[i as int]);
                assert forall|q: (Seq<char>, DiffSide)| #[trigger] lookup(projection@.sources, q)
                    == last_source(given.take(i + 1), q) by {
                    lemma_lookup_after_set(before, key_view(*key), *source, q);
                }
            }
            i = i + 1;
        }
        proof {
            assert(given.take(i as int) =~= given);
        }
        projection
    }

    fn set_source(&mut self, key: SourceKey, source: SourceResult)
        ensures
            final(self)@.sources == with_entry(old(self)@.sources, key_view(key), source),
            final(self)@.expansions == old(self)@.expansions,
            final(self)@.full_files == old(self)@.full_files,
    {
        set_source_entry(&mut self.sources, key, source);
    }

    /// Records the complete document of a side.
    pub fn insert_source(&mut self, key: SourceKey, source: Arc<SourceDocument>)
        ensures
            final(self)@.sources == with_entry(old(self)@.sources, key_view(key), Ok(source)),
            final(self)@.expansions == old(self)@.expansions,
            final(self)@.full_files == old(self)@.full_files,
    {
        self.set_source(key, Ok(source));
    }

    /// Records why a side has no complete document.
    pub fn insert_unavailable(&mut self, key: SourceKey, reason: SourceUnavailable)
        ensures
            final(self)@.sources == with_entry(old(self)@.sources, key_view(key), Err(reason)),
            final(self)@.expansions == old(self)@.expansions,
            final(self)@.full_files == old(self)@.full_files,
    {
        self.set_source(key, Err(reason));
    }

    /// Sets how much of a gap is revealed.
    pub fn set_expansion(&mut self, id: GapId, expansion: GapExpansion)
        ensures
            final(self)@.expansions == with_entry(old(self)@.expansions, id, expansion),
            final(self)@.sources == old(self)@.sources,
            final(self)@.full_files == old(self)@.full_files,
    {
        proof {
            lemma_find_key(self.expansions@, id);
        }
        match find_expansion(&self.expansions, id) {
            Some(i) => {
                self.expansions.set(i, (id, expansion));
            },
            None => {
                self.expansions.push((id, expansion));
            },
        }
    }

    /// Shows or stops showing a file in full.
    pub fn set_full_file(&mut self, path: RepoPath, enabled: bool)
        ensures
            final(self)@.sources == old(self)@.sources,
            final(self)@.expansions == old(self)@.expansions,
            final(self)@.full_files == if enabled {
                if old(self)@.full_files.contains(path@) {
                    old(self)@.full_files
                } else {
                    old(self)@.full_files.push(path@)
                }
            } else {
                without_path(old(self)@.full_files, path@)
            },
    {
        let present = self.is_full_file(&path);
        if enabled {
            if !present {
                let ghost before = self.full_files@;
                self.full_files.push(path);
                proof {
                    assert(path_views(self.full_files@) =~= path_views(before).push(
                        self.full_files@.last()@,
                    ));
                }
            }
        } else {
            let ghost pv = path_views(self.full_files@);
            let ghost keep = |p: Seq<char>| p != path@;
            let mut kept: Vec<RepoPath> = Vec::new();
            let mut i: usize = 0;
            while i < self.full_files.len()
                invariant
                    i <= self.full_files@.len(),
                    pv == path_views(self.full_files@),
                    keep == (|p: Seq<char>| p != path@),
                    path_views(kept@) == pv.take(i as int).filter(keep),
                decreases self.full_files@.len() - i,
            {
                proof {
                    assert(pv.take(i + 1).drop_last() =~= pv.take(i as int));
                    reveal(Seq::filter);
                }
                if !self.full_files[i].same_as(&path) {
                    let ghost prev = kept@;
                    kept.push(self.full_files[i].duplicate());
                    proof {
                        assert(path_views(kept@) =~= path_views(prev).push(pv[i as int]));
                    }
                }
                i = i + 1;
            }
            proof {
                assert(pv.take(i as int) =~= pv);
            }
            self.full_files = kept;
        }
    }

    /// The complete document recorded for a side, if one was.
    pub fn source(&self, key: &SourceKey) -> (res: Option<&Arc<SourceDocument>>)
        ensures
            match lookup(self@.sources, key_view(*key)) {
                Some(Ok(doc)) => res == Some(&doc),
                _ => res is None,
            },
    {
        match find_source(&self.sources, key) {
            Some(i) => {
                proof {
                    lemma_find_key(source_entries(self.sources@), key_view(*key));
                    assert(source_entries(self.sources@)[i as int].1 == self.sources@[i as int].1);
                }
                match &self.sources[i].1 {
                    Ok(doc) => Some(doc),
                    Err(_) => None,
                }
            },
            None => None,
        }
    }

    /// Why a side has no complete document, if that was recorded.
    pub fn unavailable(&self, key: &SourceKey) -> (res: Option<&SourceUnavailable>)
        ensures
            match lookup(self@.sources, key_view(*key)) {
                Some(Err(reason)) => res == Some(&reason),
                _ => res is None,
            },
    {
        match find_source(&self.sources, key) {
            Some(i) => {
                proof {
                    lemma_find_key(source_entries(self.sources@), key_view(*key));
                    assert(source_entries(self.sources@)[i as int].1 == self.sources@[i as int].1);
                }
                match &self.sources[i].1 {
                    Ok(_) => None,
                    Err(reason) => Some(reason),
                }
            },
            None => None,
        }
    }

    /// The recorded source result of a side, if one was.
    fn source_result(&self, key: &SourceKey) -> (res: Option<&SourceResult>)
        ensures
            match lookup(self@.sources, key_view(*key)) {
                Some(r) => res == Some(&r),
                None => res is None,
            },
    {
        match find_source(&self.sources, key) {
            Some(i) => {
                proof {
                    lemma_find_key(source_entries(self.sources@), key_view(*key));
                    assert(source_entries(self.sources@)[i as int].1 == self.sources@[i as int].1);
                }
                Some(&self.sources[i].1)
            },
            None => None,
        }
    }

    /// How much of a gap is revealed, if that was set.
    pub fn expansion(&self, id: GapId) -> (res: Option<GapExpansion>)
        ensures
            res == lookup(self@.expansions, id),
    {
        match find_expansion(&self.expansions, id) {
            Some(i) => {
                proof {
                    lemma_find_key(self.expansions@, id);
                }
                Some(self.expansions[i].1)
            },
            None => None,
        }
    }

    /// Whether a file is shown in full.
    pub fn is_full_file(&self, path: &RepoPath) -> (res: bool)
        ensures
            res == self@.full_files.contains(path@),
    {
        let ghost pv = path_views(self.full_files@);
        let mut i: usize = 0;
        while i < self.full_files.len()
            invariant
                i <= self.full_files@.len(),
                pv == path_views(self.full_files@),
                forall|j: int| 0 <= j < i ==> pv[j] != path@,
            decreases self.full_files@.len() - i,
        {
            if self.full_files[i].same_as(path) {
                proof {
                    assert(pv[i as int] == path@);
                }
                return true;
            }
            i = i + 1;
        }
        false
    }
}

/// A list of paths without any occurrence of `path`.
pub open spec fn without_path(paths: Seq<Seq<char>>, path: Seq<char>) -> Seq<Seq<char>> {
    paths.filter(|p: Seq<char>| p != path)
}

/// The last source given for a key.
pub open spec fn last_source(entries: Seq<((Seq<char>, DiffSide), SourceResult)>, q: (Seq<char>, DiffSide)) -> Option<
    SourceResult,
>
    decreases entries.len(),
{
    if entries.len() == 0 {
        None
    } else if entries.last().0 == q {
        Some(entries.last().1)
    } else {
        last_source(entries.drop_last(), q)
    }
}


// ---- cells and rows ----
/// Where a patch cell comes from: a side, a hunk, and a line of that hunk.
#[derive(Debug, Clone, Copy, PartialEq, Eq, Hash, Structural)]
pub struct CellSource {
    pub side: DiffSide,
    pub hunk_index: usize,
    pub line_index: usize,
}

/// Stable identity for a presented row.
#[derive(Debug, Clone, Copy, PartialEq, Eq, Hash, PartialOrd, Ord, Structural)]
pub struct RowId(pub u64);

/// One side of a presented row.
#[derive(Debug, PartialEq, Eq)]
pub struct PresentedCell {
    pub patch_source: Option<CellSource>,
    pub source_line: Option<SourceLineRef>,
    pub text: String,
    pub tone: DiffTone,
}

/// The mathematical content of a cell.
pub struct CellView {
    pub patch_source: Option<CellSource>,
    pub source_line: Option<SourceLineRef>,
    pub text: Seq<char>,
    pub tone: DiffTone,
}

impl View for PresentedCell {
    type V = CellView;

    open spec fn view(&self) -> CellView {
        CellView {
            patch_source: self.patch_source,
            source_line: self.source_line,
            text: self.text@,
            tone: self.tone,
        }
    }
}

/// One cheap renderer-neutral row descriptor.
#[derive(Debug, PartialEq, Eq)]
pub struct PresentedRow {
    pub id: RowId,
    pub kind: RowKind,
    pub file_index: usize,
    pub hunk_index: Option<usize>,
    pub left: Option<PresentedCell>,
    pub right: Option<PresentedCell>,
}

/// The mathematical content of a row.
pub struct RowView {
    pub id: RowId,
    pub kind: RowKind,
    pub file_index: usize,
    pub hunk_index: Option<usize>,
    pub left: Option<CellView>,
    pub right: Option<CellView>,
}

pub open spec fn cell_opt(c: Option<PresentedCell>) -> Option<CellView> {
    match c {
        Some(x) => Some(x@),
        None => None,
    }
}

impl View for PresentedRow {
    type V = RowView;

    open spec fn view(&self) -> RowView {
        RowView {
            id: self.id,
            kind: self.kind,
            file_index: self.file_index,
            hunk_index: self.hunk_index,
            left: cell_opt(self.left),
            right: cell_opt(self.right),
        }
    }
}

pub open spec fn row_views(rows: Seq<PresentedRow>) -> Seq<RowView> {
    rows.map_values(|r: PresentedRow| r@)
}

pub open spec fn cell_line_number(c: CellView) -> Option<usize> {
    match c.source_line {
        Some(s) => Some(s.line_number),
        None => None,
    }
}

/// The cells of a row, left first.
pub open spec fn row_cells(r: RowView) -> Seq<CellView> {
    let l = match r.left {
        Some(c) => seq![c],
        None => Seq::empty(),
    };
    let rr = match r.right {
        Some(c) => seq![c],
        None => Seq::empty(),
    };
    l + rr
}

pub open spec fn row_is_commentable(r: RowView) -> bool {
    r.kind == RowKind::Code && exists|i: int|
        0 <= i < row_cells(r).len() && (#[trigger] row_cells(r)[i]).patch_source is Some
}

pub open spec fn row_is_navigable(r: RowView) -> bool {
    match r.kind {
        RowKind::Code | RowKind::ExpandedContext => exists|i: int|
            0 <= i < row_cells(r).len() && (#[trigger] row_cells(r)[i]).source_line is Some,
        RowKind::ExpandGap => true,
        _ => false,
    }
}

impl PresentedCell {
    /// The source line number this cell shows, if any.
    pub fn line_number(&self) -> (res: Option<usize>)
        ensures
            res == cell_line_number(self@),
    {
        match self.source_line {
            Some(s) => Some(s.line_number),
            None => None,
        }
    }

    /// A copy of this cell.
    pub fn duplicate(&self) -> (res: PresentedCell)
        ensures
            res@ == self@,
    {
        PresentedCell {
            patch_source: self.patch_source,
            source_line: self.source_line,
            text: self.text.clone(),
            tone: self.tone,
        }
    }
}

impl PresentedRow {
    /// The cell on a side: left for old, right for new.
    pub fn cell(&self, side: DiffSide) -> (res: Option<&PresentedCell>)
        ensures
            cell_ref_view(res) == match side {
                DiffSide::Old => self@.left,
                DiffSide::New => self@.right,
            },
    {
        match side {
            DiffSide::Old => match &self.left {
                Some(c) => Some(c),
                None => None,
            },
            DiffSide::New => match &self.right {
                Some(c) => Some(c),
                None => None,
            },
        }
    }

    /// The right cell, or the left one where there is no right cell.
    pub fn primary_cell(&self) -> (res: Option<&PresentedCell>)
        ensures
            cell_ref_view(res) == match self@.right {
                Some(c) => Some(c),
                None => self@.left,
            },
    {
        match &self.right {
            Some(c) => Some(c),
            None => match &self.left {
                Some(c) => Some(c),
                None => None,
            },
        }
    }

    /// The cell on a side, or the primary cell where that side has none.
    pub fn preferred_cell(&self, side: DiffSide) -> (res: Option<&PresentedCell>)
        ensures
            cell_ref_view(res) == match (match side {
                DiffSide::Old => self@.left,
                DiffSide::New => self@.right,
            }) {
                Some(c) => Some(c),
                None => match self@.right {
                    Some(c) => Some(c),
                    None => self@.left,
                },
            },
    {
        match self.cell(side) {
            Some(c) => Some(c),
            None => self.primary_cell(),
        }
    }

    /// The cells of this row, left first.
    pub fn cells(&self) -> (res: Vec<&PresentedCell>)
        ensures
            res@.map_values(|c: &PresentedCell| c@) == row_cells(self@),
    {
        let mut out: Vec<&PresentedCell> = Vec::new();
        match &self.left {
            Some(c) => out.push(c),
            None => {},
        }
        match &self.right {
            Some(c) => out.push(c),
            None => {},
        }
        proof {
            assert(out@.map_values(|c: &PresentedCell| c@) =~= row_cells(self@));
        }
        out
    }

    /// The patch sources of this row's cells, left first.
    pub fn sources(&self) -> (res: Vec<CellSource>)
        ensures
            res@ == row_cells(self@).filter(|c: CellView| c.patch_source is Some).map_values(
                |c: CellView| c.patch_source->0,
            ),
    {
        let mut out: Vec<CellSource> = Vec::new();
        match &self.left {
            Some(c) => match c.patch_source {
                Some(s) => out.push(s),
                None => {},
            },
            None => {},
        }
        match &self.right {
            Some(c) => match c.patch_source {
                Some(s) => out.push(s),
                None => {},
            },
            None => {},
        }
        proof {
            reveal_with_fuel(Seq::filter, 3);
            let cs = row_cells(self@);
            assert(cs.filter(|c: CellView| c.patch_source is Some).map_values(
                |c: CellView| c.patch_source->0,
            ) =~= out@);
        }
        out
    }

    /// The source lines of this row's cells, left first.
    pub fn source_lines(&self) -> (res: Vec<SourceLineRef>)
        ensures
            res@ == row_cells(self@).filter(|c: CellView| c.source_line is Some).map_values(
                |c: CellView| c.source_line->0,
            ),
    {
        let mut out: Vec<SourceLineRef> = Vec::new();
        match &self.left {
            Some(c) => match c.source_line {
                Some(s) => out.push(s),
                None => {},
            },
            None => {},
        }
        match &self.right {
            Some(c) => match c.source_line {
                Some(s) => out.push(s),
                None => {},
            },
            None => {},
        }
        proof {
            reveal_with_fuel(Seq::filter, 3);
            let cs = row_cells(self@);
            assert(cs.filter(|c: CellView| c.source_line is Some).map_values(
                |c: CellView| c.source_line->0,
            ) =~= out@);
        }
        out
    }

    fn has_patch_source(&self) -> (res: bool)
        ensures
            res == exists|i: int|
                0 <= i < row_cells(self@).len() && (#[trigger] row_cells(self@)[i]).patch_source is Some,
    {
        let l = match &self.left {
            Some(c) => c.patch_source.is_some(),
            None => false,
        };
        let r = match &self.right {
            Some(c) => c.patch_source.is_some(),
            None => false,
        };
        proof {
            let cs = row_cells(self@);
            if l {
                assert(cs[0].patch_source is Some);
            }
            if r {
                assert(cs[cs.len() - 1].patch_source is Some);
            }
        }
        l || r
    }

    fn has_source_line(&self) -> (res: bool)
        ensures
            res == exists|i: int|
                0 <= i < row_cells(self@).len() && (#[trigger] row_cells(self@)[i]).source_line is Some,
    {
        let l = match &self.left {
            Some(c) => c.source_line.is_some(),
            None => false,
        };
        let r = match &self.right {
            Some(c) => c.source_line.is_some(),
            None => false,
        };
        proof {
            let cs = row_cells(self@);
            if l {
                assert(cs[0].source_line is Some);
            }
            if r {
                assert(cs[cs.len() - 1].source_line is Some);
            }
        }
        l || r
    }

    /// A code row with at least one patch cell can carry a comment.
    pub fn is_commentable(&self) -> (res: bool)
        ensures
            res == row_is_commentable(self@),
    {
        self.kind == RowKind::Code && self.has_patch_source()
    }

    /// Whether selection may rest on this row.
    pub fn is_navigable(&self) -> (res: bool)
        ensures
            res == row_is_navigable(self@),
    {
        match self.kind {
            RowKind::Code | RowKind::ExpandedContext => self.has_source_line(),
            RowKind::ExpandGap => true,
            _ => false,
        }
    }

    /// A copy of this row.
    pub fn duplicate(&self) -> (res: PresentedRow)
        ensures
            res@ == self@,
    {
        PresentedRow {
            id: self.id,
            kind: self.kind,
            file_index: self.file_index,
            hunk_index: self.hunk_index,
            left: match &self.left {
                Some(c) => Some(c.duplicate()),
                None => None,
            },
            right: match &self.right {
                Some(c) => Some(c.duplicate()),
                None => None,
            },
        }
    }
}

pub open spec fn cell_ref_view(c: Option<&PresentedCell>) -> Option<CellView> {
    match c {
        Some(x) => Some(x@),
        None => None,
    }
}

// ---- row identities ----
/// The field that records an optional index in a row identity.
pub open spec fn index_field(v: Option<usize>) -> Seq<u8> {
    match v {
        Some(i) => seq![1u8] + le_bytes(i as nat, 8),
        None => Seq::new(9, |k: int| 0u8),
    }
}

/// The identity of a row: the first eight digest bytes, little-endian, of its
/// path, kind, hunk and the two line indexes.
pub open spec fn row_id_of(
    path: Seq<char>,
    kind: Seq<char>,
    hunk: Option<usize>,
    left: Option<usize>,
    right: Option<usize>,
) -> RowId {
    RowId(
        le_value(
            blake3_digest(
                encode_fields(
                    seq![
                        encode_utf8(path),
                        encode_utf8(kind),
                        index_field(hunk),
                        index_field(left),
                        index_field(right),
                    ],
                ),
            ),
        ) as u64,
    )
}

fn index_field_exec(v: Option<usize>) -> (res: Vec<u8>)
    ensures
        res@ == index_field(v),
{
    let mut out: Vec<u8> = Vec::new();
    match v {
        Some(i) => {
            out.push(1u8);
            push_le_u64(&mut out, i as u64);
        },
        None => {
            let mut k: usize = 0;
            while k < 9
                invariant
                    k <= 9,
                    out@ == Seq::new(k as nat, |j: int| 0u8),
                decreases 9 - k,
            {
                out.push(0u8);
                k = k + 1;
                proof {
                    assert(out@ =~= Seq::new(k as nat, |j: int| 0u8));
                }
            }
        },
    }
    proof {
        assert(out@ =~= index_field(v));
    }
    out
}

fn row_id(
    path: &RepoPath,
    kind: &str,
    hunk: Option<usize>,
    left: Option<usize>,
    right: Option<usize>,
) -> (res: RowId)
    ensures
        res == row_id_of(path@, kind@, hunk, left, right),
{
    let mut fields: Vec<Vec<u8>> = Vec::new();
    let mut p: Vec<u8> = Vec::new();
    crate::text::push_str_bytes(&mut p, path.as_str());
    let mut k: Vec<u8> = Vec::new();
    crate::text::push_str_bytes(&mut k, kind);
    fields.push(p);
    fields.push(k);
    fields.push(index_field_exec(hunk));
    fields.push(index_field_exec(left));
    fields.push(index_field_exec(right));
    proof {
        assert(crate::fingerprint::field_views(fields@) =~= seq![
            encode_utf8(path@),
            encode_utf8(kind@),
            index_field(hunk),
            index_field(left),
            index_field(right),
        ]);
    }
    RowId(Fingerprint::of(&fields).to_u64())
}

// ---- row builders ----
pub open spec fn meta_cell(text: Seq<char>) -> CellView {
    CellView { patch_source: None, source_line: None, text, tone: DiffTone::Meta }
}

fn meta_cell_exec(text: String) -> (res: PresentedCell)
    ensures
        res@ == meta_cell(text@),
{
    PresentedCell { patch_source: None, source_line: None, text, tone: DiffTone::Meta }
}

/// The file header: the path, or `old → new` after a rename.
pub open spec fn header_text(file: FileDiff) -> Seq<char> {
    match file.old_path {
        Some(old) => if old@ != file.path@ {
            old@ + " → "@ + file.path@
        } else {
            file.path@
        },
        None => file.path@,
    }
}

pub open spec fn header_row_view(file_index: usize, file: FileDiff) -> RowView {
    RowView {
        id: row_id_of(file.path@, "file"@, None, None, None),
        kind: RowKind::FileHeader,
        file_index,
        hunk_index: None,
        left: None,
        right: Some(meta_cell(header_text(file))),
    }
}

fn header_row(file_index: usize, file: &FileDiff) -> (res: PresentedRow)
    ensures
        res@ == header_row_view(file_index, *file),
{
    let text = match &file.old_path {
        Some(old) => if !old.same_as(&file.path) {
            let mut out = chars_of(old.as_str());
            let arrow = chars_of(" → ");
            push_all(&mut out, arrow.as_slice());
            let tail = chars_of(file.path.as_str());
            push_all(&mut out, tail.as_slice());
            string_from_chars(out.as_slice())
        } else {
            file.path.as_str().to_owned()
        },
        None => file.path.as_str().to_owned(),
    };
    PresentedRow {
        id: row_id(&file.path, "file", None, None, None),
        kind: RowKind::FileHeader,
        file_index,
        hunk_index: None,
        left: None,
        right: Some(meta_cell_exec(text)),
    }
}

pub open spec fn hunk_header_row_view(
    file_index: usize,
    hunk_index: usize,
    header: Seq<char>,
    path: Seq<char>,
) -> RowView {
    RowView {
        id: row_id_of(path, "hunk"@, Some(hunk_index), None, None),
        kind: RowKind::HunkHeader,
        file_index,
        hunk_index: Some(hunk_index),
        left: None,
        right: Some(meta_cell(header)),
    }
}

fn hunk_header_row(file_index: usize, hunk_index: usize, hunk: &Hunk, path: &RepoPath) -> (res:
    PresentedRow)
    ensures
        res@ == hunk_header_row_view(file_index, hunk_index, hunk.header@, path@),
{
    PresentedRow {
        id: row_id(path, "hunk", Some(hunk_index), None, None),
        kind: RowKind::HunkHeader,
        file_index,
        hunk_index: Some(hunk_index),
        left: None,
        right: Some(meta_cell_exec(hunk.header.clone())),
    }
}

pub open spec fn meta_row_view(
    file_index: usize,
    hunk_index: Option<usize>,
    path: Seq<char>,
    kind: Seq<char>,
    line_index: Option<usize>,
    text: Seq<char>,
) -> RowView {
    RowView {
        id: row_id_of(path, kind, hunk_index, line_index, None),
        kind: RowKind::Meta,
        file_index,
        hunk_index,
        left: None,
        right: Some(meta_cell(text)),
    }
}

fn meta_row(
    file_index: usize,
    hunk_index: Option<usize>,
    path: &RepoPath,
    kind: &str,
    line_index: Option<usize>,
    text: String,
) -> (res: PresentedRow)
    ensures
        res@ == meta_row_view(file_index, hunk_index, path@, kind@, line_index, text@),
{
    PresentedRow {
        id: row_id(path, kind, hunk_index, line_index, None),
        kind: RowKind::Meta,
        file_index,
        hunk_index,
        left: None,
        right: Some(meta_cell_exec(text)),
    }
}

/// The number a patch line shows on a side: none for meta and header lines.
pub open spec fn code_line_number(line: PatchLineView, side: DiffSide) -> Option<usize> {
    if line.kind == PatchLineKind::Meta || line.kind == PatchLineKind::HunkHeader {
        None
    } else {
        match side {
            DiffSide::Old => line.old_line_no,
            DiffSide::New => line.new_line_no,
        }
    }
}

pub open spec fn code_cell_view(
    side: DiffSide,
    hunk_index: usize,
    line_index: usize,
    line: PatchLineView,
) -> CellView {
    let n = code_line_number(line, side);
    CellView {
        patch_source: if n is Some {
            Some(CellSource { side, hunk_index, line_index })
        } else {
            None
        },
        source_line: match n {
            Some(v) => Some(SourceLineRef { side, line_number: v }),
            None => None,
        },
        text: line.text,
        tone: kind_tone(line.kind),
    }
}

fn code_cell(side: DiffSide, hunk_index: usize, line_index: usize, line: &PatchLine) -> (res:
    PresentedCell)
    ensures
        res@ == code_cell_view(side, hunk_index, line_index, line@),
{
    let n = if line.kind == PatchLineKind::Meta || line.kind == PatchLineKind::HunkHeader {
        None
    } else {
        line.line_number(side)
    };
    PresentedCell {
        patch_source: match n {
            Some(_) => Some(CellSource { side, hunk_index, line_index }),
            None => None,
        },
        source_line: match n {
            Some(v) => Some(SourceLineRef { side, line_number: v }),
            None => None,
        },
        text: line.text.clone(),
        tone: line.kind.tone(),
    }
}

pub open spec fn patch_line_index(c: Option<CellView>) -> Option<usize> {
    match c {
        Some(x) => match x.patch_source {
            Some(s) => Some(s.line_index),
            None => None,
        },
        None => None,
    }
}

pub open spec fn code_row_id_of(
    path: Seq<char>,
    hunk_index: usize,
    left: Option<CellView>,
    right: Option<CellView>,
) -> RowId {
    row_id_of(path, "code"@, Some(hunk_index), patch_line_index(left), patch_line_index(right))
}

fn cell_line_index(c: &Option<PresentedCell>) -> (res: Option<usize>)
    ensures
        res == patch_line_index(cell_opt(*c)),
{
    match c {
        Some(x) => match x.patch_source {
            Some(s) => Some(s.line_index),
            None => None,
        },
        None => None,
    }
}

/// The side a unified code row shows a line on: old for removed lines, new
/// otherwise.
pub open spec fn unified_side(kind: PatchLineKind) -> DiffSide {
    if kind == PatchLineKind::Removed {
        DiffSide::Old
    } else {
        DiffSide::New
    }
}

pub open spec fn unified_row_view(
    file_index: usize,
    hunk_index: usize,
    line_index: usize,
    path: Seq<char>,
    line: PatchLineView,
) -> RowView {
    let side = unified_side(line.kind);
    let cell = code_cell_view(side, hunk_index, line_index, line);
    let left = if side == DiffSide::Old {
        Some(cell)
    } else {
        None
    };
    let right = if side == DiffSide::New {
        Some(cell)
    } else {
        None
    };
    RowView {
        id: code_row_id_of(path, hunk_index, left, right),
        kind: RowKind::Code,
        file_index,
        hunk_index: Some(hunk_index),
        left,
        right,
    }
}

fn unified_row(
    file_index: usize,
    hunk_index: usize,
    line_index: usize,
    path: &RepoPath,
    line: &PatchLine,
) -> (res: PresentedRow)
    ensures
        res@ == unified_row_view(file_index, hunk_index, line_index, path@, line@),
{
    let side = if line.kind == PatchLineKind::Removed {
        DiffSide::Old
    } else {
        DiffSide::New
    };
    let presented = code_cell(side, hunk_index, line_index, line);
    let (left, right) = match side {
        DiffSide::Old => (Some(presented), None),
        DiffSide::New => (None, Some(presented)),
    };
    let id = row_id(path, "code", Some(hunk_index), cell_line_index(&left), cell_line_index(&right));
    PresentedRow { id, kind: RowKind::Code, file_index, hunk_index: Some(hunk_index), left, right }
}

/// The text of the row that marks a line without a final newline.
pub open spec fn no_newline_text() -> Seq<char> {
    "\\ No newline at end of file"@
}

/// The marker row after a line without a final newline, if it is one.
pub open spec fn no_newline_rows(
    file_index: usize,
    hunk_index: usize,
    path: Seq<char>,
    line_index: usize,
    line: PatchLineView,
) -> Seq<RowView> {
    if line.no_newline {
        seq![
            meta_row_view(
                file_index,
                Some(hunk_index),
                path,
                "no-newline"@,
                Some(line_index),
                no_newline_text(),
            ),
        ]
    } else {
        Seq::empty()
    }
}

fn append_no_newline_meta(
    rows: &mut Vec<PresentedRow>,
    file_index: usize,
    hunk_index: usize,
    path: &RepoPath,
    line_index: usize,
    line: &PatchLine,
)
    ensures
        row_views(final(rows)@) == row_views(old(rows)@) + no_newline_rows(
            file_index,
            hunk_index,
            path@,
            line_index,
            line@,
        ),
{
    if line.no_newline {
        let ghost prev = rows@;
        rows.push(
            meta_row(
                file_index,
                Some(hunk_index),
                path,
                "no-newline",
                Some(line_index),
                "\\ No newline at end of file".to_owned(),
            ),
        );
        proof {
            assert(row_views(rows@) =~= row_views(prev) + no_newline_rows(
                file_index,
                hunk_index,
                path@,
                line_index,
                line@,
            ));
        }
    } else {
        proof {
            assert(row_views(rows@) =~= row_views(old(rows)@) + no_newline_rows(
                file_index,
                hunk_index,
                path@,
                line_index,
                line@,
            ));
        }
    }
}

/// The unified rows of the first `n` lines of a hunk.
pub open spec fn unified_rows(
    file_index: usize,
    hunk_index: usize,
    path: Seq<char>,
    lines: Seq<PatchLineView>,
    n: int,
) -> Seq<RowView>
    decreases n,
{
    if n <= 0 {
        Seq::empty()
    } else {
        unified_rows(file_index, hunk_index, path, lines, n - 1) + seq![
            unified_row_view(file_index, hunk_index, (n - 1) as usize, path, lines[n - 1]),
        ] + no_newline_rows(file_index, hunk_index, path, (n - 1) as usize, lines[n - 1])
    }
}

fn append_unified_rows(
    rows: &mut Vec<PresentedRow>,
    file_index: usize,
    hunk_index: usize,
    file: &FileDiff,
)
    requires
        hunk_index < file.hunks@.len(),
    ensures
        row_views(final(rows)@) == row_views(old(rows)@) + unified_rows(
            file_index,
            hunk_index,
            file.path@,
            file.hunks@[hunk_index as int]@.lines,
            file.hunks@[hunk_index as int].lines@.len() as int,
        ),
{
    let lines = &file.hunks[hunk_index].lines;
    let ghost lv = file.hunks@[hunk_index as int]@.lines;
    let ghost start = row_views(rows@);
    let mut i: usize = 0;
    while i < lines.len()
        invariant
            i <= lines@.len(),
            *lines == file.hunks@[hunk_index as int].lines,
            lv == file.hunks@[hunk_index as int]@.lines,
            start == row_views(old(rows)@),
            row_views(rows@) == start + unified_rows(file_index, hunk_index, file.path@, lv, i as int),
        decreases lines@.len() - i,
    {
        let ghost prev = rows@;
        rows.push(unified_row(file_index, hunk_index, i, &file.path, &lines[i]));
        proof {
            assert(lv[i as int] == lines@[i as int]@);
            assert(row_views(rows@) =~= row_views(prev).push(
                unified_row_view(file_index, hunk_index, i, file.path@, lv[i as int]),
            ));
        }
        append_no_newline_meta(rows, file_index, hunk_index, &file.path, i, &lines[i]);
        proof {
            assert(row_views(rows@) =~= start + unified_rows(
                file_index,
                hunk_index,
                file.path@,
                lv,
                i + 1,
            ));
        }
        i = i + 1;
    }
}


// ---- split layout ----
/// What `similar`'s diff of two lists of lines yields, operation by
/// operation, as old start, old length, new start and new length (a length
/// that an operation does not cover is zero).
pub uninterp spec fn slice_ops(old: Seq<Seq<char>>, new: Seq<Seq<char>>) -> Seq<(usize, usize, usize, usize)>;

pub open spec fn string_views(v: Seq<String>) -> Seq<Seq<char>> {
    v.map_values(|s: String| s@)
}

/// Whether operations tile two lists of the given lengths: each starts
/// where the one before it ended, the first at the start of both lists, and
/// the last ends at the end of both.
pub open spec fn tiles(ops: Seq<(usize, usize, usize, usize)>, old_len: nat, new_len: nat) -> bool {
    &&& forall|i: int|
        0 < i < ops.len() ==> (#[trigger] ops[i]).0 == ops[i - 1].0 + ops[i - 1].1 && ops[i].2
            == ops[i - 1].2 + ops[i - 1].3
    &&& if ops.len() == 0 {
        old_len == 0 && new_len == 0
    } else {
        &&& ops[0].0 == 0 && ops[0].2 == 0
        &&& ops.last().0 + ops.last().1 == old_len && ops.last().2 + ops.last().3 == new_len
    }
}

/// `similar::TextDiff::from_slices(old, new).ops()`, each operation converted
/// to its old and new ranges. The operations are a function of the two lists,
/// and they walk both lists in order from start to end.
#[verifier::external_body]
fn diff_slices(old: &Vec<String>, new: &Vec<String>) -> (res: Vec<(usize, usize, usize, usize)>)
    ensures
        res@ == slice_ops(string_views(old@), string_views(new@)),
        tiles(res@, old@.len(), new@.len()),
{
    let old_refs: Vec<&str> = old.iter().map(|s| s.as_str()).collect();
    let new_refs: Vec<&str> = new.iter().map(|s| s.as_str()).collect();
    similar::TextDiff::from_slices(&old_refs, &new_refs).ops().iter().map(
        |op| match *op {
            similar::DiffOp::Equal { old_index, new_index, len } => (old_index, len, new_index, len),
            similar::DiffOp::Delete { old_index, old_len, new_index } => (old_index, old_len, new_index, 0),
            similar::DiffOp::Insert { old_index, new_index, new_len } => (old_index, 0, new_index, new_len),
            similar::DiffOp::Replace { old_index, old_len, new_index, new_len } => (
                old_index,
                old_len,
                new_index,
                new_len,
            ),
        },
    ).collect()
}

/// A range clipped to `0..n`.
pub open spec fn clip(start: usize, len: usize, n: int) -> (int, int) {
    let end = if start + len <= n {
        start + len
    } else {
        n
    };
    let s = if start <= end {
        start as int
    } else {
        end
    };
    (s, end)
}

/// Equal-length prefixes side by side, then the rest of each side alone.
pub open spec fn align_pairs(os: int, oe: int, ns: int, ne: int) -> Seq<(Option<int>, Option<int>)> {
    let lo = oe - os;
    let ln = ne - ns;
    let p = if lo <= ln {
        lo
    } else {
        ln
    };
    Seq::new(p as nat, |k: int| (Some(os + k), Some(ns + k))) + Seq::new(
        (lo - p) as nat,
        |k: int| (Some(os + p + k), None::<int>),
    ) + Seq::new((ln - p) as nat, |k: int| (None::<int>, Some(ns + p + k)))
}

/// The pairs of the first `n` operations over `removed` and `added` lines.
pub open spec fn block_pairs(
    ops: Seq<(usize, usize, usize, usize)>,
    removed: int,
    added: int,
    n: int,
) -> Seq<(Option<int>, Option<int>)>
    decreases n,
{
    if n <= 0 {
        Seq::empty()
    } else {
        let op = ops[n - 1];
        let (os, oe) = clip(op.0, op.1, removed);
        let (ns, ne) = clip(op.2, op.3, added);
        block_pairs(ops, removed, added, n - 1) + align_pairs(os, oe, ns, ne)
    }
}

/// The end of the run of `kind` lines that starts at `start`.
pub open spec fn run_end(lines: Seq<PatchLineView>, start: int, kind: PatchLineKind) -> int
    decreases lines.len() - start,
{
    if start < 0 || start >= lines.len() || lines[start].kind != kind {
        if start < 0 { 0 } else { start }
    } else {
        run_end(lines, start + 1, kind)
    }
}

pub proof fn lemma_run_end(lines: Seq<PatchLineView>, start: int, kind: PatchLineKind)
    requires
        0 <= start <= lines.len(),
    ensures
        start <= run_end(lines, start, kind) <= lines.len(),
        forall|k: int| start <= k < run_end(lines, start, kind) ==> lines[k].kind == kind,
    decreases lines.len() - start,
{
    if start < lines.len() && lines[start].kind == kind {
        lemma_run_end(lines, start + 1, kind);
    }
}

pub open spec fn split_cell_view(
    side: DiffSide,
    hunk_index: usize,
    source: Option<(usize, PatchLineView)>,
) -> Option<CellView> {
    match source {
        Some((index, line)) => if (match side {
            DiffSide::Old => line.old_line_no,
            DiffSide::New => line.new_line_no,
        }) is Some {
            Some(code_cell_view(side, hunk_index, index, line))
        } else {
            None
        },
        None => None,
    }
}

pub open spec fn split_row_view(
    file_index: usize,
    hunk_index: usize,
    path: Seq<char>,
    left: Option<(usize, PatchLineView)>,
    right: Option<(usize, PatchLineView)>,
) -> RowView {
    let l = split_cell_view(DiffSide::Old, hunk_index, left);
    let r = split_cell_view(DiffSide::New, hunk_index, right);
    RowView {
        id: code_row_id_of(path, hunk_index, l, r),
        kind: RowKind::Code,
        file_index,
        hunk_index: Some(hunk_index),
        left: l,
        right: r,
    }
}

fn split_code_row(
    file_index: usize,
    hunk_index: usize,
    path: &RepoPath,
    left: Option<(usize, &PatchLine)>,
    right: Option<(usize, &PatchLine)>,
) -> (res: PresentedRow)
    ensures
        res@ == split_row_view(
            file_index,
            hunk_index,
            path@,
            match left {
                Some((i, l)) => Some((i, l@)),
                None => None,
            },
            match right {
                Some((i, l)) => Some((i, l@)),
                None => None,
            },
        ),
{
    let l = match left {
        Some((index, line)) => match line.line_number(DiffSide::Old) {
            Some(_) => Some(code_cell(DiffSide::Old, hunk_index, index, line)),
            None => None,
        },
        None => None,
    };
    let r = match right {
        Some((index, line)) => match line.line_number(DiffSide::New) {
            Some(_) => Some(code_cell(DiffSide::New, hunk_index, index, line)),
            None => None,
        },
        None => None,
    };
    let id = row_id(path, "code", Some(hunk_index), cell_line_index(&l), cell_line_index(&r));
    PresentedRow { id, kind: RowKind::Code, file_index, hunk_index: Some(hunk_index), left: l, right: r }
}

/// The row of a line that has no changed neighbour to pair with.
pub open spec fn single_rows(
    file_index: usize,
    hunk_index: usize,
    path: Seq<char>,
    lines: Seq<PatchLineView>,
    i: int,
) -> Seq<RowView> {
    let line = lines[i];
    let present = Some((i as usize, line));
    let left = if line.kind == PatchLineKind::Added {
        None
    } else {
        present
    };
    let right = if line.kind == PatchLineKind::Removed {
        None
    } else {
        present
    };
    seq![split_row_view(file_index, hunk_index, path, left, right)] + no_newline_rows(
        file_index,
        hunk_index,
        path,
        i as usize,
        line,
    )
}

pub open spec fn at_line(lines: Seq<PatchLineView>, base: int, p: Option<int>) -> Option<(usize, PatchLineView)> {
    match p {
        Some(k) => Some(((base + k) as usize, lines[base + k])),
        None => None,
    }
}

/// The rows of one pair of a changed block, with the marker of the first of
/// its lines that lacks a final newline.
pub open spec fn pair_rows(
    file_index: usize,
    hunk_index: usize,
    path: Seq<char>,
    lines: Seq<PatchLineView>,
    removed_start: int,
    added_start: int,
    pair: (Option<int>, Option<int>),
) -> Seq<RowView> {
    let left = at_line(lines, removed_start, pair.0);
    let right = at_line(lines, added_start, pair.1);
    let marker = match left {
        Some((i, l)) => if l.no_newline {
            Some((i, l))
        } else {
            None
        },
        None => None,
    };
    let marker = if marker is Some {
        marker
    } else {
        match right {
            Some((i, l)) => if l.no_newline {
                Some((i, l))
            } else {
                None
            },
            None => None,
        }
    };
    seq![split_row_view(file_index, hunk_index, path, left, right)] + match marker {
        Some((i, l)) => no_newline_rows(file_index, hunk_index, path, i, l),
        None => Seq::empty(),
    }
}

pub open spec fn pairs_rows(
    file_index: usize,
    hunk_index: usize,
    path: Seq<char>,
    lines: Seq<PatchLineView>,
    removed_start: int,
    added_start: int,
    pairs: Seq<(Option<int>, Option<int>)>,
) -> Seq<RowView>
    decreases pairs.len(),
{
    if pairs.len() == 0 {
        Seq::empty()
    } else {
        pairs_rows(file_index, hunk_index, path, lines, removed_start, added_start, pairs.drop_last())
            + pair_rows(file_index, hunk_index, path, lines, removed_start, added_start, pairs.last())
    }
}

pub open spec fn line_text_views(lines: Seq<PatchLineView>) -> Seq<Seq<char>> {
    lines.map_values(|l: PatchLineView| l.text)
}

/// The rows of the changed block of removed lines `s..a` and added lines
/// `a..b`, paired by `similar`'s diff of their texts.
pub open spec fn changed_rows(
    file_index: usize,
    hunk_index: usize,
    path: Seq<char>,
    lines: Seq<PatchLineView>,
    s: int,
    a: int,
    b: int,
) -> Seq<RowView> {
    let ops = slice_ops(
        line_text_views(lines.subrange(s, a)),
        line_text_views(lines.subrange(a, b)),
    );
    pairs_rows(
        file_index,
        hunk_index,
        path,
        lines,
        s,
        a,
        block_pairs(ops, a - s, b - a, ops.len() as int),
    )
}

/// The split rows of a hunk's lines from `start` on.
pub open spec fn split_rows_from(
    file_index: usize,
    hunk_index: usize,
    path: Seq<char>,
    lines: Seq<PatchLineView>,
    start: int,
) -> Seq<RowView>
    decreases lines.len() - start,
{
    if start < 0 || start >= lines.len() {
        Seq::empty()
    } else if lines[start].kind != PatchLineKind::Removed {
        single_rows(file_index, hunk_index, path, lines, start) + split_rows_from(
            file_index,
            hunk_index,
            path,
            lines,
            start + 1,
        )
    } else {
        let a = run_end(lines, start, PatchLineKind::Removed);
        let b = run_end(lines, a, PatchLineKind::Added);
        if b <= start {
            Seq::empty()
        } else {
            proof {
                lemma_run_end(lines, start, PatchLineKind::Removed);
                lemma_run_end(lines, a, PatchLineKind::Added);
            }
            changed_rows(file_index, hunk_index, path, lines, start, a, b) + split_rows_from(
                file_index,
                hunk_index,
                path,
                lines,
                b,
            )
        }
    }
}

fn clip_exec(start: usize, len: usize, n: usize) -> (res: (usize, usize))
    ensures
        res.0 as int == clip(start, len, n as int).0,
        res.1 as int == clip(start, len, n as int).1,
{
    let end = if start <= n && len <= n - start {
        start + len
    } else {
        n
    };
    let s = if start <= end {
        start
    } else {
        end
    };
    (s, end)
}

fn push_pair_rows(
    rows: &mut Vec<PresentedRow>,
    file_index: usize,
    hunk_index: usize,
    path: &RepoPath,
    lines: &Vec<PatchLine>,
    removed_start: usize,
    added_start: usize,
    removed: Option<usize>,
    added: Option<usize>,
)
    requires
        removed matches Some(k) ==> removed_start + k < lines@.len(),
        added matches Some(k) ==> added_start + k < lines@.len(),
    ensures
        row_views(final(rows)@) == row_views(old(rows)@) + pair_rows(
            file_index,
            hunk_index,
            path@,
            lines@.map_values(|l: PatchLine| l@),
            removed_start as int,
            added_start as int,
            (
                match removed {
                    Some(k) => Some(k as int),
                    None => None,
                },
                match added {
                    Some(k) => Some(k as int),
                    None => None,
                },
            ),
        ),
{
    let ghost lv = lines@.map_values(|l: PatchLine| l@);
    let count = lines.len();
    let left: Option<(usize, &PatchLine)> = match removed {
        Some(k) => {
            let i: usize = removed_start + k;
            Some((i, &lines[i]))
        },
        None => None,
    };
    let right: Option<(usize, &PatchLine)> = match added {
        Some(k) => {
            let i: usize = added_start + k;
            Some((i, &lines[i]))
        },
        None => None,
    };
    let ghost prev = rows@;
    rows.push(split_code_row(file_index, hunk_index, path, left, right));
    let marker: Option<(usize, &PatchLine)> = match left {
        Some((i, l)) => if l.no_newline {
            Some((i, l))
        } else {
            None
        },
        None => None,
    };
    let marker = match marker {
        Some(m) => Some(m),
        None => match right {
            Some((i, l)) => if l.no_newline {
                Some((i, l))
            } else {
                None
            },
            None => None,
        },
    };
    let ghost mid = rows@;
    match marker {
        Some((i, l)) => append_no_newline_meta(rows, file_index, hunk_index, path, i, l),
        None => {},
    }
    proof {
        assert(row_views(rows@) =~= row_views(prev) + pair_rows(
            file_index,
            hunk_index,
            path@,
            lv,
            removed_start as int,
            added_start as int,
            (
                match removed {
                    Some(k) => Some(k as int),
                    None => None,
                },
                match added {
                    Some(k) => Some(k as int),
                    None => None,
                },
            ),
        ));
    }
}


fn run_end_exec(lines: &Vec<PatchLine>, start: usize, kind: PatchLineKind) -> (res: usize)
    requires
        start <= lines@.len(),
    ensures
        res == run_end(lines@.map_values(|l: PatchLine| l@), start as int, kind),
        start <= res <= lines@.len(),
{
    let ghost lv = lines@.map_values(|l: PatchLine| l@);
    let mut j = start;
    while j < lines.len() && lines[j].kind == kind
        invariant
            start <= j <= lines@.len(),
            lv == lines@.map_values(|l: PatchLine| l@),
            run_end(lv, start as int, kind) == run_end(lv, j as int, kind),
        decreases lines@.len() - j,
    {
        proof {
            assert(lv[j as int].kind == kind);
        }
        j = j + 1;
    }
    proof {
        if j < lines@.len() {
            assert(lv[j as int].kind != kind);
        }
    }
    j
}

fn align_at(os: usize, oe: usize, ns: usize, ne: usize, t: usize) -> (res: (Option<usize>, Option<usize>))
    requires
        os <= oe,
        ns <= ne,
        t < (oe - os) + (ne - ns) - (if oe - os <= ne - ns { oe - os } else { ne - ns }),
    ensures
        (match res.0 {
            Some(k) => Some(k as int),
            None => None,
        }, match res.1 {
            Some(k) => Some(k as int),
            None => None,
        }) == align_pairs(os as int, oe as int, ns as int, ne as int)[t as int],
        res.0 matches Some(k) ==> os <= k < oe,
        res.1 matches Some(k) ==> ns <= k < ne,
{
    let lo = oe - os;
    let ln = ne - ns;
    let p = if lo <= ln {
        lo
    } else {
        ln
    };
    if t < p {
        (Some(os + t), Some(ns + t))
    } else if t < lo {
        (Some(os + t), None)
    } else {
        (None, Some(ns + p + (t - lo)))
    }
}

fn append_changed_rows(
    rows: &mut Vec<PresentedRow>,
    file_index: usize,
    hunk_index: usize,
    path: &RepoPath,
    lines: &Vec<PatchLine>,
    s: usize,
    a: usize,
    b: usize,
)
    requires
        s <= a <= b <= lines@.len(),
    ensures
        row_views(final(rows)@) == row_views(old(rows)@) + changed_rows(
            file_index,
            hunk_index,
            path@,
            lines@.map_values(|l: PatchLine| l@),
            s as int,
            a as int,
            b as int,
        ),
{
    let ghost lv = lines@.map_values(|l: PatchLine| l@);
    let mut old_texts: Vec<String> = Vec::new();
    let mut i = s;
    while i < a
        invariant
            s <= i <= a <= lines@.len(),
            lv == lines@.map_values(|l: PatchLine| l@),
            old_texts@.len() == i - s,
            string_views(old_texts@) == line_text_views(lv.subrange(s as int, i as int)),
        decreases a - i,
    {
        let ghost prev = old_texts@;
        old_texts.push(lines[i].text.clone());
        proof {
            assert forall|k: int| 0 <= k < i + 1 - s implies #[trigger] string_views(old_texts@)[k]
                == line_text_views(lv.subrange(s as int, i + 1))[k] by {
                if k < i - s {
                    assert(old_texts@[k] == prev[k]);
                    assert(string_views(prev)[k] == line_text_views(lv.subrange(s as int, i as int))[k]);
                }
            }
            assert(string_views(old_texts@) =~= line_text_views(lv.subrange(s as int, i + 1)));
        }
        i = i + 1;
    }
    let mut new_texts: Vec<String> = Vec::new();
    let mut i = a;
    while i < b
        invariant
            a <= i <= b <= lines@.len(),
            lv == lines@.map_values(|l: PatchLine| l@),
            new_texts@.len() == i - a,
            string_views(new_texts@) == line_text_views(lv.subrange(a as int, i as int)),
        decreases b - i,
    {
        let ghost prev = new_texts@;
        new_texts.push(lines[i].text.clone());
        proof {
            assert forall|k: int| 0 <= k < i + 1 - a implies #[trigger] string_views(new_texts@)[k]
                == line_text_views(lv.subrange(a as int, i + 1))[k] by {
                if k < i - a {
                    assert(new_texts@[k] == prev[k]);
                    assert(string_views(prev)[k] == line_text_views(lv.subrange(a as int, i as int))[k]);
                }
            }
            assert(string_views(new_texts@) =~= line_text_views(lv.subrange(a as int, i + 1)));
        }
        i = i + 1;
    }
    let ops = diff_slices(&old_texts, &new_texts);
    let removed = a - s;
    let added = b - a;
    let ghost start = row_views(rows@);
    let ghost mut done: Seq<(Option<int>, Option<int>)> = Seq::empty();
    let mut j: usize = 0;
    while j < ops.len()
        invariant
            j <= ops@.len(),
            s <= a <= b <= lines@.len(),
            removed == a - s,
            added == b - a,
            lv == lines@.map_values(|l: PatchLine| l@),
            ops@ == slice_ops(line_text_views(lv.subrange(s as int, a as int)), line_text_views(lv.subrange(a as int, b as int))),
            start == row_views(old(rows)@),
            done == block_pairs(ops@, removed as int, added as int, j as int),
            row_views(rows@) == start + pairs_rows(file_index, hunk_index, path@, lv, s as int, a as int, done),
        decreases ops@.len() - j,
    {
        let (o_start, o_len, n_start, n_len) = ops[j];
        let (os, oe) = clip_exec(o_start, o_len, removed);
        let (ns, ne) = clip_exec(n_start, n_len, added);
        let lo = oe - os;
        let ln = ne - ns;
        let p = if lo <= ln {
            lo
        } else {
            ln
        };
        let total = lo + ln - p;
        let ghost base = done;
        let ghost al = align_pairs(os as int, oe as int, ns as int, ne as int);
        proof {
            assert(al.len() == total);
        }
        let mut t: usize = 0;
        while t < total
            invariant
                t <= total,
                total == al.len(),
                os <= oe <= removed,
                ns <= ne <= added,
                lo == oe - os,
                ln == ne - ns,
                total == lo + ln - (if lo <= ln { lo } else { ln }),
                s <= a <= b <= lines@.len(),
                removed == a - s,
                added == b - a,
                lv == lines@.map_values(|l: PatchLine| l@),
                al == align_pairs(os as int, oe as int, ns as int, ne as int),
                start == row_views(old(rows)@),
                done == base + al.take(t as int),
                row_views(rows@) == start + pairs_rows(file_index, hunk_index, path@, lv, s as int, a as int, done),
            decreases total - t,
        {
            let pair = align_at(os, oe, ns, ne, t);
            let ghost before = done;
            push_pair_rows(rows, file_index, hunk_index, path, lines, s, a, pair.0, pair.1);
            proof {
                done = done.push(al[t as int]);
                assert(done.drop_last() =~= before);
                assert(done =~= base + al.take(t + 1));
            }
            t = t + 1;
        }
        proof {
            assert(al.take(t as int) =~= al);
            let op = ops@[j as int];
            assert(op == (o_start, o_len, n_start, n_len));
            assert(block_pairs(ops@, removed as int, added as int, j + 1) == base + al);
        }
        j = j + 1;
    }
}

fn append_single_rows(
    rows: &mut Vec<PresentedRow>,
    file_index: usize,
    hunk_index: usize,
    path: &RepoPath,
    lines: &Vec<PatchLine>,
    i: usize,
)
    requires
        i < lines@.len(),
    ensures
        row_views(final(rows)@) == row_views(old(rows)@) + single_rows(
            file_index,
            hunk_index,
            path@,
            lines@.map_values(|l: PatchLine| l@),
            i as int,
        ),
{
    let line = &lines[i];
    let present: Option<(usize, &PatchLine)> = Some((i, line));
    let left = if line.kind == PatchLineKind::Added {
        None
    } else {
        present
    };
    let right = if line.kind == PatchLineKind::Removed {
        None
    } else {
        present
    };
    let ghost prev = rows@;
    rows.push(split_code_row(file_index, hunk_index, path, left, right));
    append_no_newline_meta(rows, file_index, hunk_index, path, i, line);
    proof {
        assert(row_views(rows@) =~= row_views(prev) + single_rows(
            file_index,
            hunk_index,
            path@,
            lines@.map_values(|l: PatchLine| l@),
            i as int,
        ));
    }
}

fn append_split_rows(
    rows: &mut Vec<PresentedRow>,
    file_index: usize,
    hunk_index: usize,
    file: &FileDiff,
)
    requires
        hunk_index < file.hunks@.len(),
    ensures
        row_views(final(rows)@) == row_views(old(rows)@) + split_rows_from(
            file_index,
            hunk_index,
            file.path@,
            file.hunks@[hunk_index as int]@.lines,
            0,
        ),
{
    let lines = &file.hunks[hunk_index].lines;
    let ghost lv = lines@.map_values(|l: PatchLine| l@);
    proof {
        assert(lv == file.hunks@[hunk_index as int]@.lines);
    }
    let ghost start = row_views(rows@);
    let ghost mut emitted: Seq<RowView> = Seq::empty();
    let mut idx: usize = 0;
    while idx < lines.len()
        invariant
            idx <= lines@.len(),
            lv == lines@.map_values(|l: PatchLine| l@),
            start == row_views(old(rows)@),
            row_views(rows@) == start + emitted,
            emitted + split_rows_from(file_index, hunk_index, file.path@, lv, idx as int)
                == split_rows_from(file_index, hunk_index, file.path@, lv, 0),
        decreases lines@.len() - idx,
    {
        let ghost before = row_views(rows@);
        if lines[idx].kind != PatchLineKind::Removed {
            append_single_rows(rows, file_index, hunk_index, &file.path, lines, idx);
            proof {
                let piece = single_rows(file_index, hunk_index, file.path@, lv, idx as int);
                assert(lv[idx as int].kind != PatchLineKind::Removed);
                assert(row_views(rows@) == before + piece);
                assert(emitted + piece + split_rows_from(file_index, hunk_index, file.path@, lv, idx + 1)
                    =~= emitted + split_rows_from(file_index, hunk_index, file.path@, lv, idx as int));
                emitted = emitted + piece;
                assert(row_views(rows@) =~= start + emitted);
            }
            idx = idx + 1;
        } else {
            let a = run_end_exec(lines, idx, PatchLineKind::Removed);
            let b = run_end_exec(lines, a, PatchLineKind::Added);
            proof {
                assert(lv[idx as int].kind == PatchLineKind::Removed);
                assert(run_end(lv, idx as int, PatchLineKind::Removed) == run_end(lv, idx + 1, PatchLineKind::Removed));
                lemma_run_end(lv, idx + 1, PatchLineKind::Removed);
            }
            append_changed_rows(rows, file_index, hunk_index, &file.path, lines, idx, a, b);
            proof {
                let piece = changed_rows(file_index, hunk_index, file.path@, lv, idx as int, a as int, b as int);
                assert(emitted + piece + split_rows_from(file_index, hunk_index, file.path@, lv, b as int)
                    =~= emitted + split_rows_from(file_index, hunk_index, file.path@, lv, idx as int));
                emitted = emitted + piece;
                assert(row_views(rows@) =~= start + emitted);
            }
            idx = b;
        }
    }
    proof {
        assert(emitted + Seq::<RowView>::empty() =~= emitted);
    }
}


// ---- revealed context in gaps ----
/// The complete text recorded for a side of a path, if there is one.
pub open spec fn source_text(proj: ProjectionView, path: Seq<char>, side: DiffSide) -> Option<Seq<char>> {
    match lookup(proj.sources, (path, side)) {
        Some(Ok(doc)) => Some(doc@),
        _ => None,
    }
}

/// The number of lines of a complete text.
pub open spec fn line_count_of(text: Seq<char>) -> usize {
    crate::content::line_starts_of(encode_utf8(text)).len() as usize
}

/// The sides a gap needs loaded before it can be revealed.
pub open spec fn required_sides(layout: Layout, status: FileStatus) -> Seq<DiffSide> {
    if status == FileStatus::Deleted {
        seq![DiffSide::Old]
    } else if layout == Layout::Unified || status == FileStatus::Added || status
        == FileStatus::Untracked {
        seq![DiffSide::New]
    } else {
        seq![DiffSide::Old, DiffSide::New]
    }
}

/// Why a gap cannot be revealed: the recorded reason of the first required
/// side without a document, absent where nothing was recorded.
pub open spec fn gap_unavailable_of(
    proj: ProjectionView,
    path: Seq<char>,
    sides: Seq<DiffSide>,
) -> Option<SourceUnavailable>
    decreases sides.len(),
{
    if sides.len() == 0 {
        None
    } else {
        match lookup(proj.sources, (path, sides[0])) {
            Some(Ok(_)) => gap_unavailable_of(proj, path, sides.drop_first()),
            Some(Err(reason)) => Some(reason),
            None => Some(SourceUnavailable::Absent),
        }
    }
}

pub open spec fn sides_loaded(proj: ProjectionView, path: Seq<char>, sides: Seq<DiffSide>) -> bool {
    forall|i: int| 0 <= i < sides.len() ==> source_text(proj, path, #[trigger] sides[i]) is Some
}

pub open spec fn range_len(r: Range<usize>) -> usize {
    sat_sub(r.end, r.start)
}

/// The context cell of a gap side at an offset, where the side has that line.
pub open spec fn expanded_cell(side: DiffSide, range: Range<usize>, text: Option<Seq<char>>, offset: usize) -> Option<
    CellView,
> {
    let n = sat_add(range.start, offset);
    if n >= range.end {
        None
    } else {
        match text {
            Some(t) => match source_line_at(t, n as int) {
                Some(l) => Some(
                    CellView {
                        patch_source: None,
                        source_line: Some(SourceLineRef { side, line_number: n }),
                        text: l,
                        tone: DiffTone::Context,
                    },
                ),
                None => None,
            },
            None => None,
        }
    }
}

/// The revealed context row of a gap at an offset, if it has a cell.
pub open spec fn expanded_row_view(
    file_index: usize,
    file: FileDiff,
    gap: (Range<usize>, Range<usize>),
    layout: Layout,
    old: Option<Seq<char>>,
    new: Option<Seq<char>>,
    offset: usize,
) -> Seq<RowView> {
    let left = if layout == Layout::Split || file.status == FileStatus::Deleted {
        expanded_cell(DiffSide::Old, gap.0, old, offset)
    } else {
        None
    };
    let right = if layout == Layout::Split || file.status != FileStatus::Deleted {
        expanded_cell(DiffSide::New, gap.1, new, offset)
    } else {
        None
    };
    if left is None && right is None {
        Seq::empty()
    } else {
        let ln = match left {
            Some(c) => cell_line_number(c),
            None => None,
        };
        let rn = match right {
            Some(c) => cell_line_number(c),
            None => None,
        };
        seq![
            RowView {
                id: row_id_of(file.path@, "expanded-context"@, None, ln, rn),
                kind: RowKind::ExpandedContext,
                file_index,
                hunk_index: None,
                left,
                right,
            },
        ]
    }
}

/// The revealed context rows of a gap for offsets `from..to`.
pub open spec fn expanded_rows(
    file_index: usize,
    file: FileDiff,
    gap: (Range<usize>, Range<usize>),
    layout: Layout,
    old: Option<Seq<char>>,
    new: Option<Seq<char>>,
    from: int,
    to: int,
) -> Seq<RowView>
    decreases to - from,
{
    if to <= from {
        Seq::empty()
    } else {
        expanded_rows(file_index, file, gap, layout, old, new, from, to - 1) + expanded_row_view(
            file_index,
            file,
            gap,
            layout,
            old,
            new,
            (to - 1) as usize,
        )
    }
}

/// The rows, gap records, file ranges and hunk ranges presented so far.
pub struct PresState {
    pub rows: Seq<RowView>,
    pub gap_info: Seq<(usize, GapInfo)>,
    pub file_ranges: Seq<Range<usize>>,
    pub hunk_ranges: Seq<Seq<Range<usize>>>,
}

pub open spec fn gap_row_view(file_index: usize, gap_index: usize, path: Seq<char>) -> RowView {
    RowView {
        id: row_id_of(path, "expand-gap"@, Some(gap_index), None, None),
        kind: RowKind::ExpandGap,
        file_index,
        hunk_index: None,
        left: None,
        right: Some(meta_cell("unchanged lines"@)),
    }
}

/// The sizes of a gap's presentation: its total length, whether the
/// required sides are loaded, the revealed prefix and suffix, the hidden
/// count, and where the revealed suffix starts.
pub open spec fn gap_numbers(
    gap: (Range<usize>, Range<usize>),
    exp: GapExpansion,
    full: bool,
    loaded: bool,
) -> (usize, usize, usize, usize, usize) {
    let total = max_usize(range_len(gap.0), range_len(gap.1));
    let prefix = if full {
        total
    } else {
        min_usize(exp.revealed_prefix, total)
    };
    let suffix = if full {
        total
    } else {
        min_usize(exp.revealed_suffix, sat_sub(total, prefix))
    };
    let hidden = if loaded {
        sat_sub(total, sat_add(prefix, suffix))
    } else {
        total
    };
    let start = max_usize(sat_sub(total, suffix), prefix);
    (total, prefix, suffix, hidden, start)
}

/// A gap's presentation: revealed leading context, the expansion
/// affordance while lines stay hidden or sources are missing, and revealed
/// trailing context. Nothing where the gap is neither expanded nor part of a
/// file shown in full.
pub open spec fn gap_step(
    st: PresState,
    file_index: usize,
    gap_index: usize,
    file: FileDiff,
    gap: (Range<usize>, Range<usize>),
    layout: Layout,
    proj: ProjectionView,
) -> PresState {
    let path = file.path@;
    let id = GapId { file_index, gap_index };
    let expansion = lookup(proj.expansions, id);
    let full = proj.full_files.contains(path);
    if expansion is None && !full {
        st
    } else {
        let exp = match expansion {
            Some(e) => e,
            None => GapExpansion { revealed_prefix: 0, revealed_suffix: 0 },
        };
        let old = source_text(proj, path, DiffSide::Old);
        let new = source_text(proj, path, DiffSide::New);
        let sides = required_sides(layout, file.status);
        let loaded = sides_loaded(proj, path, sides);
        let (total, prefix, suffix, hidden, start) = gap_numbers(gap, exp, full, loaded);
        let rows1 = if loaded {
            st.rows + expanded_rows(file_index, file, gap, layout, old, new, 0, prefix as int)
        } else {
            st.rows
        };
        let shows_gap = hidden != 0 || !loaded;
        let rows2 = if shows_gap {
            rows1.push(gap_row_view(file_index, gap_index, path))
        } else {
            rows1
        };
        let info = if shows_gap {
            st.gap_info.push(
                (
                    rows1.len() as usize,
                    GapInfo {
                        id,
                        hidden_lines: hidden,
                        unavailable: gap_unavailable_of(proj, path, sides),
                    },
                ),
            )
        } else {
            st.gap_info
        };
        let rows3 = if loaded {
            rows2 + expanded_rows(file_index, file, gap, layout, old, new, start as int, total as int)
        } else {
            rows2
        };
        PresState { rows: rows3, gap_info: info, ..st }
    }
}

fn expanded_cell_exec(
    side: DiffSide,
    range: &Range<usize>,
    source: Option<&Arc<SourceDocument>>,
    offset: usize,
) -> (res: Option<PresentedCell>)
    ensures
        cell_opt(res) == expanded_cell(
            side,
            *range,
            match source {
                Some(d) => Some((**d)@),
                None => None,
            },
            offset,
        ),
{
    let n = range.start.saturating_add(offset);
    if n >= range.end {
        return None;
    }
    match source {
        Some(doc) => match doc.line(n) {
            Some(text) => Some(
                PresentedCell {
                    patch_source: None,
                    source_line: Some(SourceLineRef { side, line_number: n }),
                    text,
                    tone: DiffTone::Context,
                },
            ),
            None => None,
        },
        None => None,
    }
}

fn append_expanded_row(
    rows: &mut Vec<PresentedRow>,
    file_index: usize,
    file: &FileDiff,
    gap: &GapInterval,
    layout: Layout,
    old_doc: Option<&Arc<SourceDocument>>,
    new_doc: Option<&Arc<SourceDocument>>,
    offset: usize,
)
    ensures
        row_views(final(rows)@) == row_views(old(rows)@) + expanded_row_view(
            file_index,
            *file,
            (gap.old, gap.new),
            layout,
            match old_doc {
                Some(d) => Some((**d)@),
                None => None,
            },
            match new_doc {
                Some(d) => Some((**d)@),
                None => None,
            },
            offset,
        ),
{
    let left = if layout == Layout::Split || file.status == FileStatus::Deleted {
        expanded_cell_exec(DiffSide::Old, &gap.old, old_doc, offset)
    } else {
        None
    };
    let right = if layout == Layout::Split || file.status != FileStatus::Deleted {
        expanded_cell_exec(DiffSide::New, &gap.new, new_doc, offset)
    } else {
        None
    };
    if left.is_none() && right.is_none() {
        proof {
            assert(row_views(rows@) =~= row_views(old(rows)@) + Seq::<RowView>::empty());
        }
        return;
    }
    let ln = match &left {
        Some(c) => c.line_number(),
        None => None,
    };
    let rn = match &right {
        Some(c) => c.line_number(),
        None => None,
    };
    let ghost prev = rows@;
    rows.push(
        PresentedRow {
            id: row_id(&file.path, "expanded-context", None, ln, rn),
            kind: RowKind::ExpandedContext,
            file_index,
            hunk_index: None,
            left,
            right,
        },
    );
    proof {
        assert(row_views(rows@) =~= row_views(prev).push(rows@.last()@));
    }
}

fn gap_unavailable(
    projection: &ContentProjection,
    path: &RepoPath,
    sides: &Vec<DiffSide>,
) -> (res: Option<SourceUnavailable>)
    ensures
        res == gap_unavailable_of(projection@, path@, sides@),
{
    let mut i: usize = 0;
    proof {
        assert(sides@.skip(0) =~= sides@);
    }
    while i < sides.len()
        invariant
            i <= sides@.len(),
            gap_unavailable_of(projection@, path@, sides@) == gap_unavailable_of(
                projection@,
                path@,
                sides@.skip(i as int),
            ),
        decreases sides@.len() - i,
    {
        let key = SourceKey::new(path.duplicate(), sides[i]);
        proof {
            assert(sides@.skip(i as int)[0] == sides@[i as int]);
            assert(sides@.skip(i as int).drop_first() =~= sides@.skip(i + 1));
        }
        match projection.source_result(&key) {
            Some(Ok(_)) => {},
            Some(Err(reason)) => {
                return Some(reason.duplicate());
            },
            None => {
                return Some(SourceUnavailable::Absent);
            },
        }
        i = i + 1;
    }
    proof {
        assert(sides@.skip(i as int).len() == 0);
    }
    None
}

fn required_sides_exec(layout: Layout, status: FileStatus) -> (res: Vec<DiffSide>)
    ensures
        res@ == required_sides(layout, status),
{
    if status == FileStatus::Deleted {
        vec![DiffSide::Old]
    } else if layout == Layout::Unified || status == FileStatus::Added || status
        == FileStatus::Untracked {
        vec![DiffSide::New]
    } else {
        vec![DiffSide::Old, DiffSide::New]
    }
}

fn append_expanded_rows(
    rows: &mut Vec<PresentedRow>,
    file_index: usize,
    file: &FileDiff,
    gap: &GapInterval,
    layout: Layout,
    old_doc: Option<&Arc<SourceDocument>>,
    new_doc: Option<&Arc<SourceDocument>>,
    from: usize,
    to: usize,
)
    ensures
        row_views(final(rows)@) == row_views(old(rows)@) + expanded_rows(
            file_index,
            *file,
            (gap.old, gap.new),
            layout,
            match old_doc {
                Some(d) => Some((**d)@),
                None => None,
            },
            match new_doc {
                Some(d) => Some((**d)@),
                None => None,
            },
            from as int,
            to as int,
        ),
{
    let ghost ov = match old_doc {
        Some(d) => Some((**d)@),
        None => None,
    };
    let ghost nv = match new_doc {
        Some(d) => Some((**d)@),
        None => None,
    };
    let ghost g = (gap.old, gap.new);
    let ghost start = row_views(rows@);
    let mut offset = from;
    while offset < to
        invariant
            from <= offset <= to || (to < from && offset == from),
            start == row_views(old(rows)@),
            g == (gap.old, gap.new),
            ov == match old_doc {
                Some(d) => Some((**d)@),
                None => None,
            },
            nv == match new_doc {
                Some(d) => Some((**d)@),
                None => None,
            },
            row_views(rows@) == start + expanded_rows(
                file_index,
                *file,
                g,
                layout,
                ov,
                nv,
                from as int,
                offset as int,
            ),
        decreases to - offset,
    {
        let ghost before = row_views(rows@);
        append_expanded_row(rows, file_index, file, gap, layout, old_doc, new_doc, offset);
        proof {
            assert(row_views(rows@) == before + expanded_row_view(file_index, *file, g, layout, ov, nv, offset));
            assert(expanded_rows(file_index, *file, g, layout, ov, nv, from as int, offset + 1)
                == expanded_rows(file_index, *file, g, layout, ov, nv, from as int, offset as int)
                + expanded_row_view(file_index, *file, g, layout, ov, nv, offset));
            assert(row_views(rows@) =~= start + expanded_rows(
                file_index,
                *file,
                g,
                layout,
                ov,
                nv,
                from as int,
                offset + 1,
            ));
        }
        offset = offset + 1;
    }
    proof {
        if to < from {
            assert(expanded_rows(file_index, *file, g, layout, ov, nv, from as int, to as int)
                =~= Seq::<RowView>::empty());
            assert(expanded_rows(file_index, *file, g, layout, ov, nv, from as int, from as int)
                =~= Seq::<RowView>::empty());
        }
    }
}

fn required_loaded(
    projection: &ContentProjection,
    file: &FileDiff,
    layout: Layout,
    has_old: bool,
    has_new: bool,
) -> (res: bool)
    requires
        has_old <==> source_text(projection@, file.path@, DiffSide::Old) is Some,
        has_new <==> source_text(projection@, file.path@, DiffSide::New) is Some,
    ensures
        res == sides_loaded(projection@, file.path@, required_sides(layout, file.status)),
{
    let sides = required_sides_exec(layout, file.status);
    let mut loaded = true;
    let mut k: usize = 0;
    while k < sides.len()
        invariant
            k <= sides@.len(),
            sides@ == required_sides(layout, file.status),
            has_old <==> source_text(projection@, file.path@, DiffSide::Old) is Some,
            has_new <==> source_text(projection@, file.path@, DiffSide::New) is Some,
            loaded == forall|j: int|
                0 <= j < k ==> source_text(projection@, file.path@, #[trigger] sides@[j]) is Some,
        decreases sides@.len() - k,
    {
        let present = match sides[k] {
            DiffSide::Old => has_old,
            DiffSide::New => has_new,
        };
        proof {
            if !present {
                assert(source_text(projection@, file.path@, sides@[k as int]) is None);
            }
        }
        loaded = loaded && present;
        k = k + 1;
    }
    loaded
}

fn gap_numbers_exec(gap: &GapInterval, expansion: GapExpansion, full_file: bool, loaded: bool) -> (res: (
    usize,
    usize,
    usize,
    usize,
    usize,
))
    ensures
        res == gap_numbers((gap.old, gap.new), expansion, full_file, loaded),
{
    let old_len = if gap.old.end >= gap.old.start {
        gap.old.end - gap.old.start
    } else {
        0
    };
    let new_len = if gap.new.end >= gap.new.start {
        gap.new.end - gap.new.start
    } else {
        0
    };
    let total = max_exec(old_len, new_len);
    let prefix = if full_file {
        total
    } else if expansion.revealed_prefix <= total {
        expansion.revealed_prefix
    } else {
        total
    };
    let rest = if total >= prefix {
        total - prefix
    } else {
        0
    };
    let suffix = if full_file {
        total
    } else if expansion.revealed_suffix <= rest {
        expansion.revealed_suffix
    } else {
        rest
    };
    let covered = prefix.saturating_add(suffix);
    let hidden = if loaded {
        if total >= covered {
            total - covered
        } else {
            0
        }
    } else {
        total
    };
    let start = max_exec(
        if total >= suffix {
            total - suffix
        } else {
            0
        },
        prefix,
    );
    (total, prefix, suffix, hidden, start)
}

fn append_gap_row(
    rows: &mut Vec<PresentedRow>,
    gap_info: &mut Vec<(usize, GapInfo)>,
    file_index: usize,
    gap_index: usize,
    file: &FileDiff,
    layout: Layout,
    projection: &ContentProjection,
    hidden: usize,
)
    ensures
        row_views(final(rows)@) == row_views(old(rows)@).push(
            gap_row_view(file_index, gap_index, file.path@),
        ),
        final(gap_info)@ == old(gap_info)@.push(
            (
                old(rows)@.len() as usize,
                GapInfo {
                    id: GapId { file_index, gap_index },
                    hidden_lines: hidden,
                    unavailable: gap_unavailable_of(
                        projection@,
                        file.path@,
                        required_sides(layout, file.status),
                    ),
                },
            ),
        ),
{
    let sides = required_sides_exec(layout, file.status);
    let unavailable = gap_unavailable(projection, &file.path, &sides);
    let row_index = rows.len();
    let ghost prev = rows@;
    rows.push(
        PresentedRow {
            id: row_id(&file.path, "expand-gap", Some(gap_index), None, None),
            kind: RowKind::ExpandGap,
            file_index,
            hunk_index: None,
            left: None,
            right: Some(meta_cell_exec("unchanged lines".to_owned())),
        },
    );
    proof {
        assert(row_views(rows@) =~= row_views(prev).push(
            gap_row_view(file_index, gap_index, file.path@),
        ));
    }
    gap_info.push((row_index, GapInfo { id: GapId { file_index, gap_index }, hidden_lines: hidden, unavailable }));
}

fn append_gap_projection(
    rows: &mut Vec<PresentedRow>,
    gap_info: &mut Vec<(usize, GapInfo)>,
    file_index: usize,
    gap_index: usize,
    file: &FileDiff,
    gap: &GapInterval,
    layout: Layout,
    projection: &ContentProjection,
)
    ensures
        ({
            let st = gap_step(
                PresState {
                    rows: row_views(old(rows)@),
                    gap_info: old(gap_info)@,
                    file_ranges: Seq::empty(),
                    hunk_ranges: Seq::empty(),
                },
                file_index,
                gap_index,
                *file,
                (gap.old, gap.new),
                layout,
                projection@,
            );
            row_views(final(rows)@) == st.rows && final(gap_info)@ == st.gap_info
        }),
{
    let id = GapId { file_index, gap_index };
    let expansion = projection.expansion(id);
    let full_file = projection.is_full_file(&file.path);
    if expansion.is_none() && !full_file {
        return;
    }
    let expansion = match expansion {
        Some(e) => e,
        None => GapExpansion { revealed_prefix: 0, revealed_suffix: 0 },
    };
    let old_key = SourceKey::new(file.path.duplicate(), DiffSide::Old);
    let new_key = SourceKey::new(file.path.duplicate(), DiffSide::New);
    let old_doc = projection.source(&old_key);
    let new_doc = projection.source(&new_key);
    proof {
        assert(key_view(old_key) == (file.path@, DiffSide::Old));
        assert(key_view(new_key) == (file.path@, DiffSide::New));
    }
    let loaded = required_loaded(projection, file, layout, old_doc.is_some(), new_doc.is_some());
    let (total, prefix, suffix, hidden, start) = gap_numbers_exec(gap, expansion, full_file, loaded);
    if loaded {
        append_expanded_rows(rows, file_index, file, gap, layout, old_doc, new_doc, 0, prefix);
    }
    if hidden != 0 || !loaded {
        append_gap_row(rows, gap_info, file_index, gap_index, file, layout, projection, hidden);
    }
    if loaded {
        append_expanded_rows(rows, file_index, file, gap, layout, old_doc, new_doc, start, total);
    }
}


// ---- the presentation ----
/// The text of the row standing for a file without hunks.
pub open spec fn placeholder_text(file: FileDiff) -> Seq<char> {
    match file.omitted_bytes {
        Some(b) => "File content omitted ("@ + decimal(b as nat) + " bytes)"@,
        None => if file.binary {
            "Binary file changed"@
        } else if file.mode is Some {
            "File mode changed"@
        } else {
            "Empty file changed"@
        },
    }
}

fn placeholder(file: &FileDiff) -> (res: String)
    ensures
        res@ == placeholder_text(*file),
{
    match file.omitted_bytes {
        Some(bytes) => {
            let mut out = chars_of("File content omitted (");
            push_decimal(&mut out, bytes);
            let tail = chars_of(" bytes)");
            push_all(&mut out, tail.as_slice());
            string_from_chars(out.as_slice())
        },
        None => if file.binary {
            "Binary file changed".to_owned()
        } else if file.mode.is_some() {
            "File mode changed".to_owned()
        } else {
            "Empty file changed".to_owned()
        },
    }
}

/// The header and code rows of a hunk.
pub open spec fn hunk_rows(file_index: usize, hunk_index: usize, file: FileDiff, layout: Layout) -> Seq<
    RowView,
> {
    let h = file.hunks@[hunk_index as int]@;
    seq![hunk_header_row_view(file_index, hunk_index, h.header, file.path@)] + if layout
        == Layout::Unified {
        unified_rows(file_index, hunk_index, file.path@, h.lines, h.lines.len() as int)
    } else {
        split_rows_from(file_index, hunk_index, file.path@, h.lines, 0)
    }
}

/// The state after the first `n` hunks of a file, each after its leading
/// gap, and the row ranges of those hunks.
pub open spec fn hunk_steps(
    st: PresState,
    file_index: usize,
    file: FileDiff,
    gaps: Seq<(Range<usize>, Range<usize>)>,
    layout: Layout,
    proj: ProjectionView,
    n: int,
) -> (PresState, Seq<Range<usize>>)
    decreases n,
{
    if n <= 0 {
        (st, Seq::empty())
    } else {
        let (s1, ranges) = hunk_steps(st, file_index, file, gaps, layout, proj, n - 1);
        let s2 = gap_step(s1, file_index, (n - 1) as usize, file, gaps[n - 1], layout, proj);
        let start = s2.rows.len();
        let rows = s2.rows + hunk_rows(file_index, (n - 1) as usize, file, layout);
        (
            PresState { rows, ..s2 },
            ranges.push(Range { start: start as usize, end: rows.len() as usize }),
        )
    }
}

/// The state after presenting one more file.
pub open spec fn file_step(
    st: PresState,
    file_index: usize,
    file: FileDiff,
    options: PresentationOptions,
    proj: ProjectionView,
) -> PresState {
    let layout = resolved(options.view_mode, options.split_when_auto);
    let file_start = st.rows.len();
    let s0 = if options.include_file_headers {
        PresState { rows: st.rows.push(header_row_view(file_index, file)), ..st }
    } else {
        st
    };
    let old_count = match source_text(proj, file.path@, DiffSide::Old) {
        Some(t) => line_count_of(t),
        None => 0,
    };
    let new_count = match source_text(proj, file.path@, DiffSide::New) {
        Some(t) => line_count_of(t),
        None => 0,
    };
    let gaps = file_gaps(file.hunks@, old_count, new_count);
    let n = file.hunks@.len() as int;
    let (s1, ranges) = hunk_steps(s0, file_index, file, gaps, layout, proj, n);
    let s2 = if n == 0 {
        if proj.full_files.contains(file.path@) {
            gap_step(s1, file_index, 0, file, gaps[0], layout, proj)
        } else {
            PresState {
                rows: s1.rows.push(
                    meta_row_view(
                        file_index,
                        None,
                        file.path@,
                        "placeholder"@,
                        None,
                        placeholder_text(file),
                    ),
                ),
                ..s1
            }
        }
    } else {
        gap_step(s1, file_index, n as usize, file, gaps[n], layout, proj)
    };
    PresState {
        file_ranges: s2.file_ranges.push(
            Range { start: file_start as usize, end: s2.rows.len() as usize },
        ),
        hunk_ranges: s2.hunk_ranges.push(ranges),
        ..s2
    }
}

/// The state after presenting the first `n` files.
pub open spec fn files_step(
    files: Seq<FileDiff>,
    options: PresentationOptions,
    proj: ProjectionView,
    n: int,
) -> PresState
    decreases n,
{
    if n <= 0 {
        PresState {
            rows: Seq::empty(),
            gap_info: Seq::empty(),
            file_ranges: Seq::empty(),
            hunk_ranges: Seq::empty(),
        }
    } else {
        file_step(files_step(files, options, proj, n - 1), (n - 1) as usize, files[n - 1], options, proj)
    }
}

/// The presentation of a whole document.
pub open spec fn presented(document: DiffDocument, options: PresentationOptions, proj: ProjectionView) -> PresState {
    files_step(document.files@, options, proj, document.files@.len() as int)
}

/// Eager row indexes and cheap descriptors. Syntax and frontend widgets are
/// not constructed here.
#[derive(Debug)]
pub struct DiffPresentation {
    document: Arc<DiffDocument>,
    layout: Layout,
    rows: Vec<PresentedRow>,
    gap_info: Vec<(usize, GapInfo)>,
    sources: Vec<(SourceKey, SourceResult)>,
    file_ranges: Vec<Range<usize>>,
    hunk_ranges: Vec<Vec<Range<usize>>>,
}

/// The mathematical content of a presentation.
pub struct PresentationView {
    pub document: DiffDocument,
    pub layout: Layout,
    pub rows: Seq<RowView>,
    pub gap_info: Seq<(usize, GapInfo)>,
    pub sources: Seq<((Seq<char>, DiffSide), SourceResult)>,
    pub file_ranges: Seq<Range<usize>>,
    pub hunk_ranges: Seq<Seq<Range<usize>>>,
}

pub open spec fn range_lists(v: Seq<Vec<Range<usize>>>) -> Seq<Seq<Range<usize>>> {
    v.map_values(|r: Vec<Range<usize>>| r@)
}

impl View for DiffPresentation {
    type V = PresentationView;

    closed spec fn view(&self) -> PresentationView {
        PresentationView {
            document: *self.document,
            layout: self.layout,
            rows: row_views(self.rows@),
            gap_info: self.gap_info@,
            sources: source_entries(self.sources@),
            file_ranges: self.file_ranges@,
            hunk_ranges: range_lists(self.hunk_ranges@),
        }
    }
}

fn duplicate_sources(entries: &Vec<(SourceKey, SourceResult)>) -> (res: Vec<(SourceKey, SourceResult)>)
    ensures
        source_entries(res@) == source_entries(entries@),
{
    let mut out: Vec<(SourceKey, SourceResult)> = Vec::new();
    let mut i: usize = 0;
    while i < entries.len()
        invariant
            i <= entries@.len(),
            out@.len() == i,
            source_entries(out@) == source_entries(entries@).take(i as int),
        decreases entries@.len() - i,
    {
        let (key, source) = (&entries[i].0, &entries[i].1);
        let ghost prev = out@;
        out.push((SourceKey::new(key.review_path.duplicate(), key.side), crate::file_diff::duplicate_source(source)));
        proof {
            assert forall|k: int| 0 <= k < i + 1 implies #[trigger] source_entries(out@)[k]
                == source_entries(entries@).take(i + 1)[k] by {
                if k < i {
                    assert(out@[k] == prev[k]);
                    assert(source_entries(prev)[k] == source_entries(entries@).take(i as int)[k]);
                }
            }
            assert(source_entries(out@) =~= source_entries(entries@).take(i + 1));
        }
        i = i + 1;
    }
    proof {
        assert(source_entries(entries@).take(i as int) =~= source_entries(entries@));
    }
    out
}

fn append_hunk(
    rows: &mut Vec<PresentedRow>,
    file_index: usize,
    hunk_index: usize,
    file: &FileDiff,
    layout: Layout,
)
    requires
        hunk_index < file.hunks@.len(),
    ensures
        row_views(final(rows)@) == row_views(old(rows)@) + hunk_rows(file_index, hunk_index, *file, layout),
{
    let ghost start = row_views(rows@);
    rows.push(hunk_header_row(file_index, hunk_index, &file.hunks[hunk_index], &file.path));
    let ghost mid = row_views(rows@);
    proof {
        assert(mid =~= start.push(
            hunk_header_row_view(file_index, hunk_index, file.hunks@[hunk_index as int]@.header, file.path@),
        ));
    }
    match layout {
        Layout::Unified => append_unified_rows(rows, file_index, hunk_index, file),
        Layout::Split => append_split_rows(rows, file_index, hunk_index, file),
    }
    proof {
        assert(row_views(rows@) =~= start + hunk_rows(file_index, hunk_index, *file, layout));
    }
}

pub open spec fn state_of(
    rows: Seq<PresentedRow>,
    gap_info: Seq<(usize, GapInfo)>,
    file_ranges: Seq<Range<usize>>,
    hunk_ranges: Seq<Vec<Range<usize>>>,
) -> PresState {
    PresState {
        rows: row_views(rows),
        gap_info,
        file_ranges,
        hunk_ranges: range_lists(hunk_ranges),
    }
}

#[verifier::spinoff_prover]
#[verifier::rlimit(50)]
fn append_file(
    rows: &mut Vec<PresentedRow>,
    gap_info: &mut Vec<(usize, GapInfo)>,
    file_ranges: &mut Vec<Range<usize>>,
    hunk_ranges: &mut Vec<Vec<Range<usize>>>,
    file_index: usize,
    file: &FileDiff,
    options: PresentationOptions,
    projection: &ContentProjection,
)
    ensures
        state_of(final(rows)@, final(gap_info)@, final(file_ranges)@, final(hunk_ranges)@)
            == file_step(
            state_of(old(rows)@, old(gap_info)@, old(file_ranges)@, old(hunk_ranges)@),
            file_index,
            *file,
            options,
            projection@,
        ),
{
    let layout = options.layout();
    let ghost st = state_of(rows@, gap_info@, file_ranges@, hunk_ranges@);
    let file_start = rows.len();
    if options.include_file_headers {
        rows.push(header_row(file_index, file));
        proof {
            assert(row_views(rows@) =~= st.rows.push(header_row_view(file_index, *file)));
        }
    }
    let ghost s0 = state_of(rows@, gap_info@, file_ranges@, hunk_ranges@);
    let old_key = SourceKey::new(file.path.duplicate(), DiffSide::Old);
    let new_key = SourceKey::new(file.path.duplicate(), DiffSide::New);
    proof {
        assert(key_view(old_key) == (file.path@, DiffSide::Old));
        assert(key_view(new_key) == (file.path@, DiffSide::New));
    }
    let old_count = match projection.source(&old_key) {
        Some(doc) => doc.line_count(),
        None => 0,
    };
    let new_count = match projection.source(&new_key) {
        Some(doc) => doc.line_count(),
        None => 0,
    };
    let gaps = gaps_for_file(file, old_count, new_count);
    let ghost gv = file_gaps(file.hunks@, old_count, new_count);
    proof {
        assert(gv.len() == file.hunks@.len() + 1) by {
            if file.hunks@.len() > 0 {
                lemma_gap_walk_len(file.hunks@, file.hunks@.len() as int);
            }
        }
    }
    let mut file_hunks: Vec<Range<usize>> = Vec::new();
    let mut h: usize = 0;
    while h < file.hunks.len()
        invariant
            h <= file.hunks@.len(),
            gap_pairs(gaps@) == gv,
            gv.len() == file.hunks@.len() + 1,
            layout == resolved(options.view_mode, options.split_when_auto),
            file_ranges@ == s0.file_ranges,
            range_lists(hunk_ranges@) == s0.hunk_ranges,
            (state_of(rows@, gap_info@, file_ranges@, hunk_ranges@), file_hunks@) == hunk_steps(
                s0,
                file_index,
                *file,
                gv,
                layout,
                projection@,
                h as int,
            ),
        decreases file.hunks@.len() - h,
    {
        proof {
            assert(gap_pairs(gaps@)[h as int] == (gaps@[h as int].old, gaps@[h as int].new));
        }
        append_gap_projection(rows, gap_info, file_index, h, file, &gaps[h], layout, projection);
        let hunk_start = rows.len();
        append_hunk(rows, file_index, h, file, layout);
        file_hunks.push(Range { start: hunk_start, end: rows.len() });
        proof {
            assert(state_of(rows@, gap_info@, file_ranges@, hunk_ranges@).rows == row_views(rows@));
        }
        h = h + 1;
    }
    let n = file.hunks.len();
    if n == 0 {
        if projection.is_full_file(&file.path) {
            proof {
                assert(gap_pairs(gaps@)[0] == (gaps@[0].old, gaps@[0].new));
            }
            append_gap_projection(rows, gap_info, file_index, 0, file, &gaps[0], layout, projection);
        } else {
            let ghost prev = rows@;
            rows.push(meta_row(file_index, None, &file.path, "placeholder", None, placeholder(file)));
            proof {
                assert(row_views(rows@) =~= row_views(prev).push(
                    meta_row_view(
                        file_index,
                        None,
                        file.path@,
                        "placeholder"@,
                        None,
                        placeholder_text(*file),
                    ),
                ));
            }
        }
    } else {
        proof {
            assert(gap_pairs(gaps@)[n as int] == (gaps@[n as int].old, gaps@[n as int].new));
        }
        append_gap_projection(rows, gap_info, file_index, n, file, &gaps[n], layout, projection);
    }
    file_ranges.push(Range { start: file_start, end: rows.len() });
    let ghost before_push = hunk_ranges@;
    hunk_ranges.push(file_hunks);
    proof {
        assert(range_lists(hunk_ranges@) =~= range_lists(before_push).push(file_hunks@));
    }
}

proof fn lemma_gap_walk_len(hunks: Seq<Hunk>, n: int)
    requires
        0 <= n,
    ensures
        gap_walk(hunks, n).0.len() == n,
    decreases n,
{
    if n > 0 {
        lemma_gap_walk_len(hunks, n - 1);
    }
}

impl DiffPresentation {
    /// Indexes a document once for row lookup and slicing, with no sources.
    pub fn new(document: Arc<DiffDocument>, options: PresentationOptions) -> (res: DiffPresentation)
        ensures
            res@.document == *document,
            res@.layout == resolved(options.view_mode, options.split_when_auto),
            ({
                let st = presented(
                    *document,
                    options,
                    ProjectionView {
                        sources: Seq::empty(),
                        expansions: Seq::empty(),
                        full_files: Seq::empty(),
                    },
                );
                &&& res@.rows == st.rows
                &&& res@.gap_info == st.gap_info
                &&& res@.file_ranges == st.file_ranges
                &&& res@.hunk_ranges == st.hunk_ranges
            }),
            res@.sources == Seq::<((Seq<char>, DiffSide), SourceResult)>::empty(),
    {
        let projection = ContentProjection::default();
        proof {
            assert(projection@ == ProjectionView {
                sources: Seq::empty(),
                expansions: Seq::empty(),
                full_files: Seq::empty(),
            });
        }
        DiffPresentation::with_sources(document, options, &projection)
    }

    /// Builds a windowed projection over optional immutable complete-file
    /// sources: per file, its header, then each hunk after its leading gap,
    /// then the trailing gap (or a placeholder for a file without hunks).
    pub fn with_sources(
        document: Arc<DiffDocument>,
        options: PresentationOptions,
        projection: &ContentProjection,
    ) -> (res: DiffPresentation)
        ensures
            res@.document == *document,
            res@.layout == resolved(options.view_mode, options.split_when_auto),
            res@.rows == presented(*document, options, projection@).rows,
            res@.gap_info == presented(*document, options, projection@).gap_info,
            res@.file_ranges == presented(*document, options, projection@).file_ranges,
            res@.hunk_ranges == presented(*document, options, projection@).hunk_ranges,
            res@.sources == projection@.sources,
    {
        let layout = options.layout();
        let mut rows: Vec<PresentedRow> = Vec::new();
        let mut gap_info: Vec<(usize, GapInfo)> = Vec::new();
        let mut file_ranges: Vec<Range<usize>> = Vec::new();
        let mut hunk_ranges: Vec<Vec<Range<usize>>> = Vec::new();
        let files = &document.files;
        proof {
            assert(row_views(rows@) =~= Seq::<RowView>::empty());
            assert(range_lists(hunk_ranges@) =~= Seq::<Seq<Range<usize>>>::empty());
            assert(state_of(rows@, gap_info@, file_ranges@, hunk_ranges@) == files_step(
                files@,
                options,
                projection@,
                0,
            ));
        }
        let mut f: usize = 0;
        while f < files.len()
            invariant
                f <= files@.len(),
                state_of(rows@, gap_info@, file_ranges@, hunk_ranges@) == files_step(
                    files@,
                    options,
                    projection@,
                    f as int,
                ),
            decreases files@.len() - f,
        {
            append_file(
                &mut rows,
                &mut gap_info,
                &mut file_ranges,
                &mut hunk_ranges,
                f,
                &files[f],
                options,
                projection,
            );
            f = f + 1;
        }
        let sources = duplicate_sources(&projection.sources);
        DiffPresentation { document, layout, rows, gap_info, sources, file_ranges, hunk_ranges }
    }
}


// ---- random access ----
pub open spec fn nav_at(rows: Seq<RowView>, i: int) -> bool {
    0 <= i < rows.len() && row_is_navigable(rows[i])
}

/// The first navigable row in `start..end`.
pub open spec fn first_navigable_in(rows: Seq<RowView>, start: int, end: int) -> Option<usize>
    decreases end - start,
{
    if start >= end {
        None
    } else if nav_at(rows, start) {
        Some(start as usize)
    } else {
        first_navigable_in(rows, start + 1, end)
    }
}

/// The last navigable row in `start..end`.
pub open spec fn last_navigable_in(rows: Seq<RowView>, start: int, end: int) -> Option<usize>
    decreases end - start,
{
    if start >= end {
        None
    } else if nav_at(rows, end - 1) {
        Some((end - 1) as usize)
    } else {
        last_navigable_in(rows, start, end - 1)
    }
}

/// Whether a row shows a patch cell on `side` at line `n` of file `f`.
pub open spec fn shows_patch_line(r: RowView, f: usize, side: DiffSide, n: usize) -> bool {
    r.file_index == f && exists|i: int|
        0 <= i < row_cells(r).len() && ((#[trigger] row_cells(r)[i]).patch_source matches Some(s)
            && s.side == side && cell_line_number(row_cells(r)[i]) == Some(n))
}

/// Whether a row shows source line `n` of `side` of file `f`.
pub open spec fn shows_source_line(r: RowView, f: usize, side: DiffSide, n: usize) -> bool {
    r.file_index == f && exists|i: int|
        0 <= i < row_cells(r).len() && (#[trigger] row_cells(r)[i]).source_line == Some(
            SourceLineRef { side, line_number: n },
        )
}

/// The last row showing a patch line.
pub open spec fn last_patch_row(rows: Seq<RowView>, f: usize, side: DiffSide, n: usize) -> Option<usize>
    decreases rows.len(),
{
    if rows.len() == 0 {
        None
    } else if shows_patch_line(rows.last(), f, side, n) {
        Some((rows.len() - 1) as usize)
    } else {
        last_patch_row(rows.drop_last(), f, side, n)
    }
}

/// The last row showing a source line.
pub open spec fn last_source_row(rows: Seq<RowView>, f: usize, side: DiffSide, n: usize) -> Option<usize>
    decreases rows.len(),
{
    if rows.len() == 0 {
        None
    } else if shows_source_line(rows.last(), f, side, n) {
        Some((rows.len() - 1) as usize)
    } else {
        last_source_row(rows.drop_last(), f, side, n)
    }
}

/// The index of the first file at `path`.
pub open spec fn file_at(files: Seq<FileDiff>, path: Seq<char>) -> Option<usize> {
    if exists|i: int| 0 <= i < files.len() && files[i].path@ == path {
        Some(
            (choose|i: int|
                0 <= i < files.len() && files[i].path@ == path && forall|k: int|
                    0 <= k < i ==> files[k].path@ != path) as usize,
        )
    } else {
        None
    }
}

proof fn lemma_file_at(files: Seq<FileDiff>, path: Seq<char>, i: int)
    requires
        0 <= i < files.len(),
        files[i].path@ == path,
        forall|k: int| 0 <= k < i ==> files[k].path@ != path,
    ensures
        file_at(files, path) == Some(i as usize),
{
    let j = choose|j: int|
        0 <= j < files.len() && files[j].path@ == path && forall|k: int|
            0 <= k < j ==> files[k].path@ != path;
    assert(0 <= j < files.len() && files[j].path@ == path);
    if j < i {
        assert(files[j].path@ != path);
    } else if j > i {
        assert(files[i].path@ != path);
    }
}

fn find_file(document: &DiffDocument, path: &RepoPath) -> (res: Option<usize>)
    ensures
        res == file_at(document.files@, path@),
{
    let r = document.file_index(path);
    proof {
        match r {
            Some(i) => lemma_file_at(document.files@, path@, i as int),
            None => {},
        }
    }
    r
}

/// The content-derived identity of a hunk's lines on a side.
pub open spec fn side_texts(lines: Seq<PatchLineView>, side: DiffSide) -> Seq<Seq<char>> {
    lines.filter(|l: PatchLineView| view_number(l, side) is Some).map_values(
        |l: PatchLineView| l.text,
    )
}

pub open spec fn view_number(l: PatchLineView, side: DiffSide) -> Option<usize> {
    match side {
        DiffSide::Old => l.old_line_no,
        DiffSide::New => l.new_line_no,
    }
}

/// The lines of a hunk on a side, as character vectors.
fn side_line_chars(lines: &Vec<PatchLine>, side: DiffSide, end: usize) -> (res: Vec<Vec<char>>)
    requires
        end <= lines@.len(),
    ensures
        crate::content::char_line_views(res@) == side_texts(
            lines@.map_values(|l: PatchLine| l@).take(end as int),
            side,
        ),
{
    let ghost lv = lines@.map_values(|l: PatchLine| l@);
    let ghost keep = |l: PatchLineView| view_number(l, side) is Some;
    let mut out: Vec<Vec<char>> = Vec::new();
    let mut i: usize = 0;
    while i < end
        invariant
            i <= end <= lines@.len(),
            lv == lines@.map_values(|l: PatchLine| l@),
            keep == (|l: PatchLineView| view_number(l, side) is Some),
            crate::content::char_line_views(out@) == lv.take(i as int).filter(keep).map_values(
                |l: PatchLineView| l.text,
            ),
        decreases end - i,
    {
        proof {
            assert(lv.take(i + 1).drop_last() =~= lv.take(i as int));
            assert(lv.take(i + 1).last() == lines@[i as int]@);
            reveal(Seq::filter);
        }
        if lines[i].line_number(side).is_some() {
            let ghost prev = out@;
            out.push(crate::text::chars_of(lines[i].text.as_str()));
            proof {
                let before = lv.take(i as int).filter(keep);
                assert(lv.take(i + 1).filter(keep) == before.push(lv[i as int]));
                assert(crate::content::char_line_views(out@) =~= crate::content::char_line_views(prev).push(lv[i as int].text)) by {
                    assert forall|k: int| 0 <= k < prev.len() implies #[trigger] out@[k] == prev[k] by {}
                }
                assert(crate::content::char_line_views(out@) =~= before.push(lv[i as int]).map_values(
                    |l: PatchLineView| l.text,
                ));
            }
        } else {
            proof {
                assert(lv.take(i + 1).filter(keep) == lv.take(i as int).filter(keep));
            }
        }
        i = i + 1;
    }
    out
}

/// Renderer-neutral description of the hunk-side line sequence containing a
/// patch cell, used to keep multiline syntax context for patch-only files.
pub struct HunkSequence<'a> {
    /// Content-derived, snapshot-local cache identity for this side's lines.
    pub id: SourceSequenceId,
    /// Side-specific repository path usable as a syntax language hint.
    pub path: &'a str,
    /// Zero-based index of the cell's line among this side's lines.
    pub target_line: usize,
    pub hunk: &'a Hunk,
    pub side: DiffSide,
}

impl<'a> HunkSequence<'a> {
    /// This side's hunk lines in source order.
    pub fn lines(&self) -> (res: Vec<&'a str>)
        ensures
            res@.map_values(|t: &str| t@) == side_texts(self.hunk@.lines, self.side),
    {
        let lines = &self.hunk.lines;
        let ghost lv = lines@.map_values(|l: PatchLine| l@);
        let ghost keep = |l: PatchLineView| view_number(l, self.side) is Some;
        let mut out: Vec<&'a str> = Vec::new();
        let mut i: usize = 0;
        while i < lines.len()
            invariant
                i <= lines@.len(),
                *lines == self.hunk.lines,
                lv == lines@.map_values(|l: PatchLine| l@),
                keep == (|l: PatchLineView| view_number(l, self.side) is Some),
                out@.map_values(|t: &str| t@) == lv.take(i as int).filter(keep).map_values(
                    |l: PatchLineView| l.text,
                ),
            decreases lines@.len() - i,
        {
            proof {
                assert(lv.take(i + 1).drop_last() =~= lv.take(i as int));
                assert(lv.take(i + 1).last() == lines@[i as int]@);
                reveal(Seq::filter);
            }
            if lines[i].line_number(self.side).is_some() {
                let ghost prev = out@;
                out.push(lines[i].text.as_str());
                proof {
                    let before = lv.take(i as int).filter(keep);
                    assert(lv.take(i + 1).filter(keep) == before.push(lv[i as int]));
                    assert(out@.map_values(|t: &str| t@) =~= prev.map_values(|t: &str| t@).push(lv[i as int].text)) by {
                        assert forall|k: int| 0 <= k < prev.len() implies #[trigger] out@[k] == prev[k] by {}
                    }
                    assert(out@.map_values(|t: &str| t@) =~= before.push(lv[i as int]).map_values(
                        |l: PatchLineView| l.text,
                    ));
                }
            } else {
                proof {
                    assert(lv.take(i + 1).filter(keep) == lv.take(i as int).filter(keep));
                }
            }
            i = i + 1;
        }
        proof {
            assert(lv.take(i as int) =~= lv);
        }
        out
    }
}

/// The identity of the sequence of a hunk's lines on a side.
pub fn hunk_side_sequence_id(lines: &Vec<PatchLine>, side: DiffSide) -> (res: SourceSequenceId)
    ensures
        res.fingerprint.bytes@ == blake3_digest(
            encode_fields(
                crate::content::sequence_fields(
                    side_texts(lines@.map_values(|l: PatchLine| l@), side),
                ),
            ),
        ),
{
    let texts = side_line_chars(lines, side, lines.len());
    proof {
        assert(lines@.map_values(|l: PatchLine| l@).take(lines@.len() as int)
            =~= lines@.map_values(|l: PatchLine| l@));
    }
    SourceSequenceId::from_lines(&texts)
}

impl DiffPresentation {
    /// Returns the retained immutable snapshot.
    pub fn document(&self) -> (res: &Arc<DiffDocument>)
        ensures
            **res == self@.document,
    {
        &self.document
    }

    pub fn layout(&self) -> (res: Layout)
        ensures
            res == self@.layout,
    {
        self.layout
    }

    /// Total number of rows.
    pub fn row_count(&self) -> (res: usize)
        ensures
            res == self@.rows.len(),
    {
        self.rows.len()
    }

    /// Returns one row.
    pub fn row(&self, index: usize) -> (res: Option<&PresentedRow>)
        ensures
            match res {
                Some(r) => index < self@.rows.len() && r@ == self@.rows[index as int],
                None => index >= self@.rows.len(),
            },
    {
        if index < self.rows.len() {
            Some(&self.rows[index])
        } else {
            None
        }
    }

    /// Returns the rows of a range clamped to the presentation.
    pub fn rows(&self, range: Range<usize>) -> (res: &[PresentedRow])
        ensures
            ({
                let n = self@.rows.len() as int;
                let start = if range.start <= n {
                    range.start as int
                } else {
                    n
                };
                let end = if range.end >= start {
                    if range.end <= n {
                        range.end as int
                    } else {
                        n
                    }
                } else {
                    start
                };
                row_views(res@) == self@.rows.subrange(start, end)
            }),
    {
        let n = self.rows.len();
        let start = if range.start <= n {
            range.start
        } else {
            n
        };
        let end = if range.end >= start {
            if range.end <= n {
                range.end
            } else {
                n
            }
        } else {
            start
        };
        let slice = vstd::slice::slice_subrange(self.rows.as_slice(), start, end);
        proof {
            assert(row_views(slice@) =~= row_views(self.rows@).subrange(start as int, end as int));
        }
        slice
    }

    /// Returns the row range occupied by a file.
    pub fn file_range(&self, file_index: usize) -> (res: Option<Range<usize>>)
        ensures
            match res {
                Some(r) => file_index < self@.file_ranges.len() && r == self@.file_ranges[file_index as int],
                None => file_index >= self@.file_ranges.len(),
            },
    {
        if file_index < self.file_ranges.len() {
            let r = &self.file_ranges[file_index];
            Some(Range { start: r.start, end: r.end })
        } else {
            None
        }
    }

    /// Returns the row range occupied by a hunk, including its header.
    pub fn hunk_range(&self, file_index: usize, hunk_index: usize) -> (res: Option<Range<usize>>)
        ensures
            match res {
                Some(r) => file_index < self@.hunk_ranges.len() && hunk_index
                    < self@.hunk_ranges[file_index as int].len() && r
                    == self@.hunk_ranges[file_index as int][hunk_index as int],
                None => file_index >= self@.hunk_ranges.len() || hunk_index
                    >= self@.hunk_ranges[file_index as int].len(),
            },
    {
        if file_index < self.hunk_ranges.len() && hunk_index < self.hunk_ranges[file_index].len() {
            let r = &self.hunk_ranges[file_index][hunk_index];
            Some(Range { start: r.start, end: r.end })
        } else {
            None
        }
    }

    /// The anchor of a patch cell, from the document it presents.
    pub fn cell_anchor(&self, row: &PresentedRow, cell: &PresentedCell) -> (res: Option<LineAnchor>)
        ensures
            anchor_opt(res) == cell_anchor_of(self@.document, row.file_index, cell@),
    {
        let source = match cell.patch_source {
            Some(s) => s,
            None => return None,
        };
        if row.file_index >= self.document.files.len() {
            return None;
        }
        let file = &self.document.files[row.file_index];
        LineAnchor::for_line(file, source.side, source.hunk_index, source.line_index)
    }

    /// The anchor of a row's cell on a side (or its primary cell).
    pub fn anchor_at(&self, row_index: usize, side: DiffSide) -> (res: Option<LineAnchor>)
        ensures
            anchor_opt(res) == if row_index < self@.rows.len() {
                let r = self@.rows[row_index as int];
                match preferred_of(r, side) {
                    Some(c) => cell_anchor_of(self@.document, r.file_index, c),
                    None => None,
                }
            } else {
                None
            },
    {
        let row = match self.row(row_index) {
            Some(r) => r,
            None => return None,
        };
        match row.preferred_cell(side) {
            Some(cell) => self.cell_anchor(row, cell),
            None => None,
        }
    }

    /// The complete source document a cell's line belongs to.
    pub fn source_document(&self, row: &PresentedRow, cell: &PresentedCell) -> (res: Option<&SourceDocument>)
        ensures
            match (cell.source_line, res) {
                (Some(l), Some(doc)) => row.file_index < self@.document.files@.len() && lookup(
                    self@.sources,
                    (self@.document.files@[row.file_index as int].path@, l.side),
                ) == Some(Ok::<Arc<SourceDocument>, SourceUnavailable>(Arc::new(*doc))),
                (Some(l), None) => row.file_index >= self@.document.files@.len() || !(lookup(
                    self@.sources,
                    (self@.document.files@[row.file_index as int].path@, l.side),
                ) matches Some(Ok(_))),
                (None, r) => r is None,
            },
    {
        let source = match cell.source_line {
            Some(s) => s,
            None => return None,
        };
        if row.file_index >= self.document.files.len() {
            return None;
        }
        let file = &self.document.files[row.file_index];
        let key = SourceKey::new(file.path.duplicate(), source.side);
        match find_source(&self.sources, &key) {
            Some(i) => {
                proof {
                    lemma_find_key(source_entries(self.sources@), key_view(key));
                    assert(source_entries(self.sources@)[i as int].1 == self.sources@[i as int].1);
                }
                match &self.sources[i].1 {
                    Ok(doc) => Some(&**doc),
                    Err(_) => None,
                }
            },
            None => None,
        }
    }

    /// The side-specific repository path of a cell's source line.
    pub fn source_path(&self, row: &PresentedRow, cell: &PresentedCell) -> (res: Option<&str>)
        ensures
            match (cell.source_line, res) {
                (Some(l), Some(p)) => row.file_index < self@.document.files@.len() && p@
                    == self@.document.files@[row.file_index as int].spec_path_for_side(l.side)@,
                (Some(l), None) => row.file_index >= self@.document.files@.len(),
                (None, r) => r is None,
            },
    {
        let source = match cell.source_line {
            Some(s) => s,
            None => return None,
        };
        if row.file_index >= self.document.files.len() {
            return None;
        }
        Some(self.document.files[row.file_index].path_for_side(source.side).as_str())
    }

    /// Describes the hunk-side line sequence containing a patch cell so
    /// hosts can keep multiline syntax context when no complete source
    /// exists; none for hunks over `MAX_HUNK_SEQUENCE_LINES` lines.
    pub fn hunk_sequence<'a>(&'a self, row: &PresentedRow, cell: &PresentedCell) -> (res: Option<
        HunkSequence<'a>,
    >)
        ensures
            match (cell.patch_source, res) {
                (Some(s), Some(seq)) => {
                    let files = self@.document.files@;
                    &&& row.file_index < files.len()
                    &&& s.hunk_index < files[row.file_index as int].hunks@.len()
                    &&& *seq.hunk == files[row.file_index as int].hunks@[s.hunk_index as int]
                    &&& seq.hunk.lines@.len() <= MAX_HUNK_SEQUENCE_LINES
                    &&& s.line_index < seq.hunk.lines@.len()
                    &&& seq.side == s.side
                    &&& seq.path@ == files[row.file_index as int].spec_path_for_side(s.side)@
                    &&& seq.target_line == side_texts(seq.hunk@.lines.take(s.line_index as int), s.side).len()
                    &&& seq.id.fingerprint.bytes@ == blake3_digest(
                        encode_fields(crate::content::sequence_fields(side_texts(seq.hunk@.lines, s.side))),
                    )
                },
                (Some(s), None) => {
                    let files = self@.document.files@;
                    row.file_index >= files.len() || s.hunk_index
                        >= files[row.file_index as int].hunks@.len()
                        || files[row.file_index as int].hunks@[s.hunk_index as int].lines@.len()
                        > MAX_HUNK_SEQUENCE_LINES || s.line_index
                        >= files[row.file_index as int].hunks@[s.hunk_index as int].lines@.len()
                },
                (None, r) => r is None,
            },
    {
        let source = match cell.patch_source {
            Some(s) => s,
            None => return None,
        };
        if row.file_index >= self.document.files.len() {
            return None;
        }
        let file = &self.document.files[row.file_index];
        if source.hunk_index >= file.hunks.len() {
            return None;
        }
        let hunk = &file.hunks[source.hunk_index];
        if hunk.lines.len() > MAX_HUNK_SEQUENCE_LINES || source.line_index >= hunk.lines.len() {
            return None;
        }
        let before = side_line_chars(&hunk.lines, source.side, source.line_index);
        let id = hunk_side_sequence_id(&hunk.lines, source.side);
        proof {
            assert(crate::content::char_line_views(before@).len() == before@.len());
        }
        Some(
            HunkSequence {
                id,
                path: file.path_for_side(source.side).as_str(),
                target_line: before.len(),
                hunk,
                side: source.side,
            },
        )
    }

    /// The language hint of the file a row belongs to, empty for no row.
    pub fn language_at(&self, row_index: usize) -> (res: String)
        ensures
            match (if row_index < self@.rows.len() {
                Some(self@.rows[row_index as int])
            } else {
                None
            }) {
                Some(r) => if r.file_index < self@.document.files@.len() {
                    res@ == crate::file_diff::language_of(self@.document.files@[r.file_index as int].path@)
                } else {
                    res@ == Seq::<char>::empty()
                },
                None => res@ == Seq::<char>::empty(),
            },
    {
        match self.row(row_index) {
            Some(row) => self.language_at_row(row),
            None => String::new(),
        }
    }

    /// Repository path of the file a row belongs to, usable as a language
    /// hint; empty where the row has no file.
    pub fn row_path(&self, row: &PresentedRow) -> (res: &str)
        ensures
            if row.file_index < self@.document.files@.len() {
                res@ == self@.document.files@[row.file_index as int].path@
            } else {
                res@ == Seq::<char>::empty()
            },
    {
        if row.file_index < self.document.files.len() {
            self.document.files[row.file_index].path.as_str()
        } else {
            proof {
                reveal_strlit("");
            }
            ""
        }
    }

    fn language_at_row(&self, row: &PresentedRow) -> (res: String)
        ensures
            if row.file_index < self@.document.files@.len() {
                res@ == crate::file_diff::language_of(self@.document.files@[row.file_index as int].path@)
            } else {
                res@ == Seq::<char>::empty()
            },
    {
        if row.file_index < self.document.files.len() {
            self.document.files[row.file_index].language()
        } else {
            String::new()
        }
    }

    /// The last row showing an anchor's patch line, in its file.
    pub fn row_showing_anchor(&self, anchor: &LineAnchor) -> (res: Option<usize>)
        ensures
            match (file_at(self@.document.files@, anchor.path@), anchor@.view_number()) {
                (Some(f), Some(n)) => res == last_patch_row(self@.rows, f, anchor.side, n),
                _ => res is None,
            },
    {
        let file_index = match find_file(&self.document, &anchor.path) {
            Some(f) => f,
            None => return None,
        };
        let n = match anchor.line_number() {
            Some(n) => n,
            None => return None,
        };
        let ghost rv = row_views(self.rows@);
        let mut i = self.rows.len();
        proof {
            assert(rv.take(i as int) =~= rv);
        }
        while i > 0
            invariant
                i <= rv.len(),
                rv == row_views(self.rows@),
                last_patch_row(rv, file_index, anchor.side, n) == last_patch_row(rv.take(i as int), file_index, anchor.side, n),
                file_at(self@.document.files@, anchor.path@) == Some(file_index),
                anchor@.view_number() == Some(n),
            decreases i,
        {
            let row = &self.rows[i - 1];
            proof {
                assert(rv.take(i as int).drop_last() =~= rv.take(i - 1));
                assert(rv.take(i as int).last() == row@);
            }
            if row.file_index == file_index && row_has_patch_line(row, anchor.side, n) {
                return Some(i - 1);
            }
            i = i - 1;
        }
        None
    }

    /// The location of a cell's source line.
    pub fn source_location(&self, row: &PresentedRow, cell: &PresentedCell) -> (res: Option<SourceLocation>)
        ensures
            match (cell.source_line, res) {
                (Some(l), Some(loc)) => row.file_index < self@.document.files@.len() && loc.path
                    == self@.document.files@[row.file_index as int].path && loc.side == l.side
                    && loc.line_number == l.line_number,
                (Some(l), None) => row.file_index >= self@.document.files@.len(),
                (None, r) => r is None,
            },
    {
        let source = match cell.source_line {
            Some(s) => s,
            None => return None,
        };
        if row.file_index >= self.document.files.len() {
            return None;
        }
        Some(
            SourceLocation {
                path: self.document.files[row.file_index].path.duplicate(),
                side: source.side,
                line_number: source.line_number,
            },
        )
    }

    /// The last row showing a source location, in its file.
    pub fn row_showing_source(&self, location: &SourceLocation) -> (res: Option<usize>)
        ensures
            match file_at(self@.document.files@, location.path@) {
                Some(f) => res == last_source_row(self@.rows, f, location.side, location.line_number),
                None => res is None,
            },
    {
        let file_index = match find_file(&self.document, &location.path) {
            Some(f) => f,
            None => return None,
        };
        let ghost rv = row_views(self.rows@);
        let mut i = self.rows.len();
        proof {
            assert(rv.take(i as int) =~= rv);
        }
        while i > 0
            invariant
                i <= rv.len(),
                rv == row_views(self.rows@),
                last_source_row(rv, file_index, location.side, location.line_number) == last_source_row(rv.take(i as int), file_index, location.side, location.line_number),
                file_at(self@.document.files@, location.path@) == Some(file_index),
            decreases i,
        {
            let row = &self.rows[i - 1];
            proof {
                assert(rv.take(i as int).drop_last() =~= rv.take(i - 1));
                assert(rv.take(i as int).last() == row@);
            }
            if row.file_index == file_index && row_has_source_line(row, location.side, location.line_number) {
                return Some(i - 1);
            }
            i = i - 1;
        }
        None
    }

    /// The gap state recorded for a row.
    pub fn gap_info(&self, row_index: usize) -> (res: Option<&GapInfo>)
        ensures
            match lookup(self@.gap_info, row_index) {
                Some(g) => res == Some(&g),
                None => res is None,
            },
    {
        let mut i: usize = 0;
        while i < self.gap_info.len()
            invariant
                i <= self.gap_info@.len(),
                forall|k: int| 0 <= k < i ==> (#[trigger] self.gap_info@[k]).0 != row_index,
            decreases self.gap_info@.len() - i,
        {
            if self.gap_info[i].0 == row_index {
                proof {
                    lemma_find_key_unique(self.gap_info@, row_index, i as int);
                }
                return Some(&self.gap_info[i].1);
            }
            i = i + 1;
        }
        proof {
            lemma_find_key(self.gap_info@, row_index);
            if find_key(self.gap_info@, row_index) is Some {
                let j = find_key(self.gap_info@, row_index)->0;
                assert(self.gap_info@[j].0 != row_index);
            }
        }
        None
    }

    /// Whether a row shows an anchor: same file path, and a patch cell on the
    /// anchor's side at its line.
    pub fn row_shows_anchor(&self, row: &PresentedRow, anchor: &LineAnchor) -> (res: bool)
        ensures
            res == (row.file_index < self@.document.files@.len()
                && self@.document.files@[row.file_index as int].path@ == anchor.path@ && exists|
                i: int,
            |
                0 <= i < row_cells(row@).len() && ((#[trigger] row_cells(row@)[i]).patch_source matches Some(s)
                    && s.side == anchor.side && cell_line_number(row_cells(row@)[i])
                    == anchor@.view_number())),
    {
        if row.file_index >= self.document.files.len() {
            return false;
        }
        if !self.document.files[row.file_index].path.same_as(&anchor.path) {
            return false;
        }
        let n = anchor.line_number();
        let cells = row.cells();
        let mut k: usize = 0;
        while k < cells.len()
            invariant
                k <= cells@.len(),
                n == anchor@.view_number(),
                row.file_index < self@.document.files@.len(),
                self@.document.files@[row.file_index as int].path@ == anchor.path@,
                cells@.map_values(|c: &PresentedCell| c@) == row_cells(row@),
                forall|j: int|
                    0 <= j < k ==> !((#[trigger] row_cells(row@)[j]).patch_source matches Some(s)
                        && s.side == anchor.side && cell_line_number(row_cells(row@)[j]) == n),
            decreases cells@.len() - k,
        {
            let c = cells[k];
            proof {
                assert(row_cells(row@)[k as int] == c@);
            }
            let matches = match c.patch_source {
                Some(s) => s.side == anchor.side && c.line_number() == n,
                None => false,
            };
            if matches {
                proof {
                    assert(n == anchor@.view_number());
                    assert(row_cells(row@)[k as int].patch_source matches Some(s) && s.side == anchor.side
                        && cell_line_number(row_cells(row@)[k as int]) == anchor@.view_number());
                }
                return true;
            }
            k = k + 1;
        }
        false
    }

    /// Whether the row at an index is commentable.
    pub fn is_commentable(&self, index: usize) -> (res: bool)
        ensures
            res == (index < self@.rows.len() && row_is_commentable(self@.rows[index as int])),
    {
        match self.row(index) {
            Some(r) => r.is_commentable(),
            None => false,
        }
    }

    /// Whether selection may rest on the row at an index.
    pub fn is_navigable(&self, index: usize) -> (res: bool)
        ensures
            res == nav_at(self@.rows, index as int),
    {
        match self.row(index) {
            Some(r) => r.is_navigable(),
            None => false,
        }
    }

    /// The first navigable row of a range.
    pub fn first_navigable(&self, range: Range<usize>) -> (res: Option<usize>)
        ensures
            res == first_navigable_in(self@.rows, range.start as int, range.end as int),
    {
        let mut i = range.start;
        while i < range.end
            invariant
                range.start <= i,
                i <= range.end || range.end < range.start,
                first_navigable_in(self@.rows, range.start as int, range.end as int)
                    == first_navigable_in(self@.rows, i as int, range.end as int),
            decreases range.end - i,
        {
            if self.is_navigable(i) {
                return Some(i);
            }
            i = i + 1;
        }
        None
    }

    /// The last navigable row of a range.
    pub fn last_navigable(&self, range: Range<usize>) -> (res: Option<usize>)
        ensures
            res == last_navigable_in(self@.rows, range.start as int, range.end as int),
    {
        let mut j = range.end;
        while j > range.start
            invariant
                j <= range.end || j == range.end,
                last_navigable_in(self@.rows, range.start as int, range.end as int)
                    == last_navigable_in(self@.rows, range.start as int, j as int),
            decreases j,
        {
            if self.is_navigable(j - 1) {
                return Some(j - 1);
            }
            j = j - 1;
        }
        None
    }

    /// The next navigable row after `from` within a range, or the previous
    /// one before it when `backward`.
    pub fn step_navigable(&self, from: usize, backward: bool, range: &Range<usize>) -> (res: Option<usize>)
        ensures
            res == if backward {
                last_navigable_in(self@.rows, range.start as int, min_usize(from, range.end) as int)
            } else {
                first_navigable_in(
                    self@.rows,
                    max_usize(sat_add(from, 1), range.start) as int,
                    range.end as int,
                )
            },
    {
        if backward {
            let end = if from <= range.end {
                from
            } else {
                range.end
            };
            self.last_navigable(Range { start: range.start, end })
        } else {
            let start = max_exec(from.saturating_add(1), range.start);
            self.first_navigable(Range { start, end: range.end })
        }
    }
}

pub open spec fn anchor_opt(a: Option<LineAnchor>) -> Option<LineAnchorView> {
    match a {
        Some(x) => Some(x@),
        None => None,
    }
}

/// The anchor of a cell of file `file_index`: that of its patch line.
pub open spec fn cell_anchor_of(document: DiffDocument, file_index: usize, cell: CellView) -> Option<
    LineAnchorView,
> {
    match cell.patch_source {
        Some(s) => if file_index < document.files@.len() && s.hunk_index
            < document.files@[file_index as int].hunks@.len() {
            anchor_at(
                document.files@[file_index as int].path@,
                document.files@[file_index as int].hunks@[s.hunk_index as int]@.lines,
                s.side,
                s.line_index as int,
            )
        } else {
            None
        },
        None => None,
    }
}

/// The cell of a row on a side, or its primary cell.
pub open spec fn preferred_of(r: RowView, side: DiffSide) -> Option<CellView> {
    match (match side {
        DiffSide::Old => r.left,
        DiffSide::New => r.right,
    }) {
        Some(c) => Some(c),
        None => match r.right {
            Some(c) => Some(c),
            None => r.left,
        },
    }
}

impl LineAnchorView {
    pub open spec fn view_number(self) -> Option<usize> {
        match self.side {
            DiffSide::Old => self.old_line_no,
            DiffSide::New => self.new_line_no,
        }
    }
}

fn row_has_patch_line(row: &PresentedRow, side: DiffSide, n: usize) -> (res: bool)
    ensures
        res == exists|i: int|
            0 <= i < row_cells(row@).len() && ((#[trigger] row_cells(row@)[i]).patch_source matches Some(s)
                && s.side == side && cell_line_number(row_cells(row@)[i]) == Some(n)),
{
    let cells = row.cells();
    let mut k: usize = 0;
    while k < cells.len()
        invariant
            k <= cells@.len(),
            cells@.map_values(|c: &PresentedCell| c@) == row_cells(row@),
            forall|j: int|
                0 <= j < k ==> !((#[trigger] row_cells(row@)[j]).patch_source matches Some(s)
                    && s.side == side && cell_line_number(row_cells(row@)[j]) == Some(n)),
        decreases cells@.len() - k,
    {
        let c = cells[k];
        proof {
            assert(row_cells(row@)[k as int] == c@);
        }
        let matches = match c.patch_source {
            Some(s) => s.side == side && c.line_number() == Some(n),
            None => false,
        };
        if matches {
            return true;
        }
        k = k + 1;
    }
    false
}

fn row_has_source_line(row: &PresentedRow, side: DiffSide, n: usize) -> (res: bool)
    ensures
        res == exists|i: int|
            0 <= i < row_cells(row@).len() && (#[trigger] row_cells(row@)[i]).source_line == Some(
                SourceLineRef { side, line_number: n },
            ),
{
    let cells = row.cells();
    let mut k: usize = 0;
    while k < cells.len()
        invariant
            k <= cells@.len(),
            cells@.map_values(|c: &PresentedCell| c@) == row_cells(row@),
            forall|j: int|
                0 <= j < k ==> (#[trigger] row_cells(row@)[j]).source_line != Some(
                    SourceLineRef { side, line_number: n },
                ),
        decreases cells@.len() - k,
    {
        let c = cells[k];
        proof {
            assert(row_cells(row@)[k as int] == c@);
        }
        let matches = match c.source_line {
            Some(s) => s.side == side && s.line_number == n,
            None => false,
        };
        if matches {
            return true;
        }
        k = k + 1;
    }
    false
}


impl ContentProjection {
    /// Forgets every source and expansion, and every full-file path that
    /// `document` does not hold.
    pub(crate) fn reset_for(&mut self, document: &DiffDocument)
        ensures
            final(self)@.sources == Seq::<((Seq<char>, DiffSide), SourceResult)>::empty(),
            final(self)@.expansions == Seq::<(GapId, GapExpansion)>::empty(),
            final(self)@.full_files == old(self)@.full_files.filter(
                |p: Seq<char>| file_at(document.files@, p) is Some,
            ),
    {
        self.sources = Vec::new();
        self.expansions = Vec::new();
        let ghost pv = path_views(self.full_files@);
        let ghost keep = |p: Seq<char>| file_at(document.files@, p) is Some;
        let mut kept: Vec<RepoPath> = Vec::new();
        let mut i: usize = 0;
        while i < self.full_files.len()
            invariant
                i <= self.full_files@.len(),
                pv == path_views(self.full_files@),
                keep == (|p: Seq<char>| file_at(document.files@, p) is Some),
                path_views(kept@) == pv.take(i as int).filter(keep),
            decreases self.full_files@.len() - i,
        {
            proof {
                assert(pv.take(i + 1).drop_last() =~= pv.take(i as int));
                reveal(Seq::filter);
            }
            if find_file(document, &self.full_files[i]).is_some() {
                let ghost prev = kept@;
                kept.push(self.full_files[i].duplicate());
                proof {
                    assert(path_views(kept@) =~= path_views(prev).push(pv[i as int]));
                }
            }
            i = i + 1;
        }
        proof {
            assert(pv.take(i as int) =~= pv);
            assert(source_entries(self.sources@) =~= Seq::empty());
        }
        self.full_files = kept;
    }

    /// Replaces every source.
    pub(crate) fn replace_sources(&mut self, sources: Vec<(SourceKey, SourceResult)>)
        ensures
            final(self)@ == (ProjectionView { sources: source_entries(sources@), ..old(self)@ }),
    {
        self.sources = sources;
    }
}

/// The presentation depends on the options only through the layout they
/// resolve to and whether files have headers.
pub proof fn lemma_presented_by_layout(
    document: DiffDocument,
    a: PresentationOptions,
    b: PresentationOptions,
    proj: ProjectionView,
)
    requires
        resolved(a.view_mode, a.split_when_auto) == resolved(b.view_mode, b.split_when_auto),
        a.include_file_headers == b.include_file_headers,
    ensures
        presented(document, a, proj) == presented(document, b, proj),
{
    lemma_files_step_by_layout(document.files@, a, b, proj, document.files@.len() as int);
}

proof fn lemma_files_step_by_layout(
    files: Seq<FileDiff>,
    a: PresentationOptions,
    b: PresentationOptions,
    proj: ProjectionView,
    n: int,
)
    requires
        resolved(a.view_mode, a.split_when_auto) == resolved(b.view_mode, b.split_when_auto),
        a.include_file_headers == b.include_file_headers,
    ensures
        files_step(files, a, proj, n) == files_step(files, b, proj, n),
    decreases n,
{
    if n > 0 {
        lemma_files_step_by_layout(files, a, b, proj, n - 1);
    }
}

/// The line on one side of a pair: the new side when `right`, else the old.
pub open spec fn pair_cell(p: (Option<int>, Option<int>), right: bool) -> Option<int> {
    if right {
        p.1
    } else {
        p.0
    }
}

/// The lines that pairs show on one side, in the order they are shown.
pub open spec fn side_cells(pairs: Seq<(Option<int>, Option<int>)>, right: bool) -> Seq<int>
    decreases pairs.len(),
{
    if pairs.len() == 0 {
        Seq::empty()
    } else {
        side_cells(pairs.drop_last(), right) + match pair_cell(pairs.last(), right) {
            Some(k) => seq![k],
            None => Seq::empty(),
        }
    }
}

proof fn lemma_side_cells_append(
    a: Seq<(Option<int>, Option<int>)>,
    b: Seq<(Option<int>, Option<int>)>,
    right: bool,
)
    ensures
        side_cells(a + b, right) == side_cells(a, right) + side_cells(b, right),
    decreases b.len(),
{
    if b.len() == 0 {
        assert(a + b =~= a);
        assert(side_cells(a, right) + side_cells(b, right) =~= side_cells(a, right));
    } else {
        assert((a + b).drop_last() =~= a + b.drop_last());
        lemma_side_cells_append(a, b.drop_last(), right);
        assert((a + b).last() == b.last());
        assert(side_cells(a + b, right) =~= side_cells(a, right) + side_cells(b, right));
    }
}

proof fn lemma_side_cells_run(pairs: Seq<(Option<int>, Option<int>)>, right: bool, start: int)
    requires
        forall|k: int| 0 <= k < pairs.len() ==> pair_cell(#[trigger] pairs[k], right) == Some(start + k),
    ensures
        side_cells(pairs, right) == Seq::new(pairs.len(), |k: int| start + k),
    decreases pairs.len(),
{
    if pairs.len() > 0 {
        let r = pairs.drop_last();
        assert forall|k: int| 0 <= k < r.len() implies pair_cell(#[trigger] r[k], right) == Some(
            start + k,
        ) by {
            assert(r[k] == pairs[k]);
        }
        lemma_side_cells_run(r, right, start);
        assert(pair_cell(pairs.last(), right) == Some(start + pairs.len() - 1));
        assert(side_cells(pairs, right) =~= Seq::new(pairs.len(), |k: int| start + k));
    }
}

proof fn lemma_side_cells_blank(pairs: Seq<(Option<int>, Option<int>)>, right: bool)
    requires
        forall|k: int| 0 <= k < pairs.len() ==> pair_cell(#[trigger] pairs[k], right) is None,
    ensures
        side_cells(pairs, right) == Seq::<int>::empty(),
    decreases pairs.len(),
{
    if pairs.len() > 0 {
        let r = pairs.drop_last();
        assert forall|k: int| 0 <= k < r.len() implies pair_cell(#[trigger] r[k], right) is None by {
            assert(r[k] == pairs[k]);
        }
        lemma_side_cells_blank(r, right);
        assert(pair_cell(pairs[pairs.len() - 1], right) is None);
        assert(side_cells(pairs, right) =~= Seq::<int>::empty());
    }
}

/// Aligning a block of old lines `os..oe` with new lines `ns..ne` shows every
/// old line once, in increasing order, and every new line once, in
/// increasing order.
pub proof fn lemma_align_pairs_in_order(os: int, oe: int, ns: int, ne: int)
    requires
        os <= oe,
        ns <= ne,
    ensures
        side_cells(align_pairs(os, oe, ns, ne), false) == Seq::new((oe - os) as nat, |k: int| os + k),
        side_cells(align_pairs(os, oe, ns, ne), true) == Seq::new((ne - ns) as nat, |k: int| ns + k),
{
    let lo = oe - os;
    let ln = ne - ns;
    let p = if lo <= ln {
        lo
    } else {
        ln
    };
    let a = Seq::new(p as nat, |k: int| (Some(os + k), Some(ns + k)));
    let b = Seq::new((lo - p) as nat, |k: int| (Some(os + p + k), None::<int>));
    let c = Seq::new((ln - p) as nat, |k: int| (None::<int>, Some(ns + p + k)));
    assert(align_pairs(os, oe, ns, ne) == a + b + c);
    lemma_side_cells_append(a + b, c, false);
    lemma_side_cells_append(a, b, false);
    lemma_side_cells_append(a + b, c, true);
    lemma_side_cells_append(a, b, true);
    lemma_side_cells_run(a, false, os);
    lemma_side_cells_run(a, true, ns);
    lemma_side_cells_run(b, false, os + p);
    lemma_side_cells_blank(b, true);
    lemma_side_cells_blank(c, false);
    lemma_side_cells_run(c, true, ns + p);
    assert(Seq::new(p as nat, |k: int| os + k) + Seq::new((lo - p) as nat, |k: int| os + p + k)
        + Seq::<int>::empty() =~= Seq::new(lo as nat, |k: int| os + k));
    assert(Seq::new(p as nat, |k: int| ns + k) + Seq::<int>::empty() + Seq::new(
        (ln - p) as nat,
        |k: int| ns + p + k,
    ) =~= Seq::new(ln as nat, |k: int| ns + k));
}

proof fn lemma_tiles_within(ops: Seq<(usize, usize, usize, usize)>, old_len: nat, new_len: nat, i: int)
    requires
        tiles(ops, old_len, new_len),
        0 <= i < ops.len(),
    ensures
        ops[i].0 + ops[i].1 <= old_len,
        ops[i].2 + ops[i].3 <= new_len,
    decreases ops.len() - i,
{
    if i + 1 < ops.len() {
        lemma_tiles_within(ops, old_len, new_len, i + 1);
        assert(ops[i + 1].0 == ops[i].0 + ops[i].1);
        assert(ops[i + 1].2 == ops[i].2 + ops[i].3);
    }
}

proof fn lemma_block_pairs_prefix(ops: Seq<(usize, usize, usize, usize)>, removed: nat, added: nat, n: int)
    requires
        tiles(ops, removed, added),
        0 < n <= ops.len(),
    ensures
        side_cells(block_pairs(ops, removed as int, added as int, n), false) == Seq::new(
            (ops[n - 1].0 + ops[n - 1].1) as nat,
            |k: int| k,
        ),
        side_cells(block_pairs(ops, removed as int, added as int, n), true) == Seq::new(
            (ops[n - 1].2 + ops[n - 1].3) as nat,
            |k: int| k,
        ),
    decreases n,
{
    let op = ops[n - 1];
    lemma_tiles_within(ops, removed, added, n - 1);
    assert(clip(op.0, op.1, removed as int) == (op.0 as int, op.0 + op.1));
    assert(clip(op.2, op.3, added as int) == (op.2 as int, op.2 + op.3));
    let here = align_pairs(op.0 as int, op.0 + op.1, op.2 as int, op.2 + op.3);
    lemma_align_pairs_in_order(op.0 as int, op.0 + op.1, op.2 as int, op.2 + op.3);
    let before = block_pairs(ops, removed as int, added as int, n - 1);
    lemma_side_cells_append(before, here, false);
    lemma_side_cells_append(before, here, true);
    if n == 1 {
        assert(before =~= Seq::<(Option<int>, Option<int>)>::empty());
        assert(side_cells(before, false) =~= Seq::<int>::empty());
        assert(side_cells(before, true) =~= Seq::<int>::empty());
        assert(Seq::<int>::empty() + Seq::new(op.1 as nat, |k: int| op.0 + k) =~= Seq::new(
            (op.0 + op.1) as nat,
            |k: int| k,
        ));
        assert(Seq::<int>::empty() + Seq::new(op.3 as nat, |k: int| op.2 + k) =~= Seq::new(
            (op.2 + op.3) as nat,
            |k: int| k,
        ));
    } else {
        lemma_block_pairs_prefix(ops, removed, added, n - 1);
        assert(op.0 == ops[n - 2].0 + ops[n - 2].1);
        assert(op.2 == ops[n - 2].2 + ops[n - 2].3);
        assert(Seq::new(op.0 as nat, |k: int| k) + Seq::new(op.1 as nat, |k: int| op.0 + k)
            =~= Seq::new((op.0 + op.1) as nat, |k: int| k));
        assert(Seq::new(op.2 as nat, |k: int| k) + Seq::new(op.3 as nat, |k: int| op.2 + k)
            =~= Seq::new((op.2 + op.3) as nat, |k: int| k));
    }
}

/// When operations tile a block of `removed` old lines and `added` new lines,
/// the paired layout shows the old lines `0..removed` once each in increasing
/// order on the left, and the new lines `0..added` once each in increasing
/// order on the right.
pub proof fn lemma_block_pairs_in_order(ops: Seq<(usize, usize, usize, usize)>, removed: nat, added: nat)
    requires
        tiles(ops, removed, added),
    ensures
        side_cells(block_pairs(ops, removed as int, added as int, ops.len() as int), false)
            == Seq::new(removed, |k: int| k),
        side_cells(block_pairs(ops, removed as int, added as int, ops.len() as int), true)
            == Seq::new(added, |k: int| k),
{
    if ops.len() == 0 {
        let e = block_pairs(ops, removed as int, added as int, 0);
        assert(e =~= Seq::<(Option<int>, Option<int>)>::empty());
        assert(side_cells(e, false) =~= Seq::new(removed, |k: int| k));
        assert(side_cells(e, true) =~= Seq::new(added, |k: int| k));
    } else {
        lemma_block_pairs_prefix(ops, removed, added, ops.len() as int);
    }
}

} // verus!
