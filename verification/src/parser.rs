//! Normalization of Git's porcelain status output, of untracked files, and
//! the merge of both into a document's files.
use vstd::prelude::*;
use vstd::utf8::{decode_utf8, valid_utf8};
use crate::content::SourceUnavailable;
use crate::file_diff::{built_from_texts, status_for_texts, DiffDocument, DiffError, FileDiff};
use crate::git_diff::{failure_of, files_are, git_diff_files, parse_git_diff};
use crate::model::{status_code, DiffScope, FileStatus, StageState};
use crate::repo_path::{path_error, RepoPath};
use crate::text::{lemma_utf8_valid_up_to, split_seq, string_from_chars, utf8_text, utf8_valid_up_to};

verus! {

/// What decoding a path from Git output gives: the path, or why it is not
/// one.
pub open spec fn decoded_path(bytes: Seq<u8>) -> Result<Seq<char>, DiffError> {
    if valid_utf8(bytes) {
        match path_error(decode_utf8(bytes)) {
            None => Ok(decode_utf8(bytes)),
            Some(e) => Err(DiffError::InvalidPath(e)),
        }
    } else {
        Err(DiffError::UnsupportedPathEncoding { valid_up_to: utf8_valid_up_to(bytes) as usize })
    }
}

/// Decodes a repository path from the bytes of Git output.
pub fn decode_path(bytes: &[u8]) -> (res: Result<RepoPath, DiffError>)
    ensures
        match (res, decoded_path(bytes@)) {
            (Ok(p), Ok(q)) => p@ == q,
            (Err(e), Err(d)) => e == d,
            _ => false,
        },
{
    match utf8_text(bytes) {
        Err(k) => {
            proof {
                lemma_utf8_valid_up_to(bytes@, k as int);
            }
            Err(DiffError::UnsupportedPathEncoding { valid_up_to: k })
        },
        Ok(chars) => {
            let text = string_from_chars(chars.as_slice());
            match RepoPath::new(text.as_str()) {
                Ok(p) => Ok(p),
                Err(e) => Err(DiffError::InvalidPath(e)),
            }
        },
    }
}

/// One entry of `git status --porcelain=v1 -z`.
#[derive(Debug, PartialEq, Eq)]
pub struct GitStatusEntry {
    /// Current repository-relative path.
    pub path: RepoPath,
    /// Previous path for a rename or copy.
    pub old_path: Option<RepoPath>,
    /// Status represented by the most relevant porcelain column.
    pub status: FileStatus,
    /// Whether the change is in the index, worktree, or both.
    pub staged: StageState,
    /// Raw index status character (`X`).
    pub index: Option<char>,
    /// Raw worktree status character (`Y`).
    pub worktree: Option<char>,
}

pub struct EntryView {
    pub path: Seq<char>,
    pub old_path: Option<Seq<char>>,
    pub status: FileStatus,
    pub staged: StageState,
    pub index: Option<char>,
    pub worktree: Option<char>,
}

impl View for GitStatusEntry {
    type V = EntryView;

    open spec fn view(&self) -> EntryView {
        EntryView {
            path: self.path@,
            old_path: match self.old_path {
                Some(p) => Some(p@),
                None => None,
            },
            status: self.status,
            staged: self.staged,
            index: self.index,
            worktree: self.worktree,
        }
    }
}

/// A status column's character, unless it says "unchanged" or "ignored".
pub open spec fn status_column(c: char) -> Option<char> {
    if c == ' ' || c == '!' {
        None
    } else {
        Some(c)
    }
}

/// The file status that a porcelain column's character stands for.
pub open spec fn file_status_of(c: char) -> FileStatus {
    if c == 'A' {
        FileStatus::Added
    } else if c == 'D' {
        FileStatus::Deleted
    } else if c == 'R' {
        FileStatus::Renamed
    } else if c == 'C' {
        FileStatus::Copied
    } else if c == '?' {
        FileStatus::Untracked
    } else {
        FileStatus::Modified
    }
}

/// Where a change lives, by its two columns.
pub open spec fn stage_of(x: char, y: char) -> StageState {
    if status_column(x) is None || x == '?' {
        StageState::Unstaged
    } else if status_column(y) is Some {
        StageState::PartiallyStaged
    } else {
        StageState::Staged
    }
}

/// Whether either column says the entry was renamed or copied, so that the
/// previous path follows in the next record.
pub open spec fn moved(x: char, y: char) -> bool {
    x == 'R' || x == 'C' || y == 'R' || y == 'C'
}

/// The entry for a record whose path and previous path decoded.
pub open spec fn entry_of(x: char, y: char, path: Seq<char>, old_path: Option<Seq<char>>) -> EntryView {
    EntryView {
        path,
        old_path,
        status: file_status_of(if y == ' ' { x } else { y }),
        staged: stage_of(x, y),
        index: status_column(x),
        worktree: status_column(y),
    }
}

/// The entries of the NUL-separated records from `fields[i]` on: empty
/// records are skipped; a record is two status columns, a space and a path;
/// a rename or copy is followed by a non-empty record with the previous path.
/// The first error, in record order, is returned.
pub open spec fn porcelain_entries(fields: Seq<Seq<u8>>, i: int) -> Result<Seq<EntryView>, DiffError>
    decreases fields.len() - i,
{
    if i < 0 || i >= fields.len() {
        Ok(Seq::empty())
    } else {
        let f = fields[i];
        if f.len() == 0 {
            porcelain_entries(fields, i + 1)
        } else if f.len() < 3 || f[2] != 32u8 {
            Err(DiffError::InvalidPorcelainEntry)
        } else {
            let x = f[0] as char;
            let y = f[1] as char;
            match decoded_path(f.skip(3)) {
                Err(e) => Err(e),
                Ok(path) => if moved(x, y) {
                    if i + 1 < fields.len() && fields[i + 1].len() > 0 {
                        match decoded_path(fields[i + 1]) {
                            Err(e) => Err(e),
                            Ok(old) => match porcelain_entries(fields, i + 2) {
                                Err(e) => Err(e),
                                Ok(rest) => Ok(seq![entry_of(x, y, path, Some(old))] + rest),
                            },
                        }
                    } else {
                        Err(DiffError::InvalidPorcelainEntry)
                    }
                } else {
                    match porcelain_entries(fields, i + 1) {
                        Err(e) => Err(e),
                        Ok(rest) => Ok(seq![entry_of(x, y, path, None)] + rest),
                    }
                },
            }
        }
    }
}

/// What `git status --porcelain=v1 -z` output parses to.
pub open spec fn porcelain_of(bytes: Seq<u8>) -> Result<Seq<EntryView>, DiffError> {
    porcelain_entries(split_seq(bytes, 0u8), 0)
}

pub open spec fn entry_views(entries: Seq<GitStatusEntry>) -> Seq<EntryView> {
    entries.map_values(|e: GitStatusEntry| e@)
}

fn split_bytes(s: &[u8], sep: u8) -> (res: Vec<Vec<u8>>)
    ensures
        res@.len() == split_seq(s@, sep).len(),
        forall|i: int| 0 <= i < res@.len() ==> #[trigger] res@[i]@ == split_seq(s@, sep)[i],
{
    let mut pieces: Vec<Vec<u8>> = Vec::new();
    let mut current: Vec<u8> = Vec::new();
    let mut i: usize = 0;
    while i < s.len()
        invariant
            i <= s@.len(),
            split_seq(s@.take(i as int), sep).len() == pieces@.len() + 1,
            forall|k: int|
                0 <= k < pieces@.len() ==> #[trigger] pieces@[k]@ == split_seq(s@.take(i as int), sep)[k],
            current@ == split_seq(s@.take(i as int), sep).last(),
        decreases s@.len() - i,
    {
        proof {
            let t = s@.take(i + 1);
            assert(t.drop_last() =~= s@.take(i as int));
            assert(t.last() == s@[i as int]);
            crate::text::lemma_split_seq_nonempty(s@.take(i as int), sep);
        }
        if s[i] == sep {
            let done = current;
            pieces.push(done);
            current = Vec::new();
        } else {
            current.push(s[i]);
        }
        i = i + 1;
    }
    proof {
        assert(s@.take(s@.len() as int) =~= s@);
    }
    pieces.push(current);
    pieces
}

fn bytes_from(s: &Vec<u8>, from: usize) -> (res: Vec<u8>)
    requires
        from <= s@.len(),
    ensures
        res@ == s@.skip(from as int),
{
    let mut out: Vec<u8> = Vec::new();
    let mut i = from;
    while i < s.len()
        invariant
            from <= i <= s@.len(),
            out@ == s@.subrange(from as int, i as int),
        decreases s@.len() - i,
    {
        out.push(s[i]);
        proof {
            assert(s@.subrange(from as int, i + 1) =~= s@.subrange(from as int, i as int).push(s@[i as int]));
        }
        i = i + 1;
    }
    proof {
        assert(s@.subrange(from as int, i as int) =~= s@.skip(from as int));
    }
    out
}

fn status_column_exec(c: char) -> (res: Option<char>)
    ensures
        res == status_column(c),
{
    if c == ' ' || c == '!' {
        None
    } else {
        Some(c)
    }
}

fn file_status_exec(c: char) -> (res: FileStatus)
    ensures
        res == file_status_of(c),
{
    if c == 'A' {
        FileStatus::Added
    } else if c == 'D' {
        FileStatus::Deleted
    } else if c == 'R' {
        FileStatus::Renamed
    } else if c == 'C' {
        FileStatus::Copied
    } else if c == '?' {
        FileStatus::Untracked
    } else {
        FileStatus::Modified
    }
}

fn make_entry(x: char, y: char, path: RepoPath, old_path: Option<RepoPath>) -> (res: GitStatusEntry)
    ensures
        res@ == entry_of(
            x,
            y,
            path@,
            match old_path {
                Some(p) => Some(p@),
                None => None,
            },
        ),
{
    let index = status_column_exec(x);
    let worktree = status_column_exec(y);
    let staged = if index.is_none() || x == '?' {
        StageState::Unstaged
    } else if worktree.is_some() {
        StageState::PartiallyStaged
    } else {
        StageState::Staged
    };
    let relevant = if y == ' ' {
        x
    } else {
        y
    };
    GitStatusEntry { path, old_path, status: file_status_exec(relevant), staged, index, worktree }
}

/// Parses `git status --porcelain=v1 -z` output.
pub fn parse_porcelain_v1_z(bytes: &[u8]) -> (res: Result<Vec<GitStatusEntry>, DiffError>)
    ensures
        match (res, porcelain_of(bytes@)) {
            (Ok(es), Ok(vs)) => entry_views(es@) == vs,
            (Err(e), Err(d)) => e == d,
            _ => false,
        },
{
    let fields = split_bytes(bytes, 0u8);
    let ghost all = split_seq(bytes@, 0u8);
    let mut entries: Vec<GitStatusEntry> = Vec::new();
    let mut i: usize = 0;
    while i < fields.len()
        invariant
            i <= fields@.len() + 1,
            fields@.len() == all.len(),
            forall|k: int| 0 <= k < fields@.len() ==> #[trigger] fields@[k]@ == all[k],
            porcelain_of(bytes@) == match porcelain_entries(all, i as int) {
                Ok(rest) => Ok(entry_views(entries@) + rest),
                Err(e) => Err::<Seq<EntryView>, DiffError>(e),
            },
        decreases fields@.len() + 1 - i,
    {
        let field = &fields[i];
        proof {
            assert(field@ == all[i as int]);
        }
        if field.len() == 0 {
            i = i + 1;
        } else if field.len() < 3 || field[2] != 32u8 {
            return Err(DiffError::InvalidPorcelainEntry);
        } else {
            let x = field[0] as char;
            let y = field[1] as char;
            let tail = bytes_from(field, 3);
            proof {
                assert(tail@ =~= all[i as int].skip(3));
            }
            let path = match decode_path(tail.as_slice()) {
                Ok(p) => p,
                Err(e) => {
                    return Err(e);
                },
            };
            let is_moved = x == 'R' || x == 'C' || y == 'R' || y == 'C';
            let ghost before = entry_views(entries@);
            if is_moved {
                if i + 1 < fields.len() && fields[i + 1].len() > 0 {
                    let old = match decode_path(fields[i + 1].as_slice()) {
                        Ok(p) => p,
                        Err(e) => {
                            return Err(e);
                        },
                    };
                    entries.push(make_entry(x, y, path, Some(old)));
                    proof {
                        assert(entry_views(entries@) =~= before.push(entries@.last()@));
                    }
                    i = i + 2;
                } else {
                    return Err(DiffError::InvalidPorcelainEntry);
                }
            } else {
                entries.push(make_entry(x, y, path, None));
                proof {
                    assert(entry_views(entries@) =~= before.push(entries@.last()@));
                }
                i = i + 1;
            }
            proof {
                match porcelain_entries(all, i as int) {
                    Ok(rest) => {
                        assert(before + (seq![entries@.last()@] + rest) =~= entry_views(entries@) + rest);
                    },
                    Err(_) => {},
                }
            }
        }
    }
    proof {
        assert(porcelain_entries(all, i as int) == Ok::<Seq<EntryView>, DiffError>(Seq::empty()));
        assert(entry_views(entries@) + Seq::<EntryView>::empty() =~= entry_views(entries@));
    }
    Ok(entries)
}

/// Contents for an untracked file, supplied by a Git host.
#[derive(Debug, PartialEq, Eq)]
pub struct UntrackedFile {
    /// Repository-relative path.
    pub path: RepoPath,
    pub contents: Vec<u8>,
    /// The size of contents that were too large to load.
    pub omitted_bytes: Option<u64>,
}

/// Whether an untracked file is shown as text: it was loaded whole, it is
/// UTF-8, and it holds no NUL.
pub open spec fn untracked_is_text(u: UntrackedFile) -> bool {
    u.omitted_bytes is None && valid_utf8(u.contents@) && !decode_utf8(u.contents@).contains('\0')
}

/// The file that an untracked file becomes: for text, the file that
/// `FileDiff::from_texts` builds from an empty old side, marked untracked and
/// unstaged; otherwise a binary file with no hunks whose old side is absent
/// and whose new side is binary, or too large where it was omitted.
pub open spec fn untracked_file(f: FileDiff, u: UntrackedFile) -> bool {
    if untracked_is_text(u) {
        let text = decode_utf8(u.contents@);
        &&& f.status == FileStatus::Untracked
        &&& f.staged == StageState::Unstaged
        &&& built_from_texts(
            FileDiff { status: status_for_texts(Seq::empty(), text), ..f },
            u.path@,
            Seq::empty(),
            text,
        )
    } else {
        &&& f.old_path is None
        &&& f.path@ == u.path@
        &&& f.status == FileStatus::Untracked
        &&& f.staged == StageState::Unstaged
        &&& f.hunks@.len() == 0
        &&& f.binary
        &&& f.mode is None
        &&& !f.no_newline_at_end
        &&& f.omitted_bytes == u.omitted_bytes
        &&& f.old_source is Err && f.old_source->Err_0 == SourceUnavailable::Absent
        &&& f.new_source is Err && f.new_source->Err_0 == match u.omitted_bytes {
            Some(bytes) => SourceUnavailable::TooLarge { bytes },
            None => SourceUnavailable::Binary,
        }
    }
}

fn contains_nul(chars: &Vec<char>) -> (res: bool)
    ensures
        res == chars@.contains('\0'),
{
    crate::text::chars_contain(chars.as_slice(), '\0')
}

/// The file diff of an untracked file.
pub fn untracked_diff(u: &UntrackedFile) -> (res: FileDiff)
    ensures
        untracked_file(res, *u),
{
    let text = match u.omitted_bytes {
        None => match utf8_text(u.contents.as_slice()) {
            Ok(chars) => if contains_nul(&chars) {
                None
            } else {
                Some(chars)
            },
            Err(_) => None,
        },
        Some(_) => None,
    };
    match text {
        Some(chars) => {
            let new = string_from_chars(chars.as_slice());
            let file = FileDiff::from_texts_at(u.path.duplicate(), "", new.as_str());
            proof {
                reveal_strlit("");
                assert(""@ =~= Seq::<char>::empty());
            }
            FileDiff { status: FileStatus::Untracked, staged: StageState::Unstaged, ..file }
        },
        None => FileDiff {
            old_path: None,
            path: u.path.duplicate(),
            status: FileStatus::Untracked,
            staged: StageState::Unstaged,
            hunks: Vec::new(),
            binary: true,
            mode: None,
            no_newline_at_end: false,
            omitted_bytes: u.omitted_bytes,
            old_source: Err(SourceUnavailable::Absent),
            new_source: Err(
                match u.omitted_bytes {
                    Some(bytes) => SourceUnavailable::TooLarge { bytes },
                    None => SourceUnavailable::Binary,
                },
            ),
        },
    }
}

/// The first status entry, in order, whose path or previous path is `key`.
pub open spec fn status_for(statuses: Seq<EntryView>, key: Seq<char>) -> Option<EntryView>
    decreases statuses.len(),
{
    if statuses.len() == 0 {
        None
    } else if statuses[0].path == key || statuses[0].old_path == Some(key) {
        Some(statuses[0])
    } else {
        status_for(statuses.drop_first(), key)
    }
}

/// The status entry of a file: by its path, else by its previous path.
pub open spec fn entry_for_file(statuses: Seq<EntryView>, f: FileDiff) -> Option<EntryView> {
    match status_for(statuses, f.path@) {
        Some(e) => Some(e),
        None => match f.old_path {
            Some(p) => status_for(statuses, p@),
            None => None,
        },
    }
}

/// The stage given to files that no status entry mentions.
pub open spec fn fallback_stage(scope: DiffScope) -> StageState {
    match scope {
        DiffScope::Staged => StageState::Staged,
        _ => StageState::Unstaged,
    }
}

/// A file with its status entry applied: the entry's stage, and its status
/// where the patch only said "modified"; without an entry, the scope's stage.
pub open spec fn merged_file(f: FileDiff, statuses: Seq<EntryView>, scope: DiffScope) -> FileDiff {
    match entry_for_file(statuses, f) {
        Some(e) => FileDiff {
            staged: e.staged,
            status: if f.status == FileStatus::Modified {
                e.status
            } else {
                f.status
            },
            ..f
        },
        None => FileDiff { staged: fallback_stage(scope), ..f },
    }
}

/// The indices of the untracked files, from `i` on, that are added: those
/// whose path is not yet among `paths`, each added path joining them.
pub open spec fn kept_untracked(paths: Seq<Seq<char>>, us: Seq<UntrackedFile>, i: int) -> Seq<int>
    decreases us.len() - i,
{
    if i < 0 || i >= us.len() {
        Seq::empty()
    } else if paths.contains(us[i].path@) {
        kept_untracked(paths, us, i + 1)
    } else {
        seq![i] + kept_untracked(paths.push(us[i].path@), us, i + 1)
    }
}

pub open spec fn file_paths(files: Seq<FileDiff>) -> Seq<Seq<char>> {
    files.map_values(|f: FileDiff| f.path@)
}

/// The files of a document built from Git outputs: the patch's files with
/// their status entries applied, then the untracked files whose paths are
/// not there yet.
pub open spec fn merged_files(
    res: Seq<FileDiff>,
    files: Seq<FileDiff>,
    statuses: Seq<EntryView>,
    scope: DiffScope,
    untracked: Seq<UntrackedFile>,
) -> bool {
    let kept = kept_untracked(file_paths(files), untracked, 0);
    &&& res.len() == files.len() + kept.len()
    &&& forall|i: int| 0 <= i < files.len() ==> #[trigger] res[i] == merged_file(files[i], statuses, scope)
    &&& forall|j: int|
        0 <= j < kept.len() ==> untracked_file(#[trigger] res[files.len() + j], untracked[kept[j]])
}

fn status_for_exec(statuses: &Vec<GitStatusEntry>, key: &RepoPath) -> (res: Option<usize>)
    ensures
        match res {
            Some(i) => i < statuses@.len() && status_for(entry_views(statuses@), key@) == Some(
                statuses@[i as int]@,
            ),
            None => status_for(entry_views(statuses@), key@) is None,
        },
{
    let ghost all = entry_views(statuses@);
    let mut i: usize = 0;
    proof {
        assert(all.skip(0) =~= all);
    }
    while i < statuses.len()
        invariant
            i <= statuses@.len(),
            all == entry_views(statuses@),
            status_for(all, key@) == status_for(all.skip(i as int), key@),
        decreases statuses@.len() - i,
    {
        let s = &statuses[i];
        let hit = s.path.same_as(key) || match &s.old_path {
            Some(p) => p.same_as(key),
            None => false,
        };
        proof {
            assert(all.skip(i as int)[0] == s@);
            assert(all.skip(i as int).drop_first() =~= all.skip(i + 1));
        }
        if hit {
            return Some(i);
        }
        i = i + 1;
    }
    None
}

fn merge_file(f: FileDiff, statuses: &Vec<GitStatusEntry>, scope: DiffScope) -> (res: FileDiff)
    ensures
        res == merged_file(f, entry_views(statuses@), scope),
{
    let mut found = status_for_exec(statuses, &f.path);
    if found.is_none() {
        found = match &f.old_path {
            Some(p) => status_for_exec(statuses, p),
            None => None,
        };
    }
    match found {
        Some(i) => {
            let e = &statuses[i];
            let status = if f.status == FileStatus::Modified {
                e.status
            } else {
                f.status
            };
            FileDiff { staged: e.staged, status, ..f }
        },
        None => {
            let staged = match scope {
                DiffScope::Staged => StageState::Staged,
                _ => StageState::Unstaged,
            };
            FileDiff { staged, ..f }
        },
    }
}

fn has_path(files: &Vec<FileDiff>, path: &RepoPath) -> (res: bool)
    ensures
        res == file_paths(files@).contains(path@),
{
    let mut i: usize = 0;
    while i < files.len()
        invariant
            i <= files@.len(),
            forall|k: int| 0 <= k < i ==> (#[trigger] files@[k]).path@ != path@,
        decreases files@.len() - i,
    {
        if files[i].path.same_as(path) {
            proof {
                assert(file_paths(files@)[i as int] == path@);
            }
            return true;
        }
        i = i + 1;
    }
    proof {
        if file_paths(files@).contains(path@) {
            let k = choose|k: int| 0 <= k < file_paths(files@).len() && file_paths(files@)[k] == path@;
            assert(files@[k].path@ == path@);
        }
    }
    false
}

/// Applies the status entries to the patch's files and appends the untracked
/// files not already among them.
pub fn merge_git_outputs(
    files: Vec<FileDiff>,
    statuses: &Vec<GitStatusEntry>,
    scope: DiffScope,
    untracked: &[UntrackedFile],
) -> (res: Vec<FileDiff>)
    ensures
        merged_files(res@, files@, entry_views(statuses@), scope, untracked@),
{
    let ghost initial = files@;
    let mut rest = files;
    let mut out: Vec<FileDiff> = Vec::new();
    let n = rest.len();
    while rest.len() > 0
        invariant
            rest@ == initial.skip(out@.len() as int),
            out@.len() <= initial.len(),
            n == initial.len(),
            forall|i: int| 0 <= i < out@.len() ==> #[trigger] out@[i] == merged_file(initial[i], entry_views(statuses@), scope),
        decreases rest@.len(),
    {
        let f = rest.remove(0);
        proof {
            assert(rest@ =~= initial.skip((out@.len() + 1) as int));
        }
        out.push(merge_file(f, statuses, scope));
    }
    proof {
        assert(out@.len() == initial.len());
        assert(file_paths(out@) =~= file_paths(initial));
    }
    let ghost kept_all = kept_untracked(file_paths(initial), untracked@, 0);
    let mut j: usize = 0;
    while j < untracked.len()
        invariant
            j <= untracked@.len(),
            n == initial.len(),
            n <= out@.len(),
            forall|i: int| 0 <= i < n ==> #[trigger] out@[i] == merged_file(initial[i], entry_views(statuses@), scope),
            kept_all == kept_untracked(file_paths(initial), untracked@, 0),
            ({
                let done = (out@.len() - n) as int;
                &&& kept_all.take(done) + kept_untracked(file_paths(out@), untracked@, j as int) == kept_all
                &&& forall|m: int| 0 <= m < done ==> untracked_file(#[trigger] out@[n + m], untracked@[kept_all[m]])
                &&& done <= kept_all.len()
            }),
        decreases untracked@.len() - j,
    {
        let u = &untracked[j];
        let ghost done = (out@.len() - n) as int;
        let ghost paths = file_paths(out@);
        if has_path(&out, &u.path) {
            proof {
                assert(kept_untracked(paths, untracked@, j as int) == kept_untracked(paths, untracked@, j + 1));
            }
        } else {
            let f = untracked_diff(u);
            out.push(f);
            proof {
                assert(file_paths(out@) =~= paths.push(u.path@));
                assert(kept_untracked(paths, untracked@, j as int) == seq![j as int] + kept_untracked(
                    paths.push(u.path@),
                    untracked@,
                    j + 1,
                ));
                assert(kept_all.take(done) + (seq![j as int] + kept_untracked(file_paths(out@), untracked@, j + 1)) == kept_all);
                assert(kept_all[done] == j);
                assert(kept_all.take(done + 1) =~= kept_all.take(done).push(j as int));
                assert(kept_all.take(done + 1) + kept_untracked(file_paths(out@), untracked@, j + 1) =~= kept_all);
            }
        }
        j = j + 1;
    }
    proof {
        let done = (out@.len() - n) as int;
        assert(kept_untracked(file_paths(out@), untracked@, j as int) == Seq::<int>::empty());
        assert(kept_all.take(done) =~= kept_all);
    }
    out
}

impl DiffDocument {
    /// Builds a document from Git's patch and porcelain status output plus
    /// separately loaded untracked files.
    pub fn from_git_outputs_with_untracked(
        repo_root: &str,
        diff: &[u8],
        porcelain: &[u8],
        scope: DiffScope,
        untracked: &[UntrackedFile],
    ) -> (res: Result<DiffDocument, DiffError>)
        ensures
            match porcelain_of(porcelain@) {
                Err(d) => res matches Err(e) && e == d,
                Ok(entries) => match git_diff_files(diff@) {
                    Err(f) => res matches Err(e) && failure_of(e) == f,
                    Ok(ns) => res matches Ok(doc) && doc.repo_root@ == repo_root@ && exists|fs: Seq<FileDiff>|
                        files_are(fs, ns) && merged_files(doc.files@, fs, entries, scope, untracked@),
                },
            },
    {
        let statuses = match parse_porcelain_v1_z(porcelain) {
            Ok(s) => s,
            Err(e) => {
                return Err(e);
            },
        };
        let files = match parse_git_diff(diff) {
            Ok(f) => f,
            Err(e) => {
                return Err(e);
            },
        };
        let ghost parsed = files@;
        let merged = merge_git_outputs(files, &statuses, scope, untracked);
        let chars = crate::text::chars_of(repo_root);
        let root = string_from_chars(chars.as_slice());
        proof {
            assert(files_are(parsed, git_diff_files(diff@)->Ok_0));
        }
        Ok(DiffDocument { repo_root: root, files: merged })
    }

    /// Builds a document from Git's patch and porcelain status output.
    pub fn from_git_outputs(repo_root: &str, diff: &[u8], porcelain: &[u8], scope: DiffScope) -> (res:
        Result<DiffDocument, DiffError>)
        ensures
            match porcelain_of(porcelain@) {
                Err(d) => res matches Err(e) && e == d,
                Ok(entries) => match git_diff_files(diff@) {
                    Err(f) => res matches Err(e) && failure_of(e) == f,
                    Ok(ns) => res matches Ok(doc) && doc.repo_root@ == repo_root@ && exists|fs: Seq<FileDiff>|
                        files_are(fs, ns) && merged_files(doc.files@, fs, entries, scope, Seq::empty()),
                },
            },
    {
        let none: Vec<UntrackedFile> = Vec::new();
        DiffDocument::from_git_outputs_with_untracked(repo_root, diff, porcelain, scope, none.as_slice())
    }
}

/// The letters of Git's porcelain status columns that name a status.
pub open spec fn is_status_letter(c: char) -> bool {
    c == 'A' || c == 'D' || c == 'R' || c == 'C' || c == '?'
}

/// Whether an entry's work-tree column holds a status letter.
pub open spec fn worktree_letter(e: EntryView) -> bool {
    match e.worktree {
        Some(w) => is_status_letter(w),
        None => false,
    }
}

/// A record's status is named by its work-tree column, or by its index
/// column when the work tree is unchanged: a status letter gives the status
/// whose code is that letter, and anything else a modification.
pub proof fn lemma_record_status(x: char, y: char, path: Seq<char>, old: Option<Seq<char>>)
    ensures
        ({
            let c = if y == ' ' {
                x
            } else {
                y
            };
            let e = entry_of(x, y, path, old);
            &&& is_status_letter(c) ==> status_code(e.status) == c
            &&& !is_status_letter(c) ==> e.status == FileStatus::Modified
        }),
{
}

/// Every parsed status entry whose work-tree column holds a status letter
/// has the status that letter names: `" D path"` is a deletion.
pub proof fn lemma_porcelain_statuses(fields: Seq<Seq<u8>>, i: int)
    ensures
        porcelain_entries(fields, i) matches Ok(es) ==> forall|k: int|
            0 <= k < es.len() && worktree_letter(#[trigger] es[k]) ==> status_code(es[k].status) == es[k].worktree->0,
    decreases fields.len() - i,
{
    if 0 <= i < fields.len() {
        let f = fields[i];
        if f.len() == 0 {
            lemma_porcelain_statuses(fields, i + 1);
        } else if f.len() >= 3 && f[2] == 32u8 {
            let x = f[0] as char;
            let y = f[1] as char;
            lemma_porcelain_statuses(fields, i + 1);
            if i + 2 <= fields.len() {
                lemma_porcelain_statuses(fields, i + 2);
            }
            if let Ok(es) = porcelain_entries(fields, i) {
                assert forall|k: int|
                    0 <= k < es.len() && worktree_letter(#[trigger] es[k]) implies status_code(es[k].status) == es[k].worktree->0 by {
                    if k == 0 {
                        assert(es[0].worktree == status_column(y));
                    } else {
                        if moved(x, y) {
                            let rest = porcelain_entries(fields, i + 2)->Ok_0;
                            assert(es[k] == rest[k - 1]);
                        } else {
                            let rest = porcelain_entries(fields, i + 1)->Ok_0;
                            assert(es[k] == rest[k - 1]);
                        }
                    }
                }
            }
        }
    }
}

} // verus!
