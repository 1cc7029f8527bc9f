//! Builders of complete review documents for tests: every text fixture
//! carries both of its source versions, so sessions built from it can reveal
//! unchanged context.
use std::ops::RangeInclusive;
use std::sync::Arc;
use vstd::prelude::*;
use vstd::utf8::{encode_utf8, is_ascii_chars, is_ascii_chars_encode_utf8};
use crate::content::{capture_limit, line_starts_of, SourceDocument, SourceUnavailable};
use crate::file_diff::{
    built_from_texts, status_for_texts, DiffDocument, FileDiff, SourceResult,
};
use crate::line_diff::derived_hunks;
use crate::model::{hunk_views, DiffSide, FileStatus, Hunk, PatchLine, StageState};
use crate::repo_path::{first_component_error, looks_absolute, path_error, RepoPath};
use crate::text::{chars_of, decimal, lemma_split_seq_two, push_decimal, split_seq, string_from_chars};

verus! {

/// A document under construction: its root, its files in order, and the
/// source overrides to apply when it is built.
pub struct DocumentBuilder {
    repo_root: String,
    files: Vec<FileDiff>,
    overrides: Vec<(RepoPath, DiffSide, SourceResult)>,
}

pub struct BuilderView {
    pub repo_root: Seq<char>,
    pub files: Seq<FileDiff>,
    pub overrides: Seq<(RepoPath, DiffSide, SourceResult)>,
}

impl View for DocumentBuilder {
    type V = BuilderView;

    closed spec fn view(&self) -> BuilderView {
        BuilderView { repo_root: self.repo_root@, files: self.files@, overrides: self.overrides@ }
    }
}

/// The index of the first file at `path`, or the number of files.
pub open spec fn first_at(files: Seq<FileDiff>, path: Seq<char>) -> int
    decreases files.len(),
{
    if files.len() == 0 {
        0
    } else if files[0].path@ == path {
        0
    } else {
        1 + first_at(files.drop_first(), path)
    }
}

/// A file with one side's source replaced.
pub open spec fn with_side(f: FileDiff, side: DiffSide, r: SourceResult) -> FileDiff {
    match side {
        DiffSide::Old => FileDiff { old_source: r, ..f },
        DiffSide::New => FileDiff { new_source: r, ..f },
    }
}

/// The files after applying the overrides in order, each to the first file
/// at its path.
pub open spec fn overridden(files: Seq<FileDiff>, overrides: Seq<(RepoPath, DiffSide, SourceResult)>) -> Seq<
    FileDiff,
>
    decreases overrides.len(),
{
    if overrides.len() == 0 {
        files
    } else {
        let prev = overridden(files, overrides.drop_last());
        let (path, side, r) = overrides.last();
        let i = first_at(prev, path@);
        if i < prev.len() {
            prev.update(i, with_side(prev[i], side, r))
        } else {
            prev
        }
    }
}

/// Whether every override names the path of some file.
pub open spec fn overrides_known(b: BuilderView) -> bool {
    forall|k: int|
        0 <= k < b.overrides.len() ==> exists|i: int|
            0 <= i < b.files.len() && (#[trigger] b.files[i]).path@ == (#[trigger] b.overrides[k]).0@
}

proof fn lemma_first_at_bounds(files: Seq<FileDiff>, path: Seq<char>)
    ensures
        0 <= first_at(files, path) <= files.len(),
        first_at(files, path) < files.len() ==> files[first_at(files, path)].path@ == path,
        forall|i: int| 0 <= i < first_at(files, path) ==> (#[trigger] files[i]).path@ != path,
        (exists|i: int| 0 <= i < files.len() && (#[trigger] files[i]).path@ == path) ==> first_at(
            files,
            path,
        ) < files.len(),
    decreases files.len(),
{
    if files.len() > 0 && files[0].path@ != path {
        lemma_first_at_bounds(files.drop_first(), path);
        assert forall|i: int| 0 <= i < first_at(files, path) implies (#[trigger] files[i]).path@ != path by {
            if i > 0 {
                assert(files.drop_first()[i - 1] == files[i]);
            }
        }
        if exists|i: int| 0 <= i < files.len() && (#[trigger] files[i]).path@ == path {
            let i = choose|i: int| 0 <= i < files.len() && (#[trigger] files[i]).path@ == path;
            assert(files.drop_first()[i - 1] == files[i]);
        }
    }
}

proof fn lemma_overridden_paths(files: Seq<FileDiff>, overrides: Seq<(RepoPath, DiffSide, SourceResult)>)
    ensures
        overridden(files, overrides).len() == files.len(),
        forall|i: int| 0 <= i < files.len() ==> (#[trigger] overridden(files, overrides)[i]).path == files[i].path,
    decreases overrides.len(),
{
    if overrides.len() > 0 {
        lemma_overridden_paths(files, overrides.drop_last());
        let prev = overridden(files, overrides.drop_last());
        lemma_first_at_bounds(prev, overrides.last().0@);
    }
}

fn first_index_at(files: &Vec<FileDiff>, path: &RepoPath) -> (res: usize)
    ensures
        res == first_at(files@, path@),
{
    let mut i: usize = 0;
    proof {
        assert(files@.skip(0) =~= files@);
    }
    while i < files.len() && !files[i].path.same_as(path)
        invariant
            i <= files@.len(),
            first_at(files@, path@) == i + first_at(files@.skip(i as int), path@),
        decreases files@.len() - i,
    {
        proof {
            assert(files@.skip(i as int).drop_first() =~= files@.skip(i + 1));
        }
        i = i + 1;
    }
    i
}

fn owned_text(s: &str) -> (res: String)
    ensures
        res@ == s@,
{
    let chars = chars_of(s);
    string_from_chars(chars.as_slice())
}

fn fixture_path(path: &str) -> (res: RepoPath)
    requires
        path_error(path@) is None,
    ensures
        res@ == path@,
{
    match RepoPath::new(path) {
        Ok(p) => p,
        Err(_) => {
            proof {
                assert(false);
            }
            RepoPath::new("a").unwrap()
        },
    }
}

fn fixture_file(path: &str, old: &str, new: &str) -> (res: FileDiff)
    requires
        path_error(path@) is None,
    ensures
        built_from_texts(res, path@, old@, new@),
{
    match FileDiff::from_texts(path, old, new) {
        Ok(f) => f,
        Err(_) => {
            proof {
                assert(false);
            }
            FileDiff::from_texts_at(fixture_path(path), old, new)
        },
    }
}

impl Default for DocumentBuilder {
    fn default() -> (res: DocumentBuilder)
        ensures
            res@ == (BuilderView { repo_root: "/repo"@, files: Seq::empty(), overrides: Seq::empty() }),
    {
        DocumentBuilder::new()
    }
}

impl DocumentBuilder {
    /// An empty document rooted at `/repo`.
    pub fn new() -> (res: DocumentBuilder)
        ensures
            res@ == (BuilderView { repo_root: "/repo"@, files: Seq::empty(), overrides: Seq::empty() }),
    {
        DocumentBuilder { repo_root: owned_text("/repo"), files: Vec::new(), overrides: Vec::new() }
    }

    /// Sets the repository root.
    pub fn repo_root(self, repo_root: &str) -> (res: DocumentBuilder)
        ensures
            res@ == (BuilderView { repo_root: repo_root@, ..self@ }),
    {
        DocumentBuilder { repo_root: owned_text(repo_root), ..self }
    }

    /// Adds a file as it is.
    pub fn file(self, file: FileDiff) -> (res: DocumentBuilder)
        ensures
            res@ == (BuilderView { files: self@.files.push(file), ..self@ }),
    {
        let mut files = self.files;
        files.push(file);
        DocumentBuilder { files, ..self }
    }

    /// Adds a changed text fixture: the file that `FileDiff::from_texts`
    /// builds.
    pub fn changed(self, path: &str, old: &str, new: &str) -> (res: DocumentBuilder)
        requires
            path_error(path@) is None,
        ensures
            res@.repo_root == self@.repo_root,
            res@.overrides == self@.overrides,
            res@.files.len() == self@.files.len() + 1,
            res@.files.take(self@.files.len() as int) == self@.files,
            built_from_texts(res@.files.last(), path@, old@, new@),
    {
        let f = fixture_file(path, old, new);
        let res = self.file(f);
        proof {
            assert(res@.files.take(self@.files.len() as int) =~= self@.files);
        }
        res
    }

    /// Adds a changed text fixture after applying `customize` to the file
    /// that `FileDiff::from_texts` builds.
    pub fn changed_with<F: FnOnce(FileDiff) -> FileDiff>(self, path: &str, old: &str, new: &str, customize: F) -> (res:
        DocumentBuilder)
        requires
            path_error(path@) is None,
            forall|f: FileDiff| built_from_texts(f, path@, old@, new@) ==> customize.requires((f,)),
        ensures
            res@.repo_root == self@.repo_root,
            res@.overrides == self@.overrides,
            res@.files.len() == self@.files.len() + 1,
            res@.files.take(self@.files.len() as int) == self@.files,
            exists|f: FileDiff|
                built_from_texts(f, path@, old@, new@) && customize.ensures((f,), res@.files.last()),
    {
        let f = fixture_file(path, old, new);
        let ghost g = f;
        let custom = customize(f);
        let res = self.file(custom);
        proof {
            assert(res@.files.take(self@.files.len() as int) =~= self@.files);
            assert(built_from_texts(g, path@, old@, new@));
        }
        res
    }

    /// Adds a deleted text fixture.
    pub fn deleted(self, path: &str, old: &str) -> (res: DocumentBuilder)
        requires
            path_error(path@) is None,
        ensures
            res@.repo_root == self@.repo_root,
            res@.overrides == self@.overrides,
            res@.files.len() == self@.files.len() + 1,
            res@.files.take(self@.files.len() as int) == self@.files,
            built_from_texts(res@.files.last(), path@, old@, Seq::empty()),
    {
        proof {
            reveal_strlit("");
            assert(""@ =~= Seq::<char>::empty());
        }
        self.changed(path, old, "")
    }

    /// Adds an added text fixture.
    pub fn added(self, path: &str, new: &str) -> (res: DocumentBuilder)
        requires
            path_error(path@) is None,
        ensures
            res@.repo_root == self@.repo_root,
            res@.overrides == self@.overrides,
            res@.files.len() == self@.files.len() + 1,
            res@.files.take(self@.files.len() as int) == self@.files,
            built_from_texts(res@.files.last(), path@, Seq::empty(), new@),
    {
        proof {
            reveal_strlit("");
            assert(""@ =~= Seq::<char>::empty());
        }
        self.changed(path, "", new)
    }

    /// Adds an untracked text fixture: an added file marked untracked.
    pub fn untracked(self, path: &str, new: &str) -> (res: DocumentBuilder)
        requires
            path_error(path@) is None,
        ensures
            res@.repo_root == self@.repo_root,
            res@.overrides == self@.overrides,
            res@.files.len() == self@.files.len() + 1,
            res@.files.take(self@.files.len() as int) == self@.files,
            res@.files.last().status == FileStatus::Untracked,
            built_from_texts(
                FileDiff { status: status_for_texts(Seq::empty(), new@), ..res@.files.last() },
                path@,
                Seq::empty(),
                new@,
            ),
    {
        proof {
            reveal_strlit("");
            assert(""@ =~= Seq::<char>::empty());
        }
        let f = fixture_file(path, "", new);
        let res = self.file(FileDiff { status: FileStatus::Untracked, ..f });
        proof {
            assert(res@.files.take(self@.files.len() as int) =~= self@.files);
            assert(FileDiff { status: status_for_texts(Seq::empty(), new@), ..res@.files.last() } == f);
        }
        res
    }

    /// Adds a text fixture with the requested staging state.
    pub fn changed_staged(self, path: &str, old: &str, new: &str, staged: StageState) -> (res: DocumentBuilder)
        requires
            path_error(path@) is None,
        ensures
            res@.repo_root == self@.repo_root,
            res@.overrides == self@.overrides,
            res@.files.len() == self@.files.len() + 1,
            res@.files.take(self@.files.len() as int) == self@.files,
            res@.files.last().staged == staged,
            built_from_texts(FileDiff { staged: StageState::Unstaged, ..res@.files.last() }, path@, old@, new@),
    {
        let f = fixture_file(path, old, new);
        let res = self.file(FileDiff { staged, ..f });
        proof {
            assert(res@.files.take(self@.files.len() as int) =~= self@.files);
            assert(FileDiff { staged: StageState::Unstaged, ..res@.files.last() } == f);
        }
        res
    }

    /// Adds a renamed (or, with `copied`, copied) text fixture.
    fn moved(self, old_path: &str, new_path: &str, old: &str, new: &str, status: FileStatus) -> (res: DocumentBuilder)
        requires
            path_error(old_path@) is None,
            path_error(new_path@) is None,
        ensures
            res@.repo_root == self@.repo_root,
            res@.overrides == self@.overrides,
            res@.files.len() == self@.files.len() + 1,
            res@.files.take(self@.files.len() as int) == self@.files,
            res@.files.last().status == status,
            res@.files.last().old_path matches Some(p) && p@ == old_path@,
            exists|f: FileDiff|
                built_from_texts(f, new_path@, old@, new@) && res@.files.last() == (FileDiff {
                    old_path: res@.files.last().old_path,
                    status,
                    ..f
                }),
    {
        let previous = fixture_path(old_path);
        let f = fixture_file(new_path, old, new);
        let ghost g = f;
        let res = self.file(FileDiff { old_path: Some(previous), status, ..f });
        proof {
            assert(res@.files.take(self@.files.len() as int) =~= self@.files);
            assert(built_from_texts(g, new_path@, old@, new@));
        }
        res
    }

    /// Adds a renamed text fixture.
    pub fn renamed(self, old_path: &str, new_path: &str, old: &str, new: &str) -> (res: DocumentBuilder)
        requires
            path_error(old_path@) is None,
            path_error(new_path@) is None,
        ensures
            res@.repo_root == self@.repo_root,
            res@.overrides == self@.overrides,
            res@.files.len() == self@.files.len() + 1,
            res@.files.take(self@.files.len() as int) == self@.files,
            res@.files.last().status == FileStatus::Renamed,
            res@.files.last().old_path matches Some(p) && p@ == old_path@,
            exists|f: FileDiff|
                built_from_texts(f, new_path@, old@, new@) && res@.files.last() == (FileDiff {
                    old_path: res@.files.last().old_path,
                    status: FileStatus::Renamed,
                    ..f
                }),
    {
        self.moved(old_path, new_path, old, new, FileStatus::Renamed)
    }

    /// Adds a copied text fixture.
    pub fn copied(self, old_path: &str, new_path: &str, old: &str, new: &str) -> (res: DocumentBuilder)
        requires
            path_error(old_path@) is None,
            path_error(new_path@) is None,
        ensures
            res@.repo_root == self@.repo_root,
            res@.overrides == self@.overrides,
            res@.files.len() == self@.files.len() + 1,
            res@.files.take(self@.files.len() as int) == self@.files,
            res@.files.last().status == FileStatus::Copied,
            res@.files.last().old_path matches Some(p) && p@ == old_path@,
            exists|f: FileDiff|
                built_from_texts(f, new_path@, old@, new@) && res@.files.last() == (FileDiff {
                    old_path: res@.files.last().old_path,
                    status: FileStatus::Copied,
                    ..f
                }),
    {
        self.moved(old_path, new_path, old, new, FileStatus::Copied)
    }

    /// Adds a binary fixture: modified, without hunks, both sides binary.
    pub fn binary(self, path: &str) -> (res: DocumentBuilder)
        requires
            path_error(path@) is None,
        ensures
            res@.repo_root == self@.repo_root,
            res@.overrides == self@.overrides,
            res@.files.len() == self@.files.len() + 1,
            res@.files.take(self@.files.len() as int) == self@.files,
            ({
                let f = res@.files.last();
                &&& f.path@ == path@
                &&& f.old_path matches Some(p) && p@ == path@
                &&& f.status == FileStatus::Modified
                &&& f.staged == StageState::Unstaged
                &&& f.hunks@.len() == 0
                &&& f.binary
                &&& f.mode is None
                &&& !f.no_newline_at_end
                &&& f.omitted_bytes is None
                &&& f.old_source == Err::<Arc<SourceDocument>, SourceUnavailable>(SourceUnavailable::Binary)
                &&& f.new_source == Err::<Arc<SourceDocument>, SourceUnavailable>(SourceUnavailable::Binary)
            }),
    {
        let p = fixture_path(path);
        let res = self.file(
            FileDiff {
                old_path: Some(p.duplicate()),
                path: p,
                status: FileStatus::Modified,
                staged: StageState::Unstaged,
                hunks: Vec::new(),
                binary: true,
                mode: None,
                no_newline_at_end: false,
                omitted_bytes: None,
                old_source: Err(SourceUnavailable::Binary),
                new_source: Err(SourceUnavailable::Binary),
            },
        );
        proof {
            assert(res@.files.take(self@.files.len() as int) =~= self@.files);
        }
        res
    }

    /// Overrides one side's source once the document is built: with the
    /// document of the given text, or the given reason.
    pub fn source(self, path: &str, side: DiffSide, result: Result<&str, SourceUnavailable>) -> (res: DocumentBuilder)
        requires
            path_error(path@) is None,
        ensures
            res@.repo_root == self@.repo_root,
            res@.files == self@.files,
            res@.overrides.len() == self@.overrides.len() + 1,
            res@.overrides.take(self@.overrides.len() as int) == self@.overrides,
            res@.overrides.last().0@ == path@,
            res@.overrides.last().1 == side,
            match result {
                Ok(text) => match res@.overrides.last().2 {
                    Ok(doc) => doc@ == text@,
                    Err(e) => capture_limit(
                        encode_utf8(text@).len(),
                        line_starts_of(encode_utf8(text@)).len(),
                    ) == Some(e),
                },
                Err(e) => res@.overrides.last().2 == Err::<Arc<SourceDocument>, SourceUnavailable>(e),
            },
    {
        let p = fixture_path(path);
        let captured: SourceResult = match result {
            Ok(text) => match SourceDocument::new(text) {
                Ok(doc) => Ok(Arc::new(doc)),
                Err(e) => Err(e),
            },
            Err(e) => Err(e),
        };
        let mut overrides = self.overrides;
        overrides.push((p, side, captured));
        let res = DocumentBuilder { overrides, ..self };
        proof {
            assert(res@.overrides.take(self@.overrides.len() as int) =~= self@.overrides);
        }
        res
    }

    /// The document, with every source override applied to the first file at
    /// its path.
    pub fn build(self) -> (res: Arc<DiffDocument>)
        requires
            overrides_known(self@),
        ensures
            res.repo_root@ == self@.repo_root,
            res.files@ == overridden(self@.files, self@.overrides),
    {
        let ghost b = self@;
        let DocumentBuilder { repo_root, files, overrides } = self;
        let mut files = files;
        let mut k: usize = 0;
        while k < overrides.len()
            invariant
                k <= overrides@.len(),
                overrides@ == b.overrides,
                overrides_known(b),
                files@ == overridden(b.files, b.overrides.take(k as int)),
            decreases overrides@.len() - k,
        {
            let ghost prev = files@;
            proof {
                assert(b.overrides.take(k + 1).drop_last() =~= b.overrides.take(k as int));
                lemma_overridden_paths(b.files, b.overrides.take(k as int));
                let i = choose|i: int| 0 <= i < b.files.len() && (#[trigger] b.files[i]).path@ == b.overrides[k as int].0@;
                assert(prev[i].path == b.files[i].path);
                lemma_first_at_bounds(prev, b.overrides[k as int].0@);
            }
            let i = first_index_at(&files, &overrides[k].0);
            let mut file = files.remove(i);
            let r = crate::file_diff::duplicate_source(&overrides[k].2);
            match overrides[k].1 {
                DiffSide::Old => {
                    file = FileDiff { old_source: r, ..file };
                },
                DiffSide::New => {
                    file = FileDiff { new_source: r, ..file };
                },
            }
            files.insert(i, file);
            proof {
                assert(files@ =~= prev.update(i as int, with_side(prev[i as int], b.overrides[k as int].1, b.overrides[k as int].2)));
            }
            k = k + 1;
        }
        proof {
            assert(b.overrides.take(k as int) =~= b.overrides);
        }
        Arc::new(DiffDocument { repo_root, files })
    }
}

/// A valid one-file diff with useful defaults for struct update syntax: the
/// file that `FileDiff::from_texts` builds for `src/lib.rs` from `old\n` to
/// `new\n`.
pub fn file_diff() -> (res: FileDiff)
    ensures
        built_from_texts(res, "src/lib.rs"@, "old\n"@, "new\n"@),
{
    proof {
        lemma_default_path_valid();
    }
    fixture_file("src/lib.rs", "old\n", "new\n")
}

/// The first hunk of `file_diff`, the one with its removed and added line;
/// nothing where the line diff gives that file no hunk.
pub fn hunk() -> (res: Option<Hunk>)
    ensures
        exists|f: FileDiff|
            built_from_texts(f, "src/lib.rs"@, "old\n"@, "new\n"@) && match res {
                Some(h) => f.hunks@.len() > 0 && h == f.hunks@[0],
                None => f.hunks@.len() == 0,
            },
{
    let mut f = file_diff();
    let ghost g = f;
    if f.hunks.len() > 0 {
        Some(f.hunks.remove(0))
    } else {
        None
    }
}

proof fn lemma_default_path_valid()
    ensures
        path_error("src/lib.rs"@) is None,
{
    reveal_strlit("src/lib.rs");
    let s = seq!['s', 'r', 'c', '/', 'l', 'i', 'b', '.', 'r', 's'];
    assert("src/lib.rs"@ =~= s);
    assert(vstd::utf8::is_ascii_chars(s));
    vstd::utf8::is_ascii_chars_encode_utf8(s);
    assert(!encode_utf8(s).contains(0u8)) by {
        if encode_utf8(s).contains(0u8) {
            let i = choose|i: int| 0 <= i < encode_utf8(s).len() && encode_utf8(s)[i] == 0u8;
            assert(s[i] as u8 == encode_utf8(s)[i]);
        }
    }
    assert(encode_utf8(s)[1] == s[1] as u8);
    assert(!crate::text::starts_with(s, seq!['/'])) by {
        assert(s.take(1)[0] != seq!['/'][0]);
    }
    assert(!crate::text::starts_with(s, seq!['\\', '\\'])) by {
        assert(s.take(2)[0] != seq!['\\', '\\'][0]);
    }
    let a = seq!['s', 'r', 'c'];
    let b = seq!['l', 'i', 'b', '.', 'r', 's'];
    assert(s =~= a.push('/') + b);
    assert(!a.contains('/')) by {
        if a.contains('/') {
            let i = choose|i: int| 0 <= i < a.len() && a[i] == '/';
        }
    }
    assert(!b.contains('/')) by {
        if b.contains('/') {
            let i = choose|i: int| 0 <= i < b.len() && b[i] == '/';
        }
    }
    crate::text::lemma_split_seq_two(a, b, '/');
    let parts = crate::text::split_seq(s, '/');
    assert(parts =~= seq![a, b]);
    assert(parts.skip(1) =~= seq![seq!['l', 'i', 'b', '.', 'r', 's']]);
    assert(parts.skip(1).skip(1) =~= Seq::<Seq<char>>::empty());
    assert(seq!['s', 'r', 'c'] != seq!['.']) by {
        assert(seq!['s', 'r', 'c'].len() != seq!['.'].len());
    }
    assert(seq!['s', 'r', 'c'] != seq!['.', '.']) by {
        assert(seq!['s', 'r', 'c'].len() != seq!['.', '.'].len());
    }
    assert(seq!['l', 'i', 'b', '.', 'r', 's'] != seq!['.']) by {
        assert(seq!['l', 'i', 'b', '.', 'r', 's'].len() != seq!['.'].len());
    }
    assert(seq!['l', 'i', 'b', '.', 'r', 's'] != seq!['.', '.']) by {
        assert(seq!['l', 'i', 'b', '.', 'r', 's'].len() != seq!['.', '.'].len());
    }
    reveal_with_fuel(crate::repo_path::first_component_error, 3);
}

/// A valid added patch line.
pub fn patch_line() -> (res: PatchLine)
    ensures
        res.kind == crate::model::PatchLineKind::Added,
        res.text@ == "new"@,
        res.old_line_no is None,
        res.new_line_no == Some(1usize),
        !res.no_newline,
{
    PatchLine::added(owned_text("new"), 1)
}

/// A valid diff document: `/repo` with `file_diff` as its one file.
pub fn diff_document() -> (res: DiffDocument)
    ensures
        res.repo_root@ == "/repo"@,
        res.files@.len() == 1,
        built_from_texts(res.files@[0], "src/lib.rs"@, "old\n"@, "new\n"@),
{
    DiffDocument { repo_root: owned_text("/repo"), files: vec![file_diff()] }
}

/// `RangeInclusive::start`: the lower bound the range was made with.
#[verifier::external_body]
fn window_start(w: &RangeInclusive<usize>) -> (res: usize)
    ensures
        res == w@.start,
{
    *w.start()
}

/// `RangeInclusive::end`: the upper bound the range was made with.
#[verifier::external_body]
fn window_end(w: &RangeInclusive<usize>) -> (res: usize)
    ensures
        res == w@.end,
{
    *w.end()
}

/// Whether a number lies in a window.
pub open spec fn in_window(n: Option<usize>, w: RangeInclusive<usize>) -> bool {
    n matches Some(x) && w@.start <= x && if w@.exhausted {
        x < w@.end
    } else {
        x <= w@.end
    }
}

/// The lines of a hunk that lie in a window on either side.
pub open spec fn window_lines(lines: Seq<PatchLine>, w: RangeInclusive<usize>) -> Seq<PatchLine> {
    lines.filter(|l: PatchLine| in_window(l.old_line_no, w) || in_window(l.new_line_no, w))
}

/// The number of lines a window spans, saturating.
pub open spec fn window_count(w: RangeInclusive<usize>) -> usize {
    let span: int = if w@.end >= w@.start {
        w@.end - w@.start
    } else {
        0
    };
    if span + 1 > usize::MAX {
        usize::MAX
    } else {
        (span + 1) as usize
    }
}

/// The header of a window hunk.
pub open spec fn window_header(start: usize, count: usize) -> Seq<char> {
    "@@ -"@ + decimal(start as nat) + ","@ + decimal(count as nat) + " +"@ + decimal(start as nat) + ","@
        + decimal(count as nat) + " @@"@
}

/// The file whose patch keeps only the lines of its first hunk that lie in
/// the window, under a header that spans the window on both sides.
pub open spec fn windowed(f: FileDiff, first: Hunk, w: RangeInclusive<usize>, res: FileDiff) -> bool {
    let start = w@.start;
    let count = window_count(w);
    &&& res.hunks@.len() == 1
    &&& res == FileDiff { hunks: res.hunks, ..f }
    &&& res.hunks@[0] == (Hunk {
        header: res.hunks@[0].header,
        old_start: start,
        old_count: count,
        new_start: start,
        new_count: count,
        lines: res.hunks@[0].lines,
        ..first
    })
    &&& res.hunks@[0].header@ == window_header(start, count)
    &&& res.hunks@[0].lines@ == window_lines(first.lines@, w)
}

fn line_in_window(n: Option<usize>, w: &RangeInclusive<usize>) -> (res: bool)
    ensures
        res == in_window(n, *w),
{
    match n {
        Some(x) => w.contains(&x),
        None => false,
    }
}

fn keep_window_lines(lines: Vec<PatchLine>, w: &RangeInclusive<usize>) -> (res: Vec<PatchLine>)
    ensures
        res@ == window_lines(lines@, *w),
{
    let ghost all = lines@;
    let mut rest = lines;
    let mut out: Vec<PatchLine> = Vec::new();
    let ghost mut taken: int = 0;
    let ghost pred = |l: PatchLine| in_window(l.old_line_no, *w) || in_window(l.new_line_no, *w);
    proof {
        assert(all.take(0).filter(pred) =~= Seq::<PatchLine>::empty());
    }
    while rest.len() > 0
        invariant
            0 <= taken <= all.len(),
            rest@ == all.skip(taken),
            out@ == all.take(taken).filter(pred),
            pred == (|l: PatchLine| in_window(l.old_line_no, *w) || in_window(l.new_line_no, *w)),
        decreases rest@.len(),
    {
        let line = rest.remove(0);
        proof {
            assert(all.take(taken + 1).drop_last() =~= all.take(taken));
            assert(all.take(taken + 1).last() == line);
            reveal(Seq::filter);
        }
        let keep = line_in_window(line.old_line_no, w) || line_in_window(line.new_line_no, w);
        if keep {
            out.push(line);
        }
        proof {
            assert(rest@ =~= all.skip(taken + 1));
            taken = taken + 1;
        }
    }
    proof {
        assert(all.take(taken) =~= all);
    }
    out
}

fn window_file(file: FileDiff, window: &RangeInclusive<usize>) -> (res: FileDiff)
    requires
        file.hunks@.len() > 0,
    ensures
        windowed(file, file.hunks@[0], *window, res),
{
    let ghost f0 = file;
    let mut file = file;
    let first = file.hunks.remove(0);
    let ghost h0 = first;
    let start = window_start(window);
    let end = window_end(window);
    let count = end.saturating_sub(start).saturating_add(1);
    let mut header: Vec<char> = Vec::new();
    let pieces = chars_of("@@ -");
    crate::text::push_all(&mut header, pieces.as_slice());
    push_decimal(&mut header, start as u64);
    header.push(',');
    push_decimal(&mut header, count as u64);
    let plus = chars_of(" +");
    crate::text::push_all(&mut header, plus.as_slice());
    push_decimal(&mut header, start as u64);
    header.push(',');
    push_decimal(&mut header, count as u64);
    let close = chars_of(" @@");
    crate::text::push_all(&mut header, close.as_slice());
    proof {
        reveal_strlit(",");
        assert(","@ =~= seq![',']);
        assert(header@ =~= window_header(start, count));
    }
    let Hunk { header: _, function_context, old_start: _, old_count: _, new_start: _, new_count: _, lines } = first;
    let kept = keep_window_lines(lines, window);
    let hunk = Hunk {
        header: string_from_chars(header.as_slice()),
        function_context,
        old_start: start,
        old_count: count,
        new_start: start,
        new_count: count,
        lines: kept,
    };
    let res = FileDiff { hunks: vec![hunk], ..file };
    proof {
        assert(res == FileDiff { hunks: res.hunks, ..f0 });
    }
    res
}

impl DocumentBuilder {
    /// Adds a changed text fixture whose patch keeps only the lines of its
    /// first hunk that lie in `window`, on either side, under a header that
    /// spans the window; both complete texts stay attached.
    pub fn changed_with_hunk_window(self, path: &str, old: &str, new: &str, window: RangeInclusive<usize>) -> (res:
        DocumentBuilder)
        requires
            path_error(path@) is None,
            derived_hunks(old@, new@).len() > 0,
        ensures
            res@.repo_root == self@.repo_root,
            res@.overrides == self@.overrides,
            res@.files.len() == self@.files.len() + 1,
            res@.files.take(self@.files.len() as int) == self@.files,
            exists|f: FileDiff|
                built_from_texts(f, path@, old@, new@) && f.hunks@.len() > 0 && windowed(
                    f,
                    f.hunks@[0],
                    window,
                    res@.files.last(),
                ),
    {
        let file = fixture_file(path, old, new);
        let ghost f0 = file;
        proof {
            assert(hunk_views(file.hunks@).len() == file.hunks@.len());
        }
        let windowed_file = window_file(file, &window);
        let res = self.file(windowed_file);
        proof {
            assert(res@.files.take(self@.files.len() as int) =~= self@.files);
            assert(built_from_texts(f0, path@, old@, new@));
        }
        res
    }

    /// `changed_with_hunk_window` where the texts differ: the builder back,
    /// unchanged, where the line diff gives the file no hunk.
    pub fn try_changed_with_hunk_window(self, path: &str, old: &str, new: &str, window: RangeInclusive<usize>) -> (res:
        Result<DocumentBuilder, DocumentBuilder>)
        requires
            path_error(path@) is None,
        ensures
            derived_hunks(old@, new@).len() == 0 ==> (res matches Err(b) && b@ == self@),
            derived_hunks(old@, new@).len() > 0 ==> (res matches Ok(b) && b@.repo_root == self@.repo_root
                && b@.overrides == self@.overrides && b@.files.len() == self@.files.len() + 1
                && b@.files.take(self@.files.len() as int) == self@.files && exists|f: FileDiff|
                built_from_texts(f, path@, old@, new@) && f.hunks@.len() > 0 && windowed(
                f,
                f.hunks@[0],
                window,
                b@.files.last(),
            )),
    {
        let file = fixture_file(path, old, new);
        let ghost f0 = file;
        proof {
            assert(hunk_views(file.hunks@).len() == file.hunks@.len());
        }
        if file.hunks.len() == 0 {
            return Err(self);
        }
        let windowed_file = window_file(file, &window);
        let res = self.file(windowed_file);
        proof {
            assert(res@.files.take(self@.files.len() as int) =~= self@.files);
            assert(built_from_texts(f0, path@, old@, new@));
        }
        Ok(res)
    }
}

/// The stem of a generated fixture: the path's last component with its dots
/// turned into underscores.
pub open spec fn generated_stem(path: Seq<char>) -> Seq<char> {
    crate::file_diff::file_name_of(path).map_values(|c: char| if c == '.' { '_' } else { c })
}

/// The text of a generated fixture's line `n`.
pub open spec fn generated_text(stem: Seq<char>, n: nat) -> Seq<char> {
    "let "@ + stem + "_value_"@ + decimal(n) + " = "@ + decimal(n) + ";"@
}

/// Whether a file is the generated fixture: added, with one hunk of
/// `lines` added lines numbered from one, and sides not captured.
pub open spec fn generated_file(f: FileDiff, path: Seq<char>, lines: usize) -> bool {
    &&& f.old_path is None
    &&& f.path@ == path
    &&& f.status == FileStatus::Added
    &&& f.staged == StageState::Unstaged
    &&& f.hunks@.len() == 1
    &&& f.hunks@[0].header@ == "@@ -0,0 +1,"@ + decimal(lines as nat) + " @@"@
    &&& f.hunks@[0].function_context is None
    &&& f.hunks@[0].old_start == 0 && f.hunks@[0].old_count == 0
    &&& f.hunks@[0].new_start == 1 && f.hunks@[0].new_count == lines
    &&& f.hunks@[0].lines@.len() == lines
    &&& forall|k: int|
        0 <= k < lines ==> {
            let l = #[trigger] f.hunks@[0].lines@[k];
            &&& l.kind == crate::model::PatchLineKind::Added
            &&& l.text@ == generated_text(generated_stem(path), (k + 1) as nat)
            &&& l.old_line_no is None
            &&& l.new_line_no == Some((k + 1) as usize)
            &&& !l.no_newline
        }
    &&& !f.binary && f.mode is None && !f.no_newline_at_end && f.omitted_bytes is None
    &&& f.old_source == Err::<Arc<SourceDocument>, SourceUnavailable>(SourceUnavailable::Absent)
    &&& f.new_source == Err::<Arc<SourceDocument>, SourceUnavailable>(SourceUnavailable::NotCaptured)
}

fn push_text(out: &mut Vec<char>, s: &str)
    ensures
        final(out)@ == old(out)@ + s@,
{
    let chars = chars_of(s);
    crate::text::push_all(out, chars.as_slice());
}

fn stem_of(path: &str) -> (res: Vec<char>)
    ensures
        res@ == generated_stem(path@),
{
    let chars = chars_of(path);
    let total = chars.len();
    proof {
        crate::file_diff::lemma_last_index_bounds(chars@, '/');
        assert(chars@.skip(0) =~= chars@);
    }
    let start = match crate::file_diff::last_index(&chars, 0, '/') {
        Some(i) => i + 1,
        None => 0,
    };
    let mut out: Vec<char> = Vec::new();
    let mut i = start;
    while i < chars.len()
        invariant
            start <= i <= chars@.len(),
            chars@ == path@,
            out@ == chars@.subrange(start as int, i as int).map_values(|c: char| if c == '.' { '_' } else { c }),
        decreases chars@.len() - i,
    {
        let c = chars[i];
        out.push(if c == '.' { '_' } else { c });
        proof {
            assert(chars@.subrange(start as int, i + 1) =~= chars@.subrange(start as int, i as int).push(c));
            assert(out@ =~= chars@.subrange(start as int, i + 1).map_values(|c: char| if c == '.' { '_' } else { c }));
        }
        i = i + 1;
    }
    proof {
        assert(chars@.subrange(start as int, i as int) =~= crate::file_diff::file_name_of(path@));
    }
    out
}

/// The path of the generated file with the given index: `src/file_`, the
/// index written with at least two digits, and `.rs`.
pub open spec fn generated_path(index: nat) -> Seq<char> {
    seq!['s', 'r', 'c', '/', 'f', 'i', 'l', 'e', '_'] + (if index < 10 {
        seq!['0']
    } else {
        Seq::<char>::empty()
    }) + decimal(index) + seq!['.', 'r', 's']
}

/// Every character of a decimal numeral is a digit.
proof fn lemma_decimal_digits(n: nat)
    ensures
        forall|k: int| 0 <= k < decimal(n).len() ==> '0' <= #[trigger] decimal(n)[k] <= '9',
        decimal(n).len() > 0,
    decreases n,
{
    if n >= 10 {
        lemma_decimal_digits(n / 10);
    }
}

/// Generated paths are valid repository paths.
proof fn lemma_generated_path_valid(index: nat)
    ensures
        path_error(generated_path(index)) is None,
{
    let p = generated_path(index);
    lemma_decimal_digits(index);
    let pad = if index < 10 {
        seq!['0']
    } else {
        Seq::<char>::empty()
    };
    let dir = seq!['s', 'r', 'c'];
    let name = seq!['f', 'i', 'l', 'e', '_'] + pad + decimal(index) + seq!['.', 'r', 's'];
    assert(p =~= dir.push('/') + name);
    assert forall|k: int| 0 <= k < name.len() implies '\0' < #[trigger] name[k] <= '\u{7f}' && name[k] != '/' by {
        if 5 + pad.len() <= k < 5 + pad.len() + decimal(index).len() {
            assert(name[k] == decimal(index)[k - 5 - pad.len()]);
        }
    }
    assert forall|k: int| 0 <= k < p.len() implies '\0' < #[trigger] p[k] <= '\u{7f}' by {
        if k >= 4 {
            assert(p[k] == name[k - 4]);
        }
    }
    assert(is_ascii_chars(p));
    is_ascii_chars_encode_utf8(p);
    assert(!encode_utf8(p).contains(0u8)) by {
        if encode_utf8(p).contains(0u8) {
            let k = choose|k: int| 0 <= k < encode_utf8(p).len() && encode_utf8(p)[k] == 0u8;
            assert(p[k] as u8 == encode_utf8(p)[k]);
        }
    }
    assert(p[1] as u8 == encode_utf8(p)[1]);
    assert(p[0] == 's' && p[1] == 'r');
    assert(p.take(1)[0] == 's');
    assert(p.take(2)[0] == 's');
    assert(encode_utf8(p)[1] == 114u8);
    assert(!looks_absolute(p));
    assert(!dir.contains('/')) by {
        if dir.contains('/') {
            let k = choose|k: int| 0 <= k < dir.len() && dir[k] == '/';
        }
    }
    assert(!name.contains('/')) by {
        if name.contains('/') {
            let k = choose|k: int| 0 <= k < name.len() && name[k] == '/';
        }
    }
    lemma_split_seq_two(dir, name, '/');
    let cs = seq![dir, name];
    assert(cs.skip(1) =~= seq![name]);
    assert(cs.skip(1).skip(1) =~= Seq::<Seq<char>>::empty());
    assert(name != seq!['.'] && name != seq!['.', '.']) by {
        assert(name.len() >= 9);
    }
    assert(dir != seq!['.'] && dir != seq!['.', '.']) by {
        assert(dir[0] == 's');
    }
    assert(split_seq(p, '/') == cs);
    reveal_with_fuel(first_component_error, 3);
    assert(first_component_error(cs) is None);
}

impl DocumentBuilder {
    /// Adds `count` generated files of `lines` lines each, at
    /// `src/file_00.rs`, `src/file_01.rs` and so on.
    pub fn generated_files(self, count: usize, lines: usize) -> (res: DocumentBuilder)
        requires
            lines < usize::MAX,
            self@.files.len() + count <= usize::MAX,
        ensures
            res@.repo_root == self@.repo_root,
            res@.overrides == self@.overrides,
            res@.files.len() == self@.files.len() + count,
            res@.files.take(self@.files.len() as int) == self@.files,
            forall|i: int|
                0 <= i < count ==> generated_file(
                    #[trigger] res@.files[self@.files.len() + i],
                    generated_path(i as nat),
                    lines,
                ),
    {
        let ghost start = self@;
        let mut builder = self;
        let mut index: usize = 0;
        while index < count
            invariant
                index <= count,
                lines < usize::MAX,
                start.files.len() + count <= usize::MAX,
                builder@.repo_root == start.repo_root,
                builder@.overrides == start.overrides,
                builder@.files.len() == start.files.len() + index,
                builder@.files.take(start.files.len() as int) == start.files,
                forall|i: int|
                    0 <= i < index ==> generated_file(
                        #[trigger] builder@.files[start.files.len() + i],
                        generated_path(i as nat),
                        lines,
                    ),
            decreases count - index,
        {
            let mut path: Vec<char> = Vec::new();
            push_text(&mut path, "src/file_");
            if index < 10 {
                path.push('0');
            }
            push_decimal(&mut path, index as u64);
            push_text(&mut path, ".rs");
            proof {
                reveal_strlit("src/file_");
                reveal_strlit(".rs");
                assert(path@ =~= generated_path(index as nat));
                lemma_generated_path_valid(index as nat);
            }
            let text = string_from_chars(path.as_slice());
            let ghost before = builder@;
            builder = builder.generated(text.as_str(), lines);
            proof {
                assert forall|i: int| 0 <= i < index + 1 implies generated_file(
                    #[trigger] builder@.files[start.files.len() + i],
                    generated_path(i as nat),
                    lines,
                ) by {
                    if i < index {
                        assert(builder@.files[start.files.len() + i] == before.files.take(
                            before.files.len() as int,
                        )[start.files.len() + i]);
                    }
                }
                assert(builder@.files.take(start.files.len() as int) =~= start.files) by {
                    assert forall|k: int| 0 <= k < start.files.len() implies builder@.files[k]
                        == start.files[k] by {
                        assert(builder@.files.take(before.files.len() as int)[k] == before.files[k]);
                        assert(before.files.take(start.files.len() as int)[k] == start.files[k]);
                    }
                }
            }
            index = index + 1;
        }
        builder
    }

    /// Adds a generated added file of `lines` numbered lines.
    pub fn generated(self, path: &str, lines: usize) -> (res: DocumentBuilder)
        requires
            path_error(path@) is None,
            lines < usize::MAX,
        ensures
            res@.repo_root == self@.repo_root,
            res@.overrides == self@.overrides,
            res@.files.len() == self@.files.len() + 1,
            res@.files.take(self@.files.len() as int) == self@.files,
            generated_file(res@.files.last(), path@, lines),
    {
        let stem = stem_of(path);
        let mut patch_lines: Vec<PatchLine> = Vec::new();
        let mut n: usize = 1;
        while n <= lines
            invariant
                1 <= n <= lines + 1,
                lines < usize::MAX,
                stem@ == generated_stem(path@),
                patch_lines@.len() == n - 1,
                forall|k: int|
                    0 <= k < n - 1 ==> {
                        let l = #[trigger] patch_lines@[k];
                        &&& l.kind == crate::model::PatchLineKind::Added
                        &&& l.text@ == generated_text(generated_stem(path@), (k + 1) as nat)
                        &&& l.old_line_no is None
                        &&& l.new_line_no == Some((k + 1) as usize)
                        &&& !l.no_newline
                    },
            decreases lines + 1 - n,
        {
            let mut text: Vec<char> = Vec::new();
            push_text(&mut text, "let ");
            crate::text::push_all(&mut text, stem.as_slice());
            push_text(&mut text, "_value_");
            push_decimal(&mut text, n as u64);
            push_text(&mut text, " = ");
            push_decimal(&mut text, n as u64);
            push_text(&mut text, ";");
            proof {
                assert(text@ =~= generated_text(stem@, n as nat));
            }
            patch_lines.push(PatchLine::added(string_from_chars(text.as_slice()), n));
            n = n + 1;
        }
        let mut header: Vec<char> = Vec::new();
        push_text(&mut header, "@@ -0,0 +1,");
        push_decimal(&mut header, lines as u64);
        push_text(&mut header, " @@");
        let p = fixture_path(path);
        let file = FileDiff {
            old_path: None,
            path: p,
            status: FileStatus::Added,
            staged: StageState::Unstaged,
            hunks: vec![
                Hunk {
                    header: string_from_chars(header.as_slice()),
                    function_context: None,
                    old_start: 0,
                    old_count: 0,
                    new_start: 1,
                    new_count: lines,
                    lines: patch_lines,
                },
            ],
            binary: false,
            mode: None,
            no_newline_at_end: false,
            omitted_bytes: None,
            old_source: FileDiff::uncaptured_source(FileStatus::Added, DiffSide::Old),
            new_source: FileDiff::uncaptured_source(FileStatus::Added, DiffSide::New),
        };
        let res = self.file(file);
        proof {
            assert(res@.files.take(self@.files.len() as int) =~= self@.files);
            assert(header@ =~= "@@ -0,0 +1,"@ + decimal(lines as nat) + " @@"@);
        }
        res
    }
}

} // verus!
