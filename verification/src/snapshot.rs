//! Immutable review snapshots: patch metadata and complete source documents.
use std::sync::Arc;
use vstd::prelude::*;
use crate::content::{SourceDocument, SourceKey, SourceUnavailable};
use crate::file_diff::{built_from_texts, captured, source_view, DiffDocument, DiffError, FileDiff, SourceResult};
use crate::model::{DiffSide, FileStatus};
use crate::presentation::{key_view, lookup, set_source_entry, source_entries, source_entry, with_entry};
use crate::repo_path::path_error;

verus! {

/// Per-side source results keyed by review path: the first entry with a key
/// is the one that counts.
pub type SnapshotSources = Vec<(SourceKey, SourceResult)>;

/// A renderer-independent immutable review snapshot.
#[derive(Debug)]
pub struct DiffSnapshot {
    document: Arc<DiffDocument>,
    sources: SnapshotSources,
}

/// The mathematical content of a snapshot.
pub struct SnapshotView {
    pub document: DiffDocument,
    pub sources: Seq<((Seq<char>, DiffSide), SourceResult)>,
}

impl View for DiffSnapshot {
    type V = SnapshotView;

    closed spec fn view(&self) -> SnapshotView {
        SnapshotView { document: *self.document, sources: source_entries(self.sources@) }
    }
}

/// The sources a snapshot built from texts records, after its first `n` files.
pub open spec fn text_sources(files: Seq<(&str, &str, &str)>, built: Seq<FileDiff>, n: int) -> Seq<
    ((Seq<char>, DiffSide), SourceResult),
>
    decreases n,
{
    if n <= 0 {
        Seq::empty()
    } else {
        let prev = text_sources(files, built, n - 1);
        let f = built[n - 1];
        let with_old = with_entry(prev, (f.path@, DiffSide::Old), f.old_source);
        with_entry(with_old, (f.path@, DiffSide::New), f.new_source)
    }
}

impl DiffSnapshot {
    pub fn new(document: DiffDocument, sources: SnapshotSources) -> (res: DiffSnapshot)
        ensures
            res@.document == document,
            res@.sources == source_entries(sources@),
    {
        DiffSnapshot { document: Arc::new(document), sources }
    }

    pub fn from_parts(document: Arc<DiffDocument>, sources: SnapshotSources) -> (res: DiffSnapshot)
        ensures
            res@.document == *document,
            res@.sources == source_entries(sources@),
    {
        DiffSnapshot { document, sources }
    }

    /// Builds a complete snapshot from full old/new text pairs, deriving
    /// grouped hunks and retaining both sides; sides over the complete-file
    /// limits are kept as unavailable reasons. The first invalid path is the
    /// error.
    pub fn from_texts(files: &Vec<(&str, &str, &str)>) -> (res: Result<DiffSnapshot, DiffError>)
        ensures
            match res {
                Ok(snap) => {
                    &&& snap@.document.repo_root@ == Seq::<char>::empty()
                    &&& snap@.document.files@.len() == files@.len()
                    &&& forall|i: int|
                        0 <= i < files@.len() ==> path_error(files@[i].0@) is None && built_from_texts(
                            #[trigger] snap@.document.files@[i],
                            files@[i].0@,
                            files@[i].1@,
                            files@[i].2@,
                        )
                    &&& snap@.sources == text_sources(files@, snap@.document.files@, files@.len() as int)
                },
                Err(e) => exists|i: int|
                    #![trigger files@[i]]
                    0 <= i < files@.len() && (forall|j: int|
                        0 <= j < i ==> #[trigger] path_error(files@[j].0@) is None) && (
                    path_error(files@[i].0@) matches Some(p) && e == DiffError::InvalidPath(p)),
            },
    {
        let mut documents: Vec<FileDiff> = Vec::new();
        let mut sources: SnapshotSources = Vec::new();
        let mut i: usize = 0;
        while i < files.len()
            invariant
                i <= files@.len(),
                documents@.len() == i,
                forall|k: int| 0 <= k < i ==> path_error(#[trigger] files@[k].0@) is None,
                forall|k: int|
                    0 <= k < i ==> built_from_texts(
                        #[trigger] documents@[k],
                        files@[k].0@,
                        files@[k].1@,
                        files@[k].2@,
                    ),
                source_entries(sources@) == text_sources(files@, documents@, i as int),
            decreases files@.len() - i,
        {
            let (path, old, new) = files[i];
            let file = match FileDiff::from_texts(path, old, new) {
                Ok(f) => f,
                Err(e) => {
                    return Err(e);
                },
            };
            let ghost before = documents@;
            set_source_entry(
                &mut sources,
                SourceKey::new(file.path.duplicate(), DiffSide::Old),
                crate::file_diff::duplicate_source(&file.old_source),
            );
            set_source_entry(
                &mut sources,
                SourceKey::new(file.path.duplicate(), DiffSide::New),
                crate::file_diff::duplicate_source(&file.new_source),
            );
            documents.push(file);
            proof {
                assert forall|k: int| 0 <= k < i implies documents@[k] == before[k] by {}
                assert(text_sources(files@, documents@, i as int) == text_sources(files@, before, i as int)) by {
                    lemma_text_sources_prefix(files@, before, documents@, i as int);
                }
            }
            i = i + 1;
        }
        Ok(DiffSnapshot::new(DiffDocument { repo_root: String::new(), files: documents }, sources))
    }

    pub fn document(&self) -> (res: &Arc<DiffDocument>)
        ensures
            **res == self@.document,
    {
        &self.document
    }

    /// The source recorded for a key.
    pub fn source(&self, key: &SourceKey) -> (res: Option<&SourceResult>)
        ensures
            match lookup(self@.sources, key_view(*key)) {
                Some(r) => res == Some(&r),
                None => res is None,
            },
    {
        source_entry(&self.sources, key)
    }

    pub fn sources(&self) -> (res: &SnapshotSources)
        ensures
            source_entries(res@) == self@.sources,
    {
        &self.sources
    }

    pub fn into_parts(self) -> (res: (Arc<DiffDocument>, SnapshotSources))
        ensures
            *res.0 == self@.document,
            source_entries(res.1@) == self@.sources,
    {
        (self.document, self.sources)
    }
}

proof fn lemma_text_sources_prefix(
    files: Seq<(&str, &str, &str)>,
    a: Seq<FileDiff>,
    b: Seq<FileDiff>,
    n: int,
)
    requires
        0 <= n <= a.len(),
        n <= b.len(),
        forall|k: int| 0 <= k < n ==> a[k] == b[k],
    ensures
        text_sources(files, a, n) == text_sources(files, b, n),
    decreases n,
{
    if n > 0 {
        lemma_text_sources_prefix(files, a, b, n - 1);
    }
}

} // verus!
