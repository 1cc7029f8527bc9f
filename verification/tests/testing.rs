use clankerdiff_core::testing::{diff_document, file_diff, hunk, patch_line, DocumentBuilder};
use clankerdiff_core::{DiffDocument, DiffSide, FileDiff, FileStatus, PatchLineKind, SourceUnavailable, StageState};

#[test]
fn changed_with_applies_struct_update_overrides_and_preserves_sources() {
    let document = DocumentBuilder::new()
        .changed_with("src/lib.rs", "old\n", "new\n", |file| FileDiff { staged: StageState::Staged, ..file })
        .source("src/lib.rs", DiffSide::New, Err::<&str, _>(SourceUnavailable::Binary))
        .build();

    let file = &document.files[0];
    assert_eq!(file.staged, StageState::Staged);
    assert_eq!(file.source_document(DiffSide::Old).unwrap().text(), "old\n");
    assert_eq!(file.source_unavailable(DiffSide::New), Some(&SourceUnavailable::Binary));
}

#[test]
fn low_level_factories_support_struct_update_syntax() {
    let file = FileDiff { binary: true, hunks: Vec::new(), ..file_diff() };
    let document = DiffDocument { files: vec![file], ..diff_document() };

    assert!(document.files[0].binary);
}

#[test]
fn common_file_kinds_have_consistent_status_and_sources() {
    let document = DocumentBuilder::new()
        .deleted("deleted.rs", "old\n")
        .untracked("new.rs", "new\n")
        .renamed("old.rs", "renamed.rs", "old\n", "new\n")
        .copied("source.rs", "copy.rs", "old\n", "new\n")
        .build();
    let text = |index: usize, side| {
        document.files[index].source_document(side).expect("fixture source").text().to_owned()
    };

    assert_eq!(document.files[0].status, FileStatus::Deleted);
    assert_eq!(document.files[1].status, FileStatus::Untracked);
    assert_eq!(document.files[2].status, FileStatus::Renamed);
    assert_eq!(document.files[3].status, FileStatus::Copied);
    assert_eq!(document.files[0].source_unavailable(DiffSide::New), Some(&SourceUnavailable::Absent));
    assert_eq!(document.files[1].source_unavailable(DiffSide::Old), Some(&SourceUnavailable::Absent));
    assert_eq!(text(1, DiffSide::New), "new\n");
    assert_eq!(text(2, DiffSide::Old), "old\n");
    assert_eq!(text(2, DiffSide::New), "new\n");
    assert_eq!(text(3, DiffSide::Old), "old\n");
    assert_eq!(text(3, DiffSide::New), "new\n");
}

#[test]
fn builder_defaults_overrides_and_binary_fixtures() {
    let document = DocumentBuilder::default()
        .repo_root("/work")
        .binary("image.png")
        .added("a.rs", "a\n")
        .changed_staged("b.rs", "b\n", "c\n", StageState::PartiallyStaged)
        .source("a.rs", DiffSide::New, Ok("replaced\n"))
        .source("a.rs", DiffSide::New, Ok("again\n"))
        .build();
    assert_eq!(document.repo_root, "/work");
    assert!(document.files[0].binary);
    assert_eq!(document.files[0].source_unavailable(DiffSide::Old), Some(&SourceUnavailable::Binary));
    assert_eq!(document.files[1].status, FileStatus::Added);
    assert_eq!(document.files[1].source_document(DiffSide::New).unwrap().text(), "again\n");
    assert_eq!(document.files[2].staged, StageState::PartiallyStaged);
}

#[test]
fn low_level_factories_have_the_documented_defaults() {
    let line = patch_line();
    assert_eq!(line.kind, PatchLineKind::Added);
    assert_eq!(line.new_line_no, Some(1));
    let hunk = hunk().expect("default hunk");
    assert_eq!(hunk.lines.len(), 2);
    assert_eq!(file_diff().path.as_str(), "src/lib.rs");
    assert_eq!(diff_document().repo_root, "/repo");
}

#[test]
fn generated_files_are_numbered_with_two_digits() {
    let document = DocumentBuilder::new().generated_files(12, 2).build();
    assert_eq!(document.files.len(), 12);
    assert_eq!(document.files[0].path.as_str(), "src/file_00.rs");
    assert_eq!(document.files[9].path.as_str(), "src/file_09.rs");
    assert_eq!(document.files[11].path.as_str(), "src/file_11.rs");
    for file in &document.files {
        assert_eq!(file.status, FileStatus::Added);
        assert_eq!(file.hunks.len(), 1);
        assert_eq!(file.hunks[0].lines.len(), 2);
        assert!(file.hunks[0].lines.iter().all(|line| line.kind == PatchLineKind::Added));
        assert_eq!(file.hunks[0].header, "@@ -0,0 +1,2 @@");
    }
}
