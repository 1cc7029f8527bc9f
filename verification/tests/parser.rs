use clankerdiff_core::git_diff::parse_git_diff;
use clankerdiff_core::parser::{parse_porcelain_v1_z, UntrackedFile};
use clankerdiff_core::{DiffDocument, DiffError, DiffScope, FileStatus, RepoPath, StageState};

#[test]
fn parses_text_rename_modes_and_no_newline() {
    let patch = b"diff --git a/old.rs b/new.rs\nsimilarity index 80%\nrename from old.rs\nrename to new.rs\nold mode 100644\nnew mode 100755\n--- a/old.rs\n+++ b/new.rs\n@@ -1 +1 @@ function\n-old\n+new\n\\ No newline at end of file\n";
    let files = parse_git_diff(patch).unwrap();
    assert_eq!(files[0].status, FileStatus::Renamed);
    assert_eq!(files[0].path.as_str(), "new.rs");
    assert_eq!(files[0].mode.as_ref().unwrap().new.as_deref(), Some("100755"));
    assert!(files[0].hunks[0].lines[1].no_newline);
    assert!(files[0].no_newline_at_end);
    assert_eq!(files[0].hunks[0].function_context.as_deref(), Some("function"));
    assert_eq!(files[0].hunks[0].header, "@@ -1 +1 @@ function");
}

#[test]
fn oversized_tracked_patches_are_omitted() {
    let mut patch = String::from(
        "diff --git a/generated.c b/generated.c\n--- a/generated.c\n+++ b/generated.c\n@@ -1,20001 +0,0 @@\n",
    );
    for _ in 0..=20_000 {
        patch.push_str("-generated line\n");
    }

    let files = parse_git_diff(patch.as_bytes()).unwrap();
    assert_eq!(files.len(), 1);
    assert!(files[0].hunks.is_empty());
    assert!(files[0].omitted_bytes.is_some());
    assert!(!files[0].binary);
}

#[test]
fn numbers_lines_on_the_sides_they_belong_to() {
    let patch = b"diff --git a/a.rs b/a.rs\n--- a/a.rs\n+++ b/a.rs\n@@ -1,2 +1,2 @@\n keep\n-old\n+new\n";
    let lines = &parse_git_diff(patch).unwrap()[0].hunks[0].lines;
    assert_eq!((lines[0].old_line_no, lines[0].new_line_no), (Some(1), Some(1)));
    assert_eq!((lines[1].old_line_no, lines[1].new_line_no), (Some(2), None));
    assert_eq!((lines[2].old_line_no, lines[2].new_line_no), (None, Some(2)));
}

#[test]
fn parses_nul_status_with_spaces_and_rename() {
    let status = b" M src/a file.rs\0R  new.rs\0old.rs\0?? unicode-\xc3\xa9.rs\0";
    let entries = parse_porcelain_v1_z(status).unwrap();
    assert_eq!(entries.len(), 3);
    assert_eq!(entries[0].staged, StageState::Unstaged);
    assert_eq!(entries[1].staged, StageState::Staged);
    assert_eq!(entries[1].old_path.as_ref().unwrap().as_str(), "old.rs");
    assert_eq!(entries[2].status, FileStatus::Untracked);
    assert_eq!(entries[2].staged, StageState::Unstaged);
}

#[test]
fn parses_copy_binary_mode_only_and_quoted_paths() {
    let patch = b"diff --git a/original.rs b/copied.rs\nsimilarity index 100%\ncopy from original.rs\ncopy to copied.rs\ndiff --git \"a/tab\\tname.bin\" \"b/tab\\tname.bin\"\nindex 1234567..abcdef0 100644\nBinary files \"a/tab\\tname.bin\" and \"b/tab\\tname.bin\" differ\ndiff --git a/script.sh b/script.sh\nold mode 100644\nnew mode 100755\n";
    let files = parse_git_diff(patch).unwrap();
    assert_eq!(files.len(), 3);
    assert_eq!(files[0].status, FileStatus::Copied);
    assert_eq!(files[0].old_path.as_ref().unwrap().as_str(), "original.rs");
    assert!(files[1].binary);
    assert_eq!(files[1].path.as_str(), "tab\tname.bin");
    assert_eq!(files[2].mode.as_ref().unwrap().old.as_deref(), Some("100644"));
}

#[test]
fn merges_status_and_untracked_text_and_binary() {
    let patch = b"diff --git a/a.rs b/a.rs\n--- a/a.rs\n+++ b/a.rs\n@@ -1 +1 @@\n-old\n+new\n";
    let document = DiffDocument::from_git_outputs_with_untracked(
        "/repo",
        patch,
        b"MM a.rs\0?? note.txt\0?? data.bin\0",
        DiffScope::Both,
        &[
            UntrackedFile {
                path: RepoPath::new("note.txt").unwrap(),
                contents: b"hello\n".to_vec(),
                omitted_bytes: None,
            },
            UntrackedFile {
                path: RepoPath::new("data.bin").unwrap(),
                contents: b"a\0b".to_vec(),
                omitted_bytes: None,
            },
        ],
    )
    .unwrap();
    assert_eq!(document.files[0].staged, StageState::PartiallyStaged);
    assert_eq!(document.files[1].status, FileStatus::Untracked);
    assert!(!document.files[1].binary);
    assert!(document.files[2].binary);
}

#[test]
fn represents_omitted_untracked_content_without_diffing_it() {
    let document = DiffDocument::from_git_outputs_with_untracked(
        "/repo",
        b"",
        b"?? large.bin\0",
        DiffScope::Unstaged,
        &[UntrackedFile {
            path: RepoPath::new("large.bin").unwrap(),
            contents: Vec::new(),
            omitted_bytes: Some(10_000_000),
        }],
    )
    .unwrap();
    assert!(document.files[0].binary);
    assert_eq!(document.files[0].omitted_bytes, Some(10_000_000));
    assert!(document.files[0].hunks.is_empty());
}

#[test]
fn rejects_non_utf8_path() {
    let patch = b"diff --git a/ok b/\xff\n--- a/ok\n+++ b/\xff\n@@ -1 +1 @@\n-a\n+b\n";
    assert!(matches!(parse_git_diff(patch), Err(DiffError::UnsupportedPathEncoding { .. })));
}

#[test]
fn rejects_malformed_porcelain_records() {
    assert!(matches!(parse_porcelain_v1_z(b"XY\0"), Err(DiffError::InvalidPorcelainEntry)));
    assert!(matches!(parse_porcelain_v1_z(b"R  renamed.rs\0"), Err(DiffError::InvalidPorcelainEntry)));
}

#[test]
fn blank_diff_has_no_files_and_scope_sets_fallback_stage() {
    assert!(parse_git_diff(b" \n\t\r\n").unwrap().is_empty());
    let patch = b"diff --git a/a.rs b/a.rs\n--- a/a.rs\n+++ b/a.rs\n@@ -1 +1 @@\n-old\n+new\n";
    let document = DiffDocument::from_git_outputs("/repo", patch, b"", DiffScope::Staged).unwrap();
    assert_eq!(document.repo_root, "/repo");
    assert_eq!(document.files[0].staged, StageState::Staged);
    assert_eq!(document.files[0].status, FileStatus::Modified);
}

#[test]
fn status_entries_match_previous_paths_and_refine_modified_status() {
    let patch = b"diff --git a/a.rs b/a.rs\n--- a/a.rs\n+++ b/a.rs\n@@ -1 +1 @@\n-old\n+new\n";
    let document = DiffDocument::from_git_outputs("/r", patch, b"A  b.rs\0R  c.rs\0a.rs\0", DiffScope::Both).unwrap();
    assert_eq!(document.files[0].status, FileStatus::Renamed);
    assert_eq!(document.files[0].staged, StageState::Staged);
}

#[test]
fn untracked_duplicates_are_added_once() {
    let file = || UntrackedFile { path: RepoPath::new("n.txt").unwrap(), contents: b"x".to_vec(), omitted_bytes: None };
    let document =
        DiffDocument::from_git_outputs_with_untracked("/r", b"", b"", DiffScope::Both, &[file(), file()]).unwrap();
    assert_eq!(document.files.len(), 1);
    assert_eq!(document.files[0].status, FileStatus::Untracked);
    assert!(document.files[0].no_newline_at_end);
}

#[test]
fn porcelain_path_errors_report_the_valid_prefix() {
    assert_eq!(
        parse_porcelain_v1_z(b" M ab\xffc\0"),
        Err(DiffError::UnsupportedPathEncoding { valid_up_to: 2 })
    );
}
