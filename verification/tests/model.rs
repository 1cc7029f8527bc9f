use clankerdiff_core::{
    DiffDocument, DiffScope, DiffSide, FileDiff, FileStatus, LineAnchor, PatchLineKind, RepoPath,
    RepoPathError, SourceDocument,
};

#[test]
fn exact_identity_and_normalized_lines_are_independent() {
    let lf = SourceDocument::try_from_text("a\nb\n").unwrap();
    let crlf = SourceDocument::try_from_text("a\r\nb\r\n").unwrap();
    assert_eq!(lf.line(1), crlf.line(1));
    assert_eq!(lf.line(2), crlf.line(2));
    assert_eq!(lf.sequence_id(), crlf.sequence_id());
    assert_ne!(lf.content_id(), crlf.content_id());
    assert_eq!(lf.line(1).as_deref(), Some("a"));
    assert_eq!(lf.line(2).as_deref(), Some("b"));
    assert_eq!(lf.line(3), None);
    assert!(lf.trailing_newline());
}

#[test]
fn contiguous_documents_provide_stable_byte_coordinates() {
    let document = SourceDocument::new("α\r\nb\n").unwrap();
    assert_eq!(document.text(), "α\r\nb\n");
    assert_eq!(document.line_starts(), &[0, 4]);
    assert_eq!(document.line_span(1), Some(0..2));
    assert_eq!(document.line_span(2), Some(4..5));
    assert_eq!(document.line(1).as_deref(), Some("α"));
    assert_eq!(document.identity(), document.content_id());
}

#[test]
fn empty_and_blank_files_have_distinct_line_models() {
    assert_eq!(SourceDocument::try_from_text("").unwrap().line_count(), 0);
    let blank = SourceDocument::try_from_text("\n").unwrap();
    assert_eq!(blank.line_count(), 1);
    assert_eq!(blank.line(1).as_deref(), Some(""));
}

#[test]
fn deterministic_and_side_sensitive() {
    let f = FileDiff::from_texts("a.rs", "x\n", "y\n").unwrap();
    let a = LineAnchor::for_line(&f, DiffSide::Old, 0, 0).unwrap();
    let b = LineAnchor::for_line(&f, DiffSide::New, 0, 1).unwrap();
    assert_ne!(a.fingerprint, b.fingerprint);
    assert_eq!(a, LineAnchor::for_line(&f, DiffSide::Old, 0, 0).unwrap());
}

#[test]
fn model_validates_relative_utf8_paths() {
    assert!(RepoPath::new("src/é file.rs").is_ok());
    assert_eq!(RepoPath::new("../secret"), Err(RepoPathError::Traversal));
    assert_eq!(RepoPath::new("/absolute"), Err(RepoPathError::Absolute));
    assert_eq!(RepoPath::new("a//b"), Err(RepoPathError::Empty));
    assert_eq!(RepoPath::new("a\0b"), Err(RepoPathError::Nul));
    assert_eq!(RepoPath::new("a\\\\b").unwrap().as_str(), "a\\\\b");
}

#[test]
fn model_builds_canonical_numbered_diff() {
    let diff = FileDiff::from_texts("main.rs", "keep\nold", "keep\nnew").unwrap();
    assert_eq!(diff.status, FileStatus::Modified);
    assert_eq!((diff.additions(), diff.deletions()), (1, 1));
    assert!(diff.no_newline_at_end);
    assert_eq!(diff.hunks[0].lines[0].kind, PatchLineKind::Context);
    assert_eq!(diff.hunks[0].lines[2].new_line_no, Some(2));
}

#[test]
fn model_strips_carriage_returns_like_str_lines() {
    let diff = FileDiff::from_texts("main.rs", "a\r\n", "b\r\n").unwrap();
    assert_eq!(diff.hunks[0].lines[0].text.as_str(), "a");
    assert_eq!(diff.hunks[0].lines[1].text.as_str(), "b");
}

#[test]
fn model_parses_and_renders_scopes() {
    assert_eq!("staged".parse::<DiffScope>().unwrap(), DiffScope::Staged);
    assert_eq!(DiffScope::Both.as_str(), "both");
    assert!("nope".parse::<DiffScope>().is_err());
    assert_eq!(DiffScope::Both.next(), DiffScope::Unstaged);
}

#[test]
fn model_serializes_owned_model() {
    let document = DiffDocument::empty();
    assert_eq!(document.clone(), document);
}

#[test]
fn repo_path_validates_relative_utf8_paths() -> Result<(), RepoPathError> {
    assert!(RepoPath::new("src/é file.rs").is_ok());
    assert_eq!(RepoPath::new("../secret"), Err(RepoPathError::Traversal));
    assert_eq!(RepoPath::new("/absolute"), Err(RepoPathError::Absolute));
    assert_eq!(RepoPath::new("a//b"), Err(RepoPathError::Empty));
    assert_eq!(RepoPath::new("a\0b"), Err(RepoPathError::Nul));
    assert_eq!(RepoPath::new("a\\\\b")?.as_str(), "a\\\\b");
    Ok(())
}
