use clankerdiff_core::{
    format_review, AgentFeedbackOptions, DiffDocument, DiffSide, FileDiff, LineAnchor, Review,
};

fn anchor(file: &FileDiff, side: DiffSide, line: usize) -> LineAnchor {
    LineAnchor::for_line(file, side, 0, line).expect("anchor")
}

#[test]
fn crud_and_round_trip() {
    let file = FileDiff::from_texts("a.rs", "old\n", "new\n").unwrap();
    let mut review = Review::default();
    let id = review.add_comment(anchor(&file, DiffSide::New, 1), "fix");
    assert!(review.edit_comment(id, "fix it"));
    assert_eq!(review.comment(id).unwrap().body, "fix it");
    assert_eq!(review.len(), 1);
    assert!(review.remove_comment(id).is_some());
    assert!(review.remove_comment(id).is_none());
}

#[test]
fn missing_is_outdated() {
    let file = FileDiff::from_texts("a.rs", "old\n", "new\n").unwrap();
    let mut review = Review::default();
    review.add_comment(anchor(&file, DiffSide::New, 1), "why");
    review.reconcile(&DiffDocument::empty());
    assert!(review.comments()[0].outdated);
    assert_eq!(review.outdated_count(), 1);
}

#[test]
fn moved_content_reattaches_by_nearest_content_fingerprint() {
    let before = FileDiff::from_texts("a.rs", "a\nb\n", "a\ntarget\nb\n").unwrap();
    let mut review = Review::default();
    review.add_comment_with_context(anchor(&before, DiffSide::New, 1), "target", "keep this");

    let after = FileDiff::from_texts("a.rs", "a\nb\n", "a\ninserted\ntarget\nb\n").unwrap();
    review.reconcile(&DiffDocument {
        repo_root: String::new(),
        files: vec![after],
    });

    assert!(!review.comments()[0].outdated);
    assert_eq!(review.comments()[0].anchor.new_line_no, Some(3));
    assert_eq!(review.comments()[0].context.line_text, "target");
}

#[test]
fn an_unchanged_document_restores_exact_anchors() {
    let file = FileDiff::from_texts("a.rs", "a\nb\n", "a\nc\n").unwrap();
    let target = anchor(&file, DiffSide::New, 2);
    let mut review = Review::default();
    review.add_comment(target.clone(), "note");
    review.reconcile(&DiffDocument {
        repo_root: String::new(),
        files: vec![file],
    });
    assert!(!review.comments()[0].outdated);
    assert_eq!(review.comments()[0].anchor, target);
}

#[test]
fn formatting_is_deterministic_and_can_drop_outdated() {
    let file = FileDiff::from_texts("a.rs", "old\n", "new\n").unwrap();
    let mut review = Review::default();
    review.add_comment_with_context(anchor(&file, DiffSide::New, 1), "new", "second\nline");
    review.add_comment_with_context(anchor(&file, DiffSide::Old, 0), "old", "first");
    let formatted = format_review(&review, &AgentFeedbackOptions::default());
    assert!(formatted.find("(removed)").unwrap() < formatted.find("(added)").unwrap());
    assert!(formatted.contains("> second\n> line"));

    review.reconcile(&DiffDocument::empty());
    let hidden = format_review(
        &review,
        &AgentFeedbackOptions {
            include_outdated: false,
            ..AgentFeedbackOptions::default()
        },
    );
    assert!(!hidden.contains("second"));
}

#[test]
fn formatted_feedback_has_exact_shape() {
    let file = FileDiff::from_texts("a.rs", "old\n", "new\n").unwrap();
    let mut review = Review::default();
    review.add_comment_with_context(anchor(&file, DiffSide::New, 1), "new", "why");
    let formatted = format_review(
        &review,
        &AgentFeedbackOptions {
            intro: "Intro".to_owned(),
            include_outdated: true,
        },
    );
    assert_eq!(formatted, "Intro\n\n## `a.rs`\n\n**Line 1 (added):** `new`\n> why");
}

#[test]
fn added_comment_is_found_by_its_identifier() {
    let file = FileDiff::from_texts("a.rs", "old\n", "new\n").unwrap();
    let mut review = Review::default();
    let first = review.add_comment(anchor(&file, DiffSide::New, 1), "one");
    let second = review.add_comment(anchor(&file, DiffSide::Old, 0), "two");
    assert_eq!((first, second), (0, 1));
    assert_eq!(review.comment(second).unwrap().body, "two");
    assert!(!review.edit_comment(7, "nothing"));
}
