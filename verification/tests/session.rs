use clankerdiff_core::presentation::{Layout, RowKind, ViewMode};
use clankerdiff_core::testing::DocumentBuilder;
use clankerdiff_core::{
    CommentDraft, DiffDocument, DiffSide, DiffSnapshot, FileDiff, RepoPath, ReviewSession, SourceDocument,
    SourceKey,
};
use std::sync::Arc;

fn session() -> ReviewSession {
    ReviewSession::new(Arc::new(DiffDocument {
        repo_root: "/repo".into(),
        files: vec![
            FileDiff::from_texts("a.rs", "one\ntwo\n", "ONE\nTWO\n").unwrap(),
            FileDiff::from_texts("b.rs", "keep\n", "kept\n").unwrap(),
        ],
    }))
}

#[test]
fn selection_starts_on_a_commentable_row() {
    let session = session();
    assert_eq!(session.selected_file(), Some(0));
    assert!(session.selected_anchor().is_some());
}

#[test]
fn navigation_clamps_at_both_ends() {
    let mut session = session();
    let first = session.selected_row().unwrap();
    session.move_row(-5);
    assert_eq!(session.selected_row(), Some(first));
    session.move_row(1_000);
    let last = session.selected_row().unwrap();
    session.move_row(1_000);
    assert_eq!(session.selected_row(), Some(last));
    assert!(session.selected_anchor().is_some());
}

#[test]
fn file_movement_resets_the_row_and_draft() {
    let mut session = session();
    assert!(session.begin_draft(None));
    assert_eq!(session.move_file(1), Some(1));
    assert!(session.draft().is_none());
    assert_eq!(session.move_file(9), Some(1));
    assert_eq!(session.move_file(-9), Some(0));
}

#[test]
fn split_selection_can_target_the_removed_side() {
    let mut session = session();
    session.set_view_mode(ViewMode::Split);
    assert_eq!(session.layout(), Layout::Split);
    assert!(session.set_selected_side(DiffSide::Old));
    assert_eq!(session.selected_anchor().map(|anchor| anchor.side), Some(DiffSide::Old));
    assert!(session.set_selected_side(DiffSide::New));
    assert_eq!(session.selected_anchor().map(|anchor| anchor.side), Some(DiffSide::New));
}

#[test]
fn selection_side_follows_cells_available_on_each_row() {
    let document = Arc::new(DiffDocument {
        repo_root: "/repo".into(),
        files: vec![FileDiff::from_texts("a.rs", "old\n", "new\nextra\n").unwrap()],
    });
    let mut session = ReviewSession::new(document);
    session.set_view_mode(ViewMode::Split);
    assert!(session.set_selected_side(DiffSide::Old));
    session.move_row(1);
    assert_eq!(session.selected_side(), DiffSide::New);
    assert!(!session.set_selected_side(DiffSide::Old));
    assert_eq!(session.selected_side(), DiffSide::New);
}

#[test]
fn auto_mode_only_rebuilds_when_the_layout_changes() {
    let mut session = session();
    assert!(session.set_split_when_auto(true));
    assert_eq!(session.layout(), Layout::Split);
    assert!(!session.set_split_when_auto(true));
    assert!(session.set_view_mode(ViewMode::Split));
    assert!(!session.set_split_when_auto(false));
    assert_eq!(session.layout(), Layout::Split);
}

#[test]
fn drafts_round_trip_through_the_review() {
    let mut session = session();
    assert!(session.begin_draft(None));
    session.draft_mut().unwrap().insert("please fix");
    let id = session.submit_draft().unwrap();
    assert_eq!(session.review().len(), 1);
    assert_eq!(session.comment_id_at_selection(), Some(id));

    assert!(session.begin_draft(Some(id)));
    assert_eq!(session.draft().unwrap().body(), "please fix");
    session.draft_mut().unwrap().insert(" now");
    assert_eq!(session.submit_draft(), Some(id));
    assert_eq!(session.review().comment(id).unwrap().body, "please fix now");
    assert_eq!(session.review().len(), 1);

    assert!(session.delete_comment_at_selection());
    assert!(session.review().is_empty());
}

#[test]
fn a_blank_draft_adds_nothing() {
    let mut session = session();
    assert!(session.begin_draft(None));
    session.draft_mut().unwrap().insert("   ");
    assert_eq!(session.submit_draft(), None);
    assert!(session.review().is_empty());
}

#[test]
fn draft_editing_is_utf8_safe() {
    let mut session = session();
    session.begin_draft(None);
    let draft = session.draft_mut().unwrap();
    draft.insert("a\u{754c}b");
    draft.move_cursor_left();
    draft.delete_before_cursor();
    assert_eq!(draft.body(), "ab");
    draft.move_cursor_to_start();
    draft.delete_at_cursor();
    assert_eq!(draft.body(), "b");
    draft.move_cursor_to_end();
    assert_eq!(draft.cursor(), 1);
}

fn full_file_session() -> ReviewSession {
    let old = (1..=60).map(|line| format!("old {line}\n")).collect::<String>();
    let new = old.replace("old 31\n", "new 31\n");
    let document = DocumentBuilder::new().changed_with_hunk_window("a.rs", &old, &new, 28..=34).build();
    let path = RepoPath::new("a.rs").unwrap();
    let sources = [
        (SourceKey::new(path.clone(), DiffSide::Old), Ok(Arc::new(SourceDocument::new(&old).unwrap()))),
        (SourceKey::new(path, DiffSide::New), Ok(Arc::new(SourceDocument::new(&new).unwrap()))),
    ]
    .into_iter()
    .collect();
    ReviewSession::from_snapshot(DiffSnapshot::from_parts(document, sources))
}

#[test]
fn eager_full_file_projection_keeps_expanded_lines_non_commentable() {
    let mut session = full_file_session();
    let selected = session.selected_source_line().unwrap();
    assert!(session.toggle_full_file());
    assert_eq!(session.selected_source_line(), Some(selected));
    let expanded = session
        .presentation()
        .rows(0..session.presentation().row_count())
        .iter()
        .position(|row| row.kind == RowKind::ExpandedContext)
        .unwrap();
    assert!(session.select_row(expanded));
    let expanded_location = session.selected_source_line().unwrap();
    assert!(session.selected_anchor().is_none());
    assert!(!session.begin_draft(None));
    assert!(session.toggle_full_file());
    assert!(session.toggle_full_file());
    assert_eq!(session.selected_source_line(), Some(expanded_location));
}

#[test]
fn document_replacement_preserves_an_existing_patch_selection_and_draft() {
    let mut session = session();
    session.move_row(2);
    let anchor = session.selected_anchor().unwrap();
    assert!(session.begin_draft(None));
    session.draft_mut().unwrap().insert("still editing");
    let document = session.document().clone();
    session.set_document(document);
    assert_eq!(session.selected_anchor(), Some(anchor));
    assert_eq!(session.draft().map(CommentDraft::body), Some("still editing"));
}

#[test]
fn document_replacement_drops_a_draft_when_content_changes_at_the_same_line() {
    let mut session = session();
    assert!(session.begin_draft(None));
    session.draft_mut().unwrap().insert("stale draft");
    let replacement = Arc::new(DiffDocument {
        repo_root: "/repo".into(),
        files: vec![FileDiff::from_texts("a.rs", "different\ntwo\n", "CHANGED\nTWO\n").unwrap()],
    });
    session.set_document(replacement);
    assert!(session.draft().is_none());
}

#[test]
fn replacing_the_document_keeps_the_selected_path() {
    let mut session = session();
    session.move_file(1);
    let document = session.document().clone();
    session.set_document(document);
    assert_eq!(session.selected_file(), Some(1));
}
