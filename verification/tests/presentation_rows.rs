use clankerdiff_core::content::SourceSequenceId;
use clankerdiff_core::presentation::{
    ContentProjection, DiffPresentation, PresentationOptions, PresentedRow, RowKind, ViewMode,
    MAX_HUNK_SEQUENCE_LINES,
};
use clankerdiff_core::testing::DocumentBuilder;
use clankerdiff_core::{
    DiffDocument, DiffSide, DiffSnapshot, FileDiff, FileStatus, LineAnchor, ModeChange, RepoPath,
    RevealAmount, ReviewSession, SourceDocument, SourceKey, SourceUnavailable, StageState,
};
use std::sync::Arc;

fn document() -> Arc<DiffDocument> {
    Arc::new(DiffDocument {
        repo_root: "/repo".into(),
        files: vec![FileDiff::from_texts("src/a.rs", "same\none\nkeep\ntwo\n", "same\nONE\nkeep\nTWO\nextra\n")
            .unwrap()],
    })
}

fn presentation(view_mode: ViewMode) -> DiffPresentation {
    DiffPresentation::new(document(), PresentationOptions { view_mode, ..PresentationOptions::default() })
}

#[test]
fn hunk_sequences_expose_bounded_side_lines_for_patch_only_cells() {
    let presentation = presentation(ViewMode::Unified);
    let (row, cell) = (0..presentation.row_count())
        .find_map(|index| {
            let row = presentation.row(index)?;
            let cell = row.cell(DiffSide::New)?;
            (cell.text == "ONE").then_some((row, cell))
        })
        .unwrap();
    let sequence = presentation.hunk_sequence(row, cell).unwrap();
    let lines: Vec<&str> = sequence.lines();
    assert_eq!(lines, ["same", "ONE", "keep", "TWO", "extra"]);
    assert_eq!(sequence.target_line, 1);
    assert_eq!(sequence.path, "src/a.rs");
    let chars: Vec<Vec<char>> = lines.iter().map(|line| line.chars().collect()).collect();
    assert_eq!(sequence.id, SourceSequenceId::from_lines(&chars));

    let big = DocumentBuilder::new().generated("src/big.rs", MAX_HUNK_SEQUENCE_LINES + 1).build();
    let presentation = DiffPresentation::new(big, PresentationOptions::default());
    let row = (0..presentation.row_count())
        .filter_map(|index| presentation.row(index))
        .find(|row| row.kind == RowKind::Code)
        .unwrap();
    let cell = row.primary_cell().unwrap();
    assert!(presentation.hunk_sequence(row, cell).is_none(), "oversized hunks degrade to per-line highlighting");
}

#[test]
fn random_access_ranges_are_clamped() {
    let presentation = DiffPresentation::new(document(), PresentationOptions::default());
    assert_eq!(presentation.rows(usize::MAX..usize::MAX).len(), 0);
    assert_eq!(presentation.file_range(0).unwrap(), 0..presentation.row_count());
    assert!(presentation.hunk_range(0, 0).is_some());
    assert_eq!(presentation.language_at(1), "rs");
}

#[test]
fn split_pairs_equal_lines_inside_changed_blocks() {
    let first = presentation(ViewMode::Split);
    let second = presentation(ViewMode::Split);
    let ids = |value: &DiffPresentation| value.rows(0..value.row_count()).iter().map(|row| row.id).collect::<Vec<_>>();
    assert_eq!(ids(&first), ids(&second));
    assert!(first.rows(0..first.row_count()).iter().any(|row| {
        row.left.as_ref().is_some_and(|c| c.text == "keep") && row.right.as_ref().is_some_and(|c| c.text == "keep")
    }));
}

#[test]
fn unified_and_split_expose_all_code_anchors() {
    let unified = presentation(ViewMode::Unified);
    let split = presentation(ViewMode::Split);
    let commentable_cells =
        |value: &DiffPresentation| value.rows(0..value.row_count()).iter().flat_map(PresentedRow::sources).count();
    assert!(split.row_count() <= unified.row_count());
    assert!(commentable_cells(&split) >= commentable_cells(&unified));
}

#[test]
fn anchors_are_resolved_on_demand_and_match_the_document() {
    let presentation = presentation(ViewMode::Unified);
    let index = presentation.file_range(0).unwrap().find(|index| presentation.is_commentable(*index)).unwrap();
    let row = presentation.row(index).unwrap();
    let cell = row.primary_cell().unwrap();
    let source = cell.patch_source.unwrap();
    let anchor = presentation.cell_anchor(row, cell).unwrap();
    assert_eq!(
        anchor,
        LineAnchor::for_line(&presentation.document().files[0], source.side, source.hunk_index, source.line_index)
            .unwrap()
    );
    assert_eq!(presentation.anchor_at(index, source.side), Some(anchor.clone()));
    assert!(presentation.row_shows_anchor(row, &anchor));
    assert_eq!(presentation.row_showing_anchor(&anchor), Some(index));
}

#[test]
fn anchors_do_not_match_rows_from_other_files() {
    let document = Arc::new(DiffDocument {
        repo_root: "/repo".into(),
        files: vec![
            FileDiff::from_texts("a.rs", "old\n", "new\n").unwrap(),
            FileDiff::from_texts("b.rs", "old\n", "new\n").unwrap(),
        ],
    });
    let presentation = DiffPresentation::new(document, PresentationOptions::default());
    let first = presentation.file_range(0).unwrap().find(|index| presentation.is_commentable(*index)).unwrap();
    let second = presentation.file_range(1).unwrap().find(|index| presentation.is_commentable(*index)).unwrap();
    let anchor = presentation.anchor_at(first, DiffSide::New).unwrap();
    assert!(presentation.row_shows_anchor(presentation.row(first).unwrap(), &anchor));
    assert!(!presentation.row_shows_anchor(presentation.row(second).unwrap(), &anchor));
}

#[test]
fn cells_are_addressable_by_side() {
    let split = presentation(ViewMode::Split);
    let row = split.rows(0..split.row_count()).iter().find(|row| row.left.is_some() && row.right.is_some()).unwrap();
    assert_eq!(row.cell(DiffSide::New), row.right.as_ref());
    assert_eq!(row.preferred_cell(DiffSide::Old), row.left.as_ref());
    assert_eq!(row.cells().len(), 2);
    assert!(row.is_commentable());
}

#[test]
fn empty_projection_is_row_for_row_identical_to_the_compatibility_path() {
    for view_mode in [ViewMode::Auto, ViewMode::Unified, ViewMode::Split] {
        let options = PresentationOptions { view_mode, ..PresentationOptions::default() };
        let expected = DiffPresentation::new(document(), options);
        let actual = DiffPresentation::with_sources(document(), options, &ContentProjection::default());
        assert_eq!(expected.rows(0..expected.row_count()), actual.rows(0..actual.row_count()));
    }
}

#[test]
fn split_full_file_projection_orders_both_sources_and_has_stable_row_ids() {
    let old = (1..=60).map(|line| format!("line {line}\n")).collect::<String>();
    let new = old.replace("line 31\n", "changed 31\n");
    let document = DocumentBuilder::new().changed_with_hunk_window("a.rs", &old, &new, 28..=34).build();
    let path = document.files[0].path.clone();
    let mut projection = ContentProjection::default();
    projection.insert_source(
        SourceKey { review_path: path.clone(), side: DiffSide::Old },
        Arc::new(SourceDocument::try_from_text(&old).unwrap()),
    );
    projection.insert_source(
        SourceKey { review_path: path.clone(), side: DiffSide::New },
        Arc::new(SourceDocument::try_from_text(&new).unwrap()),
    );
    projection.set_full_file(path, true);
    let options = PresentationOptions { view_mode: ViewMode::Split, ..PresentationOptions::default() };
    let first = DiffPresentation::with_sources(document.clone(), options, &projection);
    let second = DiffPresentation::with_sources(document, options, &projection);
    let source_lines = |presentation: &DiffPresentation, side| {
        presentation
            .rows(0..presentation.row_count())
            .iter()
            .filter_map(|row| row.cell(side)?.source_line)
            .map(|source| source.line_number)
            .collect::<Vec<_>>()
    };
    assert_eq!(source_lines(&first, DiffSide::Old), (1..=60).collect::<Vec<_>>());
    assert_eq!(source_lines(&first, DiffSide::New), (1..=60).collect::<Vec<_>>());
    assert_eq!(
        first.rows(0..first.row_count()).iter().map(|row| row.id).collect::<Vec<_>>(),
        second.rows(0..second.row_count()).iter().map(|row| row.id).collect::<Vec<_>>()
    );
    assert!(first.rows(0..first.row_count()).iter().any(|row| {
        row.kind == RowKind::ExpandedContext && !row.is_commentable() && row.left.is_some() && row.right.is_some()
    }));
}

#[test]
fn mode_only_full_file_intent_projects_unavailable_and_complete_source() {
    let path = RepoPath::new("script.sh").unwrap();
    let file = FileDiff {
        old_path: Some(path.clone()),
        path: path.clone(),
        status: FileStatus::Modified,
        staged: StageState::Unstaged,
        hunks: Vec::new(),
        binary: false,
        mode: Some(ModeChange { old: Some("100644".into()), new: Some("100755".into()) }),
        no_newline_at_end: false,
        omitted_bytes: None,
        old_source: Err(SourceUnavailable::NotCaptured),
        new_source: Err(SourceUnavailable::NotCaptured),
    };
    let document = Arc::new(DiffDocument { repo_root: "/repo".into(), files: vec![file] });
    let key = SourceKey { review_path: path.clone(), side: DiffSide::New };
    let mut projection = ContentProjection::default();
    projection.set_full_file(path, true);
    let absent = DiffPresentation::with_sources(document.clone(), PresentationOptions::default(), &projection);
    let absent_gap =
        absent.rows(0..absent.row_count()).iter().position(|row| row.kind == RowKind::ExpandGap).unwrap();
    assert_eq!(absent.gap_info(absent_gap).unwrap().unavailable, Some(SourceUnavailable::Absent));

    projection.insert_unavailable(key.clone(), SourceUnavailable::Binary);
    let unavailable = DiffPresentation::with_sources(document.clone(), PresentationOptions::default(), &projection);
    let gap = unavailable.rows(0..unavailable.row_count()).iter().position(|row| row.kind == RowKind::ExpandGap).unwrap();
    assert_eq!(unavailable.gap_info(gap).unwrap().unavailable, Some(SourceUnavailable::Binary));

    projection.insert_source(key, Arc::new(SourceDocument::try_from_text("#!/bin/sh\necho ok\n").unwrap()));
    let loaded = DiffPresentation::with_sources(document, PresentationOptions::default(), &projection);
    assert_eq!(
        loaded.rows(0..loaded.row_count()).iter().filter(|row| row.kind == RowKind::ExpandedContext).count(),
        2
    );
}

#[test]
fn from_texts_captures_both_sides_and_derives_grouped_hunks() {
    let old = (1..=80).map(|line| format!("line {line}\n")).collect::<String>();
    let new = old.replace("line 40\n", "changed 40\n");
    let snapshot =
        DiffSnapshot::from_texts(&vec![("src/changed.rs", old.as_str(), new.as_str()), ("src/added.rs", "", "fn main() {}\n")])
            .unwrap();

    let changed = &snapshot.document().files[0];
    assert_eq!(changed.hunks.len(), 1);
    assert!(changed.hunks[0].lines.len() <= 8);
    let key = |path: &str, side| SourceKey::new(RepoPath::new(path).unwrap(), side);
    let old_source = snapshot.source(&key("src/changed.rs", DiffSide::Old)).unwrap().as_ref().unwrap();
    assert_eq!(old_source.line_count(), 80);
    assert_eq!(
        snapshot.source(&key("src/added.rs", DiffSide::Old)).unwrap().as_ref().unwrap_err(),
        &SourceUnavailable::Absent
    );

    let mut session = ReviewSession::from_snapshot(snapshot);
    let code_row = (0..session.presentation().row_count())
        .find(|index| session.presentation().row(*index).is_some_and(|row| row.kind == RowKind::Code))
        .expect("a code row");
    assert!(session.select_row(code_row));
    assert!(session.reveal_selected_gap(RevealAmount::Step));
    let presentation = session.presentation();
    let expanded = presentation.rows(0..presentation.row_count()).iter().filter(|row| row.kind == RowKind::ExpandedContext).count();
    assert!(expanded > 0, "captured sides reveal unchanged context");
    let gap = (0..presentation.row_count()).find_map(|index| presentation.gap_info(index)).expect("a remaining collapsed gap");
    assert_eq!(gap.unavailable, None);
}
