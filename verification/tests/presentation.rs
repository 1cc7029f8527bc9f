use clankerdiff_core::presentation::{gaps_for_file, GapInterval, Layout, ViewMode};
use clankerdiff_core::{FileDiff, FileStatus, Hunk, RepoPath, SourceUnavailable, StageState};

#[test]
fn view_modes_resolve_and_cycle() {
    assert_eq!(ViewMode::Auto.resolve(true), Layout::Split);
    assert_eq!(ViewMode::Auto.resolve(false), Layout::Unified);
    assert_eq!(ViewMode::Unified.resolve(true), Layout::Unified);
    assert_eq!(ViewMode::Split.next().next(), ViewMode::Unified);
}

fn hunk(header: &str, old_start: usize, old_count: usize, new_start: usize, new_count: usize) -> Hunk {
    Hunk {
        header: header.into(),
        function_context: None,
        old_start,
        old_count,
        new_start,
        new_count,
        lines: Vec::new(),
    }
}

fn file_with(hunks: Vec<Hunk>) -> FileDiff {
    let path = RepoPath::new("a.rs").unwrap();
    FileDiff {
        old_path: Some(path.clone()),
        path,
        status: FileStatus::Modified,
        staged: StageState::Unstaged,
        hunks,
        binary: false,
        mode: None,
        no_newline_at_end: false,
        omitted_bytes: None,
        old_source: Err(SourceUnavailable::NotCaptured),
        new_source: Err(SourceUnavailable::NotCaptured),
    }
}

#[test]
fn gap_geometry_covers_leading_middle_and_trailing_intervals() {
    let file = file_with(vec![hunk("@@ -3,2 +3,2 @@", 3, 2, 3, 2), hunk("@@ -8 +8 @@", 8, 1, 8, 1)]);
    assert_eq!(
        gaps_for_file(&file, 10, 10),
        vec![
            GapInterval { old: 1..3, new: 1..3 },
            GapInterval { old: 5..8, new: 5..8 },
            GapInterval { old: 9..11, new: 9..11 },
        ]
    );
}

#[test]
fn zero_count_hunks_use_the_next_real_line_as_the_gap_boundary() {
    let file = file_with(vec![hunk("@@ -2,0 +3 @@", 2, 0, 3, 1)]);
    assert_eq!(
        gaps_for_file(&file, 5, 6),
        vec![
            GapInterval { old: 1..3, new: 1..3 },
            GapInterval { old: 3..6, new: 4..7 },
        ]
    );
}
