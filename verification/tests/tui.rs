use clankerdiff_core::tui::{
    launch_command, replace_command_placeholder, review_input, LaunchError, ReviewInput, COMMAND_ENV,
    COMMAND_PLACEHOLDER,
};
use clankerdiff_core::{DiffReviewEvent, RepositoryAction, ReviewSubmission};

const EXE: &str = "/usr/bin/clankerdiff";
const SOCKET: &str = "/tmp/review.sock";

fn strings(words: &[&str]) -> Vec<String> {
    words.iter().map(|word| (*word).to_owned()).collect()
}

#[test]
fn launch_needs_a_configured_nonempty_command() {
    assert_eq!(launch_command(None, Some(EXE), Some(SOCKET)).err(), Some(LaunchError::MissingCommand));
    assert_eq!(launch_command(Some(""), Some(EXE), Some(SOCKET)).err(), Some(LaunchError::InvalidCommand));
    assert_eq!(launch_command(Some("   "), Some(EXE), Some(SOCKET)).err(), Some(LaunchError::InvalidCommand));
    assert_eq!(
        launch_command(Some("ghostty 'unterminated"), Some(EXE), Some(SOCKET)).err(),
        Some(LaunchError::InvalidCommand)
    );
}

#[test]
fn launch_needs_utf8_paths_without_nul() {
    assert_eq!(launch_command(Some("ghostty -e"), None, Some(SOCKET)).err(), Some(LaunchError::NonUtf8CommandPath));
    assert_eq!(launch_command(Some("ghostty -e"), Some(EXE), None).err(), Some(LaunchError::NonUtf8CommandPath));
    assert_eq!(
        launch_command(Some("ghostty -e"), Some("/bin/a\0b"), Some(SOCKET)).err(),
        Some(LaunchError::InvalidCommand)
    );
}

#[test]
fn launch_appends_the_attach_command_without_a_placeholder() {
    let command = launch_command(Some("ghostty +new-window -e"), Some(EXE), Some(SOCKET)).unwrap();
    assert_eq!(command.program, "ghostty");
    assert_eq!(command.arguments, strings(&["+new-window", "-e", EXE, "attach", SOCKET]));
}

#[test]
fn launch_fills_the_placeholder_with_the_quoted_attach_command() {
    let command =
        launch_command(Some("tmux new-window '{command}'"), Some("/opt/my tools/clankerdiff"), Some(SOCKET))
            .unwrap();
    assert_eq!(command.program, "tmux");
    assert_eq!(
        command.arguments,
        strings(&["new-window", "'/opt/my tools/clankerdiff' attach /tmp/review.sock"])
    );
}

#[test]
fn placeholders_are_replaced_everywhere() {
    assert_eq!(COMMAND_PLACEHOLDER, "{command}");
    assert_eq!(COMMAND_ENV, "CLANKERDIFF_TUI_COMMAND");
    let mut arguments = strings(&["-e", "sh -c '{command}; {command}'", "{{command}}", "plain"]);
    assert!(replace_command_placeholder(&mut arguments, "run"));
    assert_eq!(arguments, strings(&["-e", "sh -c 'run; run'", "{run}", "plain"]));
    let mut untouched = strings(&["-e", "{comm", "and}"]);
    assert!(!replace_command_placeholder(&mut untouched, "run"));
    assert_eq!(untouched, strings(&["-e", "{comm", "and}"]));
}

#[test]
fn launch_error_messages_name_the_variable() {
    assert_eq!(LaunchError::MissingCommand.message(), "CLANKERDIFF_TUI_COMMAND is required for TUI reviews");
    assert_eq!(
        LaunchError::InvalidCommand.message(),
        "CLANKERDIFF_TUI_COMMAND must contain a valid, non-empty command"
    );
    assert_eq!(LaunchError::NonUtf8CommandPath.message(), "the TUI executable and socket paths must be valid UTF-8");
}

#[test]
fn review_input_finishes_starts_or_ignores() {
    assert!(matches!(review_input(Some(DiffReviewEvent::Cancel), true), ReviewInput::Finish(None)));
    let submission = ReviewSubmission { comments: Vec::new(), formatted: "done".to_owned() };
    match review_input(Some(DiffReviewEvent::SubmitReview(submission)), true) {
        ReviewInput::Finish(Some(submitted)) => assert_eq!(submitted.formatted, "done"),
        _ => panic!("submitting should finish the review"),
    }
    assert!(matches!(review_input(None, false), ReviewInput::Ignore));
    assert!(matches!(
        review_input(Some(DiffReviewEvent::CopyFormattedReview("x".to_owned())), false),
        ReviewInput::Ignore
    ));
    assert!(matches!(
        review_input(Some(DiffReviewEvent::RepositoryAction(RepositoryAction::Refresh)), false),
        ReviewInput::Start(DiffReviewEvent::RepositoryAction(RepositoryAction::Refresh))
    ));
    assert!(matches!(
        review_input(Some(DiffReviewEvent::RepositoryAction(RepositoryAction::StageAll)), true),
        ReviewInput::Ignore
    ));
}
