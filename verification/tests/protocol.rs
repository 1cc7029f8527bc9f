use clankerdiff_core::protocol::{
    diff_outcome, exit_status, text_feedback,
    accept_length, announced_length, frame_message, validate_response, CapabilityResponse, FrameError,
    ProtocolValidationError, ReviewKind, ReviewOutcome, UiKind, MAX_REQUEST_BYTES, PROTOCOL_VERSION,
};

#[test]
fn rejects_invalid_outcome_submission_combinations() {
    assert_eq!(
        validate_response(PROTOCOL_VERSION, ReviewOutcome::Approved, false),
        Err(ProtocolValidationError::SubmittedWithoutSubmission)
    );
    assert_eq!(
        validate_response(PROTOCOL_VERSION, ReviewOutcome::Cancelled, true),
        Err(ProtocolValidationError::CancellationHasSubmission)
    );
    assert_eq!(validate_response(PROTOCOL_VERSION, ReviewOutcome::ChangesRequested, true), Ok(()));
    assert_eq!(validate_response(PROTOCOL_VERSION, ReviewOutcome::Cancelled, false), Ok(()));
}

#[test]
fn newer_versions_are_rejected() {
    assert_eq!(
        validate_response(2, ReviewOutcome::Cancelled, false),
        Err(ProtocolValidationError::UnsupportedVersion { received: 2, supported: 1 })
    );
}

#[test]
fn frames_are_length_delimited_big_endian() {
    let frame = frame_message(b"hello", MAX_REQUEST_BYTES).unwrap();
    assert_eq!(frame, b"\0\0\0\x05hello".to_vec());
    assert_eq!(announced_length([0, 0, 1, 2]), 258);
    assert_eq!(announced_length([frame[0], frame[1], frame[2], frame[3]]), 5);
}

#[test]
fn rejects_an_oversized_announced_message() {
    let oversized = u32::try_from(MAX_REQUEST_BYTES + 1).unwrap();
    assert_eq!(
        accept_length(announced_length(oversized.to_be_bytes()), MAX_REQUEST_BYTES),
        Err(FrameError::MessageTooLarge { size: MAX_REQUEST_BYTES + 1, maximum_size: MAX_REQUEST_BYTES })
    );
    assert_eq!(accept_length(7, MAX_REQUEST_BYTES), Ok(7));
    assert_eq!(
        frame_message(b"abc", 2),
        Err(FrameError::MessageTooLarge { size: 3, maximum_size: 2 })
    );
}

#[test]
fn capability_defaults_and_names() {
    let capabilities = CapabilityResponse::default();
    assert_eq!(capabilities.supported_protocol_versions, vec![1]);
    assert_eq!(capabilities.review_kinds, vec![ReviewKind::Diff, ReviewKind::Markdown]);
    assert_eq!(capabilities.uis, vec![UiKind::Tui, UiKind::Desktop]);
    assert!(capabilities.current_terminal_tui);
    assert_eq!(ReviewKind::Markdown.as_str(), "markdown");
    assert_eq!(UiKind::Desktop.as_str(), "desktop");
}

#[test]
fn empty_review_is_an_approval() {
    let submission = clankerdiff_core::Review::default().submission();
    assert_eq!(
        text_feedback(&submission),
        "I reviewed the working tree diff and approve it with no comments."
    );
    assert_eq!(
        diff_outcome(Some(&submission)),
        ReviewOutcome::Approved
    );
}

#[test]
fn outcomes_follow_the_submission_and_set_the_exit_status() {
    assert_eq!(diff_outcome(None), ReviewOutcome::Cancelled);
    let file = clankerdiff_core::FileDiff::from_texts("a.rs", "old\n", "new\n").unwrap();
    let anchor = clankerdiff_core::LineAnchor::for_line(&file, clankerdiff_core::DiffSide::New, 0, 1).unwrap();
    let mut review = clankerdiff_core::Review::default();
    review.add_comment(anchor, "rename this");
    let submission = review.submission();
    assert_eq!(diff_outcome(Some(&submission)), ReviewOutcome::ChangesRequested);
    assert_eq!(text_feedback(&submission), submission.formatted);
    for outcome in [ReviewOutcome::Approved, ReviewOutcome::ChangesRequested, ReviewOutcome::Cancelled] {
        let expected = if outcome == ReviewOutcome::Cancelled { 2 } else { 0 };
        assert_eq!(exit_status(outcome), expected);
    }
    assert!(validate_response(PROTOCOL_VERSION, diff_outcome(Some(&submission)), true).is_ok());
    assert!(validate_response(PROTOCOL_VERSION, diff_outcome(None), false).is_ok());
}
