//! The versioned review envelope that the executable reports, the checks on
//! it, and the length-delimited framing of session messages.
use vstd::prelude::*;
use crate::file_diff::DiffDocument;
use crate::review::{RepositoryAction, ReviewSubmission};

verus! {

/// The version of the review envelope.
pub const PROTOCOL_VERSION: u32 = 1;

/// How a review ended.
#[derive(Debug, Clone, Copy, PartialEq, Eq, Structural)]
pub enum ReviewOutcome {
    Approved,
    ChangesRequested,
    Cancelled,
}

/// The outcome of a diff review: cancelled when nothing was submitted,
/// approved when the submission holds no comment, otherwise changes requested.
pub open spec fn outcome_of(submission: Option<ReviewSubmission>) -> ReviewOutcome {
    match submission {
        None => ReviewOutcome::Cancelled,
        Some(s) => if s.comments@.len() == 0 {
            ReviewOutcome::Approved
        } else {
            ReviewOutcome::ChangesRequested
        },
    }
}

/// The outcome that a diff review ends with.
pub fn diff_outcome(submission: Option<&ReviewSubmission>) -> (res: ReviewOutcome)
    ensures
        res == outcome_of(
            match submission {
                Some(s) => Some(*s),
                None => None,
            },
        ),
{
    match submission {
        None => ReviewOutcome::Cancelled,
        Some(s) => if s.comments.len() == 0 {
            ReviewOutcome::Approved
        } else {
            ReviewOutcome::ChangesRequested
        },
    }
}

/// The text reported for a diff review with no comments.
pub const APPROVAL_TEXT: &'static str = "I reviewed the working tree diff and approve it with no comments.";

/// The text feedback for a submission: the approval sentence when it holds no
/// comment, otherwise its formatted review.
pub fn text_feedback(submission: &ReviewSubmission) -> (res: &str)
    ensures
        res@ == if submission.comments@.len() == 0 {
            APPROVAL_TEXT@
        } else {
            submission.formatted@
        },
{
    if submission.comments.len() == 0 {
        APPROVAL_TEXT
    } else {
        submission.formatted.as_str()
    }
}

/// The process exit status that reports an outcome: success for a finished
/// review, 2 for a cancelled one.
pub fn exit_status(outcome: ReviewOutcome) -> (res: u8)
    ensures
        res == match outcome {
            ReviewOutcome::Cancelled => 2u8,
            _ => 0u8,
        },
{
    match outcome {
        ReviewOutcome::Approved | ReviewOutcome::ChangesRequested => 0,
        ReviewOutcome::Cancelled => 2,
    }
}

/// The kinds of document that can be reviewed.
#[derive(Debug, Clone, Copy, PartialEq, Eq, Structural)]
pub enum ReviewKind {
    Diff,
    Markdown,
}

pub open spec fn review_kind_name(k: ReviewKind) -> Seq<char> {
    match k {
        ReviewKind::Diff => "diff"@,
        ReviewKind::Markdown => "markdown"@,
    }
}

impl ReviewKind {
    /// The wire name of this kind.
    pub fn as_str(self) -> (res: &'static str)
        ensures
            res@ == review_kind_name(self),
    {
        match self {
            ReviewKind::Diff => "diff",
            ReviewKind::Markdown => "markdown",
        }
    }
}

/// The user interfaces a review can run in.
#[derive(Debug, Clone, Copy, PartialEq, Eq, Structural)]
pub enum UiKind {
    Tui,
    Desktop,
}

pub open spec fn ui_kind_name(k: UiKind) -> Seq<char> {
    match k {
        UiKind::Tui => "tui"@,
        UiKind::Desktop => "desktop"@,
    }
}

impl UiKind {
    /// The wire name of this interface.
    pub fn as_str(self) -> (res: &'static str)
        ensures
            res@ == ui_kind_name(self),
    {
        match self {
            UiKind::Tui => "tui",
            UiKind::Desktop => "desktop",
        }
    }
}

/// What the executable reports it supports.
#[derive(Debug, PartialEq, Eq)]
pub struct CapabilityResponse {
    pub protocol_version: u32,
    pub supported_protocol_versions: Vec<u32>,
    pub review_kinds: Vec<ReviewKind>,
    pub uis: Vec<UiKind>,
    pub current_terminal_tui: bool,
}

impl Default for CapabilityResponse {
    /// The current version only, both kinds, both interfaces, and the
    /// current terminal as a TUI.
    fn default() -> (res: CapabilityResponse)
        ensures
            res.protocol_version == PROTOCOL_VERSION,
            res.supported_protocol_versions@ == seq![PROTOCOL_VERSION],
            res.review_kinds@ == seq![ReviewKind::Diff, ReviewKind::Markdown],
            res.uis@ == seq![UiKind::Tui, UiKind::Desktop],
            res.current_terminal_tui,
    {
        CapabilityResponse {
            protocol_version: PROTOCOL_VERSION,
            supported_protocol_versions: vec![PROTOCOL_VERSION],
            review_kinds: vec![ReviewKind::Diff, ReviewKind::Markdown],
            uis: vec![UiKind::Tui, UiKind::Desktop],
            current_terminal_tui: true,
        }
    }
}

/// Why a review envelope is not acceptable.
#[derive(Debug, Clone, Copy, PartialEq, Eq, Structural)]
pub enum ProtocolValidationError {
    UnsupportedVersion { received: u32, supported: u32 },
    CancellationHasSubmission,
    SubmittedWithoutSubmission,
}

/// What checking an envelope gives: the version must be the current one, a
/// cancelled review must carry no submission, and any other outcome must
/// carry one.
pub open spec fn validation_of(protocol_version: u32, outcome: ReviewOutcome, has_submission: bool) -> Result<
    (),
    ProtocolValidationError,
> {
    if protocol_version != PROTOCOL_VERSION {
        Err(ProtocolValidationError::UnsupportedVersion { received: protocol_version, supported: PROTOCOL_VERSION })
    } else if outcome == ReviewOutcome::Cancelled {
        if has_submission {
            Err(ProtocolValidationError::CancellationHasSubmission)
        } else {
            Ok(())
        }
    } else if has_submission {
        Ok(())
    } else {
        Err(ProtocolValidationError::SubmittedWithoutSubmission)
    }
}

/// Checks an envelope's version and its outcome against whether it carries
/// a submission.
pub fn validate_response(protocol_version: u32, outcome: ReviewOutcome, has_submission: bool) -> (res: Result<
    (),
    ProtocolValidationError,
>)
    ensures
        res == validation_of(protocol_version, outcome, has_submission),
{
    if protocol_version != PROTOCOL_VERSION {
        return Err(
            ProtocolValidationError::UnsupportedVersion { received: protocol_version, supported: PROTOCOL_VERSION },
        );
    }
    match outcome {
        ReviewOutcome::Cancelled => if has_submission {
            Err(ProtocolValidationError::CancellationHasSubmission)
        } else {
            Ok(())
        },
        _ => if has_submission {
            Ok(())
        } else {
            Err(ProtocolValidationError::SubmittedWithoutSubmission)
        },
    }
}

/// The envelope that a diff review reports is always valid: its outcome
/// agrees with whether it carries a submission.
pub proof fn lemma_diff_outcome_is_valid(submission: Option<ReviewSubmission>)
    ensures
        validation_of(PROTOCOL_VERSION, outcome_of(submission), submission is Some) == Ok::<
            (),
            ProtocolValidationError,
        >(()),
{
}

/// The largest session request accepted.
pub const MAX_REQUEST_BYTES: usize = 8388608;

/// The largest session response accepted.
pub const MAX_RESPONSE_BYTES: usize = 134217728;

/// A request from an attached interface to a review session.
#[derive(Debug, PartialEq, Eq)]
pub enum SessionRequest {
    Document,
    RepositoryAction(RepositoryAction),
    Submit(ReviewSubmission),
    Cancel,
}

/// A review session's answer.
#[derive(Debug, PartialEq, Eq)]
pub enum SessionResponse {
    Document(DiffDocument),
    Accepted,
    RepositoryError(String),
    ProtocolError(String),
}

/// Why a session message cannot be framed or read.
#[derive(Debug, Clone, Copy, PartialEq, Eq, Structural)]
pub enum FrameError {
    MessageTooLarge { size: usize, maximum_size: usize },
}

/// The big-endian length that begins a frame.
pub open spec fn be_length(header: Seq<u8>) -> nat {
    header[0] as nat * 16777216 + header[1] as nat * 65536 + header[2] as nat * 256 + header[3] as nat
}

/// The length that a frame's header announces.
pub fn announced_length(header: [u8; 4]) -> (res: u32)
    ensures
        res as nat == be_length(header@),
{
    let b0 = header[0] as u32;
    let b1 = header[1] as u32;
    let b2 = header[2] as u32;
    let b3 = header[3] as u32;
    b0 * 16777216 + b1 * 65536 + b2 * 256 + b3
}

/// Accepts an announced length up to the maximum.
pub fn accept_length(length: u32, maximum_size: usize) -> (res: Result<usize, FrameError>)
    ensures
        length <= maximum_size ==> res == Ok::<usize, FrameError>(length as usize),
        length > maximum_size ==> res == Err::<usize, FrameError>(
            FrameError::MessageTooLarge { size: length as usize, maximum_size },
        ),
{
    let size = length as usize;
    if size > maximum_size {
        Err(FrameError::MessageTooLarge { size, maximum_size })
    } else {
        Ok(size)
    }
}

/// The big-endian bytes of a length that fits in `u32`.
pub open spec fn be_bytes(n: nat) -> Seq<u8> {
    seq![(n / 16777216) as u8, ((n / 65536) % 256) as u8, ((n / 256) % 256) as u8, (n % 256) as u8]
}

/// Frames a message body: its length as four big-endian bytes, then the
/// body. Refuses a body over the maximum or over `u32::MAX` bytes.
pub fn frame_message(body: &[u8], maximum_size: usize) -> (res: Result<Vec<u8>, FrameError>)
    ensures
        body@.len() > maximum_size || body@.len() > u32::MAX ==> res == Err::<Vec<u8>, FrameError>(
            FrameError::MessageTooLarge { size: body@.len() as usize, maximum_size },
        ),
        body@.len() <= maximum_size && body@.len() <= u32::MAX ==> (res matches Ok(frame) && frame@
            == be_bytes(body@.len()) + body@),
{
    let size = body.len();
    if size > maximum_size || size as u64 > 4294967295u64 {
        return Err(FrameError::MessageTooLarge { size, maximum_size });
    }
    let n = size as u32;
    let mut out: Vec<u8> = Vec::new();
    out.push((n / 16777216) as u8);
    out.push(((n / 65536) % 256) as u8);
    out.push(((n / 256) % 256) as u8);
    out.push((n % 256) as u8);
    let mut i: usize = 0;
    while i < size
        invariant
            i <= size == body@.len(),
            out@ == be_bytes(size as nat) + body@.take(i as int),
        decreases size - i,
    {
        out.push(body[i]);
        proof {
            assert(body@.take(i + 1) =~= body@.take(i as int).push(body@[i as int]));
        }
        i = i + 1;
    }
    proof {
        assert(body@.take(i as int) =~= body@);
    }
    Ok(out)
}

/// Reading a frame whose header is `be_bytes(n)` gives back `n`: a framed
/// body's length is announced exactly.
pub proof fn lemma_frame_length_round_trip(n: nat)
    requires
        n <= u32::MAX,
    ensures
        be_length(be_bytes(n)) == n,
{
    let b = be_bytes(n);
    assert(b[0] as nat == n / 16777216);
    assert(b[1] as nat == (n / 65536) % 256);
    assert(b[2] as nat == (n / 256) % 256);
    assert(b[3] as nat == n % 256);
    assert((n / 16777216) * 16777216 + ((n / 65536) % 256) * 65536 + ((n / 256) % 256) * 256 + n % 256 == n)
        by (nonlinear_arith)
        requires
            n <= 4294967295,
    ;
}

} // verus!
