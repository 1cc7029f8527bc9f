//! Renderer-neutral diff review model: validated paths, patches derived from
//! complete texts, source documents, presentation rows, review comments, and
//! the review session state machine.
pub mod text;
pub mod repo_path;

pub use repo_path::{RepoPath, RepoPathError};
pub mod fingerprint;
pub use fingerprint::{Fingerprint, FingerprintError};
pub mod model;
pub use model::{
    DiffScope, DiffSide, DiffTone, FileStatus, Hunk, ModeChange, ParseDiffScopeError, PatchLine,
    PatchLineKind, StageState,
};
pub mod content;
pub use content::{
    MAX_SOURCE_FILE_BYTES, MAX_SOURCE_FILE_LINES, SourceDocument, SourceKey, SourceLineRef,
    SourceLocation, SourceSequenceId, SourceUnavailable,
};
pub mod line_diff;
pub mod file_diff;
pub use file_diff::{DiffDocument, DiffError, FileDiff, SourceResult};
pub mod anchor;
pub use anchor::LineAnchor;
pub mod review;
pub use review::{
    format_review, AgentFeedbackOptions, CommentContext, DiffReviewEvent, RepositoryAction, Review,
    ReviewComment, ReviewSubmission,
};
pub mod presentation;
pub mod snapshot;
pub use snapshot::{DiffSnapshot, SnapshotSources};
pub mod session;
pub use session::{CommentDraft, RevealAmount, ReviewSession, SessionOptions};
pub mod commands;
pub mod web;
pub mod request;
pub mod parser;
pub mod git_diff;
pub mod patch;
pub mod testing;
pub mod protocol;
pub mod theme;
pub mod header;
pub mod tui;
pub mod markdown_review;
pub use commands::{
    CommandContext, DiffReviewCommand, FocusPane, InteractionPhase, ReviewCapabilities,
    ReviewCommand,
};
