//! Review commands and when each is available.
use vstd::prelude::*;
use crate::model::{DiffScope, DiffSide};
use crate::presentation::ViewMode;
use crate::review::RepositoryAction;
use crate::session::RevealAmount;

verus! {

/// The pane that has keyboard focus.
#[derive(Debug, Clone, Copy, PartialEq, Eq, Structural)]
pub enum FocusPane {
    Files,
    Diff,
}

impl Default for FocusPane {
    fn default() -> (res: FocusPane)
        ensures
            res == FocusPane::Files,
    {
        FocusPane::Files
    }
}

/// What the person at the keyboard is doing.
#[derive(Debug, Clone, Copy, PartialEq, Eq, Structural)]
pub enum InteractionPhase {
    Browse,
    Draft,
    Help,
    ThemePicker,
    RepositoryPrompt,
}

impl Default for InteractionPhase {
    fn default() -> (res: InteractionPhase)
        ensures
            res == InteractionPhase::Browse,
    {
        InteractionPhase::Browse
    }
}

/// What the embedding host supports.
#[derive(Debug, Clone, Copy, PartialEq, Eq, Structural)]
pub struct ReviewCapabilities {
    pub repository: bool,
    pub refresh: bool,
    pub scope: bool,
    pub submit: bool,
    pub clipboard: bool,
}

impl Default for ReviewCapabilities {
    fn default() -> (res: ReviewCapabilities)
        ensures
            res == (ReviewCapabilities {
                repository: true,
                refresh: true,
                scope: true,
                submit: true,
                clipboard: true,
            }),
    {
        ReviewCapabilities { repository: true, refresh: true, scope: true, submit: true, clipboard: true }
    }
}

/// The state that decides which commands are available.
#[derive(Debug, Clone, Copy, PartialEq, Eq, Structural)]
pub struct CommandContext {
    pub phase: InteractionPhase,
    pub capabilities: ReviewCapabilities,
    pub repository_pending: bool,
    pub document_ready: bool,
    pub navigation_available: bool,
    pub themes_available: bool,
}

impl Default for CommandContext {
    fn default() -> (res: CommandContext)
        ensures
            res == (CommandContext {
                phase: InteractionPhase::Browse,
                capabilities: ReviewCapabilities {
                    repository: true,
                    refresh: true,
                    scope: true,
                    submit: true,
                    clipboard: true,
                },
                repository_pending: false,
                document_ready: true,
                navigation_available: true,
                themes_available: false,
            }),
    {
        CommandContext {
            phase: InteractionPhase::Browse,
            capabilities: ReviewCapabilities::default(),
            repository_pending: false,
            document_ready: true,
            navigation_available: true,
            themes_available: false,
        }
    }
}

/// Commands on comments, help and themes.
#[derive(Debug, Clone, Copy, PartialEq, Eq, Structural)]
pub enum ReviewCommand {
    BeginComment,
    EditComment,
    DeleteComment,
    UndoComment,
    SubmitComment,
    Cancel,
    ShowHelp,
    ScrollHelp(isize),
    OpenThemePicker,
    SelectTheme(usize),
    MoveTheme(isize),
    CommitTheme,
}

/// Whether a review command is available in a context.
pub open spec fn review_enabled(command: ReviewCommand, context: CommandContext) -> bool {
    let phase = context.phase;
    match command {
        ReviewCommand::Cancel => true,
        ReviewCommand::ShowHelp => phase == InteractionPhase::Browse,
        ReviewCommand::ScrollHelp(_) => phase == InteractionPhase::Help,
        ReviewCommand::OpenThemePicker => phase == InteractionPhase::Browse && context.themes_available,
        ReviewCommand::SelectTheme(_) | ReviewCommand::MoveTheme(_) | ReviewCommand::CommitTheme => phase
            == InteractionPhase::ThemePicker,
        ReviewCommand::SubmitComment => phase == InteractionPhase::Draft && context.document_ready,
        _ => phase == InteractionPhase::Browse && context.document_ready,
    }
}

impl ReviewCommand {
    /// Whether this command is available in a context.
    pub fn enabled(self, context: &CommandContext) -> (res: bool)
        ensures
            res == review_enabled(self, *context),
    {
        let phase = context.phase;
        match self {
            ReviewCommand::Cancel => true,
            ReviewCommand::ShowHelp => phase == InteractionPhase::Browse,
            ReviewCommand::ScrollHelp(_) => phase == InteractionPhase::Help,
            ReviewCommand::OpenThemePicker => phase == InteractionPhase::Browse && context.themes_available,
            ReviewCommand::SelectTheme(_) | ReviewCommand::MoveTheme(_) | ReviewCommand::CommitTheme => phase
                == InteractionPhase::ThemePicker,
            ReviewCommand::SubmitComment => phase == InteractionPhase::Draft && context.document_ready,
            _ => phase == InteractionPhase::Browse && context.document_ready,
        }
    }
}

/// Every command of a diff review UI.
#[derive(Debug, PartialEq, Eq)]
pub enum DiffReviewCommand {
    Review(ReviewCommand),
    Focus(FocusPane),
    ToggleFocus,
    SelectFile(usize),
    SelectRow(usize),
    SelectSide(DiffSide),
    MoveSelection(isize),
    Scroll { pane: FocusPane, lines: isize },
    Page(isize),
    First,
    Last,
    OpenSelected,
    CollapseSelected,
    RevealGap(RevealAmount),
    ToggleFullFile,
    SetViewMode(ViewMode),
    CycleViewMode,
    SubmitReview,
    CopyReview,
    SetScope(DiffScope),
    CycleScope,
    Refresh,
    ToggleStage,
    StageAll,
    UnstageAll,
    BeginCommit,
    BeginDiscard,
    RepositoryAction(RepositoryAction),
}

impl From<ReviewCommand> for DiffReviewCommand {
    fn from(command: ReviewCommand) -> (res: DiffReviewCommand) {
        DiffReviewCommand::Review(command)
    }
}

impl vstd::std_specs::convert::FromSpecImpl<ReviewCommand> for DiffReviewCommand {
    open spec fn obeys_from_spec() -> bool {
        true
    }

    open spec fn from_spec(command: ReviewCommand) -> DiffReviewCommand {
        DiffReviewCommand::Review(command)
    }
}

/// The capability a browse-phase command needs.
pub open spec fn capability_for(command: DiffReviewCommand, context: CommandContext) -> bool {
    let caps = context.capabilities;
    match command {
        DiffReviewCommand::SetScope(_) | DiffReviewCommand::CycleScope => caps.scope
            && !context.repository_pending,
        DiffReviewCommand::Refresh => caps.refresh && !context.repository_pending,
        DiffReviewCommand::ToggleStage | DiffReviewCommand::StageAll | DiffReviewCommand::UnstageAll
        | DiffReviewCommand::BeginCommit | DiffReviewCommand::BeginDiscard
        | DiffReviewCommand::RepositoryAction(_) => caps.repository && !context.repository_pending,
        DiffReviewCommand::SubmitReview => caps.submit,
        DiffReviewCommand::CopyReview => caps.clipboard,
        DiffReviewCommand::Focus(FocusPane::Files) | DiffReviewCommand::ToggleFocus => context.navigation_available,
        _ => true,
    }
}

/// Whether a command is available in a context: review commands by their
/// own rule; the rest only while browsing, with their capability, and with
/// a document ready unless they change the scope or refresh it.
pub open spec fn diff_enabled(command: DiffReviewCommand, context: CommandContext) -> bool {
    match command {
        DiffReviewCommand::Review(c) => review_enabled(c, context),
        _ => context.phase == InteractionPhase::Browse && capability_for(command, context) && (
        context.document_ready || command is SetScope || command is CycleScope || command is Refresh),
    }
}

impl DiffReviewCommand {
    /// Whether this command is available in a context.
    pub fn enabled(&self, context: &CommandContext) -> (res: bool)
        ensures
            res == diff_enabled(*self, *context),
    {
        match self {
            DiffReviewCommand::Review(command) => {
                return command.enabled(context);
            },
            _ => {},
        }
        if context.phase != InteractionPhase::Browse {
            return false;
        }
        let caps = context.capabilities;
        let capability = match self {
            DiffReviewCommand::SetScope(_) | DiffReviewCommand::CycleScope => caps.scope
                && !context.repository_pending,
            DiffReviewCommand::Refresh => caps.refresh && !context.repository_pending,
            DiffReviewCommand::ToggleStage | DiffReviewCommand::StageAll | DiffReviewCommand::UnstageAll
            | DiffReviewCommand::BeginCommit | DiffReviewCommand::BeginDiscard
            | DiffReviewCommand::RepositoryAction(_) => caps.repository && !context.repository_pending,
            DiffReviewCommand::SubmitReview => caps.submit,
            DiffReviewCommand::CopyReview => caps.clipboard,
            DiffReviewCommand::Focus(FocusPane::Files) | DiffReviewCommand::ToggleFocus => context.navigation_available,
            _ => true,
        };
        let scope_or_refresh = match self {
            DiffReviewCommand::SetScope(_) | DiffReviewCommand::CycleScope | DiffReviewCommand::Refresh => true,
            _ => false,
        };
        capability && (context.document_ready || scope_or_refresh)
    }
}

/// Cancel is available in every context.
pub proof fn lemma_cancel_always_enabled(context: CommandContext)
    ensures
        diff_enabled(DiffReviewCommand::Review(ReviewCommand::Cancel), context),
{
}

/// Outside browsing, only review commands can be available.
pub proof fn lemma_only_review_commands_outside_browse(command: DiffReviewCommand, context: CommandContext)
    requires
        context.phase != InteractionPhase::Browse,
        !(command is Review),
    ensures
        !diff_enabled(command, context),
{
}

} // verus!
