//! Launching a terminal review in a command that the user configures, and
//! what the terminal review loop does with each event that its interface
//! produces. The terminal itself, the process and the environment stay with
//! the caller.
use vstd::prelude::*;
use crate::review::{DiffReviewEvent, ReviewSubmission};
use crate::text::{chars_of, string_from_chars};

verus! {

/// The environment variable that names the terminal command.
pub const COMMAND_ENV: &'static str = "CLANKERDIFF_TUI_COMMAND";

/// The text in the command's arguments that stands for the attach command.
pub const COMMAND_PLACEHOLDER: &'static str = "{command}";

/// Why a terminal review cannot be launched.
#[derive(Debug, Clone, Copy, PartialEq, Eq, Structural)]
pub enum LaunchError {
    MissingCommand,
    InvalidCommand,
    NonUtf8CommandPath,
}

impl LaunchError {
    /// The message of this error.
    pub fn message(&self) -> (res: &'static str)
        ensures
            res@ == launch_error_text(*self),
    {
        match self {
            LaunchError::MissingCommand => "CLANKERDIFF_TUI_COMMAND is required for TUI reviews",
            LaunchError::InvalidCommand => "CLANKERDIFF_TUI_COMMAND must contain a valid, non-empty command",
            LaunchError::NonUtf8CommandPath => "the TUI executable and socket paths must be valid UTF-8",
        }
    }
}

pub open spec fn launch_error_text(e: LaunchError) -> Seq<char> {
    match e {
        LaunchError::MissingCommand => "CLANKERDIFF_TUI_COMMAND is required for TUI reviews"@,
        LaunchError::InvalidCommand => "CLANKERDIFF_TUI_COMMAND must contain a valid, non-empty command"@,
        LaunchError::NonUtf8CommandPath => "the TUI executable and socket paths must be valid UTF-8"@,
    }
}

/// The words that `shlex::split` finds in a command line; `None` where a
/// quote or an escape is left open.
pub uninterp spec fn shell_split(text: Seq<char>) -> Option<Seq<Seq<char>>>;

/// The command line that `shlex::try_join` writes for words that hold no NUL:
/// each word quoted where needed, separated by single spaces.
pub uninterp spec fn shell_join(words: Seq<Seq<char>>) -> Seq<char>;

/// The texts of a list of strings.
pub open spec fn string_views(v: Seq<String>) -> Seq<Seq<char>> {
    v.map_values(|s: String| s@)
}

/// Whether some word holds a NUL character.
pub open spec fn holds_nul(words: Seq<Seq<char>>) -> bool {
    exists|i: int, j: int| 0 <= i < words.len() && 0 <= j < words[i].len() && words[i][j] == '\0'
}

/// Splits a command line into words with `shlex::split`.
#[verifier::external_body]
fn split_words(text: &str) -> (res: Option<Vec<String>>)
    ensures
        match res {
            Some(words) => shell_split(text@) == Some(string_views(words@)),
            None => shell_split(text@) is None,
        },
{
    shlex::split(text)
}

/// Joins words into a command line with `shlex::try_join`, which refuses
/// only a word that holds a NUL.
#[verifier::external_body]
fn join_words(words: &Vec<String>) -> (res: Option<String>)
    ensures
        res is None <==> holds_nul(string_views(words@)),
        res matches Some(line) ==> line@ == shell_join(string_views(words@)),
{
    shlex::try_join(words.iter().map(|word| word.as_str())).ok()
}

/// `s` with each occurrence of `pat`, found from the left and not
/// overlapping, replaced by `rep`.
pub open spec fn replaced(s: Seq<char>, pat: Seq<char>, rep: Seq<char>) -> Seq<char>
    decreases s.len(),
{
    if s.len() == 0 {
        s
    } else if 0 < pat.len() <= s.len() && s.take(pat.len() as int) == pat {
        rep + replaced(s.skip(pat.len() as int), pat, rep)
    } else {
        seq![s[0]] + replaced(s.drop_first(), pat, rep)
    }
}

/// Whether `pat` occurs in `s`.
pub open spec fn contains_text(s: Seq<char>, pat: Seq<char>) -> bool {
    exists|i: int| 0 <= i && i + pat.len() <= s.len() && #[trigger] s.subrange(i, i + pat.len()) == pat
}

/// Whether `pat` occurs in `s` at `i`.
fn matches_at(s: &Vec<char>, pat: &Vec<char>, i: usize) -> (res: bool)
    requires
        i <= s@.len(),
    ensures
        res == (i + pat@.len() <= s@.len() && s@.subrange(i as int, i + pat@.len()) == pat@),
{
    if pat.len() > s.len() - i {
        return false;
    }
    let mut k: usize = 0;
    while k < pat.len()
        invariant
            i + pat@.len() <= s@.len(),
            i <= s@.len(),
            s@.len() == s.len(),
            pat@.len() == pat.len(),
            k <= pat@.len(),
            forall|m: int| 0 <= m < k ==> s@[i + m] == pat@[m],
        decreases pat@.len() - k,
    {
        assert(i + k < s@.len());
        if s[i + k] != pat[k] {
            proof {
                assert(s@.subrange(i as int, i + pat@.len())[k as int] != pat@[k as int]);
            }
            return false;
        }
        k = k + 1;
    }
    proof {
        assert(s@.subrange(i as int, i + pat@.len()) =~= pat@);
    }
    true
}

/// `s` with `pat` replaced by `rep`, and whether `pat` occurred in it.
fn replace_all(s: &Vec<char>, pat: &Vec<char>, rep: &Vec<char>) -> (res: (Vec<char>, bool))
    requires
        pat@.len() > 0,
    ensures
        res.0@ == replaced(s@, pat@, rep@),
        res.1 == contains_text(s@, pat@),
{
    let mut out: Vec<char> = Vec::new();
    let mut found = false;
    let mut i: usize = 0;
    proof {
        assert(s@.skip(0) =~= s@);
    }
    while i < s.len()
        invariant
            pat@.len() > 0,
            i <= s@.len(),
            replaced(s@, pat@, rep@) == out@ + replaced(s@.skip(i as int), pat@, rep@),
            !found ==> forall|j: int|
                0 <= j < i ==> !(j + pat@.len() <= s@.len() && #[trigger] s@.subrange(j, j + pat@.len())
                    == pat@),
            found ==> contains_text(s@, pat@),
        decreases s@.len() - i,
    {
        let ghost rest = s@.skip(i as int);
        if matches_at(s, pat, i) {
            proof {
                assert(rest.take(pat@.len() as int) =~= s@.subrange(i as int, i + pat@.len()));
                assert(rest.skip(pat@.len() as int) =~= s@.skip(i + pat@.len()));
                assert(out@ + (rep@ + replaced(s@.skip(i + pat@.len()), pat@, rep@)) =~= (out@ + rep@)
                    + replaced(s@.skip(i + pat@.len()), pat@, rep@));
            }
            let mut k: usize = 0;
            let ghost before = out@;
            while k < rep.len()
                invariant
                    k <= rep@.len(),
                    out@ == before + rep@.take(k as int),
                decreases rep@.len() - k,
            {
                out.push(rep[k]);
                k = k + 1;
                proof {
                    assert(rep@.take(k as int) =~= rep@.take(k - 1).push(rep@[k - 1]));
                }
            }
            proof {
                assert(rep@.take(k as int) =~= rep@);
            }
            found = true;
            i = i + pat.len();
        } else {
            proof {
                if 0 < pat@.len() <= rest.len() && rest.take(pat@.len() as int) == pat@ {
                    assert(rest.take(pat@.len() as int) =~= s@.subrange(i as int, i + pat@.len()));
                }
                assert(rest.drop_first() =~= s@.skip(i + 1));
                assert(out@ + (seq![s@[i as int]] + replaced(s@.skip(i + 1), pat@, rep@)) =~= out@.push(
                    s@[i as int],
                ) + replaced(s@.skip(i + 1), pat@, rep@));
            }
            out.push(s[i]);
            i = i + 1;
        }
    }
    proof {
        assert(replaced(s@.skip(i as int), pat@, rep@) =~= Seq::<char>::empty());
        assert(out@ + Seq::<char>::empty() =~= out@);
        if !found && contains_text(s@, pat@) {
            let j = choose|j: int|
                0 <= j && j + pat@.len() <= s@.len() && #[trigger] s@.subrange(j, j + pat@.len())
                    == pat@;
            assert(j < i);
        }
    }
    (out, found)
}

/// The arguments after replacing the placeholder in each, and whether any
/// held it.
pub open spec fn replaced_arguments(arguments: Seq<Seq<char>>, command: Seq<char>) -> Seq<Seq<char>> {
    arguments.map_values(|a: Seq<char>| replaced(a, COMMAND_PLACEHOLDER@, command))
}

pub open spec fn any_placeholder(arguments: Seq<Seq<char>>) -> bool {
    exists|i: int| 0 <= i < arguments.len() && contains_text(#[trigger] arguments[i], COMMAND_PLACEHOLDER@)
}

/// Replaces the placeholder in every argument that holds it with `command`,
/// and says whether any did. Arguments without it are left as they are.
pub fn replace_command_placeholder(arguments: &mut Vec<String>, command: &str) -> (res: bool)
    ensures
        final(arguments)@.len() == old(arguments)@.len(),
        forall|i: int|
            0 <= i < old(arguments)@.len() ==> (#[trigger] final(arguments)@[i])@ == replaced(
                old(arguments)@[i]@,
                COMMAND_PLACEHOLDER@,
                command@,
            ),
        res == any_placeholder(string_views(old(arguments)@)),
{
    let pat = chars_of(COMMAND_PLACEHOLDER);
    let rep = chars_of(command);
    proof {
        reveal_strlit("{command}");
    }
    let mut replaced_any = false;
    let mut i: usize = 0;
    let ghost initial = arguments@;
    while i < arguments.len()
        invariant
            pat@ == COMMAND_PLACEHOLDER@,
            pat@.len() > 0,
            rep@ == command@,
            initial == old(arguments)@,
            arguments@.len() == initial.len(),
            i <= initial.len(),
            forall|k: int| 0 <= k < i ==> (#[trigger] arguments@[k])@ == replaced(initial[k]@, pat@, rep@),
            forall|k: int| i <= k < initial.len() ==> #[trigger] arguments@[k] == initial[k],
            replaced_any == exists|k: int| 0 <= k < i && contains_text(#[trigger] initial[k]@, pat@),
        decreases initial.len() - i,
    {
        let text = chars_of(arguments[i].as_str());
        let (new_text, found) = replace_all(&text, &pat, &rep);
        if found {
            arguments.set(i, string_from_chars(new_text.as_slice()));
            replaced_any = true;
        } else {
            proof {
                assert(!contains_text(text@, pat@));
                lemma_replaced_without_occurrence(text@, pat@, rep@);
            }
        }
        proof {
            assert forall|k: int| 0 <= k < i + 1 && contains_text(#[trigger] initial[k]@, pat@) implies (
            k < i || found) by {}
            if found {
                assert(contains_text(initial[i as int]@, pat@));
            }
        }
        i = i + 1;
    }
    proof {
        assert(string_views(initial).len() == initial.len());
        if replaced_any {
            let k = choose|k: int| 0 <= k < i && contains_text(#[trigger] initial[k]@, pat@);
            assert(contains_text(string_views(initial)[k], COMMAND_PLACEHOLDER@));
        }
        if any_placeholder(string_views(initial)) {
            let k = choose|k: int|
                0 <= k < string_views(initial).len() && contains_text(
                    #[trigger] string_views(initial)[k],
                    COMMAND_PLACEHOLDER@,
                );
            assert(contains_text(initial[k]@, pat@));
        }
    }
    replaced_any
}

/// Replacing a text that does not occur leaves the text as it was.
proof fn lemma_replaced_without_occurrence(s: Seq<char>, pat: Seq<char>, rep: Seq<char>)
    requires
        pat.len() > 0,
        !contains_text(s, pat),
    ensures
        replaced(s, pat, rep) == s,
    decreases s.len(),
{
    if s.len() > 0 {
        assert(!(pat.len() <= s.len() && s.take(pat.len() as int) == pat)) by {
            if pat.len() <= s.len() && s.take(pat.len() as int) == pat {
                assert(s.subrange(0int, 0int + pat.len()) =~= s.take(pat.len() as int));
                assert(false);
            }
        }
        assert forall|i: int|
            0 <= i && i + pat.len() <= s.drop_first().len() implies #[trigger] s.drop_first().subrange(
            i,
            i + pat.len(),
        ) != pat by {
            assert(s.drop_first().subrange(i, i + pat.len()) =~= s.subrange(i + 1, i + 1 + pat.len()));
        }
        lemma_replaced_without_occurrence(s.drop_first(), pat, rep);
        assert(seq![s[0]] + s.drop_first() =~= s);
    }
}

/// The command that launches a terminal review, as the program and its
/// arguments.
pub struct LaunchCommand {
    pub program: String,
    pub arguments: Vec<String>,
}

/// What launching gives for the configured command line, the running
/// executable's path and the session socket's path (`None` where one is not
/// set or not valid UTF-8): the command line's first word runs with the rest,
/// in which the placeholder stands for the quoted attach command; where no
/// argument holds it, the executable, `attach` and the socket path follow.
pub open spec fn launch_plan(
    launcher: Option<Seq<char>>,
    executable: Option<Seq<char>>,
    socket_path: Option<Seq<char>>,
) -> Result<(Seq<char>, Seq<Seq<char>>), LaunchError> {
    match launcher {
        None => Err(LaunchError::MissingCommand),
        Some(line) => match shell_split(line) {
            None => Err(LaunchError::InvalidCommand),
            Some(words) => if words.len() == 0 {
                Err(LaunchError::InvalidCommand)
            } else {
                match (executable, socket_path) {
                    (Some(exe), Some(socket)) => {
                        let attach = seq![exe, "attach"@, socket];
                        if holds_nul(attach) {
                            Err(LaunchError::InvalidCommand)
                        } else {
                            let rest = words.drop_first();
                            let arguments = replaced_arguments(rest, shell_join(attach));
                            if any_placeholder(rest) {
                                Ok((words[0], arguments))
                            } else {
                                Ok((words[0], arguments + attach))
                            }
                        }
                    },
                    _ => Err(LaunchError::NonUtf8CommandPath),
                }
            },
        },
    }
}

/// The text of an optional string slice.
pub open spec fn text_of(s: Option<&str>) -> Option<Seq<char>> {
    match s {
        Some(t) => Some(t@),
        None => None,
    }
}

/// Builds the command that launches a terminal review attached to the
/// session at `socket_path`.
pub fn launch_command(launcher: Option<&str>, executable: Option<&str>, socket_path: Option<&str>) -> (res:
    Result<LaunchCommand, LaunchError>)
    ensures
        match (res, launch_plan(text_of(launcher), text_of(executable), text_of(socket_path))) {
            (Ok(c), Ok((program, arguments))) => c.program@ == program && string_views(c.arguments@)
                == arguments,
            (Err(e), Err(f)) => e == f,
            _ => false,
        },
{
    let line = match launcher {
        Some(line) => line,
        None => {
            return Err(LaunchError::MissingCommand);
        },
    };
    let mut words = match split_words(line) {
        Some(words) => words,
        None => {
            return Err(LaunchError::InvalidCommand);
        },
    };
    if words.len() == 0 {
        return Err(LaunchError::InvalidCommand);
    }
    let (exe, socket) = match (executable, socket_path) {
        (Some(exe), Some(socket)) => (exe, socket),
        _ => {
            return Err(LaunchError::NonUtf8CommandPath);
        },
    };
    let mut attach: Vec<String> = Vec::new();
    attach.push(exe.to_owned());
    attach.push("attach".to_owned());
    attach.push(socket.to_owned());
    proof {
        assert(string_views(attach@) =~= seq![exe@, "attach"@, socket@]);
    }
    let attach_line = match join_words(&attach) {
        Some(text) => text,
        None => {
            return Err(LaunchError::InvalidCommand);
        },
    };
    let ghost all = words@;
    let program = words.remove(0);
    proof {
        assert(words@ =~= all.drop_first());
        assert(string_views(words@) =~= string_views(all).drop_first());
    }
    let ghost rest = words@;
    let uses_placeholder = replace_command_placeholder(&mut words, attach_line.as_str());
    proof {
        assert(string_views(words@) =~= replaced_arguments(string_views(rest), attach_line@));
    }
    if !uses_placeholder {
        let ghost before = words@;
        let ghost tail = attach@;
        words.append(&mut attach);
        proof {
            assert(string_views(words@) =~= string_views(before) + string_views(tail));
        }
    }
    Ok(LaunchCommand { program, arguments: words })
}

/// What the terminal review loop does with one event of its interface.
pub enum ReviewInput {
    /// The review ends: with the submission, or cancelled.
    Finish(Option<ReviewSubmission>),
    /// The repository command runs in the background.
    Start(DiffReviewEvent),
    /// Nothing happens.
    Ignore,
}

/// Decides what the review loop does with an event, given whether a
/// repository command is still running: cancelling and submitting end the
/// review, copying and no event change nothing, and a repository command
/// starts only while none runs.
pub fn review_input(event: Option<DiffReviewEvent>, operation_pending: bool) -> (res: ReviewInput)
    ensures
        match event {
            Some(DiffReviewEvent::Cancel) => res == ReviewInput::Finish(None),
            Some(DiffReviewEvent::SubmitReview(s)) => res == ReviewInput::Finish(Some(s)),
            Some(DiffReviewEvent::CopyFormattedReview(_)) | None => res == ReviewInput::Ignore,
            Some(command) => if operation_pending {
                res == ReviewInput::Ignore
            } else {
                res == ReviewInput::Start(command)
            },
        },
{
    match event {
        Some(DiffReviewEvent::Cancel) => ReviewInput::Finish(None),
        Some(DiffReviewEvent::SubmitReview(submission)) => ReviewInput::Finish(Some(submission)),
        Some(DiffReviewEvent::CopyFormattedReview(_)) | None => ReviewInput::Ignore,
        Some(command) => if operation_pending {
            ReviewInput::Ignore
        } else {
            ReviewInput::Start(command)
        },
    }
}

} // verus!
