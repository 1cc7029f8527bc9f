//! Git patches written from complete texts.
use vstd::prelude::*;
use vstd::utf8::encode_utf8;
use crate::text::{chars_of, push_all, string_from_chars};

verus! {

/// Why a patch cannot be written.
#[derive(Debug, Clone, Copy, PartialEq, Eq, Structural)]
pub enum PatchError {
    /// The path is empty, holds NUL, or is `/dev/null`.
    InvalidPath,
    /// A text holds NUL.
    BinaryText,
}

/// The message of a patch error.
pub open spec fn patch_error_text(e: PatchError) -> Seq<char> {
    match e {
        PatchError::InvalidPath => "patch path must be nonempty, contain no NUL bytes, and not be /dev/null"@,
        PatchError::BinaryText => "text patches cannot contain NUL bytes"@,
    }
}

impl PatchError {
    /// The message of this error.
    pub fn message(&self) -> (res: &'static str)
        ensures
            res@ == patch_error_text(*self),
    {
        match self {
            PatchError::InvalidPath => "patch path must be nonempty, contain no NUL bytes, and not be /dev/null",
            PatchError::BinaryText => "text patches cannot contain NUL bytes",
        }
    }
}

/// The octal digit of a value below eight.
pub open spec fn octal_digit(v: u8) -> char {
    ((48 + v) as u8) as char
}

/// How one byte of a path is written inside Git's quotes: quote and
/// backslash escaped, printable ASCII as it is, anything else as a backslash
/// and three octal digits.
pub open spec fn quoted_byte(b: u8) -> Seq<char> {
    if b == 34u8 {
        seq!['\\', '"']
    } else if b == 92u8 {
        seq!['\\', '\\']
    } else if 32u8 <= b <= 126u8 {
        seq![b as char]
    } else {
        seq!['\\', octal_digit(b / 64), octal_digit((b / 8) % 8), octal_digit(b % 8)]
    }
}

pub open spec fn quoted_bytes(bytes: Seq<u8>) -> Seq<char>
    decreases bytes.len(),
{
    if bytes.len() == 0 {
        Seq::empty()
    } else {
        quoted_bytes(bytes.drop_last()) + quoted_byte(bytes.last())
    }
}

/// A path quoted as Git quotes it, byte by byte of its UTF-8 form.
pub open spec fn quoted_path(path: Seq<char>) -> Seq<char> {
    seq!['"'] + quoted_bytes(encode_utf8(path)) + seq!['"']
}

/// What similar's unified diff of two texts, with three lines of context,
/// displays as.
pub uninterp spec fn unified_diff_text(old: Seq<char>, new: Seq<char>) -> Seq<char>;

/// `similar::TextDiff::from_lines(old, new).unified_diff().context_radius(3)`,
/// displayed: the hunks of a line diff of the two texts. Its result is named,
/// not stated.
#[verifier::external_body]
fn unified_diff(old: &str, new: &str) -> (res: String)
    ensures
        res@ == unified_diff_text(old@, new@),
{
    similar::TextDiff::from_lines(old, new).unified_diff().context_radius(3).to_string()
}

pub open spec fn opt_text(t: Option<&str>) -> Option<Seq<char>> {
    match t {
        Some(s) => Some(s@),
        None => None,
    }
}

pub open spec fn or_empty(t: Option<Seq<char>>) -> Seq<char> {
    match t {
        Some(s) => s,
        None => Seq::empty(),
    }
}

/// The patch text for a changed file: the `diff --git` line, a creation or
/// deletion mode line where a side is missing, the two file lines
/// (`/dev/null` for a missing side), and the unified hunks.
pub open spec fn patch_text(path: Seq<char>, old: Option<Seq<char>>, new: Option<Seq<char>>) -> Seq<char> {
    let q = quoted_path(path);
    "diff --git "@ + q + " "@ + q + "\n"@ + (if old is None {
        "new file mode 100644\n"@
    } else if new is None {
        "deleted file mode 100644\n"@
    } else {
        Seq::empty()
    }) + "--- "@ + (if old is Some {
        q
    } else {
        "/dev/null"@
    }) + "\n+++ "@ + (if new is Some {
        q
    } else {
        "/dev/null"@
    }) + "\n"@ + unified_diff_text(or_empty(old), or_empty(new))
}

/// What writing a patch for `path` from `old` to `new` gives: an error for an
/// unusable path or a text with NUL, nothing where the sides are equal, the
/// patch text otherwise.
pub open spec fn patch_of(path: Seq<char>, old: Option<Seq<char>>, new: Option<Seq<char>>) -> Result<
    Option<Seq<char>>,
    PatchError,
> {
    if path.len() == 0 || path.contains('\0') || path == "/dev/null"@ {
        Err(PatchError::InvalidPath)
    } else if (old matches Some(o) && o.contains('\0')) || (new matches Some(n) && n.contains('\0')) {
        Err(PatchError::BinaryText)
    } else if old == new {
        Ok(None)
    } else {
        Ok(Some(patch_text(path, old, new)))
    }
}

fn octal(v: u8) -> (res: char)
    requires
        v < 8,
    ensures
        res == octal_digit(v),
{
    (48u8 + v) as char
}

fn quote_path(path: &str) -> (res: Vec<char>)
    ensures
        res@ == quoted_path(path@),
{
    let bytes = path.as_bytes();
    proof {
        assert(bytes@ == encode_utf8(path@));
    }
    let mut out: Vec<char> = Vec::new();
    out.push('"');
    let mut i: usize = 0;
    while i < bytes.len()
        invariant
            i <= bytes@.len(),
            bytes@ == encode_utf8(path@),
            out@ == seq!['"'] + quoted_bytes(bytes@.take(i as int)),
        decreases bytes@.len() - i,
    {
        let b = bytes[i];
        let ghost before = out@;
        if b == 34u8 {
            out.push('\\');
            out.push('"');
        } else if b == 92u8 {
            out.push('\\');
            out.push('\\');
        } else if 32u8 <= b && b <= 126u8 {
            out.push(b as char);
        } else {
            out.push('\\');
            out.push(octal(b / 64));
            out.push(octal((b / 8) % 8));
            out.push(octal(b % 8));
        }
        proof {
            assert(out@ =~= before + quoted_byte(b));
            assert(bytes@.take(i + 1).drop_last() =~= bytes@.take(i as int));
            assert(seq!['"'] + quoted_bytes(bytes@.take(i + 1)) =~= before + quoted_byte(b));
        }
        i = i + 1;
    }
    out.push('"');
    proof {
        assert(bytes@.take(i as int) =~= bytes@);
        assert(out@ =~= quoted_path(path@));
    }
    out
}

fn has_nul(s: &str) -> (res: bool)
    ensures
        res == s@.contains('\0'),
{
    let chars = chars_of(s);
    crate::text::chars_contain(chars.as_slice(), '\0')
}

fn push_text(out: &mut Vec<char>, s: &str)
    ensures
        final(out)@ == old(out)@ + s@,
{
    let chars = chars_of(s);
    push_all(out, chars.as_slice());
}

fn same_text(a: &str, b: &str) -> (res: bool)
    ensures
        res == (a@ == b@),
{
    let x = chars_of(a);
    let y = chars_of(b);
    crate::text::chars_equal(x.as_slice(), y.as_slice())
}

/// Writes a Git patch for one file from its complete old and new texts; a
/// missing side is a created or deleted file.
pub fn git_patch_from_texts(path: &str, old: Option<&str>, new: Option<&str>) -> (res: Result<Option<String>, PatchError>)
    ensures
        match (res, patch_of(path@, opt_text(old), opt_text(new))) {
            (Ok(Some(t)), Ok(Some(u))) => t@ == u,
            (Ok(None), Ok(None)) => true,
            (Err(e), Err(d)) => e == d,
            _ => false,
        },
{
    proof {
        reveal_strlit("/dev/null");
    }
    let path_chars = chars_of(path);
    if path_chars.len() == 0 || has_nul(path) || same_text(path, "/dev/null") {
        return Err(PatchError::InvalidPath);
    }
    let old_nul = match old {
        Some(o) => has_nul(o),
        None => false,
    };
    let new_nul = match new {
        Some(n) => has_nul(n),
        None => false,
    };
    if old_nul || new_nul {
        return Err(PatchError::BinaryText);
    }
    let equal = match (old, new) {
        (Some(o), Some(n)) => same_text(o, n),
        (None, None) => true,
        _ => false,
    };
    if equal {
        return Ok(None);
    }
    let q = quote_path(path);
    let mut out: Vec<char> = Vec::new();
    push_text(&mut out, "diff --git ");
    push_all(&mut out, q.as_slice());
    push_text(&mut out, " ");
    push_all(&mut out, q.as_slice());
    push_text(&mut out, "\n");
    let ghost head = out@;
    if old.is_none() {
        push_text(&mut out, "new file mode 100644\n");
    } else if new.is_none() {
        push_text(&mut out, "deleted file mode 100644\n");
    }
    push_text(&mut out, "--- ");
    if old.is_some() {
        push_all(&mut out, q.as_slice());
    } else {
        push_text(&mut out, "/dev/null");
    }
    push_text(&mut out, "\n+++ ");
    if new.is_some() {
        push_all(&mut out, q.as_slice());
    } else {
        push_text(&mut out, "/dev/null");
    }
    push_text(&mut out, "\n");
    let old_text = match old {
        Some(o) => o,
        None => "",
    };
    let new_text = match new {
        Some(n) => n,
        None => "",
    };
    proof {
        reveal_strlit("");
    }
    let hunks = unified_diff(old_text, new_text);
    push_text(&mut out, hunks.as_str());
    proof {
        assert(old_text@ == or_empty(opt_text(old)));
        assert(new_text@ == or_empty(opt_text(new)));
        assert(out@ =~= patch_text(path@, opt_text(old), opt_text(new)));
    }
    Ok(Some(string_from_chars(out.as_slice())))
}

} // verus!
