//! Validated repository-relative paths.
use vstd::prelude::*;
use vstd::utf8::encode_utf8;
use crate::text::{chars_of, split_chars, split_seq, starts_with, lemma_split_seq_nonempty};

verus! {

/// Errors produced while constructing or decoding a repository-relative path.
#[derive(Debug, Clone, Copy, PartialEq, Eq)]
pub enum RepoPathError {
    /// The supplied path was empty, or held an empty component.
    Empty,
    /// The path contained a NUL byte.
    Nul,
    /// The path was absolute or contained a platform prefix.
    Absolute,
    /// The path held a `.` or `..` component.
    Traversal,
    /// A path supplied as bytes was not valid UTF-8.
    UnsupportedEncoding,
}

impl RepoPathError {
    /// The human-readable description of the error.
    pub fn message(&self) -> (m: &'static str)
        ensures
            m@ == repo_path_error_text(*self),
    {
        match self {
            RepoPathError::Empty => "repository path is empty",
            RepoPathError::Nul => "repository path contains a NUL byte",
            RepoPathError::Absolute => "repository path must be relative",
            RepoPathError::Traversal => "repository path contains '.' or '..' component",
            RepoPathError::UnsupportedEncoding => "repository path is not valid UTF-8",
        }
    }
}

/// The description of each path error.
pub open spec fn repo_path_error_text(e: RepoPathError) -> Seq<char> {
    match e {
        RepoPathError::Empty => "repository path is empty"@,
        RepoPathError::Nul => "repository path contains a NUL byte"@,
        RepoPathError::Absolute => "repository path must be relative"@,
        RepoPathError::Traversal => "repository path contains '.' or '..' component"@,
        RepoPathError::UnsupportedEncoding => "repository path is not valid UTF-8"@,
    }
}

/// The error, if any, that one `/`-separated component causes.
pub open spec fn component_error(c: Seq<char>) -> Option<RepoPathError> {
    if c.len() == 0 {
        Some(RepoPathError::Empty)
    } else if c == seq!['.'] || c == seq!['.', '.'] {
        Some(RepoPathError::Traversal)
    } else {
        None
    }
}

/// The error of the first offending component, in path order.
pub open spec fn first_component_error(cs: Seq<Seq<char>>) -> Option<RepoPathError>
    decreases cs.len(),
{
    if cs.len() == 0 {
        None
    } else {
        match component_error(cs[0]) {
            Some(e) => Some(e),
            None => first_component_error(cs.skip(1)),
        }
    }
}

/// Whether the path looks absolute: a leading `/`, a leading `\\`, or a
/// drive-letter colon as its second byte.
pub open spec fn looks_absolute(s: Seq<char>) -> bool {
    ||| starts_with(s, seq!['/'])
    ||| starts_with(s, seq!['\\', '\\'])
    ||| (encode_utf8(s).len() >= 2 && encode_utf8(s)[1] == 0x3au8)
}

/// Why `s` is not a valid repository-relative path, checked in this order:
/// emptiness, NUL bytes, absoluteness, then each component in turn.
pub open spec fn path_error(s: Seq<char>) -> Option<RepoPathError> {
    if s.len() == 0 {
        Some(RepoPathError::Empty)
    } else if encode_utf8(s).contains(0u8) {
        Some(RepoPathError::Nul)
    } else if looks_absolute(s) {
        Some(RepoPathError::Absolute)
    } else {
        first_component_error(split_seq(s, '/'))
    }
}

/// A validated UTF-8 path relative to a repository root.
#[derive(Debug, Clone, PartialEq, Eq, Hash, PartialOrd, Ord)]
pub struct RepoPath {
    path: String,
}

impl View for RepoPath {
    type V = Seq<char>;

    closed spec fn view(&self) -> Seq<char> {
        self.path@
    }
}

fn component_is_traversal(c: &Vec<char>) -> (res: bool)
    ensures
        res == (c@ == seq!['.'] || c@ == seq!['.', '.']),
{
    if c.len() == 1 {
        let r = c[0] == '.';
        proof {
            if r {
                assert(c@ =~= seq!['.']);
            }
        }
        r
    } else if c.len() == 2 {
        let r = c[0] == '.' && c[1] == '.';
        proof {
            if r {
                assert(c@ =~= seq!['.', '.']);
            }
        }
        r
    } else {
        false
    }
}

impl RepoPath {
    /// Validates and stores a repository-relative UTF-8 path.
    ///
    /// Returns an error for empty, NUL-containing, absolute, or traversing
    /// paths, and for paths with an empty component.
    pub fn new(path: &str) -> (res: Result<RepoPath, RepoPathError>)
        ensures
            match res {
                Ok(p) => path_error(path@) is None && p@ == path@,
                Err(e) => path_error(path@) == Some(e),
            },
    {
        let chars = chars_of(path);
        if chars.len() == 0 {
            return Err(RepoPathError::Empty);
        }
        let bytes = path.as_bytes();
        let mut i: usize = 0;
        while i < bytes.len()
            invariant
                i <= bytes@.len(),
                bytes@ == encode_utf8(path@),
                forall|j: int| 0 <= j < i ==> bytes@[j] != 0u8,
            decreases bytes@.len() - i,
        {
            if bytes[i] == 0u8 {
                proof {
                    assert(bytes@[i as int] == 0u8);
                }
                return Err(RepoPathError::Nul);
            }
            i = i + 1;
        }
        proof {
            assert(!encode_utf8(path@).contains(0u8));
        }
        let leading_slash = chars[0] == '/';
        let leading_backslashes = chars.len() >= 2 && chars[0] == '\\' && chars[1] == '\\';
        let drive = bytes.len() >= 2 && bytes[1] == 0x3au8;
        proof {
            if leading_slash {
                assert(path@.take(1) =~= seq!['/']);
            } else {
                assert(path@.take(1) != seq!['/']) by {
                    assert(path@.take(1)[0] != seq!['/'][0]);
                }
            }
            if leading_backslashes {
                assert(path@.take(2) =~= seq!['\\', '\\']);
            } else if path@.len() >= 2 {
                assert(path@.take(2) != seq!['\\', '\\']) by {
                    if path@[0] != '\\' {
                        assert(path@.take(2)[0] != seq!['\\', '\\'][0]);
                    } else {
                        assert(path@.take(2)[1] != seq!['\\', '\\'][1]);
                    }
                }
            }
        }
        if leading_slash || leading_backslashes || drive {
            return Err(RepoPathError::Absolute);
        }
        let components = split_chars(&chars, '/');
        let ghost cs = split_seq(path@, '/');
        proof {
            assert(cs.skip(0) =~= cs);
            assert(!looks_absolute(path@));
            assert(path_error(path@) == first_component_error(cs));
        }
        let mut k: usize = 0;
        while k < components.len()
            invariant
                k <= components@.len(),
                components@.len() == cs.len(),
                forall|j: int| 0 <= j < components@.len() ==> #[trigger] components@[j]@ == cs[j],
                first_component_error(cs) == first_component_error(cs.skip(k as int)),
                path_error(path@) == first_component_error(cs),
            decreases components@.len() - k,
        {
            proof {
                assert(cs.skip(k as int)[0] == cs[k as int]);
                assert(cs.skip(k as int).skip(1) =~= cs.skip(k + 1));
            }
            let piece = &components[k];
            proof {
                assert(piece@ == cs[k as int]);
                assert(first_component_error(cs.skip(k as int)) == match component_error(cs[k as int]) {
                    Some(e) => Some(e),
                    None => first_component_error(cs.skip(k + 1)),
                });
            }
            if piece.len() == 0 {
                return Err(RepoPathError::Empty);
            }
            if component_is_traversal(piece) {
                return Err(RepoPathError::Traversal);
            }
            k = k + 1;
        }
        proof {
            assert(cs.skip(k as int).len() == 0);
        }
        Ok(RepoPath { path: crate::text::string_from_chars(&chars) })
    }

    /// Returns the validated Git path.
    pub fn as_str(&self) -> (s: &str)
        ensures
            s@ == self@,
    {
        self.path.as_str()
    }

    /// A copy of this path.
    pub fn duplicate(&self) -> (res: RepoPath)
        ensures
            res == *self,
    {
        RepoPath { path: self.path.clone() }
    }

    /// Whether two paths are the same path.
    pub fn same_as(&self, other: &RepoPath) -> (res: bool)
        ensures
            res == (self@ == other@),
    {
        self.path == other.path
    }
}

} // verus!
