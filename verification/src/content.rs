//! Immutable complete-file source versions with stable line coordinates.
use vstd::prelude::*;
use vstd::utf8::encode_utf8;
use crate::fingerprint::{blake3_digest, encode_fields, field_views, Fingerprint};
use crate::model::DiffSide;
use crate::repo_path::RepoPath;
use crate::text::{
    bytes_to_vec, chars_of, decimal, lemma_split_seq_nonempty, push_all, push_decimal,
    split_chars, split_seq, string_from_chars,
};

verus! {

/// Maximum UTF-8 bytes accepted for one complete source version.
pub const MAX_SOURCE_FILE_BYTES: u64 = 8388608;

/// Defensive maximum normalized lines accepted for one complete source version.
pub const MAX_SOURCE_FILE_LINES: usize = 1000000;

/// Identifies one side of one changed file in a review snapshot.
#[derive(Debug, Clone, PartialEq, Eq, Hash, PartialOrd, Ord)]
pub struct SourceKey {
    /// The current path used to identify the file in the review sidebar.
    pub review_path: RepoPath,
    pub side: DiffSide,
}

impl SourceKey {
    pub fn new(review_path: RepoPath, side: DiffSide) -> (res: SourceKey)
        ensures
            res.review_path == review_path,
            res.side == side,
    {
        SourceKey { review_path, side }
    }

    /// Whether two keys name the same side of the same path.
    pub fn same_as(&self, other: &SourceKey) -> (res: bool)
        ensures
            res == (self.review_path@ == other.review_path@ && self.side == other.side),
    {
        self.side == other.side && self.review_path.same_as(&other.review_path)
    }
}

/// A one-based source coordinate independent of patch provenance.
#[derive(Debug, Clone, Copy, PartialEq, Eq, Hash, Structural)]
pub struct SourceLineRef {
    pub side: DiffSide,
    pub line_number: usize,
}

/// A durable source coordinate within the current review snapshot.
#[derive(Debug, Clone, PartialEq, Eq, Hash)]
pub struct SourceLocation {
    pub path: RepoPath,
    pub side: DiffSide,
    pub line_number: usize,
}

/// Why a complete source version cannot be displayed.
#[derive(Debug, Clone, PartialEq, Eq)]
pub enum SourceUnavailable {
    Absent,
    NotCaptured,
    Binary,
    TooLarge { bytes: u64 },
    TooManyLines { lines: usize },
    SnapshotBudgetExceeded,
    UnstableSnapshot,
    Error(String),
}

/// The human-readable description of an unavailable reason.
pub open spec fn unavailable_text(reason: SourceUnavailable) -> Seq<char> {
    match reason {
        SourceUnavailable::Absent => "source version is absent"@,
        SourceUnavailable::NotCaptured => "source version was not captured"@,
        SourceUnavailable::Binary => "source version is binary or not valid UTF-8"@,
        SourceUnavailable::TooLarge { bytes } => "source version is too large ("@ + decimal(
            bytes as nat,
        ) + " bytes)"@,
        SourceUnavailable::TooManyLines { lines } => "source version has too many lines ("@
            + decimal(lines as nat) + ")"@,
        SourceUnavailable::SnapshotBudgetExceeded => "source snapshot budget was exceeded"@,
        SourceUnavailable::UnstableSnapshot => "repository changed while capturing the snapshot"@,
        SourceUnavailable::Error(message) => message@,
    }
}

impl SourceUnavailable {
    /// The human-readable description of this reason.
    pub fn describe(&self) -> (res: String)
        ensures
            res@ == unavailable_text(*self),
    {
        match self {
            SourceUnavailable::Absent => "source version is absent".to_owned(),
            SourceUnavailable::NotCaptured => "source version was not captured".to_owned(),
            SourceUnavailable::Binary => "source version is binary or not valid UTF-8".to_owned(),
            SourceUnavailable::TooLarge { bytes } => {
                let mut out = chars_of("source version is too large (");
                push_decimal(&mut out, *bytes);
                let tail = chars_of(" bytes)");
                push_all(&mut out, &tail);
                string_from_chars(&out)
            },
            SourceUnavailable::TooManyLines { lines } => {
                let mut out = chars_of("source version has too many lines (");
                push_decimal(&mut out, *lines as u64);
                let tail = chars_of(")");
                push_all(&mut out, &tail);
                string_from_chars(&out)
            },
            SourceUnavailable::SnapshotBudgetExceeded => "source snapshot budget was exceeded".to_owned(),
            SourceUnavailable::UnstableSnapshot => "repository changed while capturing the snapshot".to_owned(),
            SourceUnavailable::Error(message) => message.clone(),
        }
    }

    /// A copy of this reason.
    pub fn duplicate(&self) -> (res: SourceUnavailable)
        ensures
            res == *self,
    {
        match self {
            SourceUnavailable::Absent => SourceUnavailable::Absent,
            SourceUnavailable::NotCaptured => SourceUnavailable::NotCaptured,
            SourceUnavailable::Binary => SourceUnavailable::Binary,
            SourceUnavailable::TooLarge { bytes } => SourceUnavailable::TooLarge { bytes: *bytes },
            SourceUnavailable::TooManyLines { lines } => SourceUnavailable::TooManyLines {
                lines: *lines,
            },
            SourceUnavailable::SnapshotBudgetExceeded => SourceUnavailable::SnapshotBudgetExceeded,
            SourceUnavailable::UnstableSnapshot => SourceUnavailable::UnstableSnapshot,
            SourceUnavailable::Error(message) => SourceUnavailable::Error(message.clone()),
        }
    }
}

/// Content-derived identity of a sequence of normalized lines.
#[derive(Debug, Clone, Copy, PartialEq, Eq, Hash)]
pub struct SourceSequenceId {
    pub fingerprint: Fingerprint,
}

/// The fields hashed for a line sequence: a domain tag, then each line's UTF-8.
pub open spec fn sequence_fields(lines: Seq<Seq<char>>) -> Seq<Seq<u8>> {
    seq![encode_utf8("diff-source-sequence-v1"@)] + lines.map_values(|l: Seq<char>| encode_utf8(l))
}

pub open spec fn char_line_views(lines: Seq<Vec<char>>) -> Seq<Seq<char>> {
    lines.map_values(|l: Vec<char>| l@)
}

impl SourceSequenceId {
    /// The identity of a sequence of lines, in order.
    pub fn from_lines(lines: &Vec<Vec<char>>) -> (res: SourceSequenceId)
        ensures
            res.fingerprint.bytes@ == blake3_digest(
                encode_fields(sequence_fields(char_line_views(lines@))),
            ),
    {
        let mut fields: Vec<Vec<u8>> = Vec::new();
        fields.push(bytes_to_vec("diff-source-sequence-v1".as_bytes()));
        let mut i: usize = 0;
        while i < lines.len()
            invariant
                i <= lines@.len(),
                field_views(fields@) == sequence_fields(char_line_views(lines@.take(i as int))),
            decreases lines@.len() - i,
        {
            let line = string_from_chars(&lines[i]);
            let bytes = bytes_to_vec(line.as_str().as_bytes());
            let ghost before = fields@;
            fields.push(bytes);
            proof {
                assert(bytes@ == encode_utf8(lines@[i as int]@));
                assert(field_views(fields@) =~= field_views(before).push(bytes@));
                assert(sequence_fields(char_line_views(lines@.take(i as int)).push(lines@[i as int]@))
                    =~= sequence_fields(char_line_views(lines@.take(i as int))).push(encode_utf8(lines@[i as int]@)));
                assert(char_line_views(lines@.take(i + 1)) =~= char_line_views(
                    lines@.take(i as int),
                ).push(lines@[i as int]@));
                assert(field_views(fields@) =~= sequence_fields(
                    char_line_views(lines@.take(i + 1)),
                ));
            }
            i = i + 1;
        }
        proof {
            assert(lines@.take(i as int) =~= lines@);
        }
        SourceSequenceId { fingerprint: Fingerprint::of(&fields) }
    }
}

/// Byte offsets at which lines begin, before trimming: zero, then one past
/// every newline byte.
pub open spec fn newline_starts(b: Seq<u8>) -> Seq<usize>
    decreases b.len(),
{
    if b.len() == 0 {
        seq![0usize]
    } else if b.last() == 10u8 {
        newline_starts(b.drop_last()).push(b.len() as usize)
    } else {
        newline_starts(b.drop_last())
    }
}

/// Byte offsets at which the lines of a document with UTF-8 bytes `b` begin:
/// an empty document has no lines, and a final newline opens no new line.
pub open spec fn line_starts_of(b: Seq<u8>) -> Seq<usize> {
    if b.len() == 0 {
        Seq::<usize>::empty()
    } else if b.last() == 10u8 {
        newline_starts(b).drop_last()
    } else {
        newline_starts(b)
    }
}

/// A line with one trailing carriage return removed.
pub open spec fn strip_cr(line: Seq<char>) -> Seq<char> {
    if line.len() > 0 && line.last() == '\r' {
        line.drop_last()
    } else {
        line
    }
}

/// The normalized lines of a text: split at `\n`, without the empty piece
/// after a final newline, each with one trailing `\r` removed.
pub open spec fn normalized_lines(c: Seq<char>) -> Seq<Seq<char>> {
    let pieces = split_seq(c, '\n');
    let kept = if c.len() == 0 || c.last() == '\n' {
        pieces.drop_last()
    } else {
        pieces
    };
    kept.map_values(|l: Seq<char>| strip_cr(l))
}

/// Why a text of this many bytes and lines cannot be captured, if it cannot.
pub open spec fn capture_limit(byte_len: nat, line_count: nat) -> Option<SourceUnavailable> {
    if byte_len > MAX_SOURCE_FILE_BYTES {
        Some(SourceUnavailable::TooLarge { bytes: byte_len as u64 })
    } else if line_count > MAX_SOURCE_FILE_LINES {
        Some(SourceUnavailable::TooManyLines { lines: line_count as usize })
    } else {
        None
    }
}

/// The fields hashed for a document's exact content identity.
pub open spec fn document_fields(text: Seq<char>) -> Seq<Seq<u8>> {
    seq![encode_utf8("diff-source-document-v1"@), encode_utf8(text)]
}

/// An immutable, contiguous source document with stable line coordinates.
#[derive(Debug, PartialEq, Eq)]
pub struct SourceDocument {
    text: String,
    line_starts: Vec<usize>,
    lines: Vec<Vec<char>>,
    content_id: Fingerprint,
    sequence_id: SourceSequenceId,
    byte_len: u64,
    trailing_newline: bool,
}

fn strip_trailing_cr(line: Vec<char>) -> (res: Vec<char>)
    ensures
        res@ == strip_cr(line@),
{
    let mut line = line;
    if line.len() > 0 && line[line.len() - 1] == '\r' {
        line.pop();
    }
    line
}

fn compute_line_starts(bytes: &[u8]) -> (res: Vec<usize>)
    ensures
        res@ == line_starts_of(bytes@),
{
    let mut starts: Vec<usize> = Vec::new();
    starts.push(0);
    let mut i: usize = 0;
    while i < bytes.len()
        invariant
            i <= bytes@.len(),
            starts@ == newline_starts(bytes@.take(i as int)),
        decreases bytes@.len() - i,
    {
        proof {
            let t = bytes@.take(i + 1);
            assert(t.drop_last() =~= bytes@.take(i as int));
            assert(t.last() == bytes@[i as int]);
        }
        if bytes[i] == 10u8 {
            starts.push(i + 1);
        }
        i = i + 1;
    }
    proof {
        assert(bytes@.take(i as int) =~= bytes@);
    }
    if bytes.len() == 0 {
        return Vec::new();
    }
    if bytes[bytes.len() - 1] == 10u8 {
        starts.pop();
    }
    starts
}

fn normalize_text_lines(chars: &Vec<char>) -> (res: Vec<Vec<char>>)
    ensures
        char_line_views(res@) == normalized_lines(chars@),
{
    let mut pieces = split_chars(chars.as_slice(), '\n');
    proof {
        lemma_split_seq_nonempty(chars@, '\n');
    }
    let ghost kept = if chars@.len() == 0 || chars@.last() == '\n' {
        split_seq(chars@, '\n').drop_last()
    } else {
        split_seq(chars@, '\n')
    };
    if chars.len() == 0 || chars[chars.len() - 1] == '\n' {
        pieces.pop();
    }
    let mut out: Vec<Vec<char>> = Vec::new();
    let mut i: usize = 0;
    while i < pieces.len()
        invariant
            i <= pieces@.len(),
            pieces@.len() == kept.len(),
            forall|k: int| 0 <= k < pieces@.len() ==> #[trigger] pieces@[k]@ == kept[k],
            out@.len() == i,
            forall|k: int| 0 <= k < i ==> #[trigger] out@[k]@ == strip_cr(kept[k]),
        decreases pieces@.len() - i,
    {
        let piece = pieces[i].clone();
        out.push(strip_trailing_cr(piece));
        i = i + 1;
    }
    proof {
        assert(char_line_views(out@) =~= normalized_lines(chars@));
    }
    out
}

/// The view of a document is its exact text.
impl View for SourceDocument {
    type V = Seq<char>;

    closed spec fn view(&self) -> Seq<char> {
        self.text@
    }
}

impl SourceDocument {
    /// Captures one immutable source document.
    pub fn new(text: &str) -> (res: Result<SourceDocument, SourceUnavailable>)
        ensures
            match res {
                Ok(doc) => doc@ == text@ && capture_limit(
                    encode_utf8(text@).len(),
                    line_starts_of(encode_utf8(text@)).len(),
                ) is None,
                Err(e) => capture_limit(
                    encode_utf8(text@).len(),
                    line_starts_of(encode_utf8(text@)).len(),
                ) == Some(e),
            },
    {
        SourceDocument::try_from_text(text)
    }

    /// Every field is derived from the exact text.
    #[verifier::type_invariant]
    closed spec fn wf(&self) -> bool {
        &&& self.line_starts@ == line_starts_of(encode_utf8(self.text@))
        &&& char_line_views(self.lines@) == normalized_lines(self.text@)
        &&& self.byte_len == encode_utf8(self.text@).len()
        &&& self.trailing_newline == (self.text@.len() > 0 && self.text@.last() == '\n')
        &&& self.content_id.bytes@ == blake3_digest(encode_fields(document_fields(self.text@)))
        &&& self.sequence_id.fingerprint.bytes@ == blake3_digest(
            encode_fields(sequence_fields(normalized_lines(self.text@))),
        )
        &&& self.line_starts@.len() <= MAX_SOURCE_FILE_LINES
    }

    /// The normalized lines, one-based in `spec_line`.
    pub open spec fn spec_lines(&self) -> Seq<Seq<char>> {
        normalized_lines(self@)
    }

    /// The byte offsets at which lines begin.
    pub open spec fn spec_line_starts(&self) -> Seq<usize> {
        line_starts_of(encode_utf8(self@))
    }

    /// Captures exact byte identity while normalizing rendered line endings.
    ///
    /// Refuses texts over `MAX_SOURCE_FILE_BYTES` bytes, then texts with more
    /// than `MAX_SOURCE_FILE_LINES` lines.
    pub fn try_from_text(text: &str) -> (res: Result<SourceDocument, SourceUnavailable>)
        ensures
            match res {
                Ok(doc) => doc@ == text@ && capture_limit(
                    encode_utf8(text@).len(),
                    line_starts_of(encode_utf8(text@)).len(),
                ) is None,
                Err(e) => capture_limit(
                    encode_utf8(text@).len(),
                    line_starts_of(encode_utf8(text@)).len(),
                ) == Some(e),
            },
    {
        let bytes = text.as_bytes();
        if bytes.len() as u64 > MAX_SOURCE_FILE_BYTES {
            return Err(SourceUnavailable::TooLarge { bytes: bytes.len() as u64 });
        }
        let byte_len = bytes.len() as u64;
        let line_starts = compute_line_starts(bytes);
        if line_starts.len() > MAX_SOURCE_FILE_LINES {
            return Err(SourceUnavailable::TooManyLines { lines: line_starts.len() });
        }
        let chars = chars_of(text);
        let trailing_newline = chars.len() > 0 && chars[chars.len() - 1] == '\n';
        let lines = normalize_text_lines(&chars);
        let mut fields: Vec<Vec<u8>> = Vec::new();
        fields.push(bytes_to_vec("diff-source-document-v1".as_bytes()));
        fields.push(bytes_to_vec(bytes));
        proof {
            assert(field_views(fields@) =~= document_fields(text@));
        }
        let content_id = Fingerprint::of(&fields);
        let sequence_id = SourceSequenceId::from_lines(&lines);
        let owned = string_from_chars(&chars);
        proof {
            assert(owned@ == text@);
            assert(line_starts@ == line_starts_of(encode_utf8(owned@)));
            assert(char_line_views(lines@) == normalized_lines(owned@));
            assert(byte_len == encode_utf8(owned@).len());
            assert(trailing_newline == (owned@.len() > 0 && owned@.last() == '\n'));
            assert(content_id.bytes@ == blake3_digest(encode_fields(document_fields(owned@))));
            assert(sequence_id.fingerprint.bytes@ == blake3_digest(
                encode_fields(sequence_fields(normalized_lines(owned@))),
            ));
            assert(line_starts@.len() <= MAX_SOURCE_FILE_LINES);
        }
        Ok(SourceDocument {
            text: owned,
            line_starts,
            lines,
            content_id,
            sequence_id,
            byte_len,
            trailing_newline,
        })
    }

    /// A copy of this document.
    pub fn duplicate(&self) -> (res: SourceDocument)
        ensures
            res@ == self@,
    {
        proof {
            use_type_invariant(self);
        }
        let mut lines: Vec<Vec<char>> = Vec::new();
        let mut i: usize = 0;
        while i < self.lines.len()
            invariant
                i <= self.lines@.len(),
                lines@.len() == i,
                forall|k: int| 0 <= k < i ==> #[trigger] lines@[k]@ == self.lines@[k]@,
            decreases self.lines@.len() - i,
        {
            let mut line: Vec<char> = Vec::new();
            push_all(&mut line, self.lines[i].as_slice());
            lines.push(line);
            i = i + 1;
        }
        let mut starts: Vec<usize> = Vec::new();
        let mut k: usize = 0;
        while k < self.line_starts.len()
            invariant
                k <= self.line_starts@.len(),
                starts@ == self.line_starts@.take(k as int),
            decreases self.line_starts@.len() - k,
        {
            starts.push(self.line_starts[k]);
            k = k + 1;
            proof {
                assert(self.line_starts@.take(k as int) =~= self.line_starts@.take(k - 1).push(
                    self.line_starts@[k - 1],
                ));
            }
        }
        proof {
            assert(self.line_starts@.take(k as int) =~= self.line_starts@);
            assert(char_line_views(lines@) =~= char_line_views(self.lines@));
        }
        SourceDocument {
            text: self.text.clone(),
            line_starts: starts,
            lines,
            content_id: self.content_id,
            sequence_id: self.sequence_id,
            byte_len: self.byte_len,
            trailing_newline: self.trailing_newline,
        }
    }

    /// Returns a one-based normalized source line.
    pub fn line(&self, number: usize) -> (res: Option<String>)
        ensures
            match res {
                Some(l) => 1 <= number <= self.spec_lines().len() && l@ == self.spec_lines()[number - 1],
                None => number == 0 || number > self.spec_lines().len(),
            },
    {
        proof {
            use_type_invariant(self);
        }
        if number == 0 || number > self.lines.len() {
            return None;
        }
        Some(string_from_chars(&self.lines[number - 1]))
    }

    /// Returns the normalized characters of a one-based line.
    pub fn line_chars(&self, number: usize) -> (res: Option<&Vec<char>>)
        ensures
            match res {
                Some(l) => 1 <= number <= self.spec_lines().len() && l@ == self.spec_lines()[number - 1],
                None => number == 0 || number > self.spec_lines().len(),
            },
    {
        proof {
            use_type_invariant(self);
        }
        if number == 0 || number > self.lines.len() {
            return None;
        }
        Some(&self.lines[number - 1])
    }

    /// Returns the zero-based byte span of a one-based source line, without
    /// its line ending.
    pub fn line_span(&self, number: usize) -> (res: Option<core::ops::Range<usize>>)
        ensures
            match res {
                Some(r) => 1 <= number <= self.spec_line_starts().len() && r == line_span_of(
                    encode_utf8(self@),
                    self.spec_line_starts(),
                    (number - 1) as int,
                ),
                None => number == 0 || number > self.spec_line_starts().len(),
            },
    {
        proof {
            use_type_invariant(self);
        }
        if number == 0 || number > self.line_starts.len() {
            return None;
        }
        let index = number - 1;
        let bytes = self.text.as_str().as_bytes();
        let start = self.line_starts[index];
        proof {
            assert(bytes@.len() == bytes.len());
            lemma_line_starts_bounded(encode_utf8(self@));
        }
        let end = if index + 1 < self.line_starts.len() {
            self.line_starts[index + 1]
        } else {
            bytes.len()
        };
        let end = if end > start && bytes[end - 1] == 10u8 {
            end - 1
        } else {
            end
        };
        let end = if end > start && bytes[end - 1] == 13u8 {
            end - 1
        } else {
            end
        };
        Some(start..end)
    }

    pub fn text(&self) -> (res: &str)
        ensures
            res@ == self@,
    {
        self.text.as_str()
    }

    pub fn line_starts(&self) -> (res: &[usize])
        ensures
            res@ == self.spec_line_starts(),
    {
        proof {
            use_type_invariant(self);
        }
        self.line_starts.as_slice()
    }

    /// The exact content identity.
    pub fn identity(&self) -> (res: Fingerprint)
        ensures
            res.bytes@ == blake3_digest(encode_fields(document_fields(self@))),
    {
        proof {
            use_type_invariant(self);
        }
        self.content_id
    }

    /// The number of lines.
    pub fn line_count(&self) -> (res: usize)
        ensures
            res == self.spec_line_starts().len(),
            res <= MAX_SOURCE_FILE_LINES,
    {
        proof {
            use_type_invariant(self);
        }
        self.line_starts.len()
    }

    /// The exact content identity: it distinguishes line endings.
    pub fn content_id(&self) -> (res: Fingerprint)
        ensures
            res.bytes@ == blake3_digest(encode_fields(document_fields(self@))),
    {
        proof {
            use_type_invariant(self);
        }
        self.content_id
    }

    /// The identity of the normalized lines: equal for texts that differ only
    /// in line endings.
    pub fn sequence_id(&self) -> (res: SourceSequenceId)
        ensures
            res.fingerprint.bytes@ == blake3_digest(
                encode_fields(sequence_fields(self.spec_lines())),
            ),
    {
        proof {
            use_type_invariant(self);
        }
        self.sequence_id
    }

    /// The length of the text in UTF-8 bytes.
    pub fn byte_len(&self) -> (res: u64)
        ensures
            res == encode_utf8(self@).len(),
    {
        proof {
            use_type_invariant(self);
        }
        self.byte_len
    }

    /// Whether the text ends with a newline.
    pub fn trailing_newline(&self) -> (res: bool)
        ensures
            res == (self@.len() > 0 && self@.last() == '\n'),
    {
        proof {
            use_type_invariant(self);
        }
        self.trailing_newline
    }
}

/// `Arc::clone`: a second handle on the same document.
#[verifier::external_body]
pub fn share_source(doc: &std::sync::Arc<SourceDocument>) -> (res: std::sync::Arc<SourceDocument>)
    ensures
        res == *doc,
{
    std::sync::Arc::clone(doc)
}

impl Clone for SourceDocument {
    fn clone(&self) -> (res: SourceDocument)
        ensures
            res@ == self@,
    {
        self.duplicate()
    }
}

/// The byte span of the line at zero-based `index`: from its start to the next
/// line's start (or the end of the text), less a final `\n` and then a final `\r`.
pub open spec fn line_span_of(b: Seq<u8>, starts: Seq<usize>, index: int) -> core::ops::Range<usize> {
    let start = starts[index];
    let end0 = if index + 1 < starts.len() {
        starts[index + 1] as int
    } else {
        b.len() as int
    };
    let end1 = if end0 > start && b[end0 - 1] == 10u8 {
        end0 - 1
    } else {
        end0
    };
    let end2 = if end1 > start && b[end1 - 1] == 13u8 {
        end1 - 1
    } else {
        end1
    };
    core::ops::Range { start, end: end2 as usize }
}

pub proof fn lemma_newline_starts_bounded(b: Seq<u8>)
    requires
        b.len() <= usize::MAX,
    ensures
        forall|i: int| 0 <= i < newline_starts(b).len() ==> newline_starts(b)[i] <= b.len(),
        forall|i: int, j: int|
            0 <= i < j < newline_starts(b).len() ==> newline_starts(b)[i] < newline_starts(b)[j],
        newline_starts(b).len() >= 1,
    decreases b.len(),
{
    if b.len() > 0 {
        lemma_newline_starts_bounded(b.drop_last());
        let p = newline_starts(b.drop_last());
        if b.last() == 10u8 {
            let q = p.push(b.len() as usize);
            assert forall|i: int, j: int| 0 <= i < j < q.len() implies q[i] < q[j] by {
                if j == q.len() - 1 {
                    assert(q[i] == p[i]);
                    assert(p[i] <= b.len() - 1);
                }
            }
        }
    }
}

pub proof fn lemma_line_starts_bounded(b: Seq<u8>)
    requires
        b.len() <= usize::MAX,
    ensures
        forall|i: int| 0 <= i < line_starts_of(b).len() ==> line_starts_of(b)[i] <= b.len(),
        forall|i: int, j: int|
            0 <= i < j < line_starts_of(b).len() ==> line_starts_of(b)[i] < line_starts_of(b)[j],
{
    lemma_newline_starts_bounded(b);
}

} // verus!
