//! Stable identities for patch lines and review comments.
use vstd::prelude::*;
use vstd::utf8::encode_utf8;
use crate::file_diff::FileDiff;
use crate::fingerprint::{blake3_digest, blake3_hash, hex_chars, Fingerprint};
use crate::model::{
    kind_name, side_name, DiffSide, PatchLine, PatchLineKind, PatchLineView,
};
use crate::repo_path::RepoPath;
use crate::text::push_str_bytes;

verus! {

/// A stable identity for a source line in a diff.
#[derive(Debug, PartialEq, Eq, Hash)]
pub struct LineAnchor {
    pub path: RepoPath,
    pub side: DiffSide,
    pub old_line_no: Option<usize>,
    pub new_line_no: Option<usize>,
    pub kind: PatchLineKind,
    /// Lowercase hexadecimal BLAKE3 digest of path, content, and nearby context.
    pub fingerprint: String,
    /// Digest of side, kind, and line content, used when nearby context moves.
    pub content_fingerprint: Fingerprint,
}

/// The mathematical content of an anchor.
pub struct LineAnchorView {
    pub path: Seq<char>,
    pub side: DiffSide,
    pub old_line_no: Option<usize>,
    pub new_line_no: Option<usize>,
    pub kind: PatchLineKind,
    pub fingerprint: Seq<char>,
    pub content_fingerprint: Seq<u8>,
}

impl View for LineAnchor {
    type V = LineAnchorView;

    open spec fn view(&self) -> LineAnchorView {
        LineAnchorView {
            path: self.path@,
            side: self.side,
            old_line_no: self.old_line_no,
            new_line_no: self.new_line_no,
            kind: self.kind,
            fingerprint: self.fingerprint@,
            content_fingerprint: self.content_fingerprint.bytes@,
        }
    }
}

/// Each text's UTF-8 bytes followed by a NUL byte, in order.
pub open spec fn nul_terminated(texts: Seq<Seq<char>>) -> Seq<u8>
    decreases texts.len(),
{
    if texts.len() == 0 {
        Seq::<u8>::empty()
    } else {
        nul_terminated(texts.drop_last()) + encode_utf8(texts.last()) + seq![0u8]
    }
}

/// The bytes hashed for an anchor's context-sensitive fingerprint.
pub open spec fn stable_bytes(
    path: Seq<char>,
    side: DiffSide,
    text: Seq<char>,
    kind: PatchLineKind,
    nearby: Seq<Seq<char>>,
) -> Seq<u8> {
    nul_terminated(seq![path, side_name(side), text]) + encode_utf8(kind_name(kind))
        + nul_terminated(nearby)
}

/// The bytes hashed for an anchor's content fingerprint.
pub open spec fn content_bytes(side: DiffSide, kind: PatchLineKind, text: Seq<char>) -> Seq<u8> {
    encode_utf8(side_name(side)) + encode_utf8(kind_name(kind)) + encode_utf8(text)
}

/// The content fingerprint of a line seen from a side.
pub open spec fn content_fingerprint_for(side: DiffSide, line: PatchLineView) -> Seq<u8> {
    blake3_digest(content_bytes(side, line.kind, line.text))
}

/// The texts of a list of lines.
pub open spec fn line_texts(lines: Seq<PatchLineView>) -> Seq<Seq<char>> {
    lines.map_values(|l: PatchLineView| l.text)
}

/// The anchor of `line` at `path` on `side`, with `nearby` as its context.
pub open spec fn anchor_view(
    path: Seq<char>,
    side: DiffSide,
    line: PatchLineView,
    nearby: Seq<PatchLineView>,
) -> LineAnchorView {
    LineAnchorView {
        path,
        side,
        old_line_no: line.old_line_no,
        new_line_no: line.new_line_no,
        kind: line.kind,
        fingerprint: hex_chars(
            blake3_digest(stable_bytes(path, side, line.text, line.kind, line_texts(nearby))),
        ),
        content_fingerprint: content_fingerprint_for(side, line),
    }
}

/// The number a line carries on a side.
pub open spec fn view_line_number(line: PatchLineView, side: DiffSide) -> Option<usize> {
    match side {
        DiffSide::Old => line.old_line_no,
        DiffSide::New => line.new_line_no,
    }
}

/// The anchor of a file's hunk line on a side, with up to two lines of
/// context before it and two after it; none where the line does not exist or
/// has no number on that side.
pub open spec fn anchor_at(
    file_path: Seq<char>,
    lines: Seq<PatchLineView>,
    side: DiffSide,
    index: int,
) -> Option<LineAnchorView> {
    if 0 <= index < lines.len() && view_line_number(lines[index], side) is Some {
        let lo = if index >= 2 {
            index - 2
        } else {
            0
        };
        let hi = if index + 3 <= lines.len() {
            index + 3
        } else {
            lines.len() as int
        };
        Some(anchor_view(file_path, side, lines[index], lines.subrange(lo, hi)))
    } else {
        None
    }
}

fn push_nul_terminated(out: &mut Vec<u8>, s: &str)
    ensures
        final(out)@ == old(out)@ + encode_utf8(s@) + seq![0u8],
{
    push_str_bytes(out, s);
    out.push(0u8);
}

fn fingerprints(path: &RepoPath, side: DiffSide, line: &PatchLine, nearby: &[PatchLine]) -> (res: (
    String,
    Fingerprint,
))
    ensures
        res.0@ == hex_chars(
            blake3_digest(
                stable_bytes(
                    path@,
                    side,
                    line.text@,
                    line.kind,
                    line_texts(nearby@.map_values(|l: PatchLine| l@)),
                ),
            ),
        ),
        res.1.bytes@ == content_fingerprint_for(side, line@),
{
    let side_text = side.as_str();
    let kind = line.kind.as_str();
    let mut stable: Vec<u8> = Vec::new();
    push_nul_terminated(&mut stable, path.as_str());
    push_nul_terminated(&mut stable, side_text);
    push_nul_terminated(&mut stable, line.text.as_str());
    proof {
        let three = seq![path@, side_name(side), line.text@];
        assert(three.drop_last().drop_last().drop_last() =~= Seq::<Seq<char>>::empty());
        assert(three.drop_last().drop_last() =~= seq![path@]);
        assert(three.drop_last() =~= seq![path@, side_name(side)]);
        reveal_with_fuel(nul_terminated, 4);
        assert(stable@ =~= nul_terminated(three));
    }
    push_str_bytes(&mut stable, kind);
    let ghost head = stable@;
    let ghost views = nearby@.map_values(|l: PatchLine| l@);
    let mut i: usize = 0;
    while i < nearby.len()
        invariant
            i <= nearby@.len(),
            views == nearby@.map_values(|l: PatchLine| l@),
            stable@ == head + nul_terminated(line_texts(views).take(i as int)),
        decreases nearby@.len() - i,
    {
        push_nul_terminated(&mut stable, nearby[i].text.as_str());
        proof {
            let t = line_texts(views).take(i + 1);
            assert(t.drop_last() =~= line_texts(views).take(i as int));
            assert(t.last() == nearby@[i as int].text@);
        }
        i = i + 1;
    }
    proof {
        assert(line_texts(views).take(i as int) =~= line_texts(views));
    }
    let stable_hash = blake3_hash(stable.as_slice());
    let mut content: Vec<u8> = Vec::new();
    push_str_bytes(&mut content, side_text);
    push_str_bytes(&mut content, kind);
    push_str_bytes(&mut content, line.text.as_str());
    let content_hash = blake3_hash(content.as_slice());
    proof {
        assert(content@ =~= content_bytes(side, line.kind, line.text@));
    }
    (Fingerprint::from_bytes(stable_hash).to_hex(), Fingerprint::from_bytes(content_hash))
}

impl LineAnchor {
    /// Creates an anchor using the given lines as its context.
    pub fn new(path: RepoPath, side: DiffSide, line: &PatchLine, nearby: &[PatchLine]) -> (res:
        LineAnchor)
        ensures
            res.path == path,
            res@ == anchor_view(path@, side, line@, nearby@.map_values(|l: PatchLine| l@)),
    {
        let (fingerprint, content_fingerprint) = fingerprints(&path, side, line, nearby);
        proof {
            assert(line_texts(nearby@.map_values(|l: PatchLine| l@)) == line_texts(
                nearby@.map_values(|l: PatchLine| l@),
            ));
        }
        LineAnchor {
            path,
            side,
            old_line_no: line.old_line_no,
            new_line_no: line.new_line_no,
            kind: line.kind,
            fingerprint,
            content_fingerprint,
        }
    }

    /// Creates an anchor from a file and hunk line index, collecting up to
    /// two lines of context on either side.
    pub fn for_line(file: &FileDiff, side: DiffSide, hunk: usize, line: usize) -> (res: Option<
        LineAnchor,
    >)
        ensures
            match res {
                Some(a) => hunk < file.hunks@.len() && a.path == file.path && Some(a@) == anchor_at(
                    file.path@,
                    file.hunks@[hunk as int]@.lines,
                    side,
                    line as int,
                ),
                None => hunk >= file.hunks@.len() || anchor_at(
                    file.path@,
                    file.hunks@[hunk as int]@.lines,
                    side,
                    line as int,
                ) is None,
            },
    {
        if hunk >= file.hunks.len() {
            return None;
        }
        let lines = &file.hunks[hunk].lines;
        if line >= lines.len() {
            return None;
        }
        let item = &lines[line];
        if item.line_number(side).is_none() {
            return None;
        }
        let lo = if line >= 2 {
            line - 2
        } else {
            0
        };
        let hi = if lines.len() - line >= 3 {
            line + 3
        } else {
            lines.len()
        };
        let nearby = vstd::slice::slice_subrange(lines.as_slice(), lo, hi);
        let anchor = LineAnchor::new(file.path.duplicate(), side, item, nearby);
        proof {
            assert(nearby@.map_values(|l: PatchLine| l@) =~= file.hunks@[hunk as int]@.lines.subrange(
                lo as int,
                hi as int,
            ));
        }
        Some(anchor)
    }

    /// Returns the relevant line number for this side.
    pub fn line_number(&self) -> (res: Option<usize>)
        ensures
            res == (match self.side {
                DiffSide::Old => self.old_line_no,
                DiffSide::New => self.new_line_no,
            }),
    {
        match self.side {
            DiffSide::Old => self.old_line_no,
            DiffSide::New => self.new_line_no,
        }
    }

    /// The content fingerprint of a line seen from a side.
    pub fn content_fingerprint_of(side: DiffSide, line: &PatchLine) -> (res: Fingerprint)
        ensures
            res.bytes@ == content_fingerprint_for(side, line@),
    {
        let mut content: Vec<u8> = Vec::new();
        push_str_bytes(&mut content, side.as_str());
        push_str_bytes(&mut content, line.kind.as_str());
        push_str_bytes(&mut content, line.text.as_str());
        let hash = blake3_hash(content.as_slice());
        proof {
            assert(content@ =~= content_bytes(side, line.kind, line.text@));
        }
        Fingerprint::from_bytes(hash)
    }

    /// Whether two anchors address the same side of the same path.
    pub fn addresses_same_side(&self, other: &LineAnchor) -> (res: bool)
        ensures
            res == (self.path@ == other.path@ && self.side == other.side),
    {
        self.path.same_as(&other.path) && self.side == other.side
    }

    /// Whether two anchors are the same anchor.
    pub fn same_as(&self, other: &LineAnchor) -> (res: bool)
        ensures
            res == (self@ == other@),
    {
        let fingerprints_equal = crate::text::chars_equal(
            crate::text::chars_of(self.fingerprint.as_str()).as_slice(),
            crate::text::chars_of(other.fingerprint.as_str()).as_slice(),
        );
        self.path.same_as(&other.path) && self.side == other.side && self.old_line_no
            == other.old_line_no && self.new_line_no == other.new_line_no && self.kind == other.kind
            && fingerprints_equal && self.content_fingerprint.same_as(&other.content_fingerprint)
    }

    /// A copy of this anchor.
    pub fn duplicate(&self) -> (res: LineAnchor)
        ensures
            res == *self,
    {
        LineAnchor {
            path: self.path.duplicate(),
            side: self.side,
            old_line_no: self.old_line_no,
            new_line_no: self.new_line_no,
            kind: self.kind,
            fingerprint: self.fingerprint.clone(),
            content_fingerprint: self.content_fingerprint,
        }
    }
}

impl Clone for LineAnchor {
    fn clone(&self) -> (res: LineAnchor)
        ensures
            res == *self,
    {
        self.duplicate()
    }
}

} // verus!
