//! Comments on a Markdown document and the agent-facing feedback formatted
//! from them. A comment holds, as plain values, what the feedback reads of
//! its Markdown target: the target's kind or code line, its source path,
//! its lines, its excerpt, its heading path and its code language.
use vstd::prelude::*;
use crate::review::{chars_before, chars_lt, push_quoted_body, push_text, quote_body};
use crate::text::{chars_equal, chars_of, decimal, push_decimal, string_from_chars};
use crate::tui::string_views;

verus! {

/// The explicit decision made at the end of a Markdown review.
#[derive(Debug, Clone, Copy, PartialEq, Eq, Structural)]
pub enum MarkdownReviewDecision {
    Approved,
    ChangesRequested,
}

/// The kinds of Markdown target a comment can point at.
#[derive(Debug, Clone, Copy, PartialEq, Eq, Structural)]
pub enum MarkdownTargetKind {
    Heading,
    Paragraph,
    ListItem,
    BlockQuote,
    TableRow,
    CodeBlock,
    CodeLine,
}

/// The first and last source lines of a target, one-based.
#[derive(Debug, Clone, Copy, PartialEq, Eq, Structural)]
pub struct MarkdownLineRange {
    pub start: usize,
    pub end: usize,
}

/// Where a comment points: a block of some kind, or one line of a fenced
/// code block; each with the path of the source it was taken from.
#[derive(Debug, Clone, PartialEq, Eq)]
pub enum MarkdownAnchor {
    Block { kind: MarkdownTargetKind, source_path: Option<String> },
    CodeLine { code_line_index: usize, source_path: Option<String> },
}

/// The text of an optional string.
pub open spec fn opt_text(o: Option<String>) -> Option<Seq<char>> {
    match o {
        Some(s) => Some(s@),
        None => None,
    }
}

pub enum AnchorView {
    Block(MarkdownTargetKind, Option<Seq<char>>),
    CodeLine(usize, Option<Seq<char>>),
}

impl View for MarkdownAnchor {
    type V = AnchorView;

    open spec fn view(&self) -> AnchorView {
        match self {
            MarkdownAnchor::Block { kind, source_path } => AnchorView::Block(*kind, opt_text(*source_path)),
            MarkdownAnchor::CodeLine { code_line_index, source_path } => AnchorView::CodeLine(
                *code_line_index,
                opt_text(*source_path),
            ),
        }
    }
}

/// Context kept with a comment so that it stays useful when outdated.
#[derive(Debug, Clone, PartialEq, Eq)]
pub struct MarkdownCommentContext {
    pub source_path: Option<String>,
    pub target_label: String,
    pub source_lines: MarkdownLineRange,
    pub source_excerpt: String,
    /// The containing heading path at the time the comment was made.
    pub heading_path: Vec<String>,
    /// The code language, when the target belongs to a fenced code block.
    pub code_language: Option<String>,
}

pub struct ContextView {
    pub source_path: Option<Seq<char>>,
    pub target_label: Seq<char>,
    pub lines: MarkdownLineRange,
    pub excerpt: Seq<char>,
    pub heading: Seq<Seq<char>>,
    pub language: Option<Seq<char>>,
}

impl View for MarkdownCommentContext {
    type V = ContextView;

    open spec fn view(&self) -> ContextView {
        ContextView {
            source_path: opt_text(self.source_path),
            target_label: self.target_label@,
            lines: self.source_lines,
            excerpt: self.source_excerpt@,
            heading: string_views(self.heading_path@),
            language: opt_text(self.code_language),
        }
    }
}

/// A review comment, kept even when its Markdown target disappears.
#[derive(Debug, Clone, PartialEq, Eq)]
pub struct MarkdownReviewComment {
    pub id: u64,
    pub anchor: MarkdownAnchor,
    pub body: String,
    pub context: MarkdownCommentContext,
    pub outdated: bool,
}

pub struct MdCommentView {
    pub id: u64,
    pub anchor: AnchorView,
    pub body: Seq<char>,
    pub context: ContextView,
    pub outdated: bool,
}

impl View for MarkdownReviewComment {
    type V = MdCommentView;

    open spec fn view(&self) -> MdCommentView {
        MdCommentView {
            id: self.id,
            anchor: self.anchor@,
            body: self.body@,
            context: self.context@,
            outdated: self.outdated,
        }
    }
}

pub open spec fn md_views(v: Seq<MarkdownReviewComment>) -> Seq<MdCommentView> {
    v.map_values(|c: MarkdownReviewComment| c@)
}

/// The comments of a Markdown review, in insertion order, and the next
/// identifier to hand out.
#[derive(Debug, PartialEq, Eq)]
pub struct MarkdownReview {
    comments: Vec<MarkdownReviewComment>,
    next_id: u64,
}

pub struct MarkdownReviewView {
    pub comments: Seq<MdCommentView>,
    pub next_id: u64,
}

impl View for MarkdownReview {
    type V = MarkdownReviewView;

    closed spec fn view(&self) -> MarkdownReviewView {
        MarkdownReviewView { comments: md_views(self.comments@), next_id: self.next_id }
    }
}

// ---- ordering ----
/// Strict lexicographic order of lists of texts.
pub open spec fn texts_lt(a: Seq<Seq<char>>, b: Seq<Seq<char>>) -> bool
    decreases a.len(),
{
    if a.len() == 0 {
        b.len() > 0
    } else if b.len() == 0 {
        false
    } else if a[0] != b[0] {
        chars_lt(a[0], b[0])
    } else {
        texts_lt(a.drop_first(), b.drop_first())
    }
}

/// The path a comment sorts by: its recorded source path, or empty.
pub open spec fn sort_path(c: MdCommentView) -> Seq<char> {
    match c.context.source_path {
        Some(p) => p,
        None => Seq::empty(),
    }
}

/// The code line a comment sorts by; block comments sort after every line.
pub open spec fn code_line_key(a: AnchorView) -> usize {
    match a {
        AnchorView::CodeLine(i, _) => i,
        AnchorView::Block(_, _) => usize::MAX,
    }
}

/// Whether `a` sorts strictly before `b`: by source path, first line, code
/// line, identifier, then heading path.
pub open spec fn md_before(a: MdCommentView, b: MdCommentView) -> bool {
    let (pa, pb) = (sort_path(a), sort_path(b));
    ||| chars_lt(pa, pb)
    ||| pa == pb && a.context.lines.start < b.context.lines.start
    ||| pa == pb && a.context.lines.start == b.context.lines.start && code_line_key(a.anchor)
        < code_line_key(b.anchor)
    ||| pa == pb && a.context.lines.start == b.context.lines.start && code_line_key(a.anchor)
        == code_line_key(b.anchor) && a.id < b.id
    ||| pa == pb && a.context.lines.start == b.context.lines.start && code_line_key(a.anchor)
        == code_line_key(b.anchor) && a.id == b.id && texts_lt(a.context.heading, b.context.heading)
}

/// `sorted` with `c` placed after every element that does not sort after it.
pub open spec fn md_insert(sorted: Seq<MdCommentView>, c: MdCommentView) -> Seq<MdCommentView>
    decreases sorted.len(),
{
    if sorted.len() == 0 {
        seq![c]
    } else if md_before(c, sorted.last()) {
        md_insert(sorted.drop_last(), c).push(sorted.last())
    } else {
        sorted.push(c)
    }
}

/// The stable sort of comments by `md_before`.
pub open spec fn md_sort(s: Seq<MdCommentView>) -> Seq<MdCommentView>
    decreases s.len(),
{
    if s.len() == 0 {
        Seq::empty()
    } else {
        md_insert(md_sort(s.drop_last()), s.last())
    }
}

// ---- formatting ----
/// The source path a comment is listed under: the recorded one, else its
/// anchor's.
pub open spec fn shown_path(c: MdCommentView) -> Option<Seq<char>> {
    match c.context.source_path {
        Some(p) => Some(p),
        None => match c.anchor {
            AnchorView::Block(_, p) => p,
            AnchorView::CodeLine(_, p) => p,
        },
    }
}

pub open spec fn path_title(p: Option<Seq<char>>) -> Seq<char> {
    "\n\n## `"@ + match p {
        Some(x) => x,
        None => "<document>"@,
    } + "`"@
}

/// Texts joined by ` / `.
pub open spec fn joined(h: Seq<Seq<char>>) -> Seq<char>
    decreases h.len(),
{
    if h.len() == 0 {
        Seq::empty()
    } else if h.len() == 1 {
        h[0]
    } else {
        joined(h.drop_last()) + " / "@ + h.last()
    }
}

pub open spec fn kind_label(k: MarkdownTargetKind) -> Seq<char> {
    match k {
        MarkdownTargetKind::Heading => "Heading"@,
        MarkdownTargetKind::Paragraph => "Paragraph"@,
        MarkdownTargetKind::ListItem => "List item"@,
        MarkdownTargetKind::BlockQuote => "Blockquote"@,
        MarkdownTargetKind::TableRow => "Table row"@,
        MarkdownTargetKind::CodeBlock => "Code block"@,
        MarkdownTargetKind::CodeLine => "Code line"@,
    }
}

/// `### Line N — Target` or `### Lines A–B — Target`.
pub open spec fn comment_title(c: MdCommentView) -> Seq<char> {
    let r = c.context.lines;
    let lines = if r.start == r.end {
        "Line "@ + decimal(r.start as nat)
    } else {
        "Lines "@ + decimal(r.start as nat) + "\u{2013}"@ + decimal(r.end as nat)
    };
    let target = match c.anchor {
        AnchorView::CodeLine(i, _) => "Code line "@ + decimal(i as nat + 1),
        AnchorView::Block(k, _) => kind_label(k),
    };
    "### "@ + lines + " \u{2014} "@ + target
}

/// The length of the run of backticks that ends `s`.
pub open spec fn trailing_ticks(s: Seq<char>) -> nat
    decreases s.len(),
{
    if s.len() > 0 && s.last() == '`' {
        trailing_ticks(s.drop_last()) + 1
    } else {
        0
    }
}

/// The longest run of backticks in `s`.
pub open spec fn longest_ticks(s: Seq<char>) -> nat
    decreases s.len(),
{
    if s.len() == 0 {
        0
    } else {
        let before = longest_ticks(s.drop_last());
        let run = trailing_ticks(s);
        if run > before {
            run
        } else {
            before
        }
    }
}

/// A fence longer than every backtick run in `s`, and at least three long.
pub open spec fn fence(s: Seq<char>) -> Seq<char> {
    let n = if longest_ticks(s) > 2 {
        longest_ticks(s)
    } else {
        2
    };
    Seq::new(n + 1, |i: int| '`')
}

/// The info string of an excerpt's fence: the code language, else nothing
/// for code targets and `markdown` for the rest.
pub open spec fn fence_language(c: MdCommentView) -> Seq<char> {
    match c.context.language {
        Some(l) => l,
        None => match c.anchor {
            AnchorView::Block(MarkdownTargetKind::CodeBlock, _) => Seq::empty(),
            AnchorView::CodeLine(_, _) => Seq::empty(),
            _ => "markdown"@,
        },
    }
}

/// One comment in the feedback: its title, the fenced excerpt and the
/// quoted body.
pub open spec fn comment_text(c: MdCommentView) -> Seq<char> {
    let f = fence(c.context.excerpt);
    "\n\n"@ + comment_title(c) + (if c.outdated {
        " _(outdated)_"@
    } else {
        Seq::<char>::empty()
    }) + "\n\n"@ + f + fence_language(c) + "\n"@ + c.context.excerpt + "\n"@ + f + "\n\n> "@
        + quote_body(c.body)
}

/// The feedback written so far, and the path and heading last announced.
pub struct FeedState {
    pub out: Seq<char>,
    pub path: Option<Option<Seq<char>>>,
    pub heading: Option<Seq<Seq<char>>>,
}

/// Writes one comment: a path title when the path changes (which also
/// forgets the heading), a heading line when the comment has a heading
/// path different from the last one, then the comment itself.
pub open spec fn feed_step(st: FeedState, c: MdCommentView) -> FeedState {
    let p = shown_path(c);
    let st1 = if st.path != Some(p) {
        FeedState { out: st.out + path_title(p), path: Some(p), heading: None }
    } else {
        st
    };
    let h = c.context.heading;
    let st2 = if h.len() == 0 {
        FeedState { heading: None, ..st1 }
    } else if st1.heading != Some(h) {
        FeedState { out: st1.out + "\n\n### Heading: "@ + joined(h), heading: Some(h), ..st1 }
    } else {
        st1
    };
    FeedState { out: st2.out + comment_text(c), ..st2 }
}

pub open spec fn feed(items: Seq<MdCommentView>) -> FeedState
    decreases items.len(),
{
    if items.len() == 0 {
        FeedState { out: "# Markdown review feedback"@, path: None, heading: None }
    } else {
        feed_step(feed(items.drop_last()), items.last())
    }
}

/// The feedback for a Markdown review with a decision.
pub open spec fn markdown_review_text(comments: Seq<MdCommentView>, decision: MarkdownReviewDecision) -> Seq<
    char,
> {
    match decision {
        MarkdownReviewDecision::Approved => "Markdown review approved."@,
        MarkdownReviewDecision::ChangesRequested => if comments.len() == 0 {
            "Changes requested, but no inline comments were provided."@
        } else {
            feed(md_sort(comments)).out
        },
    }
}

// ---- the review ----
impl MarkdownReview {
    /// Every comment's identifier is below the next one to be handed out,
    /// until the counter has stopped at `u64::MAX`.
    #[verifier::type_invariant]
    closed spec fn ids_below_next(self) -> bool {
        forall|k: int|
            0 <= k < self.comments@.len() ==> (#[trigger] self.comments@[k]).id < self.next_id
                || self.next_id == u64::MAX
    }
}

impl Default for MarkdownReview {
    fn default() -> (res: MarkdownReview)
        ensures
            res@.comments.len() == 0,
            res@.next_id == 0,
    {
        MarkdownReview { comments: Vec::new(), next_id: 0 }
    }
}

/// The index of the first comment with identifier `id`, or the number of
/// comments when none has it.
pub open spec fn md_index(cs: Seq<MdCommentView>, id: u64) -> int
    decreases cs.len(),
{
    if cs.len() == 0 {
        0
    } else if cs[0].id == id {
        0
    } else {
        1 + md_index(cs.drop_first(), id)
    }
}

proof fn lemma_md_index_bounds(cs: Seq<MdCommentView>, id: u64)
    ensures
        0 <= md_index(cs, id) <= cs.len(),
        md_index(cs, id) < cs.len() ==> cs[md_index(cs, id)].id == id,
        forall|k: int| 0 <= k < md_index(cs, id) ==> #[trigger] cs[k].id != id,
    decreases cs.len(),
{
    if cs.len() > 0 && cs[0].id != id {
        lemma_md_index_bounds(cs.drop_first(), id);
        assert forall|k: int| 0 <= k < md_index(cs, id) implies #[trigger] cs[k].id != id by {
            if k > 0 {
                assert(cs[k] == cs.drop_first()[k - 1]);
            }
        }
    }
}

/// How many comments are outdated.
pub open spec fn outdated_total(cs: Seq<MdCommentView>) -> nat
    decreases cs.len(),
{
    if cs.len() == 0 {
        0
    } else {
        outdated_total(cs.drop_last()) + if cs.last().outdated {
            1nat
        } else {
            0nat
        }
    }
}

impl MarkdownReview {
    /// Adds a comment with an explicitly captured context, and returns its
    /// identifier. Identifiers count up and stop at `u64::MAX`; until then
    /// each is above every identifier the review already holds, so none is
    /// handed out twice, also after comments were removed or cleared.
    pub fn add_comment_with_context(
        &mut self,
        anchor: MarkdownAnchor,
        context: MarkdownCommentContext,
        body: &str,
    ) -> (res: u64)
        ensures
            res == old(self)@.next_id,
            final(self)@.next_id == (if old(self)@.next_id < u64::MAX {
                (old(self)@.next_id + 1) as u64
            } else {
                u64::MAX
            }),
            final(self)@.comments == old(self)@.comments.push(
                MdCommentView { id: res, anchor: anchor@, body: body@, context: context@, outdated: false },
            ),
            old(self)@.next_id < u64::MAX ==> forall|k: int|
                0 <= k < old(self)@.comments.len() ==> #[trigger] old(self)@.comments[k].id < res,
    {
        proof {
            use_type_invariant(&*self);
            assert forall|k: int| 0 <= k < old(self)@.comments.len() implies old(self)@.comments[k].id
                == self.comments@[k].id by {}
        }
        let id = self.next_id;
        let ghost before = self.comments@;
        let next = if self.next_id < u64::MAX {
            self.next_id + 1
        } else {
            u64::MAX
        };
        let mut comments: Vec<MarkdownReviewComment> = Vec::new();
        std::mem::swap(&mut comments, &mut self.comments);
        comments.push(
            MarkdownReviewComment { id, anchor, body: body.to_owned(), context, outdated: false },
        );
        proof {
            assert(md_views(comments@) =~= md_views(before).push(comments@.last()@));
            assert forall|k: int| 0 <= k < comments@.len() implies (#[trigger] comments@[k]).id < next || next
                == u64::MAX by {
                if k < before.len() {
                    assert(comments@[k] == before[k]);
                }
            }
        }
        *self = MarkdownReview { comments, next_id: next };
        id
    }

    pub fn is_empty(&self) -> (res: bool)
        ensures
            res == (self@.comments.len() == 0),
    {
        self.comments.len() == 0
    }

    pub fn len(&self) -> (res: usize)
        ensures
            res == self@.comments.len(),
    {
        self.comments.len()
    }

    /// The comments in insertion order.
    pub fn comments(&self) -> (res: &Vec<MarkdownReviewComment>)
        ensures
            md_views(res@) == self@.comments,
    {
        &self.comments
    }

    /// The index of the first comment with an identifier.
    fn index_of(&self, id: u64) -> (res: usize)
        ensures
            res == md_index(self@.comments, id),
    {
        let ghost cs = self@.comments;
        let mut i: usize = 0;
        proof {
            assert(cs.skip(0) =~= cs);
        }
        while i < self.comments.len() && self.comments[i].id != id
            invariant
                i <= self.comments@.len(),
                cs == md_views(self.comments@),
                md_index(cs, id) == i + md_index(cs.skip(i as int), id),
            decreases self.comments@.len() - i,
        {
            proof {
                assert(cs.skip(i as int)[0] == self.comments@[i as int]@);
                assert(cs.skip(i as int).drop_first() =~= cs.skip(i + 1));
            }
            i = i + 1;
        }
        proof {
            if i < self.comments@.len() {
                assert(cs.skip(i as int)[0] == self.comments@[i as int]@);
            }
        }
        i
    }

    /// The first comment with an identifier.
    pub fn comment(&self, id: u64) -> (res: Option<&MarkdownReviewComment>)
        ensures
            match res {
                Some(c) => md_index(self@.comments, id) < self@.comments.len() && c@
                    == self@.comments[md_index(self@.comments, id)],
                None => md_index(self@.comments, id) == self@.comments.len(),
            },
    {
        proof {
            lemma_md_index_bounds(self@.comments, id);
        }
        let i = self.index_of(id);
        if i < self.comments.len() {
            Some(&self.comments[i])
        } else {
            None
        }
    }

    /// Replaces the body of the first comment with an identifier, and says
    /// whether there was one.
    pub fn edit_comment(&mut self, id: u64, body: &str) -> (res: bool)
        ensures
            final(self)@.next_id == old(self)@.next_id,
            res == (md_index(old(self)@.comments, id) < old(self)@.comments.len()),
            res ==> final(self)@.comments == old(self)@.comments.update(
                md_index(old(self)@.comments, id),
                MdCommentView { body: body@, ..old(self)@.comments[md_index(old(self)@.comments, id)] },
            ),
            !res ==> final(self)@.comments == old(self)@.comments,
    {
        proof {
            use_type_invariant(&*self);
            lemma_md_index_bounds(self@.comments, id);
        }
        let i = self.index_of(id);
        if i >= self.comments.len() {
            return false;
        }
        let ghost before = self.comments@;
        let next = self.next_id;
        let mut comments: Vec<MarkdownReviewComment> = Vec::new();
        std::mem::swap(&mut comments, &mut self.comments);
        let mut c = comments.remove(i);
        c.body = body.to_owned();
        comments.insert(i, c);
        proof {
            assert(md_views(comments@) =~= md_views(before).update(
                i as int,
                MdCommentView { body: body@, ..md_views(before)[i as int] },
            ));
            assert forall|k: int| 0 <= k < comments@.len() implies (#[trigger] comments@[k]).id < next || next
                == u64::MAX by {
                assert(comments@[k].id == before[k].id);
            }
        }
        *self = MarkdownReview { comments, next_id: next };
        true
    }

    /// Removes the first comment with an identifier and gives it back.
    pub fn remove_comment(&mut self, id: u64) -> (res: Option<MarkdownReviewComment>)
        ensures
            final(self)@.next_id == old(self)@.next_id,
            ({
                let cs = old(self)@.comments;
                let i = md_index(cs, id);
                match res {
                    Some(c) => i < cs.len() && c@ == cs[i] && final(self)@.comments == cs.remove(i),
                    None => i == cs.len() && final(self)@.comments == cs,
                }
            }),
    {
        proof {
            use_type_invariant(&*self);
            lemma_md_index_bounds(self@.comments, id);
        }
        let i = self.index_of(id);
        if i >= self.comments.len() {
            return None;
        }
        let ghost before = self.comments@;
        let next = self.next_id;
        let mut comments: Vec<MarkdownReviewComment> = Vec::new();
        std::mem::swap(&mut comments, &mut self.comments);
        let c = comments.remove(i);
        proof {
            assert(md_views(comments@) =~= md_views(before).remove(i as int));
            assert forall|k: int| 0 <= k < comments@.len() implies (#[trigger] comments@[k]).id < next || next
                == u64::MAX by {
                if k < i {
                    assert(comments@[k] == before[k]);
                } else {
                    assert(comments@[k] == before[k + 1]);
                }
            }
        }
        *self = MarkdownReview { comments, next_id: next };
        Some(c)
    }

    /// Removes every comment; the identifier counter is kept, so identifiers
    /// are not handed out again.
    pub fn clear(&mut self)
        ensures
            final(self)@.comments.len() == 0,
            final(self)@.next_id == old(self)@.next_id,
    {
        let next = self.next_id;
        *self = MarkdownReview { comments: Vec::new(), next_id: next };
    }

    /// How many comments are outdated.
    pub fn outdated_count(&self) -> (res: usize)
        ensures
            res == outdated_total(self@.comments),
    {
        let ghost cs = self@.comments;
        let mut n: usize = 0;
        let mut i: usize = 0;
        while i < self.comments.len()
            invariant
                i <= self.comments@.len(),
                cs == md_views(self.comments@),
                n == outdated_total(cs.take(i as int)),
                n <= i,
            decreases self.comments@.len() - i,
        {
            proof {
                assert(cs.take(i + 1).drop_last() =~= cs.take(i as int));
                assert(cs.take(i + 1).last() == self.comments@[i as int]@);
            }
            if self.comments[i].outdated {
                n = n + 1;
            }
            i = i + 1;
        }
        proof {
            assert(cs.take(i as int) =~= cs);
        }
        n
    }

    /// The identifier of the comment added most recently among those held.
    pub fn most_recent_comment_id(&self) -> (res: Option<u64>)
        ensures
            res == (if self@.comments.len() == 0 {
                None
            } else {
                Some(self@.comments.last().id)
            }),
    {
        if self.comments.len() == 0 {
            None
        } else {
            Some(self.comments[self.comments.len() - 1].id)
        }
    }
}

// ---- comparing ----
fn texts_before(a: &Vec<String>, b: &Vec<String>) -> (res: bool)
    ensures
        res == texts_lt(string_views(a@), string_views(b@)),
{
    let ghost (va, vb) = (string_views(a@), string_views(b@));
    let mut i: usize = 0;
    proof {
        assert(va.skip(0) =~= va);
        assert(vb.skip(0) =~= vb);
    }
    while i < a.len() && i < b.len()
        invariant
            i <= a@.len(),
            i <= b@.len(),
            va == string_views(a@),
            vb == string_views(b@),
            texts_lt(va, vb) == texts_lt(va.skip(i as int), vb.skip(i as int)),
        decreases a@.len() - i,
    {
        let x = chars_of(a[i].as_str());
        let y = chars_of(b[i].as_str());
        proof {
            assert(va.skip(i as int)[0] == va[i as int]);
            assert(vb.skip(i as int)[0] == vb[i as int]);
        }
        if !chars_equal(x.as_slice(), y.as_slice()) {
            return chars_before(x.as_slice(), y.as_slice());
        }
        proof {
            assert(va.skip(i as int).drop_first() =~= va.skip(i + 1));
            assert(vb.skip(i as int).drop_first() =~= vb.skip(i + 1));
        }
        i = i + 1;
    }
    i == a.len() && i < b.len()
}

fn texts_same(a: &Vec<String>, b: &Vec<String>) -> (res: bool)
    ensures
        res == (string_views(a@) == string_views(b@)),
{
    if a.len() != b.len() {
        return false;
    }
    let mut i: usize = 0;
    while i < a.len()
        invariant
            i <= a@.len(),
            a@.len() == b@.len(),
            forall|k: int| 0 <= k < i ==> a@[k]@ == b@[k]@,
        decreases a@.len() - i,
    {
        let x = chars_of(a[i].as_str());
        let y = chars_of(b[i].as_str());
        if !chars_equal(x.as_slice(), y.as_slice()) {
            proof {
                assert(string_views(a@)[i as int] != string_views(b@)[i as int]);
            }
            return false;
        }
        i = i + 1;
    }
    proof {
        assert(string_views(a@) =~= string_views(b@));
    }
    true
}

fn sort_path_chars(c: &MarkdownReviewComment) -> (res: Vec<char>)
    ensures
        res@ == sort_path(c@),
{
    match &c.context.source_path {
        Some(p) => chars_of(p.as_str()),
        None => Vec::new(),
    }
}

fn code_line_of(a: &MarkdownAnchor) -> (res: usize)
    ensures
        res == code_line_key(a@),
{
    match a {
        MarkdownAnchor::CodeLine { code_line_index, .. } => *code_line_index,
        MarkdownAnchor::Block { .. } => usize::MAX,
    }
}

fn md_sorts_before(a: &MarkdownReviewComment, b: &MarkdownReviewComment) -> (res: bool)
    ensures
        res == md_before(a@, b@),
{
    let pa = sort_path_chars(a);
    let pb = sort_path_chars(b);
    if chars_before(pa.as_slice(), pb.as_slice()) {
        return true;
    }
    if !chars_equal(pa.as_slice(), pb.as_slice()) {
        return false;
    }
    let (sa, sb) = (a.context.source_lines.start, b.context.source_lines.start);
    if sa != sb {
        return sa < sb;
    }
    let (la, lb) = (code_line_of(&a.anchor), code_line_of(&b.anchor));
    if la != lb {
        return la < lb;
    }
    if a.id != b.id {
        return a.id < b.id;
    }
    texts_before(&a.context.heading_path, &b.context.heading_path)
}

/// The comments that a list of indices picks, in its order.
pub open spec fn picked(cs: Seq<MdCommentView>, order: Seq<usize>) -> Seq<MdCommentView> {
    order.map_values(|j: usize| cs[j as int])
}

fn insert_index(order: &mut Vec<usize>, comments: &Vec<MarkdownReviewComment>, i: usize)
    requires
        i < comments@.len(),
        forall|k: int| 0 <= k < old(order)@.len() ==> #[trigger] old(order)@[k] < comments@.len(),
    ensures
        forall|k: int| 0 <= k < final(order)@.len() ==> #[trigger] final(order)@[k] < comments@.len(),
        picked(md_views(comments@), final(order)@) == md_insert(
            picked(md_views(comments@), old(order)@),
            comments@[i as int]@,
        ),
{
    let ghost cs = md_views(comments@);
    let ghost s = picked(cs, order@);
    let ghost c = comments@[i as int]@;
    let mut j: usize = order.len();
    proof {
        assert(s.take(j as int) =~= s);
        assert(s.skip(j as int) =~= Seq::<MdCommentView>::empty());
        assert(s + Seq::<MdCommentView>::empty() =~= s);
    }
    while j > 0 && md_sorts_before(&comments[i], &comments[order[j - 1]])
        invariant
            j <= order@.len(),
            order@ == old(order)@,
            cs == md_views(comments@),
            s == picked(cs, order@),
            c == comments@[i as int]@,
            i < comments@.len(),
            forall|k: int| 0 <= k < order@.len() ==> #[trigger] order@[k] < comments@.len(),
            md_insert(s, c) == md_insert(s.take(j as int), c) + s.skip(j as int),
        decreases j,
    {
        proof {
            assert(s[j - 1] == comments@[order@[j - 1] as int]@);
            assert(s.take(j as int).drop_last() =~= s.take(j - 1));
            assert(s.take(j as int).last() == s[j - 1]);
            assert(seq![s[j - 1]] + s.skip(j as int) =~= s.skip(j - 1));
            assert(md_insert(s.take(j - 1), c).push(s[j - 1]) + s.skip(j as int) =~= md_insert(
                s.take(j - 1),
                c,
            ) + s.skip(j - 1));
        }
        j = j - 1;
    }
    proof {
        if j > 0 {
            assert(s[j - 1] == comments@[order@[j - 1] as int]@);
            assert(s.take(j as int).last() == s[j - 1]);
        }
        assert(md_insert(s.take(j as int), c) =~= s.take(j as int).push(c));
    }
    order.insert(j, i);
    proof {
        assert(picked(cs, order@) =~= s.take(j as int).push(c) + s.skip(j as int));
    }
}

// ---- writing ----
fn kind_text(k: MarkdownTargetKind) -> (res: &'static str)
    ensures
        res@ == kind_label(k),
{
    match k {
        MarkdownTargetKind::Heading => "Heading",
        MarkdownTargetKind::Paragraph => "Paragraph",
        MarkdownTargetKind::ListItem => "List item",
        MarkdownTargetKind::BlockQuote => "Blockquote",
        MarkdownTargetKind::TableRow => "Table row",
        MarkdownTargetKind::CodeBlock => "Code block",
        MarkdownTargetKind::CodeLine => "Code line",
    }
}

/// Whether every code-line anchor's index can be counted one further.
pub open spec fn lines_fit(cs: Seq<MdCommentView>) -> bool {
    forall|k: int| 0 <= k < cs.len() ==> line_fits((#[trigger] cs[k]).anchor)
}

/// Whether an anchor's code line, if any, can be counted one further.
pub open spec fn line_fits(a: AnchorView) -> bool {
    match a {
        AnchorView::CodeLine(n, _) => n < usize::MAX,
        AnchorView::Block(_, _) => true,
    }
}

fn push_title(out: &mut Vec<char>, c: &MarkdownReviewComment)
    requires
        line_fits(c@.anchor),
    ensures
        final(out)@ == old(out)@ + comment_title(c@),
{
    push_text(out, "### ");
    let r = c.context.source_lines;
    if r.start == r.end {
        push_text(out, "Line ");
        push_decimal(out, r.start as u64);
    } else {
        push_text(out, "Lines ");
        push_decimal(out, r.start as u64);
        push_text(out, "\u{2013}");
        push_decimal(out, r.end as u64);
    }
    push_text(out, " \u{2014} ");
    match &c.anchor {
        MarkdownAnchor::CodeLine { code_line_index, .. } => {
            push_text(out, "Code line ");
            push_decimal(out, (*code_line_index as u64) + 1);
        },
        MarkdownAnchor::Block { kind, .. } => push_text(out, kind_text(*kind)),
    }
    proof {
        assert(out@ =~= old(out)@ + comment_title(c@));
    }
}

fn push_fence(out: &mut Vec<char>, excerpt: &Vec<char>)
    ensures
        final(out)@ == old(out)@ + fence(excerpt@),
{
    let mut run: usize = 0;
    let mut longest: usize = 0;
    let mut i: usize = 0;
    while i < excerpt.len()
        invariant
            i <= excerpt@.len(),
            run == trailing_ticks(excerpt@.take(i as int)),
            longest == longest_ticks(excerpt@.take(i as int)),
            run <= i,
            longest <= i,
        decreases excerpt@.len() - i,
    {
        proof {
            assert(excerpt@.take(i + 1).drop_last() =~= excerpt@.take(i as int));
            assert(excerpt@.take(i + 1).last() == excerpt@[i as int]);
        }
        if excerpt[i] == '`' {
            run = run + 1;
            if run > longest {
                longest = run;
            }
        } else {
            run = 0;
        }
        i = i + 1;
    }
    proof {
        assert(excerpt@.take(i as int) =~= excerpt@);
    }
    let n = if longest > 2 {
        longest
    } else {
        2
    };
    let ghost start = out@;
    let mut k: usize = 0;
    while k < n
        invariant
            k <= n,
            out@ == start + Seq::new(k as nat, |m: int| '`'),
        decreases n - k,
    {
        out.push('`');
        k = k + 1;
        proof {
            assert(out@ =~= start + Seq::new(k as nat, |m: int| '`'));
        }
    }
    out.push('`');
    proof {
        assert(out@ =~= start + fence(excerpt@));
    }
}

fn push_joined(out: &mut Vec<char>, h: &Vec<String>)
    requires
        h@.len() > 0,
    ensures
        final(out)@ == old(out)@ + joined(string_views(h@)),
{
    let ghost v = string_views(h@);
    let ghost start = out@;
    push_text(out, h[0].as_str());
    proof {
        assert(v.take(1) =~= seq![v[0]]);
    }
    let mut k: usize = 1;
    while k < h.len()
        invariant
            1 <= k <= h@.len(),
            v == string_views(h@),
            out@ == start + joined(v.take(k as int)),
        decreases h@.len() - k,
    {
        push_text(out, " / ");
        push_text(out, h[k].as_str());
        proof {
            let t = v.take(k + 1);
            assert(t.drop_last() =~= v.take(k as int));
            assert(t.last() == h@[k as int]@);
            assert(out@ =~= start + joined(t));
        }
        k = k + 1;
    }
    proof {
        assert(v.take(k as int) =~= v);
    }
}

fn push_language(out: &mut Vec<char>, c: &MarkdownReviewComment)
    ensures
        final(out)@ == old(out)@ + fence_language(c@),
{
    match &c.context.code_language {
        Some(l) => push_text(out, l.as_str()),
        None => match &c.anchor {
            MarkdownAnchor::Block { kind: MarkdownTargetKind::CodeBlock, .. } => {
                assert(out@ =~= old(out)@ + Seq::<char>::empty());
            },
            MarkdownAnchor::CodeLine { .. } => {
                assert(out@ =~= old(out)@ + Seq::<char>::empty());
            },
            _ => push_text(out, "markdown"),
        },
    }
}

/// The heading part of a comment's text: its title and outdated mark.
pub open spec fn comment_head(c: MdCommentView) -> Seq<char> {
    "\n\n"@ + comment_title(c) + (if c.outdated {
        " _(outdated)_"@
    } else {
        Seq::<char>::empty()
    }) + "\n\n"@
}

#[verifier::rlimit(30)]
fn push_comment(out: &mut Vec<char>, c: &MarkdownReviewComment)
    requires
        line_fits(c@.anchor),
    ensures
        final(out)@ == old(out)@ + comment_text(c@),
{
    let ghost start = out@;
    push_text(out, "\n\n");
    push_title(out, c);
    if c.outdated {
        push_text(out, " _(outdated)_");
    }
    push_text(out, "\n\n");
    proof {
        assert(out@ =~= start + comment_head(c@));
    }
    let ghost a = out@;
    let excerpt = chars_of(c.context.source_excerpt.as_str());
    push_fence(out, &excerpt);
    push_language(out, c);
    push_text(out, "\n");
    crate::text::push_all(out, excerpt.as_slice());
    push_text(out, "\n");
    push_fence(out, &excerpt);
    push_text(out, "\n\n> ");
    let ghost b = out@;
    push_quoted_body(out, c.body.as_str());
    proof {
        let f = fence(c@.context.excerpt);
        assert(b =~= a + f + fence_language(c@) + "\n"@ + c@.context.excerpt + "\n"@ + f + "\n\n> "@);
        assert(comment_text(c@) =~= comment_head(c@) + f + fence_language(c@) + "\n"@ + c@.context.excerpt
            + "\n"@ + f + "\n\n> "@ + quote_body(c@.body));
        assert(out@ =~= start + comment_text(c@));
    }
}

fn shown_path_of(c: &MarkdownReviewComment) -> (res: Option<&String>)
    ensures
        match res {
            Some(s) => shown_path(c@) == Some(s@),
            None => shown_path(c@) is None,
        },
{
    match &c.context.source_path {
        Some(p) => Some(p),
        None => match &c.anchor {
            MarkdownAnchor::Block { source_path, .. } => source_path.as_ref(),
            MarkdownAnchor::CodeLine { source_path, .. } => source_path.as_ref(),
        },
    }
}

fn same_path(a: Option<&String>, b: Option<&String>) -> (res: bool)
    ensures
        res == (match (a, b) {
            (Some(x), Some(y)) => x@ == y@,
            (None, None) => true,
            _ => false,
        }),
{
    match (a, b) {
        (Some(x), Some(y)) => {
            let (cx, cy) = (chars_of(x.as_str()), chars_of(y.as_str()));
            chars_equal(cx.as_slice(), cy.as_slice())
        },
        (None, None) => true,
        _ => false,
    }
}

/// The indices of the comments in sorted order.
fn sorted_order(comments: &Vec<MarkdownReviewComment>) -> (res: Vec<usize>)
    ensures
        forall|k: int| 0 <= k < res@.len() ==> #[trigger] res@[k] < comments@.len(),
        picked(md_views(comments@), res@) == md_sort(md_views(comments@)),
{
    let ghost cs = md_views(comments@);
    let mut order: Vec<usize> = Vec::new();
    let mut i: usize = 0;
    while i < comments.len()
        invariant
            i <= comments@.len(),
            cs == md_views(comments@),
            forall|k: int| 0 <= k < order@.len() ==> #[trigger] order@[k] < comments@.len(),
            picked(cs, order@) == md_sort(cs.take(i as int)),
        decreases comments@.len() - i,
    {
        insert_index(&mut order, comments, i);
        proof {
            assert(cs.take(i + 1).drop_last() =~= cs.take(i as int));
            assert(cs.take(i + 1).last() == comments@[i as int]@);
        }
        i = i + 1;
    }
    proof {
        assert(cs.take(i as int) =~= cs);
    }
    order
}

/// Formats the feedback of a Markdown review: the decision's sentence when
/// approved or without comments, otherwise the comments sorted by source
/// path, line, code line, identifier and heading path, grouped under path
/// and heading titles, each with its fenced excerpt and quoted body.
#[verifier::rlimit(40)]
pub fn format_markdown_review(review: &MarkdownReview, decision: MarkdownReviewDecision) -> (res: String)
    requires
        lines_fit(review@.comments),
    ensures
        res@ == markdown_review_text(review@.comments, decision),
{
    match decision {
        MarkdownReviewDecision::Approved => {
            return "Markdown review approved.".to_owned();
        },
        MarkdownReviewDecision::ChangesRequested => {},
    }
    if review.comments.len() == 0 {
        return "Changes requested, but no inline comments were provided.".to_owned();
    }
    let comments = &review.comments;
    let ghost cs = md_views(comments@);
    let order = sorted_order(comments);
    let ghost items = picked(cs, order@);
    let mut out = chars_of("# Markdown review feedback");
    let mut path_at: Option<usize> = None;
    let mut heading_at: Option<usize> = None;
    let mut k: usize = 0;
    while k < order.len()
        invariant
            k <= order@.len(),
            cs == md_views(comments@),
            items == picked(cs, order@),
            lines_fit(cs),
            forall|m: int| 0 <= m < order@.len() ==> #[trigger] order@[m] < comments@.len(),
            path_at matches Some(j) ==> j < k,
            heading_at matches Some(j) ==> j < k,
            feed(items.take(k as int)) == (FeedState {
                out: out@,
                path: match path_at {
                    Some(j) => Some(shown_path(items[j as int])),
                    None => None,
                },
                heading: match heading_at {
                    Some(j) => Some(items[j as int].context.heading),
                    None => None,
                },
            }),
        decreases order@.len() - k,
    {
        let c = &comments[order[k]];
        proof {
            let t = items.take(k + 1);
            assert(t.drop_last() =~= items.take(k as int));
            assert(t.last() == c@);
            assert(items[k as int] == c@);
            assert(cs[order@[k as int] as int] == c@);
        }
        let p = shown_path_of(c);
        let changed = match path_at {
            Some(j) => !same_path(shown_path_of(&comments[order[j]]), p),
            None => true,
        };
        proof {
            if let Some(j) = path_at {
                assert(items[j as int] == comments@[order@[j as int] as int]@);
            }
        }
        if changed {
            push_text(&mut out, "\n\n## `");
            match p {
                Some(text) => push_text(&mut out, text.as_str()),
                None => push_text(&mut out, "<document>"),
            }
            push_text(&mut out, "`");
            path_at = Some(k);
            heading_at = None;
        }
        if c.context.heading_path.len() == 0 {
            heading_at = None;
        } else {
            let differs = match heading_at {
                Some(j) => !texts_same(&comments[order[j]].context.heading_path, &c.context.heading_path),
                None => true,
            };
            proof {
                if let Some(j) = heading_at {
                    assert(items[j as int] == comments@[order@[j as int] as int]@);
                }
            }
            if differs {
                push_text(&mut out, "\n\n### Heading: ");
                push_joined(&mut out, &c.context.heading_path);
                heading_at = Some(k);
            }
        }
        proof {
            assert(line_fits(cs[order@[k as int] as int].anchor));
        }
        push_comment(&mut out, c);
        proof {
            assert(feed(items.take(k + 1)) == feed_step(feed(items.take(k as int)), c@));
            assert(out@ =~= feed(items.take(k + 1)).out);
        }
        k = k + 1;
    }
    proof {
        assert(items.take(k as int) =~= items);
        assert(items == md_sort(cs));
    }
    string_from_chars(out.as_slice())
}

// ---- submissions ----
/// Why a review cannot be submitted.
#[derive(Debug, Clone, Copy, PartialEq, Eq, Structural)]
pub enum MarkdownReviewError {
    /// The comment with this identifier has a body of white space only.
    BlankComment { id: u64 },
}

/// The result of a finished Markdown review.
#[derive(Debug, PartialEq, Eq)]
pub struct MarkdownReviewSubmission {
    pub decision: MarkdownReviewDecision,
    pub comments: Vec<MarkdownReviewComment>,
    pub formatted: String,
}

/// The identifier of the first comment, in insertion order, whose body is
/// blank.
pub open spec fn first_blank(cs: Seq<MdCommentView>) -> Option<u64>
    decreases cs.len(),
{
    if cs.len() == 0 {
        None
    } else if crate::session::is_blank(cs[0].body) {
        Some(cs[0].id)
    } else {
        first_blank(cs.drop_first())
    }
}

fn dup_text(s: &String) -> (res: String)
    ensures
        res@ == s@,
{
    let chars = chars_of(s.as_str());
    string_from_chars(chars.as_slice())
}

fn dup_opt_text(o: &Option<String>) -> (res: Option<String>)
    ensures
        opt_text(res) == opt_text(*o),
{
    match o {
        Some(s) => Some(dup_text(s)),
        None => None,
    }
}

fn dup_texts(v: &Vec<String>) -> (res: Vec<String>)
    ensures
        string_views(res@) == string_views(v@),
{
    let mut out: Vec<String> = Vec::new();
    let mut i: usize = 0;
    while i < v.len()
        invariant
            i <= v@.len(),
            out@.len() == i,
            forall|k: int| 0 <= k < i ==> out@[k]@ == v@[k]@,
        decreases v@.len() - i,
    {
        out.push(dup_text(&v[i]));
        i = i + 1;
    }
    proof {
        assert(string_views(out@) =~= string_views(v@));
    }
    out
}

fn dup_comment(c: &MarkdownReviewComment) -> (res: MarkdownReviewComment)
    ensures
        res@ == c@,
{
    let anchor = match &c.anchor {
        MarkdownAnchor::Block { kind, source_path } => MarkdownAnchor::Block {
            kind: *kind,
            source_path: dup_opt_text(source_path),
        },
        MarkdownAnchor::CodeLine { code_line_index, source_path } => MarkdownAnchor::CodeLine {
            code_line_index: *code_line_index,
            source_path: dup_opt_text(source_path),
        },
    };
    let context = MarkdownCommentContext {
        source_path: dup_opt_text(&c.context.source_path),
        target_label: dup_text(&c.context.target_label),
        source_lines: c.context.source_lines,
        source_excerpt: dup_text(&c.context.source_excerpt),
        heading_path: dup_texts(&c.context.heading_path),
        code_language: dup_opt_text(&c.context.code_language),
    };
    MarkdownReviewComment { id: c.id, anchor, body: dup_text(&c.body), context, outdated: c.outdated }
}

impl MarkdownReview {
    /// Produces a submission once every comment body holds more than white
    /// space: the decision, the comments in feedback order, and the
    /// formatted feedback. Otherwise names the first blank comment.
    pub fn try_submission(&self, decision: MarkdownReviewDecision) -> (res: Result<
        MarkdownReviewSubmission,
        MarkdownReviewError,
    >)
        requires
            lines_fit(self@.comments),
        ensures
            match first_blank(self@.comments) {
                Some(id) => res == Err::<MarkdownReviewSubmission, MarkdownReviewError>(
                    MarkdownReviewError::BlankComment { id },
                ),
                None => res matches Ok(s) && s.decision == decision && md_views(s.comments@) == md_sort(
                    self@.comments,
                ) && s.formatted@ == markdown_review_text(self@.comments, decision),
            },
    {
        let ghost cs = md_views(self.comments@);
        let mut i: usize = 0;
        proof {
            assert(cs.skip(0) =~= cs);
        }
        while i < self.comments.len()
            invariant
                i <= self.comments@.len(),
                cs == md_views(self.comments@),
                first_blank(cs) == first_blank(cs.skip(i as int)),
            decreases self.comments@.len() - i,
        {
            proof {
                assert(cs.skip(i as int)[0] == self.comments@[i as int]@);
                assert(cs.skip(i as int).drop_first() =~= cs.skip(i + 1));
            }
            if crate::session::blank(self.comments[i].body.as_str()) {
                return Err(MarkdownReviewError::BlankComment { id: self.comments[i].id });
            }
            i = i + 1;
        }
        proof {
            assert(cs.skip(i as int).len() == 0);
        }
        let order = sorted_order(&self.comments);
        let mut ordered: Vec<MarkdownReviewComment> = Vec::new();
        let mut k: usize = 0;
        while k < order.len()
            invariant
                k <= order@.len(),
                cs == md_views(self.comments@),
                forall|m: int| 0 <= m < order@.len() ==> #[trigger] order@[m] < self.comments@.len(),
                md_views(ordered@) == picked(cs, order@.take(k as int)),
            decreases order@.len() - k,
        {
            let ghost before = ordered@;
            let copy = dup_comment(&self.comments[order[k]]);
            proof {
                assert(copy@ == cs[order@[k as int] as int]);
            }
            ordered.push(copy);
            proof {
                assert(order@.take(k + 1) =~= order@.take(k as int).push(order@[k as int]));
                assert(md_views(ordered@) =~= md_views(before).push(copy@));
                assert(picked(cs, order@.take(k + 1)) =~= picked(cs, order@.take(k as int)).push(
                    cs[order@[k as int] as int],
                ));
            }
            k = k + 1;
        }
        proof {
            assert(order@.take(k as int) =~= order@);
        }
        let formatted = format_markdown_review(self, decision);
        Ok(MarkdownReviewSubmission { decision, comments: ordered, formatted })
    }
}

/// The text reported for a Markdown submission: a sentence of approval, or
/// the formatted feedback when changes are requested.
pub fn markdown_text_feedback(submission: &MarkdownReviewSubmission) -> (res: &str)
    ensures
        res@ == match submission.decision {
            MarkdownReviewDecision::Approved => "I reviewed the Markdown document and approve it with no comments."@,
            MarkdownReviewDecision::ChangesRequested => submission.formatted@,
        },
{
    match submission.decision {
        MarkdownReviewDecision::Approved => "I reviewed the Markdown document and approve it with no comments.",
        MarkdownReviewDecision::ChangesRequested => submission.formatted.as_str(),
    }
}

// ---- laws of the feedback ----
proof fn lemma_chars_lt_irreflexive(a: Seq<char>)
    ensures
        !chars_lt(a, a),
    decreases a.len(),
{
    if a.len() > 0 {
        lemma_chars_lt_irreflexive(a.drop_first());
    }
}

proof fn lemma_chars_lt_transitive(a: Seq<char>, b: Seq<char>, c: Seq<char>)
    requires
        chars_lt(a, b),
        chars_lt(b, c),
    ensures
        chars_lt(a, c),
    decreases a.len(),
{
    if a.len() > 0 && b.len() > 0 && c.len() > 0 && a[0] == b[0] && b[0] == c[0] {
        lemma_chars_lt_transitive(a.drop_first(), b.drop_first(), c.drop_first());
    }
}

/// Different characters have different code points.
proof fn lemma_char_code_injective(x: char, y: char)
    requires
        x != y,
    ensures
        (x as u32) != (y as u32),
{
}

proof fn lemma_chars_lt_total(a: Seq<char>, b: Seq<char>)
    requires
        a != b,
    ensures
        chars_lt(a, b) || chars_lt(b, a),
    decreases a.len(),
{
    if a.len() == 0 && b.len() == 0 {
        assert(a =~= b);
    }
    if a.len() > 0 && b.len() > 0 && a[0] == b[0] {
        assert(a.drop_first() != b.drop_first()) by {
            if a.drop_first() == b.drop_first() {
                assert(a =~= seq![a[0]] + a.drop_first());
                assert(b =~= seq![b[0]] + b.drop_first());
            }
        }
        lemma_chars_lt_total(a.drop_first(), b.drop_first());
    }
    if a.len() > 0 && b.len() > 0 && a[0] != b[0] {
        lemma_char_code_injective(a[0], b[0]);
    }
}

pub(crate) proof fn lemma_chars_lt_order(a: Seq<char>, b: Seq<char>, c: Seq<char>)
    ensures
        !chars_lt(a, a),
        chars_lt(a, b) && chars_lt(b, c) ==> chars_lt(a, c),
        a != b ==> chars_lt(a, b) || chars_lt(b, a),
{
    lemma_chars_lt_irreflexive(a);
    if chars_lt(a, b) && chars_lt(b, c) {
        lemma_chars_lt_transitive(a, b, c);
    }
    if a != b {
        lemma_chars_lt_total(a, b);
    }
}

proof fn lemma_texts_lt_irreflexive(a: Seq<Seq<char>>)
    ensures
        !texts_lt(a, a),
    decreases a.len(),
{
    if a.len() > 0 {
        lemma_texts_lt_irreflexive(a.drop_first());
    }
}

proof fn lemma_texts_lt_transitive(a: Seq<Seq<char>>, b: Seq<Seq<char>>, c: Seq<Seq<char>>)
    requires
        texts_lt(a, b),
        texts_lt(b, c),
    ensures
        texts_lt(a, c),
    decreases a.len(),
{
    if a.len() > 0 && b.len() > 0 && c.len() > 0 {
        if a[0] == b[0] && b[0] == c[0] {
            lemma_texts_lt_transitive(a.drop_first(), b.drop_first(), c.drop_first());
        } else {
            lemma_chars_lt_order(a[0], b[0], c[0]);
            lemma_chars_lt_order(c[0], a[0], b[0]);
            lemma_chars_lt_order(b[0], c[0], a[0]);
        }
    }
}

proof fn lemma_texts_lt_total(a: Seq<Seq<char>>, b: Seq<Seq<char>>)
    requires
        a != b,
    ensures
        texts_lt(a, b) || texts_lt(b, a),
    decreases a.len(),
{
    if a.len() == 0 && b.len() == 0 {
        assert(a =~= b);
    }
    if a.len() > 0 && b.len() > 0 {
        if a[0] == b[0] {
            assert(a.drop_first() != b.drop_first()) by {
                if a.drop_first() == b.drop_first() {
                    assert(a =~= seq![a[0]] + a.drop_first());
                    assert(b =~= seq![b[0]] + b.drop_first());
                }
            }
            lemma_texts_lt_total(a.drop_first(), b.drop_first());
        } else {
            lemma_chars_lt_total(a[0], b[0]);
        }
    }
}

proof fn lemma_texts_lt_order(a: Seq<Seq<char>>, b: Seq<Seq<char>>, c: Seq<Seq<char>>)
    ensures
        !texts_lt(a, a),
        texts_lt(a, b) && texts_lt(b, c) ==> texts_lt(a, c),
        a != b ==> texts_lt(a, b) || texts_lt(b, a),
{
    lemma_texts_lt_irreflexive(a);
    if texts_lt(a, b) && texts_lt(b, c) {
        lemma_texts_lt_transitive(a, b, c);
    }
    if a != b {
        lemma_texts_lt_total(a, b);
    }
}

/// `md_before` is a strict order, total between comments whose identifiers
/// differ.
proof fn lemma_md_before_order(a: MdCommentView, b: MdCommentView, c: MdCommentView)
    ensures
        !md_before(a, a),
        md_before(a, b) && md_before(b, c) ==> md_before(a, c),
        a.id != b.id ==> md_before(a, b) || md_before(b, a),
{
    lemma_chars_lt_order(sort_path(a), sort_path(b), sort_path(c));
    lemma_chars_lt_order(sort_path(b), sort_path(a), sort_path(c));
    lemma_texts_lt_order(a.context.heading, b.context.heading, c.context.heading);
}

/// Whether comments are in strictly increasing `md_before` order.
pub open spec fn md_sorted(s: Seq<MdCommentView>) -> bool {
    forall|i: int, j: int| 0 <= i < j < s.len() ==> md_before(#[trigger] s[i], #[trigger] s[j])
}

/// Whether no two comments share an identifier.
pub open spec fn distinct_ids(s: Seq<MdCommentView>) -> bool {
    forall|i: int, j: int| 0 <= i < j < s.len() ==> (#[trigger] s[i]).id != (#[trigger] s[j]).id
}

proof fn lemma_md_insert_multiset(s: Seq<MdCommentView>, c: MdCommentView)
    ensures
        md_insert(s, c).to_multiset() == s.to_multiset().insert(c),
    decreases s.len(),
{
    broadcast use vstd::seq_lib::group_to_multiset_ensures;

    if s.len() == 0 {
        assert(seq![c] =~= Seq::<MdCommentView>::empty().push(c));
    } else {
        assert(s =~= s.drop_last().push(s.last()));
        if md_before(c, s.last()) {
            lemma_md_insert_multiset(s.drop_last(), c);
            assert(md_insert(s, c).to_multiset() =~= s.to_multiset().insert(c));
        }
    }
}

proof fn lemma_md_sort_multiset(s: Seq<MdCommentView>)
    ensures
        md_sort(s).to_multiset() == s.to_multiset(),
    decreases s.len(),
{
    broadcast use vstd::seq_lib::group_to_multiset_ensures;

    if s.len() > 0 {
        lemma_md_sort_multiset(s.drop_last());
        lemma_md_insert_multiset(md_sort(s.drop_last()), s.last());
        assert(s =~= s.drop_last().push(s.last()));
    } else {
        assert(md_sort(s) =~= s);
    }
}

proof fn lemma_md_insert_sorted(s: Seq<MdCommentView>, c: MdCommentView)
    requires
        md_sorted(s),
        forall|k: int| 0 <= k < s.len() ==> (#[trigger] s[k]).id != c.id,
    ensures
        md_sorted(md_insert(s, c)),
    decreases s.len(),
{
    broadcast use vstd::seq_lib::group_to_multiset_ensures;

    if s.len() == 0 {
    } else {
        let last = s.last();
        let rest = s.drop_last();
        lemma_md_before_order(c, last, c);
        if md_before(c, last) {
            lemma_md_insert_sorted(rest, c);
            let r = md_insert(rest, c);
            lemma_md_insert_multiset(rest, c);
            assert forall|i: int, j: int| 0 <= i < j < r.push(last).len() implies md_before(
                #[trigger] r.push(last)[i],
                #[trigger] r.push(last)[j],
            ) by {
                if j == r.len() {
                    let x = r[i];
                    assert(r.contains(x));
                    assert(r.to_multiset().count(x) > 0);
                    if x != c {
                        assert(rest.to_multiset().count(x) > 0);
                        assert(rest.contains(x));
                        let k = choose|k: int| 0 <= k < rest.len() && rest[k] == x;
                        assert(s[k] == x);
                        assert(md_before(s[k], s[s.len() - 1]));
                    }
                } else {
                    assert(r.push(last)[i] == r[i]);
                    assert(r.push(last)[j] == r[j]);
                }
            }
        } else {
            assert forall|i: int, j: int| 0 <= i < j < s.push(c).len() implies md_before(
                #[trigger] s.push(c)[i],
                #[trigger] s.push(c)[j],
            ) by {
                if j == s.len() {
                    lemma_md_before_order(s[i], last, c);
                    lemma_md_before_order(last, c, c);
                    if i < s.len() - 1 {
                        assert(md_before(s[i], s[s.len() - 1]));
                    }
                } else {
                    assert(s.push(c)[i] == s[i]);
                    assert(s.push(c)[j] == s[j]);
                }
            }
        }
    }
}

proof fn lemma_md_sort_sorted(s: Seq<MdCommentView>)
    requires
        distinct_ids(s),
    ensures
        md_sorted(md_sort(s)),
    decreases s.len(),
{
    broadcast use vstd::seq_lib::group_to_multiset_ensures;

    if s.len() > 0 {
        let rest = s.drop_last();
        assert(distinct_ids(rest)) by {
            assert forall|i: int, j: int| 0 <= i < j < rest.len() implies (#[trigger] rest[i]).id
                != (#[trigger] rest[j]).id by {
                assert(rest[i] == s[i] && rest[j] == s[j]);
            }
        }
        lemma_md_sort_sorted(rest);
        lemma_md_sort_multiset(rest);
        let sorted = md_sort(rest);
        assert forall|k: int| 0 <= k < sorted.len() implies (#[trigger] sorted[k]).id != s.last().id by {
            let x = sorted[k];
            assert(sorted.contains(x));
            assert(rest.to_multiset().count(x) > 0);
            assert(rest.contains(x));
            let m = choose|m: int| 0 <= m < rest.len() && rest[m] == x;
            assert(s[m] == x);
            assert(s[m].id != s[s.len() - 1].id);
        }
        lemma_md_insert_sorted(sorted, s.last());
    }
}

/// Two strictly sorted lists of the same comments are the same list.
proof fn lemma_md_sorted_unique(x: Seq<MdCommentView>, y: Seq<MdCommentView>)
    requires
        md_sorted(x),
        md_sorted(y),
        x.to_multiset() == y.to_multiset(),
    ensures
        x == y,
    decreases x.len(),
{
    broadcast use vstd::seq_lib::group_to_multiset_ensures;

    assert(x.len() == x.to_multiset().len());
    assert(y.len() == y.to_multiset().len());
    if x.len() == 0 {
        assert(x =~= y);
    } else {
        let n = x.len() - 1;
        let (xl, yl) = (x[n], y[n]);
        if xl != yl {
            assert(x.contains(xl));
            assert(y.to_multiset().count(xl) > 0);
            assert(y.contains(xl));
            let k = choose|k: int| 0 <= k < y.len() && y[k] == xl;
            assert(k < n);
            assert(md_before(y[k], y[n]));
            assert(y.contains(yl));
            assert(x.to_multiset().count(yl) > 0);
            assert(x.contains(yl));
            let m = choose|m: int| 0 <= m < x.len() && x[m] == yl;
            assert(m < n);
            assert(md_before(x[m], x[n]));
            lemma_md_before_order(xl, yl, xl);
        }
        assert(x.remove(n) =~= x.drop_last());
        assert(y.remove(n) =~= y.drop_last());
        assert(x.drop_last().to_multiset() == y.drop_last().to_multiset());
        assert(md_sorted(x.drop_last()));
        assert(md_sorted(y.drop_last()));
        lemma_md_sorted_unique(x.drop_last(), y.drop_last());
        assert(x =~= y.drop_last().push(yl));
        assert(y =~= y.drop_last().push(yl));
    }
}

/// Feedback does not depend on the order in which comments were made: two
/// reviews holding the same comments, each with distinct identifiers, are
/// formatted alike. The comments come out strictly sorted, as a rearrangement
/// of the review's own.
pub proof fn lemma_feedback_ignores_order(a: Seq<MdCommentView>, b: Seq<MdCommentView>, d: MarkdownReviewDecision)
    requires
        a.to_multiset() == b.to_multiset(),
        distinct_ids(a),
        distinct_ids(b),
    ensures
        markdown_review_text(a, d) == markdown_review_text(b, d),
        md_sorted(md_sort(a)),
        md_sort(a).to_multiset() == a.to_multiset(),
{
    broadcast use vstd::seq_lib::group_to_multiset_ensures;

    lemma_md_sort_sorted(a);
    lemma_md_sort_sorted(b);
    lemma_md_sort_multiset(a);
    lemma_md_sort_multiset(b);
    lemma_md_sorted_unique(md_sort(a), md_sort(b));
    assert(a.len() == a.to_multiset().len());
    assert(b.len() == b.to_multiset().len());
}

proof fn lemma_feed_prefix(items: Seq<MdCommentView>)
    ensures
        "# Markdown review feedback"@.is_prefix_of(feed(items).out),
    decreases items.len(),
{
    let h = "# Markdown review feedback"@;
    if items.len() > 0 {
        lemma_feed_prefix(items.drop_last());
        let st = feed(items.drop_last());
        let c = items.last();
        let p = shown_path(c);
        let st1 = if st.path != Some(p) {
            FeedState { out: st.out + path_title(p), path: Some(p), heading: None }
        } else {
            st
        };
        let hd = c.context.heading;
        let st2 = if hd.len() == 0 {
            FeedState { heading: None, ..st1 }
        } else if st1.heading != Some(hd) {
            FeedState { out: st1.out + "\n\n### Heading: "@ + joined(hd), heading: Some(hd), ..st1 }
        } else {
            st1
        };
        assert((st.out + path_title(p)).take(h.len() as int) =~= st.out.take(h.len() as int));
        assert(h.is_prefix_of(st1.out));
        assert((st1.out + "\n\n### Heading: "@ + joined(hd)).take(h.len() as int) =~= st1.out.take(
            h.len() as int,
        ));
        assert(h.is_prefix_of(st2.out));
        assert((st2.out + comment_text(c)).take(h.len() as int) =~= st2.out.take(h.len() as int));
    }
}

proof fn lemma_longest_ticks_bounds(s: Seq<char>, i: int)
    requires
        0 <= i <= s.len(),
    ensures
        trailing_ticks(s.take(i)) <= longest_ticks(s),
    decreases s.len(),
{
    if i == s.len() {
        assert(s.take(i) =~= s);
    } else {
        lemma_longest_ticks_bounds(s.drop_last(), i);
        assert(s.drop_last().take(i) =~= s.take(i));
    }
}

/// What the feedback of a Markdown review always is: the fixed sentence for
/// an approval or for a request without comments, and otherwise a text that
/// opens with the feedback title. Each excerpt's fence is made of three or
/// more backticks, and is longer than every run of backticks in the excerpt.
pub proof fn lemma_feedback_shape(cs: Seq<MdCommentView>, d: MarkdownReviewDecision, excerpt: Seq<char>)
    ensures
        d == MarkdownReviewDecision::Approved ==> markdown_review_text(cs, d) == "Markdown review approved."@,
        d == MarkdownReviewDecision::ChangesRequested && cs.len() == 0 ==> markdown_review_text(cs, d)
            == "Changes requested, but no inline comments were provided."@,
        d == MarkdownReviewDecision::ChangesRequested && cs.len() > 0
            ==> "# Markdown review feedback"@.is_prefix_of(markdown_review_text(cs, d)),
        fence(excerpt).len() >= 3,
        forall|k: int| 0 <= k < fence(excerpt).len() ==> #[trigger] fence(excerpt)[k] == '`',
        forall|i: int| 0 <= i <= excerpt.len() ==> #[trigger] trailing_ticks(excerpt.take(i)) < fence(
            excerpt,
        ).len(),
{
    lemma_feed_prefix(md_sort(cs));
    assert forall|i: int| 0 <= i <= excerpt.len() implies #[trigger] trailing_ticks(excerpt.take(i))
        < fence(excerpt).len() by {
        lemma_longest_ticks_bounds(excerpt, i);
    }
}

} // verus!