use clankerdiff_core::markdown_review::{
    format_markdown_review, markdown_text_feedback, MarkdownAnchor, MarkdownCommentContext, MarkdownLineRange,
    MarkdownReview, MarkdownReviewDecision, MarkdownReviewError, MarkdownTargetKind,
};

fn context(
    source_path: Option<&str>,
    lines: (usize, usize),
    excerpt: &str,
    heading: &[&str],
    language: Option<&str>,
) -> MarkdownCommentContext {
    MarkdownCommentContext {
        source_path: source_path.map(str::to_owned),
        target_label: "target".to_owned(),
        source_lines: MarkdownLineRange { start: lines.0, end: lines.1 },
        source_excerpt: excerpt.to_owned(),
        heading_path: heading.iter().map(|h| (*h).to_owned()).collect(),
        code_language: language.map(str::to_owned),
    }
}

fn sample_review() -> MarkdownReview {
    let mut review = MarkdownReview::default();
    let plan = Some("docs/plan.md".to_owned());
    review.add_comment_with_context(
        MarkdownAnchor::Block { kind: MarkdownTargetKind::Paragraph, source_path: plan.clone() },
        context(Some("docs/plan.md"), (5, 5), "Ship it.", &["Plan", "Rollout"], None),
        "Tighten this.\nAdd dates.",
    );
    review.add_comment_with_context(
        MarkdownAnchor::CodeLine { code_line_index: 1, source_path: plan },
        context(Some("docs/plan.md"), (2, 4), "let x = ```;", &["Plan"], Some("rust")),
        "Fence",
    );
    review.add_comment_with_context(
        MarkdownAnchor::Block { kind: MarkdownTargetKind::Heading, source_path: None },
        context(None, (1, 1), "# Plan", &[], None),
        "Why?",
    );
    review
}

#[test]
fn markdown_decisions_without_comments_have_fixed_text() {
    let empty = MarkdownReview::default();
    assert!(empty.is_empty());
    assert_eq!(format_markdown_review(&empty, MarkdownReviewDecision::Approved), "Markdown review approved.");
    assert_eq!(
        format_markdown_review(&empty, MarkdownReviewDecision::ChangesRequested),
        "Changes requested, but no inline comments were provided."
    );
    assert_eq!(format_markdown_review(&sample_review(), MarkdownReviewDecision::Approved), "Markdown review approved.");
}

#[test]
fn markdown_feedback_orders_groups_and_fences_comments() {
    let review = sample_review();
    assert_eq!(review.len(), 3);
    assert_eq!(review.comments().iter().map(|c| c.id).collect::<Vec<_>>(), vec![0, 1, 2]);
    let expected = "# Markdown review feedback\
\n\n## `<document>`\
\n\n### Line 1 \u{2014} Heading\n\n```markdown\n# Plan\n```\n\n> Why?\
\n\n## `docs/plan.md`\
\n\n### Heading: Plan\
\n\n### Lines 2\u{2013}4 \u{2014} Code line 2\n\n````rust\nlet x = ```;\n````\n\n> Fence\
\n\n### Heading: Plan / Rollout\
\n\n### Line 5 \u{2014} Paragraph\n\n```markdown\nShip it.\n```\n\n> Tighten this.\n> Add dates.";
    assert_eq!(format_markdown_review(&review, MarkdownReviewDecision::ChangesRequested), expected);
}

#[test]
fn markdown_comments_on_one_line_sort_by_code_line_then_id() {
    let mut review = MarkdownReview::default();
    let block = MarkdownAnchor::Block { kind: MarkdownTargetKind::CodeBlock, source_path: None };
    let line = MarkdownAnchor::CodeLine { code_line_index: 0, source_path: None };
    review.add_comment_with_context(block, context(Some("a.md"), (3, 6), "x", &[], None), "block");
    review.add_comment_with_context(line, context(Some("a.md"), (3, 6), "x", &[], None), "line");
    let text = format_markdown_review(&review, MarkdownReviewDecision::ChangesRequested);
    let line_at = text.find("> line").unwrap();
    let block_at = text.find("> block").unwrap();
    assert!(line_at < block_at);
    assert!(text.contains("### Lines 3\u{2013}6 \u{2014} Code block\n\n```\nx\n```"));
    assert!(text.contains("### Lines 3\u{2013}6 \u{2014} Code line 1\n\n```\nx\n```"));
}

#[test]
fn markdown_decisions_have_explicit_text() {
    let approved = MarkdownReview::default().try_submission(MarkdownReviewDecision::Approved).unwrap();
    assert!(markdown_text_feedback(&approved).contains("approve"));
    let changes = MarkdownReview::default().try_submission(MarkdownReviewDecision::ChangesRequested).unwrap();
    assert_eq!(markdown_text_feedback(&changes), "Changes requested, but no inline comments were provided.");
}

#[test]
fn blank_markdown_bodies_fail_validation() {
    let mut review = sample_review();
    let blank = review.add_comment_with_context(
        MarkdownAnchor::Block { kind: MarkdownTargetKind::Paragraph, source_path: None },
        context(None, (9, 9), "text", &[], None),
        " \t\n",
    );
    assert_eq!(
        review.try_submission(MarkdownReviewDecision::Approved),
        Err(MarkdownReviewError::BlankComment { id: blank })
    );
    let submission = sample_review().try_submission(MarkdownReviewDecision::ChangesRequested).unwrap();
    assert_eq!(submission.decision, MarkdownReviewDecision::ChangesRequested);
    assert_eq!(submission.comments.iter().map(|c| c.id).collect::<Vec<_>>(), vec![2, 1, 0]);
    assert_eq!(markdown_text_feedback(&submission), submission.formatted);
}

fn paragraph(review: &mut MarkdownReview, excerpt: &str, heading: &[&str], body: &str) -> u64 {
    review.add_comment_with_context(
        MarkdownAnchor::Block {
            kind: MarkdownTargetKind::Paragraph,
            source_path: Some("docs/plan.md".to_owned()),
        },
        MarkdownCommentContext {
            source_path: Some("docs/plan.md".to_owned()),
            target_label: excerpt.to_owned(),
            source_lines: MarkdownLineRange { start: 3, end: 3 },
            source_excerpt: excerpt.to_owned(),
            heading_path: heading.iter().map(|h| (*h).to_owned()).collect(),
            code_language: None,
        },
        body,
    )
}

#[test]
fn formatter_orders_comments_and_quotes_fences() {
    let mut review = MarkdownReview::default();
    paragraph(&mut review, "A `quoted` paragraph.", &["Plan"], "first\nsecond");
    let output = format_markdown_review(&review, MarkdownReviewDecision::ChangesRequested);
    assert!(output.contains("### Heading: Plan"));
    assert!(output.contains("> first\n> second"));
    assert!(output.contains("```markdown"));
}

#[test]
fn decisions_are_explicit_and_blank_bodies_fail_validation() {
    let mut review = MarkdownReview::default();
    paragraph(&mut review, "text", &[], " ");
    assert!(matches!(
        review.try_submission(MarkdownReviewDecision::Approved),
        Err(MarkdownReviewError::BlankComment { .. })
    ));
    assert_eq!(
        format_markdown_review(&MarkdownReview::default(), MarkdownReviewDecision::ChangesRequested),
        "Changes requested, but no inline comments were provided."
    );
    assert_eq!(
        format_markdown_review(&MarkdownReview::default(), MarkdownReviewDecision::Approved),
        "Markdown review approved."
    );
}

#[test]
fn markdown_comments_edit_remove_and_clear_without_reusing_ids() {
    let mut review = MarkdownReview::default();
    let a = paragraph(&mut review, "one", &[], "first");
    let b = paragraph(&mut review, "two", &[], "second");
    assert_eq!((a, b), (0, 1));
    assert_eq!(review.comment(b).unwrap().context.target_label, "two");
    assert!(review.edit_comment(a, "edited"));
    assert_eq!(review.comment(a).unwrap().body, "edited");
    assert!(!review.edit_comment(9, "missing"));
    assert_eq!(review.remove_comment(a).unwrap().body, "edited");
    assert!(review.remove_comment(a).is_none());
    assert_eq!(review.most_recent_comment_id(), Some(b));
    assert_eq!(review.outdated_count(), 0);
    review.clear();
    assert!(review.is_empty());
    assert_eq!(review.most_recent_comment_id(), None);
    let c = paragraph(&mut review, "three", &[], "third");
    assert_eq!(c, 2);
}

#[test]
fn feedback_orders_comments_on_one_line_by_identifier() {
    let mut forward = MarkdownReview::default();
    let mut backward = MarkdownReview::default();
    paragraph(&mut forward, "one", &["A"], "x");
    paragraph(&mut forward, "two", &["B"], "y");
    paragraph(&mut backward, "two", &["B"], "y");
    paragraph(&mut backward, "one", &["A"], "x");
    let f = format_markdown_review(&forward, MarkdownReviewDecision::ChangesRequested);
    assert!(f.starts_with("# Markdown review feedback"));
    let b = format_markdown_review(&backward, MarkdownReviewDecision::ChangesRequested);
    assert!(f.find("> x").unwrap() < f.find("> y").unwrap());
    assert!(b.find("> y").unwrap() < b.find("> x").unwrap());
}
