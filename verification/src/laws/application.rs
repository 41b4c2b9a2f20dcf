//! What holds of the layout of an application on every tree.

use crate::children::comments_among;
use crate::children::later_trivia;
use crate::children::lemma_comments_among_one;
use crate::children::lemma_later_trivia_comments;
use crate::children::lemma_next_significant;
use crate::children::lemma_significant_in_bounds;
use crate::children::lemma_trivia_hold_the_comments;
use crate::children::same_line_comment;
use crate::children::significant;
use crate::children::trivia_after;
use crate::children::Trivia;
use crate::directive::comments_written;
use crate::directive::format_as;
use crate::directive::keeps_depth;
use crate::directive::lemma_comments_written_concat;
use crate::directive::lemma_comments_written_one;
use crate::directive::lemma_on_own_lines;
use crate::directive::lemma_writes_no_comment;
use crate::directive::on_own_lines;
use crate::directive::texts;
use crate::directive::BuildContext;
use crate::directive::Directive;
use crate::rules::apply::apply_directives;
use crate::rules::apply::attaches_inline;
use crate::rules::apply::continues_line;
use crate::rules::apply::has_operands;
use crate::rules::apply::is_vertical;
use crate::rules::apply::reads_every_comment;
use crate::syntax::comments_of_elements;
use crate::syntax::lemma_comments_split;
use crate::syntax::Node;
use vstd::prelude::*;

verus! {

/// An application keeps its comments.
///
/// For an application with no comment before the function or after the
/// argument, the comments that the directives write, those inside the two
/// formatted children included, are the comments of the node, each once and
/// in source order: the comment that trails the function, then the comments
/// between the two, whether one of them stays on the line or not.
pub proof fn lemma_application_keeps_comments(ctx: BuildContext, node: &Node)
    requires
        reads_every_comment(node),
    ensures
        comments_written(apply_directives(ctx, node)) == comments_of_elements(node.children@),
{
    let elements = node.children@;
    let len = elements.len() as int;
    let function = significant(elements, 0);
    let argument = significant(elements, 1);
    lemma_significant_in_bounds(elements, 0);
    lemma_next_significant(elements, function + 1);
    assert(elements =~= elements.subrange(0, len));
    lemma_comments_split(elements, 0, function, len);
    lemma_comments_split(elements, function + 1, argument, len);
    lemma_trivia_hold_the_comments(elements, function + 1, argument);

    let raw = trivia_after(elements, 0);
    let trailing = same_line_comment(raw);
    let trivia = later_trivia(raw);
    let between = comments_among(trivia);
    lemma_later_trivia_comments(raw);
    lemma_on_own_lines(between);

    let vertical = is_vertical(ctx, node);
    let first = seq![format_as(vertical, &elements[function])];
    let second = match trailing {
        Some(text) => seq![
            Directive::Space,
            Directive::Comment(text),
            Directive::NewLine,
            Directive::Pad,
        ],
        None => seq![],
    };
    let third = if attaches_inline(trivia) {
        seq![Directive::Space, Directive::Comment(between[0])]
    } else {
        on_own_lines(between)
    };
    let fourth = if !vertical {
        seq![Directive::Space, Directive::FormatCompact(&elements[argument])]
    } else if attaches_inline(trivia) || (trailing is None && trivia.len() == 0
        && continues_line(elements[argument].kind())) {
        seq![Directive::Space, Directive::FormatWide(&elements[argument])]
    } else {
        seq![Directive::NewLine, Directive::Pad, Directive::FormatWide(&elements[argument])]
    };
    assert(apply_directives(ctx, node) == first + second + third + fourth);
    lemma_comments_written_concat(first + second + third, fourth);
    lemma_comments_written_concat(first + second, third);
    lemma_comments_written_concat(first, second);
    lemma_comments_written_one(first[0]);

    match trailing {
        Some(text) => {
            let comment = seq![Directive::Comment(text)];
            let line = seq![Directive::NewLine, Directive::Pad];
            assert(second =~= seq![Directive::Space] + comment + line);
            lemma_comments_written_concat(seq![Directive::Space] + comment, line);
            lemma_comments_written_concat(seq![Directive::Space], comment);
            lemma_writes_no_comment(seq![Directive::Space]);
            lemma_writes_no_comment(line);
            lemma_comments_written_one(comment[0]);
            assert(comments_written(second) =~= seq![text@]);
            assert(texts(seq![text] + between) =~= seq![text@] + texts(between));
        },
        None => {
            lemma_writes_no_comment(second);
            assert(Seq::<&String>::empty() + between =~= between);
        },
    }

    if attaches_inline(trivia) {
        lemma_comments_among_one(trivia[0]);
        assert(trivia =~= seq![trivia[0]]);
        let comment = seq![Directive::Comment(between[0])];
        assert(third =~= seq![Directive::Space] + comment);
        lemma_comments_written_concat(seq![Directive::Space], comment);
        lemma_writes_no_comment(seq![Directive::Space]);
        lemma_comments_written_one(comment[0]);
        assert(texts(between) =~= seq![between[0]@]);
    }
    assert(comments_written(third) =~= texts(between));

    let last = fourth.last();
    assert(last.comments() == elements[argument].comments());
    assert(fourth =~= fourth.drop_last() + seq![last]);
    lemma_comments_written_concat(fourth.drop_last(), seq![last]);
    lemma_writes_no_comment(fourth.drop_last());
    lemma_comments_written_one(last);
    assert(comments_written(fourth) =~= elements[argument].comments());

    assert(comments_written(apply_directives(ctx, node)) =~= comments_of_elements(elements));
}

/// The layout of an application is a function of its children and of the
/// context's `vertical`.
pub proof fn lemma_application_is_determined(
    ctx: BuildContext,
    node: &Node,
    other_ctx: BuildContext,
    other_node: &Node,
)
    requires
        ctx.vertical == other_ctx.vertical,
        node.children@ == other_node.children@,
    ensures
        has_operands(node) == has_operands(other_node),
        apply_directives(ctx, node) == apply_directives(other_ctx, other_node),
{
}

/// A horizontal layout has no trivia to place.
///
/// If the layout of an application is not vertical, its directives are the
/// function, a space and the argument, both formatted compactly.
pub proof fn lemma_horizontal_application(ctx: BuildContext, node: &Node)
    requires
        !is_vertical(ctx, node),
    ensures
        apply_directives(ctx, node) == seq![
            Directive::FormatCompact(&node.children@[significant(node.children@, 0)]),
            Directive::Space,
            Directive::FormatCompact(&node.children@[significant(node.children@, 1)]),
        ],
{
    let trivia = later_trivia(trivia_after(node.children@, 0));
    assert(trivia =~= Seq::<Trivia>::empty());
    assert(comments_among(trivia) =~= seq![]);
    assert(on_own_lines(comments_among(trivia)) =~= seq![]);
    assert(apply_directives(ctx, node) =~= seq![
        Directive::FormatCompact(&node.children@[significant(node.children@, 0)]),
        Directive::Space,
        Directive::FormatCompact(&node.children@[significant(node.children@, 1)]),
    ]);
}

/// An application never changes the indentation depth: its directives hold
/// neither `Indent` nor `Dedent`.
pub proof fn lemma_application_keeps_depth(ctx: BuildContext, node: &Node)
    ensures
        keeps_depth(apply_directives(ctx, node)),
{
    lemma_on_own_lines(comments_among(later_trivia(trivia_after(node.children@, 0))));
}

} // verus!
