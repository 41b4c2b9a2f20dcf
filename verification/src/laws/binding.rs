//! What holds of the layout of a binding on every tree.

use crate::children::any_comment;
use crate::children::differ_in_one_significant;
use crate::children::lemma_next_significant;
use crate::children::lemma_no_comment_among_trivia;
use crate::children::lemma_same_significant;
use crate::children::lemma_same_surroundings;
use crate::children::lemma_significant_in_bounds;
use crate::children::lemma_significant_runs_out;
use crate::children::lemma_trivia_hold_the_comments;
use crate::children::significant;
use crate::directive::comments_written;
use crate::directive::dedent_count;
use crate::directive::depth_after;
use crate::directive::format_as;
use crate::directive::indent_count;
use crate::directive::keeps_depth;
use crate::directive::lemma_comments_written_concat;
use crate::directive::lemma_comments_written_one;
use crate::directive::lemma_depth_concat;
use crate::directive::lemma_keeps_depth;
use crate::directive::lemma_on_own_lines;
use crate::directive::lemma_writes_no_comment;
use crate::directive::on_own_lines;
use crate::directive::texts;
use crate::directive::BuildContext;
use crate::directive::Directive;
use crate::rules::key_value::asks_for_inspection;
use crate::rules::key_value::assign_of;
use crate::rules::key_value::attaches_inline;
use crate::rules::key_value::comments_after_key;
use crate::rules::key_value::comments_after_value;
use crate::rules::key_value::comments_before_value;
use crate::rules::key_value::indents_value;
use crate::rules::key_value::is_binding;
use crate::rules::key_value::is_redundant_paren;
use crate::rules::key_value::is_vertical;
use crate::rules::key_value::key_and_assign;
use crate::rules::key_value::key_of;
use crate::rules::key_value::key_value_directives;
use crate::rules::key_value::reads_every_comment;
use crate::rules::key_value::terminator_and_dedent;
use crate::rules::key_value::terminator_of;
use crate::rules::key_value::value_and_comments;
use crate::rules::key_value::value_of;
use crate::rules::key_value::value_placement;
use crate::rules::key_value::without_parens;
use crate::syntax::all_well_formed;
use crate::syntax::comments_of_elements;
use crate::syntax::lemma_comments_split;
use crate::syntax::Element;
use crate::syntax::Node;
use vstd::prelude::*;

verus! {


/// The depth while a sequence is replayed that opens one level of
/// indentation after `before` and closes it with its last directive.
proof fn lemma_one_level(before: Seq<Directive>, inside: Seq<Directive>, base: int)
    requires
        keeps_depth(before),
        keeps_depth(inside),
    ensures
        ({
            let all = before + seq![Directive::Indent] + inside + seq![Directive::Dedent];
            &&& indent_count(all) == 1
            &&& dedent_count(all) == 1
            &&& forall|i: int|
                0 <= i <= all.len() ==> #[trigger] depth_after(all.take(i), base) == if before.len()
                    < i < all.len() {
                    base + 1
                } else {
                    base
                }
        }),
{
    let opened = before + seq![Directive::Indent];
    let all = opened + inside + seq![Directive::Dedent];
    lemma_keeps_depth(before, base);
    lemma_keeps_depth(inside, base + 1);
    lemma_depth_concat(before, seq![Directive::Indent], base);
    lemma_depth_concat(opened, inside, base);
    lemma_depth_concat(opened + inside, seq![Directive::Dedent], base);
    reveal_with_fuel(depth_after, 2);
    reveal_with_fuel(indent_count, 2);
    reveal_with_fuel(dedent_count, 2);
    assert forall|i: int| 0 <= i <= all.len() implies #[trigger] depth_after(all.take(i), base)
        == if before.len() < i < all.len() {
        base + 1
    } else {
        base
    } by {
        if i <= before.len() {
            assert(all.take(i) =~= before.take(i));
            lemma_keeps_depth(before.take(i), base);
        } else if i < all.len() {
            let rest = inside.take(i - before.len() - 1);
            assert(all.take(i) =~= opened + rest);
            lemma_depth_concat(opened, rest, base);
            lemma_keeps_depth(rest, base + 1);
        } else {
            assert(all.take(i) =~= all);
        }
    }
}

/// Indentation is balanced within one binding.
///
/// Replayed from any depth `base`, the directives of a binding stay at
/// `base` up to and including `=`. If the value is indented, every directive
/// after the `Indent` and up to the terminator runs exactly one level deeper,
/// so each `Pad` there writes the deeper indentation, and the last directive
/// is the one `Dedent` that brings the depth back to `base`. If the value is
/// not indented, the sequence holds neither `Indent` nor `Dedent`.
pub proof fn lemma_indent_is_balanced(
    ctx: BuildContext,
    node: &Node,
    self_indented: bool,
    base: int,
)
    ensures
        ({
            let directives = key_value_directives(ctx, node, self_indented);
            let indented = indents_value(ctx, node, self_indented);
            let opened = key_and_assign(ctx, node).len();
            &&& indent_count(directives) == dedent_count(directives)
            &&& indent_count(directives) == if indented {
                1nat
            } else {
                0nat
            }
            &&& indented ==> directives[opened as int] is Indent && directives.last() is Dedent
            &&& depth_after(directives, base) == base
            &&& forall|i: int|
                0 <= i <= directives.len() ==> #[trigger] depth_after(directives.take(i), base)
                    == if indented && opened < i < directives.len() {
                    base + 1
                } else {
                    base
                }
        }),
{
    let directives = key_value_directives(ctx, node, self_indented);
    let head = key_and_assign(ctx, node);
    let value = value_and_comments(ctx, node);
    let terminator = seq![Directive::FormatCompact(terminator_of(node))];
    lemma_on_own_lines(comments_after_key(node));
    lemma_on_own_lines(comments_before_value(node));
    lemma_on_own_lines(comments_after_value(node));
    assert(keeps_depth(head));
    assert(keeps_depth(value));
    if indents_value(ctx, node, self_indented) {
        let inside = seq![Directive::NewLine, Directive::Pad] + on_own_lines(
            comments_before_value(node),
        ) + value + terminator;
        assert(keeps_depth(inside));
        assert(directives =~= head + seq![Directive::Indent] + inside + seq![Directive::Dedent]);
        lemma_one_level(head, inside, base);
        assert(directives.take(directives.len() as int) =~= directives);
    } else {
        assert(keeps_depth(value_placement(ctx, node, self_indented)));
        assert(keeps_depth(directives));
        lemma_keeps_depth(directives, base);
        assert forall|i: int| 0 <= i <= directives.len() implies #[trigger] depth_after(
            directives.take(i),
            base,
        ) == base by {
            lemma_keeps_depth(directives.take(i), base);
        }
    }
}

/// The comments that the first three parts of a binding's directives write.
proof fn lemma_binding_parts_comments(ctx: BuildContext, node: &Node, self_indented: bool)
    ensures
        comments_written(key_and_assign(ctx, node)) == key_of(node).comments() + texts(
            comments_after_key(node),
        ) + assign_of(node).comments(),
        comments_written(value_placement(ctx, node, self_indented)) == texts(
            comments_before_value(node),
        ),
        comments_written(value_and_comments(ctx, node)) == value_of(node).comments() + texts(
            comments_after_value(node),
        ),
{
    let vertical = is_vertical(ctx, node);
    let after_key = comments_after_key(node);
    let before = comments_before_value(node);
    let after = comments_after_value(node);
    lemma_on_own_lines(after_key);
    lemma_on_own_lines(before);
    lemma_on_own_lines(after);

    let key = seq![format_as(vertical, key_of(node))];
    let gap = if after_key.len() > 0 {
        on_own_lines(after_key) + seq![Directive::NewLine, Directive::Pad]
    } else {
        seq![Directive::Space]
    };
    let assign = seq![Directive::FormatCompact(assign_of(node))];
    lemma_comments_written_one(key[0]);
    lemma_comments_written_one(assign[0]);
    lemma_comments_written_concat(key + gap, assign);
    lemma_comments_written_concat(key, gap);
    if after_key.len() > 0 {
        lemma_comments_written_concat(
            on_own_lines(after_key),
            seq![Directive::NewLine, Directive::Pad],
        );
        lemma_writes_no_comment(seq![Directive::NewLine, Directive::Pad]);
    } else {
        lemma_writes_no_comment(gap);
        assert(texts(after_key) =~= seq![]);
    }
    assert(comments_written(gap) =~= texts(after_key));

    if vertical && attaches_inline(before) {
        let comment = seq![Directive::Comment(before[0])];
        assert(value_placement(ctx, node, self_indented) =~= seq![Directive::Space] + comment
            + seq![Directive::Space]);
        lemma_comments_written_concat(seq![Directive::Space] + comment, seq![Directive::Space]);
        lemma_comments_written_concat(seq![Directive::Space], comment);
        lemma_writes_no_comment(seq![Directive::Space]);
        lemma_comments_written_one(comment[0]);
        assert(texts(before) =~= seq![before[0]@]);
    } else if indents_value(ctx, node, self_indented) {
        let opening = seq![Directive::Indent, Directive::NewLine, Directive::Pad];
        lemma_comments_written_concat(opening, on_own_lines(before));
        lemma_writes_no_comment(opening);
    } else {
        lemma_comments_written_concat(seq![Directive::Space], on_own_lines(before));
        lemma_writes_no_comment(seq![Directive::Space]);
    }

    let value = seq![format_as(vertical, value_of(node))];
    let line = if vertical && after.len() > 0 {
        seq![Directive::NewLine, Directive::Pad]
    } else {
        seq![]
    };
    lemma_comments_written_one(value[0]);
    lemma_comments_written_concat(value + line, on_own_lines(after));
    lemma_comments_written_concat(value, line);
    lemma_writes_no_comment(line);
}

/// The comments of a binding, child by child.
proof fn lemma_binding_comments_by_child(node: &Node)
    requires
        reads_every_comment(node),
    ensures
        comments_of_elements(node.children@) == key_of(node).comments() + texts(
            comments_after_key(node),
        ) + assign_of(node).comments() + texts(comments_before_value(node))
            + node.children@[significant(node.children@, 2)].comments() + texts(
            comments_after_value(node),
        ) + terminator_of(node).comments(),
        significant(node.children@, 2) < node.children@.len(),
{
    let elements = node.children@;
    let len = elements.len() as int;
    let key = significant(elements, 0);
    let assign = significant(elements, 1);
    let value = significant(elements, 2);
    let terminator = significant(elements, 3);
    if value >= len {
        lemma_significant_runs_out(elements, 2, 3);
    }
    if assign >= len {
        lemma_significant_runs_out(elements, 1, 3);
    }
    lemma_significant_in_bounds(elements, 0);
    lemma_next_significant(elements, key + 1);
    lemma_next_significant(elements, assign + 1);
    lemma_next_significant(elements, value + 1);
    assert(elements =~= elements.subrange(0, len));
    lemma_comments_split(elements, 0, key, len);
    lemma_comments_split(elements, key + 1, assign, len);
    lemma_comments_split(elements, assign + 1, value, len);
    lemma_comments_split(elements, value + 1, terminator, len);
    lemma_trivia_hold_the_comments(elements, key + 1, assign);
    lemma_trivia_hold_the_comments(elements, assign + 1, value);
    lemma_trivia_hold_the_comments(elements, value + 1, terminator);
}

/// Parentheses that the rule takes off hold no comment of their own.
proof fn lemma_redundant_parens_hold_no_comment(element: &Element)
    requires
        element.is_well_formed(),
    ensures
        without_parens(element).comments() == element.comments(),
{
    if is_redundant_paren(element) {
        let inside = element->Node_0.children@;
        assert(inside =~= inside.subrange(0, 3));
        lemma_comments_split(inside, 0, 1, 3);
        lemma_comments_split(inside, 0, 0, 1);
        lemma_comments_split(inside, 2, 2, 3);
        assert(inside.subrange(0, 0) =~= Seq::<Element>::empty());
        assert(inside.subrange(1, 1) =~= Seq::<Element>::empty());
        assert(inside.subrange(3, 3) =~= Seq::<Element>::empty());
        assert(inside.first() == inside[0]);
        assert(inside.last() == inside[2]);
        assert(inside[0].comments() =~= seq![]);
        assert(inside[2].comments() =~= seq![]);
        assert(element.comments() =~= inside[1].comments());
    }
}

/// The comments that the directives of a binding write, part by part.
proof fn lemma_binding_comments_written(ctx: BuildContext, node: &Node, self_indented: bool)
    ensures
        comments_written(key_value_directives(ctx, node, self_indented)) == key_of(
            node,
        ).comments() + texts(comments_after_key(node)) + assign_of(node).comments() + texts(
            comments_before_value(node),
        ) + value_of(node).comments() + texts(comments_after_value(node)) + terminator_of(
            node,
        ).comments(),
{
    lemma_binding_parts_comments(ctx, node, self_indented);
    let head = key_and_assign(ctx, node);
    let placement = value_placement(ctx, node, self_indented);
    let body = value_and_comments(ctx, node);
    let close = terminator_and_dedent(ctx, node, self_indented);
    lemma_comments_written_concat(head + placement + body, close);
    lemma_comments_written_concat(head + placement, body);
    lemma_comments_written_concat(head, placement);
    let last = seq![Directive::FormatCompact(terminator_of(node))];
    lemma_comments_written_one(last[0]);
    if indents_value(ctx, node, self_indented) {
        lemma_comments_written_concat(last, seq![Directive::Dedent]);
        lemma_writes_no_comment(seq![Directive::Dedent]);
    } else {
        assert(close =~= last);
    }
    assert(comments_written(close) =~= terminator_of(node).comments());
}

/// A binding keeps its comments.
///
/// For a well-formed binding with no comment before its key or after its
/// terminator, the comments that the directives write, those inside the
/// formatted children included, are the comments of the node, each once and
/// in source order. This holds in every layout, horizontal or vertical, and
/// whether or not parentheses were taken off the value.
pub proof fn lemma_binding_keeps_comments(ctx: BuildContext, node: &Node, self_indented: bool)
    requires
        reads_every_comment(node),
        all_well_formed(node.children@),
    ensures
        comments_written(key_value_directives(ctx, node, self_indented)) == comments_of_elements(
            node.children@,
        ),
{
    lemma_binding_comments_by_child(node);
    lemma_significant_in_bounds(node.children@, 2);
    let value = significant(node.children@, 2);
    assert(node.children@[value].is_well_formed());
    lemma_redundant_parens_hold_no_comment(&node.children@[value]);
    lemma_binding_comments_written(ctx, node, self_indented);
}

/// Redundant parentheses around a value do not show.
///
/// Take two bindings that are equal child for child, but that the value of
/// `wrapped` is the value of `plain` between parentheses, with nothing else
/// inside them. Then both get the same directives. The value of `plain` must
/// not itself be such a pair of parentheses: the rule takes off one pair, not
/// two.
pub proof fn lemma_redundant_parens_do_not_show(
    ctx: BuildContext,
    plain: &Node,
    wrapped: &Node,
    self_indented: bool,
)
    requires
        is_binding(plain),
        plain.children@.len() == wrapped.children@.len(),
        forall|i: int|
            0 <= i < plain.children@.len() && i != significant(plain.children@, 2)
                ==> plain.children@[i] == wrapped.children@[i],
        is_redundant_paren(&wrapped.children@[significant(plain.children@, 2)]),
        without_parens(&wrapped.children@[significant(plain.children@, 2)])
            == &plain.children@[significant(plain.children@, 2)],
        !is_redundant_paren(&plain.children@[significant(plain.children@, 2)]),
    ensures
        is_binding(wrapped),
        key_value_directives(ctx, wrapped, self_indented) == key_value_directives(
            ctx,
            plain,
            self_indented,
        ),
{
    let first = plain.children@;
    let second = wrapped.children@;
    let at = significant(first, 2);
    if at >= first.len() {
        lemma_significant_runs_out(first, 2, 3);
    }
    lemma_significant_in_bounds(first, 1);
    lemma_significant_in_bounds(first, 2);
    if significant(first, 1) < first.len() {
        lemma_next_significant(first, significant(first, 1) + 1);
    } else {
        lemma_significant_runs_out(first, 1, 2);
    }
    assert(differ_in_one_significant(first, second, at));
    lemma_same_significant(first, second, at, 0);
    lemma_same_significant(first, second, at, 1);
    lemma_same_significant(first, second, at, 2);
    lemma_same_significant(first, second, at, 3);
    lemma_same_surroundings(first, second, at, 0);
    lemma_same_surroundings(first, second, at, 1);
    lemma_same_surroundings(first, second, at, 2);
    lemma_significant_in_bounds(first, 0);
    lemma_significant_in_bounds(first, 3);
    lemma_next_significant(first, 0);
    lemma_next_significant(first, significant(first, 0) + 1);
    lemma_next_significant(first, at + 1);
    assert(key_of(wrapped) == key_of(plain));
    assert(assign_of(wrapped) == assign_of(plain));
    assert(value_of(wrapped) == value_of(plain));
    assert(terminator_of(wrapped) == terminator_of(plain));
    assert(is_vertical(ctx, wrapped) == is_vertical(ctx, plain));
    assert(indents_value(ctx, wrapped, self_indented) == indents_value(ctx, plain, self_indented));
    assert(key_and_assign(ctx, wrapped) == key_and_assign(ctx, plain));
    assert(value_placement(ctx, wrapped, self_indented) == value_placement(
        ctx,
        plain,
        self_indented,
    ));
    assert(value_and_comments(ctx, wrapped) == value_and_comments(ctx, plain));
}

/// A comment forces the binding into the vertical layout.
///
/// If a comment stands among the children of a binding, its directives are
/// those of a vertical context, whatever the context says: the key and the
/// value are formatted wide, and no comment is left to a horizontal layout.
pub proof fn lemma_comment_forces_vertical(ctx: BuildContext, node: &Node, self_indented: bool)
    requires
        any_comment(node.children@, 0),
    ensures
        is_vertical(ctx, node),
        key_value_directives(ctx, node, self_indented) == key_value_directives(
            ctx.made_vertical(),
            node,
            self_indented,
        ),
        key_value_directives(ctx, node, self_indented).first() == Directive::FormatWide(
            key_of(node),
        ),
        value_and_comments(ctx, node).first() == Directive::FormatWide(value_of(node)),
{
}

/// A horizontal layout has no comment to place.
///
/// If the layout of a binding is not vertical, no comment stands between its
/// children, and its directives are the key, a space, `=`, a space, the
/// value and the terminator, all formatted compactly.
pub proof fn lemma_horizontal_binding(ctx: BuildContext, node: &Node, self_indented: bool)
    requires
        !is_vertical(ctx, node),
    ensures
        comments_after_key(node).len() == 0,
        comments_before_value(node).len() == 0,
        comments_after_value(node).len() == 0,
        key_value_directives(ctx, node, self_indented) == seq![
            Directive::FormatCompact(key_of(node)),
            Directive::Space,
            Directive::FormatCompact(assign_of(node)),
            Directive::Space,
            Directive::FormatCompact(value_of(node)),
            Directive::FormatCompact(terminator_of(node)),
        ],
{
    let elements = node.children@;
    lemma_significant_in_bounds(elements, 0);
    lemma_significant_in_bounds(elements, 1);
    lemma_significant_in_bounds(elements, 2);
    lemma_significant_in_bounds(elements, 3);
    lemma_no_comment_among_trivia(
        elements,
        significant(elements, 0) + 1,
        significant(elements, 1),
    );
    lemma_no_comment_among_trivia(
        elements,
        significant(elements, 1) + 1,
        significant(elements, 2),
    );
    lemma_no_comment_among_trivia(
        elements,
        significant(elements, 2) + 1,
        significant(elements, 3),
    );
    assert(on_own_lines(Seq::<&String>::empty()) =~= seq![]);
    assert(key_value_directives(ctx, node, self_indented) =~= seq![
        Directive::FormatCompact(key_of(node)),
        Directive::Space,
        Directive::FormatCompact(assign_of(node)),
        Directive::Space,
        Directive::FormatCompact(value_of(node)),
        Directive::FormatCompact(terminator_of(node)),
    ]);
}

/// The layout of a binding is a function of its children and of the
/// context's `vertical`: two nodes with the same children get the same
/// directives from two contexts that agree on `vertical`, whatever their
/// kinds and whatever depth the contexts stand at.
pub proof fn lemma_binding_is_determined(
    ctx: BuildContext,
    node: &Node,
    other_ctx: BuildContext,
    other_node: &Node,
    self_indented: bool,
)
    requires
        ctx.vertical == other_ctx.vertical,
        node.children@ == other_node.children@,
    ensures
        is_binding(node) == is_binding(other_node),
        key_value_directives(ctx, node, self_indented) == key_value_directives(
            other_ctx,
            other_node,
            self_indented,
        ),
{
}

/// Where the rule does not ask for an inspection of the value, the answer
/// makes no difference.
pub proof fn lemma_answer_matters_only_when_asked(ctx: BuildContext, node: &Node)
    requires
        is_binding(node),
        !asks_for_inspection(ctx, node),
    ensures
        key_value_directives(ctx, node, true) == key_value_directives(ctx, node, false),
{
    assert(indents_value(ctx, node, true) == indents_value(ctx, node, false));
}

} // verus!
