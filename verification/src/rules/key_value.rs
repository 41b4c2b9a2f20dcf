//! The layout of a binding: a key, `=`, a value and the terminator.

use crate::children::any_comment;
use crate::children::any_line_break;
use crate::children::comment_texts;
use crate::children::comments_among;
use crate::children::lemma_next_significant;
use crate::children::lemma_significant_runs_out;
use crate::children::significant;
use crate::children::trivia_after;
use crate::children::Children;
use crate::directive::format_as;
use crate::directive::on_own_lines;
use crate::directive::push_on_own_lines;
use crate::directive::BuildContext;
use crate::directive::Directive;
use crate::directive::StructuralViolation;
use crate::syntax::comments_of_elements;
use crate::syntax::Element;
use crate::syntax::Kind;
use crate::syntax::Node;
use crate::text::is_inline_attachable;
use crate::text::stays_inline;
use vstd::prelude::*;

verus! {

/// The node has the four children of a binding.
pub open spec fn is_binding(node: &Node) -> bool {
    significant(node.children@, 3) < node.children@.len()
}

/// No comment stands before the key or after the terminator: the binding
/// reads every comment of the node.
pub open spec fn reads_every_comment(node: &Node) -> bool {
    let elements = node.children@;
    &&& is_binding(node)
    &&& comments_of_elements(elements.subrange(0, significant(elements, 0))).len() == 0
    &&& comments_of_elements(
        elements.subrange(significant(elements, 3) + 1, elements.len() as int),
    ).len() == 0
}

/// Parentheses around a single expression and nothing else: they can go.
pub open spec fn is_redundant_paren(element: &Element) -> bool {
    element matches Element::Node(node) && node.kind == Kind::NodeParen && node.children@.len()
        == 3
}

/// `element` without redundant parentheses around it.
pub open spec fn without_parens<'a>(element: &'a Element) -> &'a Element {
    if is_redundant_paren(element) {
        &element->Node_0.children@[1]
    } else {
        element
    }
}

/// The key of the binding.
pub open spec fn key_of<'a>(node: &'a Node) -> &'a Element {
    &node.children@[significant(node.children@, 0)]
}

/// The `=` of the binding.
pub open spec fn assign_of<'a>(node: &'a Node) -> &'a Element {
    &node.children@[significant(node.children@, 1)]
}

/// The value of the binding, without redundant parentheses.
pub open spec fn value_of<'a>(node: &'a Node) -> &'a Element {
    without_parens(&node.children@[significant(node.children@, 2)])
}

/// The terminator of the binding.
pub open spec fn terminator_of<'a>(node: &'a Node) -> &'a Element {
    &node.children@[significant(node.children@, 3)]
}

/// The comments between the key and `=`.
pub open spec fn comments_after_key<'a>(node: &'a Node) -> Seq<&'a String> {
    comments_among(trivia_after(node.children@, 0))
}

/// The comments between `=` and the value.
pub open spec fn comments_before_value<'a>(node: &'a Node) -> Seq<&'a String> {
    comments_among(trivia_after(node.children@, 1))
}

/// The comments between the value and the terminator.
pub open spec fn comments_after_value<'a>(node: &'a Node) -> Seq<&'a String> {
    comments_among(trivia_after(node.children@, 2))
}

/// The layout is vertical: the context is, or the node holds a comment or a
/// line break.
pub open spec fn is_vertical(ctx: BuildContext, node: &Node) -> bool {
    ctx.vertical || any_comment(node.children@, 0) || any_line_break(node.children@, 0)
}

/// The comments before the value are a single one that may stay on the line
/// of `=`.
pub open spec fn attaches_inline(comments: Seq<&String>) -> bool {
    comments.len() == 1 && is_inline_attachable(comments[0]@)
}

/// The kinds of value that stay on the line of `=` even in a vertical
/// layout: their own body gives the lines their structure.
pub open spec fn carries_own_structure(kind: Kind) -> bool {
    ||| kind == Kind::NodeAssert
    ||| kind == Kind::NodeAttrSet
    ||| kind == Kind::NodeParen
    ||| kind == Kind::NodeLambda
    ||| kind == Kind::NodeLetIn
    ||| kind == Kind::NodeList
    ||| kind == Kind::NodeString
    ||| kind == Kind::NodeWith
}

/// The rule needs to know whether the lines inside the value are indented
/// already: the layout is vertical, no comment surrounds the value, and the
/// value is an application.
pub open spec fn asks_for_inspection(ctx: BuildContext, node: &Node) -> bool {
    &&& is_binding(node)
    &&& is_vertical(ctx, node)
    &&& comments_before_value(node).len() == 0
    &&& comments_after_value(node).len() == 0
    &&& value_of(node).kind() == Kind::NodeApply
}

/// The value goes to a new line, one level deeper.
pub open spec fn indents_value(ctx: BuildContext, node: &Node, self_indented: bool) -> bool {
    &&& is_vertical(ctx, node)
    &&& !attaches_inline(comments_before_value(node))
    &&& {
        ||| comments_before_value(node).len() > 0
        ||| comments_after_value(node).len() > 0
        ||| !(carries_own_structure(value_of(node).kind()) || (value_of(node).kind()
            == Kind::NodeApply && self_indented))
    }
}

/// What stands between `=` and the value.
pub open spec fn value_placement<'a>(
    ctx: BuildContext,
    node: &'a Node,
    self_indented: bool,
) -> Seq<Directive<'a>> {
    let before = comments_before_value(node);
    if is_vertical(ctx, node) && attaches_inline(before) {
        seq![Directive::Space, Directive::Comment(before[0]), Directive::Space]
    } else if indents_value(ctx, node, self_indented) {
        seq![Directive::Indent, Directive::NewLine, Directive::Pad] + on_own_lines(before)
    } else {
        seq![Directive::Space] + on_own_lines(before)
    }
}

/// The key, the comments after it, and `=`.
pub open spec fn key_and_assign<'a>(ctx: BuildContext, node: &'a Node) -> Seq<Directive<'a>> {
    let after_key = comments_after_key(node);
    seq![format_as(is_vertical(ctx, node), key_of(node))] + (if after_key.len() > 0 {
        on_own_lines(after_key) + seq![Directive::NewLine, Directive::Pad]
    } else {
        seq![Directive::Space]
    }) + seq![Directive::FormatCompact(assign_of(node))]
}

/// The value and the comments after it.
pub open spec fn value_and_comments<'a>(ctx: BuildContext, node: &'a Node) -> Seq<Directive<'a>> {
    let vertical = is_vertical(ctx, node);
    let after_value = comments_after_value(node);
    seq![format_as(vertical, value_of(node))] + (if vertical && after_value.len() > 0 {
        seq![Directive::NewLine, Directive::Pad]
    } else {
        seq![]
    }) + on_own_lines(after_value)
}

/// The terminator, and the `Dedent` that matches the `Indent` before the
/// value.
pub open spec fn terminator_and_dedent<'a>(
    ctx: BuildContext,
    node: &'a Node,
    self_indented: bool,
) -> Seq<Directive<'a>> {
    seq![Directive::FormatCompact(terminator_of(node))] + (if indents_value(
        ctx,
        node,
        self_indented,
    ) {
        seq![Directive::Dedent]
    } else {
        seq![]
    })
}

/// The directives for a binding `node` with four children. `self_indented`
/// is the answer to the question of `asks_for_inspection`.
pub open spec fn key_value_directives<'a>(
    ctx: BuildContext,
    node: &'a Node,
    self_indented: bool,
) -> Seq<Directive<'a>> {
    key_and_assign(ctx, node) + value_placement(ctx, node, self_indented) + value_and_comments(
        ctx,
        node,
    ) + terminator_and_dedent(ctx, node, self_indented)
}

/// Takes redundant parentheses off `element`.
pub fn elide_parens<'a>(element: &'a Element) -> (inner: &'a Element)
    ensures
        inner == without_parens(element),
{
    match element {
        Element::Node(node) => {
            if node.kind == Kind::NodeParen && node.children.len() == 3 {
                &node.children[1]
            } else {
                element
            }
        },
        Element::Token(_) => element,
    }
}

/// Tells whether a value of this kind stays on the line of `=` in a vertical
/// layout.
pub fn has_own_structure(kind: Kind) -> (b: bool)
    ensures
        b == carries_own_structure(kind),
{
    kind == Kind::NodeAssert || kind == Kind::NodeAttrSet || kind == Kind::NodeParen || kind
        == Kind::NodeLambda || kind == Kind::NodeLetIn || kind == Kind::NodeList || kind
        == Kind::NodeString || kind == Kind::NodeWith
}

/// The children of a binding and the comments between them.
struct Parts<'a> {
    vertical: bool,
    key: &'a Element,
    after_key: Vec<&'a String>,
    assign: &'a Element,
    before_value: Vec<&'a String>,
    value: &'a Element,
    after_value: Vec<&'a String>,
    terminator: &'a Element,
}

impl<'a> Parts<'a> {
    spec fn read_from(self, ctx: BuildContext, node: &'a Node) -> bool {
        &&& self.vertical == is_vertical(ctx, node)
        &&& self.key == key_of(node)
        &&& self.after_key@ == comments_after_key(node)
        &&& self.assign == assign_of(node)
        &&& self.before_value@ == comments_before_value(node)
        &&& self.value == value_of(node)
        &&& self.after_value@ == comments_after_value(node)
        &&& self.terminator == terminator_of(node)
    }
}

/// Reads the four children of a binding.
fn read<'a>(ctx: BuildContext, node: &'a Node) -> (res: Result<Parts<'a>, StructuralViolation>)
    ensures
        (match res {
            Ok(parts) => is_binding(node) && parts.read_from(ctx, node),
            Err(_) => !is_binding(node),
        }),
{
    let ghost elements = node.children@;
    let mut children = Children::new(node);
    let vertical = ctx.vertical || children.has_comments() || children.has_newlines();
    proof {
        lemma_next_significant(elements, 0);
    }
    let key = match children.next() {
        Ok(element) => element,
        Err(_) => {
            proof {
                lemma_significant_runs_out(elements, 0, 3);
            }
            return Err(StructuralViolation);
        },
    };
    proof {
        lemma_next_significant(elements, significant(elements, 0) + 1);
    }
    let after_key = comment_texts(&children.drain_trivia());
    let assign = match children.next() {
        Ok(element) => element,
        Err(_) => {
            proof {
                lemma_significant_runs_out(elements, 1, 3);
            }
            return Err(StructuralViolation);
        },
    };
    proof {
        lemma_next_significant(elements, significant(elements, 1) + 1);
    }
    let before_value = comment_texts(&children.drain_trivia());
    let value = match children.next() {
        Ok(element) => elide_parens(element),
        Err(_) => {
            proof {
                lemma_significant_runs_out(elements, 2, 3);
            }
            return Err(StructuralViolation);
        },
    };
    proof {
        lemma_next_significant(elements, significant(elements, 2) + 1);
    }
    let after_value = comment_texts(&children.drain_trivia());
    let terminator = match children.next() {
        Ok(element) => element,
        Err(_) => {
            return Err(StructuralViolation);
        },
    };
    Ok(Parts { vertical, key, after_key, assign, before_value, value, after_value, terminator })
}

/// The value whose lines the caller has to inspect before it calls `rule`:
/// `Some` if and only if `rule` reads its third argument for this node.
pub fn inspected_value<'a>(ctx: BuildContext, node: &'a Node) -> (res: Option<&'a Element>)
    ensures
        res == (if asks_for_inspection(ctx, node) {
            Some(value_of(node))
        } else {
            None
        }),
{
    match read(ctx, node) {
        Ok(parts) => {
            if parts.vertical && parts.before_value.len() == 0 && parts.after_value.len() == 0
                && parts.value.kind() == Kind::NodeApply {
                Some(parts.value)
            } else {
                None
            }
        },
        Err(_) => None,
    }
}

/// Appends the key, the comments after it, and `=`.
fn push_key_and_assign<'a>(
    directives: &mut Vec<Directive<'a>>,
    parts: &Parts<'a>,
    Ghost(ctx): Ghost<BuildContext>,
    Ghost(node): Ghost<&'a Node>,
)
    requires
        parts.read_from(ctx, node),
    ensures
        final(directives)@ == old(directives)@ + key_and_assign(ctx, node),
{
    if parts.vertical {
        directives.push(Directive::FormatWide(parts.key));
    } else {
        directives.push(Directive::FormatCompact(parts.key));
    }
    if parts.after_key.len() > 0 {
        push_on_own_lines(directives, &parts.after_key);
        directives.push(Directive::NewLine);
        directives.push(Directive::Pad);
    } else {
        directives.push(Directive::Space);
    }
    directives.push(Directive::FormatCompact(parts.assign));
    assert(directives@ =~= old(directives)@ + key_and_assign(ctx, node));
}

/// Appends what stands between `=` and the value, and tells whether that
/// opened a level of indentation.
fn push_value_placement<'a>(
    directives: &mut Vec<Directive<'a>>,
    parts: &Parts<'a>,
    self_indented: bool,
    Ghost(ctx): Ghost<BuildContext>,
    Ghost(node): Ghost<&'a Node>,
) -> (indented: bool)
    requires
        parts.read_from(ctx, node),
    ensures
        final(directives)@ == old(directives)@ + value_placement(ctx, node, self_indented),
        indented == indents_value(ctx, node, self_indented),
{
    let attached = parts.before_value.len() == 1 && stays_inline(parts.before_value[0].as_str());
    if parts.vertical && attached {
        directives.push(Directive::Space);
        directives.push(Directive::Comment(parts.before_value[0]));
        directives.push(Directive::Space);
        assert(directives@ =~= old(directives)@ + value_placement(ctx, node, self_indented));
        return false;
    }
    let kind = parts.value.kind();
    let indented = parts.vertical && (parts.before_value.len() > 0 || parts.after_value.len() > 0
        || !(has_own_structure(kind) || (kind == Kind::NodeApply && self_indented)));
    if indented {
        directives.push(Directive::Indent);
        directives.push(Directive::NewLine);
        directives.push(Directive::Pad);
    } else {
        directives.push(Directive::Space);
    }
    push_on_own_lines(directives, &parts.before_value);
    assert(directives@ =~= old(directives)@ + value_placement(ctx, node, self_indented));
    indented
}

/// Appends the value and the comments after it.
fn push_value_and_comments<'a>(
    directives: &mut Vec<Directive<'a>>,
    parts: &Parts<'a>,
    Ghost(ctx): Ghost<BuildContext>,
    Ghost(node): Ghost<&'a Node>,
)
    requires
        parts.read_from(ctx, node),
    ensures
        final(directives)@ == old(directives)@ + value_and_comments(ctx, node),
{
    if parts.vertical {
        directives.push(Directive::FormatWide(parts.value));
        if parts.after_value.len() > 0 {
            directives.push(Directive::NewLine);
            directives.push(Directive::Pad);
        }
    } else {
        directives.push(Directive::FormatCompact(parts.value));
    }
    push_on_own_lines(directives, &parts.after_value);
    assert(directives@ =~= old(directives)@ + value_and_comments(ctx, node));
}

/// Lays out a binding.
///
/// The layout is vertical if the context is, or if the node holds a comment
/// or a line break. Comments after the key get lines of their own. Redundant
/// parentheses around the value go. The value stays on the line of `=` in a
/// horizontal layout, after a single three-line block comment, and where its
/// own body structures the lines; otherwise a new line is opened, one level
/// deeper, and the terminator is followed by the matching `Dedent`. Every
/// other comment before or after the value is written behind a `NewLine` and
/// a `Pad` of its own.
///
/// `self_indented` says whether the lines inside the value are indented
/// already. It is read only for the nodes for which `inspected_value` gives
/// a value.
///
/// Fails if and only if the node has fewer than four significant children.
pub fn rule<'a>(ctx: BuildContext, node: &'a Node, self_indented: bool) -> (res: Result<
    Vec<Directive<'a>>,
    StructuralViolation,
>)
    ensures
        (match res {
            Ok(directives) => is_binding(node) && directives@ == key_value_directives(
                ctx,
                node,
                self_indented,
            ),
            Err(_) => !is_binding(node),
        }),
{
    let parts = match read(ctx, node) {
        Ok(parts) => parts,
        Err(violation) => {
            return Err(violation);
        },
    };
    let mut directives: Vec<Directive<'a>> = Vec::new();
    push_key_and_assign(&mut directives, &parts, Ghost(ctx), Ghost(node));
    let indented = push_value_placement(
        &mut directives,
        &parts,
        self_indented,
        Ghost(ctx),
        Ghost(node),
    );
    push_value_and_comments(&mut directives, &parts, Ghost(ctx), Ghost(node));
    directives.push(Directive::FormatCompact(parts.terminator));
    if indented {
        directives.push(Directive::Dedent);
    }
    assert(directives@ =~= key_value_directives(ctx, node, self_indented));
    Ok(directives)
}

} // verus!
