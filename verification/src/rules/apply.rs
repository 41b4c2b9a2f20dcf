//! The layout of an application: a function and its argument, side by side.

use crate::children::comment_texts;
use crate::children::comments_among;
use crate::children::later_trivia;
use crate::children::lemma_next_significant;
use crate::children::same_line_comment;
use crate::children::significant;
use crate::children::trivia_after;
use crate::children::ChildView;
use crate::children::Children;
use crate::children::Trivia;
use crate::directive::format_as;
use crate::directive::on_own_lines;
use crate::directive::push_on_own_lines;
use crate::directive::BuildContext;
use crate::directive::Directive;
use crate::directive::StructuralViolation;
use crate::syntax::comments_of_elements;
use crate::syntax::Kind;
use crate::syntax::Node;
use crate::text::is_inline_attachable;
use crate::text::stays_inline;
use vstd::prelude::*;

verus! {

/// The node has the two children of an application.
pub open spec fn has_operands(node: &Node) -> bool {
    significant(node.children@, 1) < node.children@.len()
}

/// No comment stands before the function or after the argument: the
/// application reads every comment of the node.
pub open spec fn reads_every_comment(node: &Node) -> bool {
    let elements = node.children@;
    &&& has_operands(node)
    &&& comments_of_elements(elements.subrange(0, significant(elements, 0))).len() == 0
    &&& comments_of_elements(
        elements.subrange(significant(elements, 1) + 1, elements.len() as int),
    ).len() == 0
}

/// The kinds of argument that may start on the line of the function even in
/// a vertical layout: they bring their own brackets.
pub open spec fn continues_line(kind: Kind) -> bool {
    kind == Kind::NodeAttrSet || kind == Kind::NodeList || kind == Kind::NodeParen || kind
        == Kind::NodeString
}

/// The trivia after the function are a single comment that may stay on its
/// line.
pub open spec fn attaches_inline(trivia: Seq<Trivia>) -> bool {
    trivia.len() == 1 && (trivia[0] matches Trivia::Comment(text) && is_inline_attachable(text@))
}

/// The layout is vertical: the context is, or something other than spaces
/// follows one of the two children.
pub open spec fn is_vertical(ctx: BuildContext, node: &Node) -> bool {
    let first = trivia_after(node.children@, 0);
    let second = trivia_after(node.children@, 1);
    ||| ctx.vertical
    ||| same_line_comment(first) is Some
    ||| later_trivia(first).len() > 0
    ||| same_line_comment(second) is Some
    ||| later_trivia(second).len() > 0
}

/// The directives for an application `node` with two children.
pub open spec fn apply_directives<'a>(ctx: BuildContext, node: &'a Node) -> Seq<Directive<'a>> {
    let elements = node.children@;
    let function = &elements[significant(elements, 0)];
    let argument = &elements[significant(elements, 1)];
    let trailing = same_line_comment(trivia_after(elements, 0));
    let trivia = later_trivia(trivia_after(elements, 0));
    let vertical = is_vertical(ctx, node);
    seq![format_as(vertical, function)] + (match trailing {
        Some(text) => seq![
            Directive::Space,
            Directive::Comment(text),
            Directive::NewLine,
            Directive::Pad,
        ],
        None => seq![],
    }) + (if attaches_inline(trivia) {
        seq![Directive::Space, Directive::Comment(comments_among(trivia)[0])]
    } else {
        on_own_lines(comments_among(trivia))
    }) + (if !vertical {
        seq![Directive::Space, Directive::FormatCompact(argument)]
    } else if attaches_inline(trivia) || (trailing is None && trivia.len() == 0 && continues_line(
        argument.kind(),
    )) {
        seq![Directive::Space, Directive::FormatWide(argument)]
    } else {
        seq![Directive::NewLine, Directive::Pad, Directive::FormatWide(argument)]
    })
}

/// Tells whether an argument of this kind may start on the line of the
/// function in a vertical layout.
pub fn may_continue_line(kind: Kind) -> (b: bool)
    ensures
        b == continues_line(kind),
{
    kind == Kind::NodeAttrSet || kind == Kind::NodeList || kind == Kind::NodeParen || kind
        == Kind::NodeString
}

/// Tells whether the trivia after the function are a single comment that may
/// stay on its line.
fn is_attached<'a>(trivia: &Vec<Trivia<'a>>) -> (b: bool)
    ensures
        b == attaches_inline(trivia@),
{
    if trivia.len() != 1 {
        return false;
    }
    match trivia[0] {
        Trivia::Comment(text) => stays_inline(text.as_str()),
        Trivia::Newlines(_) => false,
    }
}

/// Lays out an application.
///
/// The function comes first. A comment that trails it stays on its line. A
/// single three-line block comment between the two stays on the line too;
/// any other comment gets a line of its own. In a vertical layout the
/// argument starts a new line unless it follows such a block comment, or
/// follows the function directly and brings its own brackets.
///
/// Fails if and only if the node has fewer than two significant children.
pub fn rule<'a>(ctx: BuildContext, node: &'a Node) -> (res: Result<
    Vec<Directive<'a>>,
    StructuralViolation,
>)
    ensures
        (match res {
            Ok(directives) => has_operands(node) && directives@ == apply_directives(ctx, node),
            Err(_) => !has_operands(node),
        }),
{
    let ghost elements = node.children@;
    let mut children = Children::new(node);
    proof {
        lemma_next_significant(elements, 0);
    }
    let first: ChildView<'a> = match children.next_view() {
        Ok(view) => view,
        Err(_) => {
            return Err(StructuralViolation);
        },
    };
    proof {
        lemma_next_significant(elements, significant(elements, 0) + 1);
    }
    let second: ChildView<'a> = match children.next_view() {
        Ok(view) => view,
        Err(_) => {
            return Err(StructuralViolation);
        },
    };
    proof {
        lemma_next_significant(elements, significant(elements, 1) + 1);
        assert(children.position() == significant(elements, 2));
    }
    let vertical = ctx.vertical || first.has_trailing_comment() || first.has_trivia()
        || second.has_trailing_comment() || second.has_trivia();
    let attached = is_attached(&first.trivia);
    let mut directives: Vec<Directive<'a>> = Vec::new();

    if vertical {
        directives.push(Directive::FormatWide(first.element));
    } else {
        directives.push(Directive::FormatCompact(first.element));
    }

    match first.trailing_comment {
        Some(text) => {
            directives.push(Directive::Space);
            directives.push(Directive::Comment(text));
            directives.push(Directive::NewLine);
            directives.push(Directive::Pad);
        },
        None => {},
    }

    let comments = comment_texts(&first.trivia);
    if attached {
        proof {
            reveal_with_fuel(comments_among, 2);
        }
        directives.push(Directive::Space);
        directives.push(Directive::Comment(comments[0]));
    } else {
        push_on_own_lines(&mut directives, &comments);
    }

    if vertical {
        if attached || (!first.has_trailing_comment() && !first.has_trivia() && may_continue_line(
            second.element.kind(),
        )) {
            directives.push(Directive::Space);
        } else {
            directives.push(Directive::NewLine);
            directives.push(Directive::Pad);
        }
        directives.push(Directive::FormatWide(second.element));
    } else {
        directives.push(Directive::Space);
        directives.push(Directive::FormatCompact(second.element));
    }
    proof {
        assert(directives@ =~= apply_directives(ctx, node));
    }
    Ok(directives)
}

} // verus!
