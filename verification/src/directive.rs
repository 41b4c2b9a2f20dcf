//! The vocabulary in which a rule answers: primitive layout directives, the
//! context a rule is built in, and the one way a rule can fail.

use crate::syntax::Element;
use vstd::prelude::*;

verus! {

/// One primitive layout instruction. A renderer replays a sequence of them in
/// order, exactly once.
#[derive(Clone, Copy, Debug, PartialEq, Eq)]
pub enum Directive<'a> {
    /// Format the element on one line.
    FormatCompact(&'a Element),
    /// Format the element and let it spread over several lines if it needs to.
    FormatWide(&'a Element),
    /// Write one space.
    Space,
    /// Break the line.
    NewLine,
    /// Write the indentation of the current depth.
    Pad,
    /// Deepen the indentation that later `Pad`s write.
    Indent,
    /// Undo one `Indent`.
    Dedent,
    /// Write the text of a comment as it stands.
    Comment(&'a String),
}

/// What a rule inherits from the rule that formats the enclosing node. It is
/// passed by value: a rule that wants its children to see something else
/// builds a new context, so siblings never see each other's changes.
#[derive(Clone, Copy, Debug, PartialEq, Eq, Structural)]
pub struct BuildContext {
    /// An enclosing node already spreads over several lines.
    pub vertical: bool,
    /// The indentation depth in effect.
    pub indent: usize,
}

impl BuildContext {
    /// This context made vertical, at the same depth.
    pub open spec fn made_vertical(self) -> BuildContext {
        BuildContext { vertical: true, indent: self.indent }
    }
}

/// The node does not have the children that its kind promises. No layout can
/// be given for it, and the whole formatting operation has to stop.
#[derive(Clone, Copy, Debug, PartialEq, Eq, Structural)]
pub struct StructuralViolation;

/// `FormatWide` in a vertical layout, `FormatCompact` in a horizontal one.
pub open spec fn format_as<'a>(vertical: bool, element: &'a Element) -> Directive<'a> {
    if vertical {
        Directive::FormatWide(element)
    } else {
        Directive::FormatCompact(element)
    }
}

/// Each comment on a new line of its own: `NewLine`, `Pad`, `Comment`.
pub open spec fn on_own_lines<'a>(comments: Seq<&'a String>) -> Seq<Directive<'a>>
    decreases comments.len(),
{
    if comments.len() == 0 {
        seq![]
    } else {
        on_own_lines(comments.drop_last()) + seq![
            Directive::NewLine,
            Directive::Pad,
            Directive::Comment(comments.last()),
        ]
    }
}

impl<'a> Directive<'a> {
    /// The texts of the comments that replaying this directive writes, in
    /// order: its own text for a `Comment`, all comments of the element for a
    /// `FormatCompact` or `FormatWide`.
    pub open spec fn comments(self) -> Seq<Seq<char>> {
        match self {
            Directive::Comment(text) => seq![text@],
            Directive::FormatCompact(element) => element.comments(),
            Directive::FormatWide(element) => element.comments(),
            _ => seq![],
        }
    }

    /// By how much replaying this directive changes the indentation depth.
    pub open spec fn depth_change(self) -> int {
        match self {
            Directive::Indent => 1,
            Directive::Dedent => -1,
            _ => 0,
        }
    }
}

/// The texts of the comments that replaying `directives` writes, in order.
pub open spec fn comments_written(directives: Seq<Directive>) -> Seq<Seq<char>>
    decreases directives.len(),
{
    if directives.len() == 0 {
        seq![]
    } else {
        comments_written(directives.drop_last()) + directives.last().comments()
    }
}

/// The indentation depth after replaying `directives` from depth `base`.
pub open spec fn depth_after(directives: Seq<Directive>, base: int) -> int
    decreases directives.len(),
{
    if directives.len() == 0 {
        base
    } else {
        depth_after(directives.drop_last(), base) + directives.last().depth_change()
    }
}

/// The number of `Indent`s among `directives`.
pub open spec fn indent_count(directives: Seq<Directive>) -> nat
    decreases directives.len(),
{
    if directives.len() == 0 {
        0
    } else {
        indent_count(directives.drop_last()) + if directives.last() is Indent {
            1nat
        } else {
            0nat
        }
    }
}

/// The number of `Dedent`s among `directives`.
pub open spec fn dedent_count(directives: Seq<Directive>) -> nat
    decreases directives.len(),
{
    if directives.len() == 0 {
        0
    } else {
        dedent_count(directives.drop_last()) + if directives.last() is Dedent {
            1nat
        } else {
            0nat
        }
    }
}

/// No directive among `directives` changes the indentation depth.
pub open spec fn keeps_depth(directives: Seq<Directive>) -> bool {
    forall|i: int| 0 <= i < directives.len() ==> (#[trigger] directives[i]).depth_change() == 0
}

/// The texts of `comments`.
pub open spec fn texts(comments: Seq<&String>) -> Seq<Seq<char>> {
    comments.map_values(|text: &String| text@)
}

/// Appends to `out` the directives that put each comment on a line of its own.
pub fn push_on_own_lines<'a>(out: &mut Vec<Directive<'a>>, comments: &Vec<&'a String>)
    ensures
        final(out)@ == old(out)@ + on_own_lines(comments@),
{
    let mut i: usize = 0;
    while i < comments.len()
        invariant
            i <= comments.len(),
            out@ == old(out)@ + on_own_lines(comments@.take(i as int)),
        decreases comments.len() - i,
    {
        proof {
            assert(comments@.take(i + 1).drop_last() == comments@.take(i as int));
        }
        out.push(Directive::NewLine);
        out.push(Directive::Pad);
        out.push(Directive::Comment(comments[i]));
        i = i + 1;
    }
    proof {
        assert(comments@.take(comments.len() as int) == comments@);
    }
}

/// Replaying two sequences one after the other writes the comments of the
/// first, then those of the second.
pub proof fn lemma_comments_written_concat(first: Seq<Directive>, second: Seq<Directive>)
    ensures
        comments_written(first + second) == comments_written(first) + comments_written(second),
    decreases second.len(),
{
    if second.len() == 0 {
        assert(first + second =~= first);
    } else {
        lemma_comments_written_concat(first, second.drop_last());
        assert((first + second).drop_last() =~= first + second.drop_last());
    }
}

/// Replaying a single directive writes its comments.
pub proof fn lemma_comments_written_one(directive: Directive)
    ensures
        comments_written(seq![directive]) == directive.comments(),
{
    let one = seq![directive];
    assert(one.drop_last() =~= Seq::<Directive>::empty());
    assert(comments_written(one.drop_last()) =~= seq![]);
    assert(one.last() == directive);
    assert(comments_written(one) =~= directive.comments());
}

/// Directives that are neither comments nor elements write no comment.
pub proof fn lemma_writes_no_comment(directives: Seq<Directive>)
    requires
        forall|i: int|
            0 <= i < directives.len() ==> (#[trigger] directives[i]).comments() == Seq::<
                Seq<char>,
            >::empty(),
    ensures
        comments_written(directives) == Seq::<Seq<char>>::empty(),
    decreases directives.len(),
{
    if directives.len() > 0 {
        assert(directives.last() == directives[directives.len() - 1]);
        lemma_writes_no_comment(directives.drop_last());
    }
}

/// Replaying two sequences one after the other starts the second at the
/// depth that the first has reached, and counts the `Indent`s and `Dedent`s
/// of both.
pub proof fn lemma_depth_concat(first: Seq<Directive>, second: Seq<Directive>, base: int)
    ensures
        depth_after(first + second, base) == depth_after(second, depth_after(first, base)),
        depth_after(second, base) == base + depth_after(second, 0),
        indent_count(first + second) == indent_count(first) + indent_count(second),
        dedent_count(first + second) == dedent_count(first) + dedent_count(second),
    decreases second.len(),
{
    if second.len() == 0 {
        assert(first + second =~= first);
    } else {
        lemma_depth_concat(first, second.drop_last(), base);
        lemma_depth_concat(first, second.drop_last(), depth_after(first, base));
        assert((first + second).drop_last() =~= first + second.drop_last());
    }
}

/// Directives that do not change the depth leave it where it was, and hold
/// no `Indent` and no `Dedent`.
pub proof fn lemma_keeps_depth(directives: Seq<Directive>, base: int)
    requires
        keeps_depth(directives),
    ensures
        depth_after(directives, base) == base,
        indent_count(directives) == 0,
        dedent_count(directives) == 0,
    decreases directives.len(),
{
    if directives.len() > 0 {
        assert(directives.last() == directives[directives.len() - 1]);
        lemma_keeps_depth(directives.drop_last(), base);
    }
}

/// Comments on lines of their own are written in order, and writing them
/// does not change the depth.
pub proof fn lemma_on_own_lines(comments: Seq<&String>)
    ensures
        comments_written(on_own_lines(comments)) == texts(comments),
        keeps_depth(on_own_lines(comments)),
        on_own_lines(comments).len() == 3 * comments.len(),
    decreases comments.len(),
{
    if comments.len() == 0 {
        assert(texts(comments) =~= seq![]);
    } else {
        let last = seq![
            Directive::NewLine,
            Directive::Pad,
            Directive::Comment(comments.last()),
        ];
        lemma_on_own_lines(comments.drop_last());
        lemma_comments_written_concat(on_own_lines(comments.drop_last()), last);
        reveal_with_fuel(comments_written, 4);
        assert(comments_written(last) =~= seq![comments.last()@]);
        assert(texts(comments) =~= texts(comments.drop_last()) + seq![comments.last()@]);
    }
}

} // verus!
