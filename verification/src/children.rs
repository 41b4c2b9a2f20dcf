//! The children of a node as a rule sees them: the significant elements, and
//! between them the comments and line breaks.
//!
//! Whitespace that holds no line break says nothing about the layout and is
//! passed over in silence.

use crate::directive::texts;
use crate::syntax::comments_of_elements;
use crate::syntax::Element;
use crate::syntax::Kind;
use crate::syntax::Node;
use crate::text::count_newlines;
use crate::text::is_line_comment;
use crate::text::newline_count;
use crate::text::starts_line_comment;
use vstd::prelude::*;

verus! {

/// What may stand between two significant children.
#[derive(Clone, Copy, Debug, PartialEq, Eq)]
pub enum Trivia<'a> {
    /// A comment, with its delimiters.
    Comment(&'a String),
    /// A run of whitespace, by the number of line breaks in it (at least one).
    Newlines(usize),
}

/// A producer was asked for an element and none is left.
#[derive(Clone, Copy, Debug, PartialEq, Eq, Structural)]
pub struct EndOfChildren;

/// The trivia item that `element` stands for, if any.
pub open spec fn as_trivia<'a>(element: &'a Element) -> Option<Trivia<'a>> {
    match element {
        Element::Token(token) => if token.kind == Kind::TokenComment {
            Some(Trivia::Comment(&token.text))
        } else if token.kind == Kind::TokenWhitespace && newline_count(token.text@) > 0 {
            Some(Trivia::Newlines(newline_count(token.text@) as usize))
        } else {
            None
        },
        Element::Node(_) => None,
    }
}

/// The index of the first significant element at or after `from`, or the
/// length of `elements` if there is none.
pub open spec fn next_significant(elements: Seq<Element>, from: int) -> int
    decreases elements.len() - from,
{
    if from >= elements.len() {
        elements.len() as int
    } else if !elements[from].is_trivia() {
        from
    } else {
        next_significant(elements, from + 1)
    }
}

/// The trivia among `elements[from..to]`, in order.
pub open spec fn trivia_between<'a>(elements: Seq<Element>, from: int, to: int) -> Seq<Trivia<'a>>
    decreases to - from,
{
    if to <= from {
        seq![]
    } else {
        match as_trivia(&elements[to - 1]) {
            Some(item) => trivia_between(elements, from, to - 1).push(item),
            None => trivia_between(elements, from, to - 1),
        }
    }
}

/// Some element at or after `from` is a comment.
pub open spec fn any_comment(elements: Seq<Element>, from: int) -> bool {
    exists|i: int| from <= i < elements.len() && #[trigger] elements[i].is_comment()
}

/// Some element at or after `from` is whitespace with a line break.
pub open spec fn any_line_break(elements: Seq<Element>, from: int) -> bool {
    exists|i: int| from <= i < elements.len() && #[trigger] elements[i].is_line_break()
}

/// The index of the significant element number `n` (counted from zero), or
/// the length of `elements` if there are not that many.
pub open spec fn significant(elements: Seq<Element>, n: nat) -> int
    decreases n,
{
    if n == 0 {
        next_significant(elements, 0)
    } else {
        next_significant(elements, significant(elements, (n - 1) as nat) + 1)
    }
}

/// The trivia between the significant element number `n` and the one after
/// it.
pub open spec fn trivia_after<'a>(elements: Seq<Element>, n: nat) -> Seq<Trivia<'a>> {
    trivia_between(elements, significant(elements, n) + 1, significant(elements, n + 1))
}

/// The comments among `trivia`, in order.
pub open spec fn comments_among<'a>(trivia: Seq<Trivia<'a>>) -> Seq<&'a String>
    decreases trivia.len(),
{
    if trivia.len() == 0 {
        seq![]
    } else {
        match trivia.last() {
            Trivia::Comment(text) => comments_among(trivia.drop_last()).push(text),
            Trivia::Newlines(_) => comments_among(trivia.drop_last()),
        }
    }
}

/// The comment that trails an element on its own line: a line comment that
/// comes first among the trivia after the element.
pub open spec fn same_line_comment<'a>(trivia: Seq<Trivia<'a>>) -> Option<&'a String> {
    if trivia.len() > 0 {
        match trivia[0] {
            Trivia::Comment(text) => if is_line_comment(text@) {
                Some(text)
            } else {
                None
            },
            Trivia::Newlines(_) => None,
        }
    } else {
        None
    }
}

/// `trivia` without the line break that ends a line comment before it: if
/// whitespace comes first it counts one line break fewer, and goes when none
/// is left.
pub open spec fn after_line_end<'a>(trivia: Seq<Trivia<'a>>) -> Seq<Trivia<'a>> {
    if trivia.len() > 0 {
        match trivia[0] {
            Trivia::Newlines(count) => if count > 1 {
                seq![Trivia::Newlines((count - 1) as usize)] + trivia.skip(1)
            } else {
                trivia.skip(1)
            },
            Trivia::Comment(_) => trivia,
        }
    } else {
        trivia
    }
}

/// The trivia after an element that do not belong to its line: all of them
/// if no comment trails the element, otherwise what follows that comment and
/// the end of its line.
pub open spec fn later_trivia<'a>(trivia: Seq<Trivia<'a>>) -> Seq<Trivia<'a>> {
    if same_line_comment(trivia) is Some {
        after_line_end(trivia.skip(1))
    } else {
        trivia
    }
}

/// Two sequences of children that are equal but for one place, where both
/// hold a significant element.
pub open spec fn differ_in_one_significant(
    first: Seq<Element>,
    second: Seq<Element>,
    at: int,
) -> bool {
    &&& first.len() == second.len()
    &&& 0 <= at < first.len()
    &&& !first[at].is_trivia()
    &&& !second[at].is_trivia()
    &&& forall|i: int| 0 <= i < first.len() && i != at ==> first[i] == second[i]
}

/// The comments among `trivia`, in order.
pub fn comment_texts<'a>(trivia: &Vec<Trivia<'a>>) -> (comments: Vec<&'a String>)
    ensures
        comments@ == comments_among(trivia@),
{
    let mut comments: Vec<&'a String> = Vec::new();
    let mut i: usize = 0;
    while i < trivia.len()
        invariant
            i <= trivia.len(),
            comments@ == comments_among(trivia@.take(i as int)),
        decreases trivia.len() - i,
    {
        proof {
            assert(trivia@.take(i + 1).drop_last() == trivia@.take(i as int));
        }
        match trivia[i] {
            Trivia::Comment(text) => comments.push(text),
            Trivia::Newlines(_) => {},
        }
        i = i + 1;
    }
    proof {
        assert(trivia@.take(trivia.len() as int) == trivia@);
    }
    comments
}

/// One significant child together with the trivia between it and the next
/// one.
#[derive(Debug, PartialEq, Eq)]
pub struct ChildView<'a> {
    /// The child itself.
    pub element: &'a Element,
    /// The line comment that trails the child on its line, if there is one.
    pub trailing_comment: Option<&'a String>,
    /// The other trivia before the next significant child, in order.
    pub trivia: Vec<Trivia<'a>>,
}

impl<'a> ChildView<'a> {
    /// Tells whether a comment trails the child on its line.
    pub fn has_trailing_comment(&self) -> (b: bool)
        ensures
            b == self.trailing_comment is Some,
    {
        self.trailing_comment.is_some()
    }

    /// Tells whether other trivia follow the child.
    pub fn has_trivia(&self) -> (b: bool)
        ensures
            b == (self.trivia@.len() > 0),
    {
        self.trivia.len() > 0
    }
}

/// Tells the comment that trails an element apart from the trivia after it.
fn split_trailing_comment<'a>(raw: Vec<Trivia<'a>>) -> (res: (Option<&'a String>, Vec<Trivia<'a>>))
    ensures
        res.0 == same_line_comment(raw@),
        res.1@ == later_trivia(raw@),
{
    if raw.len() == 0 {
        return (None, raw);
    }
    let text: &'a String = match raw[0] {
        Trivia::Comment(text) => text,
        Trivia::Newlines(_) => {
            return (None, raw);
        },
    };
    if !starts_line_comment(text.as_str()) {
        return (None, raw);
    }
    let mut trivia: Vec<Trivia<'a>> = Vec::new();
    let mut i: usize = 1;
    if raw.len() > 1 {
        match raw[1] {
            Trivia::Newlines(count) => {
                if count > 1 {
                    trivia.push(Trivia::Newlines(count - 1));
                }
                i = 2;
            },
            Trivia::Comment(_) => {},
        }
    }
    let ghost head = trivia@;
    let ghost start = i as int;
    while i < raw.len()
        invariant
            1 <= start <= i <= raw.len(),
            trivia@ == head + raw@.subrange(start, i as int),
        decreases raw.len() - i,
    {
        trivia.push(raw[i]);
        i = i + 1;
    }
    proof {
        assert(raw@.subrange(start, raw.len() as int) == raw@.skip(1).skip(start - 1));
        assert(trivia@ == later_trivia(raw@));
    }
    (Some(text), trivia)
}

/// Hands out the children of one node from left to right.
pub struct Children<'a> {
    items: &'a Vec<Element>,
    cursor: usize,
}

impl<'a> Children<'a> {
    #[verifier::type_invariant]
    spec fn in_bounds(self) -> bool {
        self.cursor <= self.items@.len()
    }

    /// All children of the node, handed out or not.
    pub closed spec fn elements(self) -> Seq<Element> {
        self.items@
    }

    /// How many children have been passed: the rest is pending.
    pub closed spec fn position(self) -> int {
        self.cursor as int
    }

    /// A producer that has all children of `node` pending.
    pub fn new(node: &'a Node) -> (children: Self)
        ensures
            children.elements() == node.children@,
            children.position() == 0,
    {
        Children { items: &node.children, cursor: 0 }
    }

    /// Tells whether a comment is pending.
    pub fn has_comments(&self) -> (b: bool)
        ensures
            b == any_comment(self.elements(), self.position()),
    {
        proof {
            use_type_invariant(self);
        }
        let mut i: usize = self.cursor;
        while i < self.items.len()
            invariant
                self.cursor <= i <= self.items@.len(),
                forall|j: int| self.cursor <= j < i ==> !self.items@[j].is_comment(),
            decreases self.items@.len() - i,
        {
            if self.items[i].is_comment() {
                return true;
            }
            i = i + 1;
        }
        false
    }

    /// Tells whether a line break is pending.
    pub fn has_newlines(&self) -> (b: bool)
        ensures
            b == any_line_break(self.elements(), self.position()),
    {
        proof {
            use_type_invariant(self);
        }
        let mut i: usize = self.cursor;
        while i < self.items.len()
            invariant
                self.cursor <= i <= self.items@.len(),
                forall|j: int| self.cursor <= j < i ==> !self.items@[j].is_line_break(),
            decreases self.items@.len() - i,
        {
            if self.items[i].is_line_break() {
                return true;
            }
            i = i + 1;
        }
        false
    }

    /// The next significant element. Trivia still pending before it are
    /// passed over.
    pub fn next(&mut self) -> (res: Result<&'a Element, EndOfChildren>)
        ensures
            final(self).elements() == old(self).elements(),
            0 <= old(self).position() <= final(self).position() <= old(self).elements().len(),
            ({
                let elements = old(self).elements();
                let found = next_significant(elements, old(self).position());
                if found < elements.len() {
                    res == Ok::<&Element, EndOfChildren>(&elements[found]) && final(self).position()
                        == found + 1
                } else {
                    res is Err && final(self).position() == elements.len()
                }
            }),
    {
        proof {
            use_type_invariant(&*self);
            lemma_next_significant(self.items@, self.cursor as int);
        }
        let ghost start = self.cursor as int;
        while self.cursor < self.items.len() && self.items[self.cursor].is_trivia()
            invariant
                self.items == old(self).items,
                start <= self.cursor <= self.items@.len(),
                next_significant(self.items@, self.cursor as int) == next_significant(
                    self.items@,
                    start,
                ),
            decreases self.items@.len() - self.cursor,
        {
            self.cursor = self.cursor + 1;
        }
        if self.cursor < self.items.len() {
            let element = &self.items[self.cursor];
            self.cursor = self.cursor + 1;
            Ok(element)
        } else {
            Err(EndOfChildren)
        }
    }

    /// The trivia pending before the next significant element, in order.
    pub fn drain_trivia(&mut self) -> (trivia: Vec<Trivia<'a>>)
        ensures
            final(self).elements() == old(self).elements(),
            0 <= old(self).position() <= final(self).position() <= old(self).elements().len(),
            final(self).position() == next_significant(
                old(self).elements(),
                old(self).position(),
            ),
            trivia@ == trivia_between(
                old(self).elements(),
                old(self).position(),
                final(self).position(),
            ),
    {
        proof {
            use_type_invariant(&*self);
        }
        let ghost start = self.cursor as int;
        let mut trivia: Vec<Trivia<'a>> = Vec::new();
        while self.cursor < self.items.len() && self.items[self.cursor].is_trivia()
            invariant
                self.items == old(self).items,
                start <= self.cursor <= self.items@.len(),
                next_significant(self.items@, self.cursor as int) == next_significant(
                    self.items@,
                    start,
                ),
                trivia@ == trivia_between(self.items@, start, self.cursor as int),
            decreases self.items@.len() - self.cursor,
        {
            match &self.items[self.cursor] {
                Element::Token(token) => {
                    if token.kind == Kind::TokenComment {
                        trivia.push(Trivia::Comment(&token.text));
                    } else {
                        let count: usize = count_newlines(token.text.as_str());
                        if count > 0 {
                            trivia.push(Trivia::Newlines(count));
                        }
                    }
                },
                Element::Node(_) => {},
            }
            self.cursor = self.cursor + 1;
        }
        trivia
    }

    /// The next significant element together with the trivia that follow it.
    pub fn next_view(&mut self) -> (res: Result<ChildView<'a>, EndOfChildren>)
        ensures
            final(self).elements() == old(self).elements(),
            0 <= old(self).position() <= final(self).position() <= old(self).elements().len(),
            ({
                let elements = old(self).elements();
                let found = next_significant(elements, old(self).position());
                let raw = trivia_between(elements, found + 1, final(self).position());
                if found < elements.len() {
                    &&& final(self).position() == next_significant(elements, found + 1)
                    &&& res matches Ok(view)
                    &&& view.element == &elements[found]
                    &&& view.trailing_comment == same_line_comment(raw)
                    &&& view.trivia@ == later_trivia(raw)
                } else {
                    res is Err && final(self).position() == elements.len()
                }
            }),
    {
        let element = match self.next() {
            Ok(element) => element,
            Err(end) => {
                return Err(end);
            },
        };
        let raw = self.drain_trivia();
        let (trailing_comment, trivia) = split_trailing_comment(raw);
        Ok(ChildView { element, trailing_comment, trivia })
    }
}

/// Where the next significant element stands: not before `from`, behind
/// trivia only, and on an element that is no trivia.
pub proof fn lemma_next_significant(elements: Seq<Element>, from: int)
    requires
        0 <= from <= elements.len(),
    ensures
        from <= next_significant(elements, from) <= elements.len(),
        next_significant(elements, from) < elements.len() ==> !elements[next_significant(
            elements,
            from,
        )].is_trivia(),
        forall|i: int| from <= i < next_significant(elements, from) ==> elements[i].is_trivia(),
    decreases elements.len() - from,
{
    if from < elements.len() && elements[from].is_trivia() {
        lemma_next_significant(elements, from + 1);
    }
}

/// Once the significant elements have run out, they stay run out.
pub proof fn lemma_significant_runs_out(elements: Seq<Element>, n: nat, m: nat)
    requires
        n <= m,
        significant(elements, n) >= elements.len(),
    ensures
        significant(elements, m) == elements.len(),
    decreases m,
{
    if n < m {
        lemma_significant_runs_out(elements, n, (m - 1) as nat);
    } else {
        lemma_significant_in_bounds(elements, n);
    }
}

/// A significant element stands inside `elements`, or at its end if there
/// is none.
pub proof fn lemma_significant_in_bounds(elements: Seq<Element>, n: nat)
    ensures
        0 <= significant(elements, n) <= elements.len(),
    decreases n,
{
    if n == 0 {
        lemma_next_significant(elements, 0);
    } else {
        lemma_significant_in_bounds(elements, (n - 1) as nat);
        if significant(elements, (n - 1) as nat) < elements.len() {
            lemma_next_significant(elements, significant(elements, (n - 1) as nat) + 1);
        }
    }
}

/// The comments among two runs of trivia, one after the other.
pub proof fn lemma_comments_among_concat<'a>(first: Seq<Trivia<'a>>, second: Seq<Trivia<'a>>)
    ensures
        comments_among(first + second) == comments_among(first) + comments_among(second),
    decreases second.len(),
{
    if second.len() == 0 {
        assert(first + second =~= first);
    } else {
        lemma_comments_among_concat(first, second.drop_last());
        assert((first + second).drop_last() =~= first + second.drop_last());
    }
}

/// The comments among a single trivia item.
pub proof fn lemma_comments_among_one<'a>(item: Trivia<'a>)
    ensures
        comments_among(seq![item]) == (match item {
            Trivia::Comment(text) => seq![text],
            Trivia::Newlines(_) => Seq::<&'a String>::empty(),
        }),
{
    let one = seq![item];
    assert(one.drop_last() =~= Seq::<Trivia>::empty());
    assert(comments_among(one.drop_last()) =~= seq![]);
    assert(one.last() == item);
    match item {
        Trivia::Comment(text) => {
            assert(comments_among(one) =~= seq![text]);
        },
        Trivia::Newlines(_) => {
            assert(comments_among(one) =~= seq![]);
        },
    }
}

/// Where only trivia stand, the comments in the tree are the comments among
/// the trivia.
pub proof fn lemma_trivia_hold_the_comments(elements: Seq<Element>, from: int, to: int)
    requires
        0 <= from <= to <= elements.len(),
        forall|i: int| from <= i < to ==> elements[i].is_trivia(),
    ensures
        comments_of_elements(elements.subrange(from, to)) == texts(
            comments_among(trivia_between(elements, from, to)),
        ),
    decreases to - from,
{
    if to <= from {
        assert(elements.subrange(from, to) =~= Seq::<Element>::empty());
        assert(texts(comments_among(trivia_between(elements, from, to))) =~= seq![]);
    } else {
        lemma_trivia_hold_the_comments(elements, from, to - 1);
        let range = elements.subrange(from, to);
        assert(range.drop_last() =~= elements.subrange(from, to - 1));
        assert(range.last() == elements[to - 1]);
        assert(elements[to - 1].is_trivia());
        let before = trivia_between(elements, from, to - 1);
        let comments = comments_among(trivia_between(elements, from, to));
        match as_trivia(&elements[to - 1]) {
            Some(item) => {
                assert(trivia_between(elements, from, to) == before.push(item));
                assert(before.push(item) =~= before + seq![item]);
                lemma_comments_among_concat(before, seq![item]);
                lemma_comments_among_one(item);
                match item {
                    Trivia::Comment(text) => {
                        assert(range.last().comments() =~= seq![text@]);
                        assert(texts(comments) =~= texts(comments_among(before)) + seq![text@]);
                    },
                    Trivia::Newlines(_) => {
                        assert(range.last().comments() =~= seq![]);
                        assert(comments =~= comments_among(before));
                    },
                }
            },
            None => {
                assert(range.last().comments() =~= seq![]);
                assert(comments =~= comments_among(before));
            },
        }
        assert(comments_of_elements(range) =~= texts(comments));
    }
}

/// Where no comment stands among the elements, none stands among the
/// trivia.
pub proof fn lemma_no_comment_among_trivia(elements: Seq<Element>, from: int, to: int)
    requires
        0 <= from,
        to <= elements.len(),
        !any_comment(elements, 0),
    ensures
        comments_among(trivia_between(elements, from, to)) == Seq::<&String>::empty(),
    decreases to - from,
{
    if to > from {
        lemma_no_comment_among_trivia(elements, from, to - 1);
        assert(!elements[to - 1].is_comment());
        let before = trivia_between(elements, from, to - 1);
        match as_trivia(&elements[to - 1]) {
            Some(item) => {
                assert(before.push(item).drop_last() =~= before);
            },
            None => {},
        }
    }
}

/// A comment that trails an element and the trivia after it are, between
/// them, all the comments that follow the element.
pub proof fn lemma_later_trivia_comments<'a>(trivia: Seq<Trivia<'a>>)
    ensures
        comments_among(trivia) == (match same_line_comment(trivia) {
            Some(text) => seq![text],
            None => seq![],
        }) + comments_among(later_trivia(trivia)),
{
    if same_line_comment(trivia) is Some {
        let rest = trivia.skip(1);
        assert(trivia =~= seq![trivia[0]] + rest);
        lemma_comments_among_concat(seq![trivia[0]], rest);
        lemma_comments_among_one(trivia[0]);
        if rest.len() > 0 {
            assert(rest =~= seq![rest[0]] + rest.skip(1));
            lemma_comments_among_concat(seq![rest[0]], rest.skip(1));
            lemma_comments_among_one(rest[0]);
            match rest[0] {
                Trivia::Newlines(count) => {
                    if count > 1 {
                        let fewer = Trivia::Newlines((count - 1) as usize);
                        lemma_comments_among_concat(seq![fewer], rest.skip(1));
                        lemma_comments_among_one(fewer);
                    }
                    assert(comments_among(rest) =~= comments_among(later_trivia(trivia)));
                },
                Trivia::Comment(_) => {},
            }
        }
    } else {
        assert(comments_among(trivia) =~= Seq::<&String>::empty() + comments_among(trivia));
    }
}

/// Children that differ in one significant element have their significant
/// elements at the same places.
pub proof fn lemma_same_next_significant(
    first: Seq<Element>,
    second: Seq<Element>,
    at: int,
    from: int,
)
    requires
        differ_in_one_significant(first, second, at),
        0 <= from,
    ensures
        next_significant(first, from) == next_significant(second, from),
    decreases first.len() - from,
{
    if from < first.len() && first[from].is_trivia() {
        lemma_same_next_significant(first, second, at, from + 1);
    }
}

/// Children that differ in one significant element have their significant
/// elements at the same places.
pub proof fn lemma_same_significant(first: Seq<Element>, second: Seq<Element>, at: int, n: nat)
    requires
        differ_in_one_significant(first, second, at),
    ensures
        significant(first, n) == significant(second, n),
    decreases n,
{
    if n == 0 {
        lemma_same_next_significant(first, second, at, 0);
    } else {
        lemma_same_significant(first, second, at, (n - 1) as nat);
        lemma_significant_in_bounds(first, (n - 1) as nat);
        lemma_same_next_significant(first, second, at, significant(first, (n - 1) as nat) + 1);
    }
}

/// Children that differ in one significant element have the same trivia.
pub proof fn lemma_same_trivia(
    first: Seq<Element>,
    second: Seq<Element>,
    at: int,
    from: int,
    to: int,
)
    requires
        differ_in_one_significant(first, second, at),
        0 <= from,
        to <= first.len(),
    ensures
        trivia_between(first, from, to) == trivia_between(second, from, to),
    decreases to - from,
{
    if to > from {
        lemma_same_trivia(first, second, at, from, to - 1);
    }
}

/// Children that differ in one significant element have the same trivia
/// after each significant element, and hold a comment or a line break
/// together or not at all.
pub proof fn lemma_same_surroundings(first: Seq<Element>, second: Seq<Element>, at: int, n: nat)
    requires
        differ_in_one_significant(first, second, at),
    ensures
        trivia_after(first, n) == trivia_after(second, n),
        any_comment(first, 0) == any_comment(second, 0),
        any_line_break(first, 0) == any_line_break(second, 0),
{
    lemma_same_significant(first, second, at, n);
    lemma_same_significant(first, second, at, n + 1);
    lemma_significant_in_bounds(first, n);
    lemma_significant_in_bounds(first, n + 1);
    lemma_same_trivia(first, second, at, significant(first, n) + 1, significant(first, n + 1));
    if any_comment(first, 0) {
        let i = choose|i: int| 0 <= i < first.len() && #[trigger] first[i].is_comment();
        assert(second[i].is_comment());
    }
    if any_comment(second, 0) {
        let i = choose|i: int| 0 <= i < second.len() && #[trigger] second[i].is_comment();
        assert(first[i].is_comment());
    }
    if any_line_break(first, 0) {
        let i = choose|i: int| 0 <= i < first.len() && #[trigger] first[i].is_line_break();
        assert(second[i].is_line_break());
    }
    if any_line_break(second, 0) {
        let i = choose|i: int| 0 <= i < second.len() && #[trigger] second[i].is_line_break();
        assert(first[i].is_line_break());
    }
}

} // verus!
