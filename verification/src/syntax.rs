//! The concrete syntax tree that the rules read.
//!
//! A tree keeps every token of the source, comments and whitespace included.
//! It is built once by a parser and never changed afterwards: the rules only
//! borrow from it.

use crate::text::count_newlines;
use crate::text::newline_count;
use vstd::prelude::*;

verus! {

/// The kind of a token or of a node.
#[derive(Clone, Copy, Debug, PartialEq, Eq, Hash, Structural)]
pub enum Kind {
    TokenComment,
    TokenError,
    TokenWhitespace,
    TokenAssert,
    TokenElse,
    TokenIf,
    TokenIn,
    TokenInherit,
    TokenLet,
    TokenRec,
    TokenThen,
    TokenWith,
    TokenCurlyBOpen,
    TokenCurlyBClose,
    TokenSquareBOpen,
    TokenSquareBClose,
    TokenAssign,
    TokenAt,
    TokenColon,
    TokenComma,
    TokenDot,
    TokenEllipsis,
    TokenQuestion,
    TokenSemicolon,
    TokenParenOpen,
    TokenParenClose,
    TokenConcat,
    TokenInvert,
    TokenUpdate,
    TokenAdd,
    TokenSub,
    TokenMul,
    TokenDiv,
    TokenAnd,
    TokenEqual,
    TokenImplication,
    TokenLess,
    TokenLessOrEq,
    TokenMore,
    TokenMoreOrEq,
    TokenNotEqual,
    TokenOr,
    TokenDynamicEnd,
    TokenDynamicStart,
    TokenFloat,
    TokenIdent,
    TokenInteger,
    TokenInterpolEnd,
    TokenInterpolStart,
    TokenPath,
    TokenUri,
    TokenStringContent,
    TokenStringEnd,
    TokenStringStart,
    NodeApply,
    NodeAssert,
    NodeKey,
    NodeDynamic,
    NodeError,
    NodeIdent,
    NodeIfElse,
    NodeSelect,
    NodeInherit,
    NodeInheritFrom,
    NodeString,
    NodeStringInterpol,
    NodeLambda,
    NodeLegacyLet,
    NodeLetIn,
    NodeList,
    NodeBinOp,
    NodeOrDefault,
    NodeParen,
    NodePattern,
    NodePatBind,
    NodePatEntry,
    NodeRoot,
    NodeAttrSet,
    NodeKeyValue,
    NodeUnaryOp,
    NodeLiteral,
    NodeWith,
    NodePathWithInterpol,
}

impl Kind {
    /// The kinds of tokens, as opposed to those of nodes.
    pub open spec fn is_token(self) -> bool {
        !(self is NodeApply || self is NodeAssert || self is NodeKey || self is NodeDynamic
            || self is NodeError || self is NodeIdent || self is NodeIfElse || self is NodeSelect
            || self is NodeInherit || self is NodeInheritFrom || self is NodeString
            || self is NodeStringInterpol || self is NodeLambda || self is NodeLegacyLet
            || self is NodeLetIn || self is NodeList || self is NodeBinOp || self is NodeOrDefault
            || self is NodeParen || self is NodePattern || self is NodePatBind
            || self is NodePatEntry || self is NodeRoot || self is NodeAttrSet
            || self is NodeKeyValue || self is NodeUnaryOp || self is NodeLiteral
            || self is NodeWith || self is NodePathWithInterpol)
    }
}

/// A leaf of the tree: a kind and the source text it covers.
#[derive(Clone, Debug, PartialEq, Eq)]
pub struct Token {
    pub kind: Kind,
    pub text: String,
}

/// An inner node of the tree: a kind and the children in source order.
#[derive(Debug, PartialEq, Eq)]
pub struct Node {
    pub kind: Kind,
    pub children: Vec<Element>,
}

/// A node or a token.
#[derive(Debug, PartialEq, Eq)]
pub enum Element {
    Node(Node),
    Token(Token),
}

impl Element {
    pub open spec fn spec_kind(&self) -> Kind {
        match self {
            Element::Node(node) => node.kind,
            Element::Token(token) => token.kind,
        }
    }

    /// The kind of this element.
    #[verifier::when_used_as_spec(spec_kind)]
    pub fn kind(&self) -> (kind: Kind)
        ensures
            kind == self.spec_kind(),
    {
        match self {
            Element::Node(node) => node.kind,
            Element::Token(token) => token.kind,
        }
    }

    pub open spec fn spec_is_comment(&self) -> bool {
        self matches Element::Token(token) && token.kind == Kind::TokenComment
    }

    /// A comment token.
    #[verifier::when_used_as_spec(spec_is_comment)]
    pub fn is_comment(&self) -> (b: bool)
        ensures
            b == self.spec_is_comment(),
    {
        match self {
            Element::Node(_) => false,
            Element::Token(token) => token.kind == Kind::TokenComment,
        }
    }

    pub open spec fn spec_is_whitespace(&self) -> bool {
        self matches Element::Token(token) && token.kind == Kind::TokenWhitespace
    }

    /// A whitespace token.
    #[verifier::when_used_as_spec(spec_is_whitespace)]
    pub fn is_whitespace(&self) -> (b: bool)
        ensures
            b == self.spec_is_whitespace(),
    {
        match self {
            Element::Node(_) => false,
            Element::Token(token) => token.kind == Kind::TokenWhitespace,
        }
    }

    pub open spec fn spec_is_trivia(&self) -> bool {
        self.spec_is_comment() || self.spec_is_whitespace()
    }

    /// A comment or a run of whitespace: what stands between the significant
    /// children of a node.
    #[verifier::when_used_as_spec(spec_is_trivia)]
    pub fn is_trivia(&self) -> (b: bool)
        ensures
            b == self.spec_is_trivia(),
    {
        self.is_comment() || self.is_whitespace()
    }

    pub open spec fn spec_is_line_break(&self) -> bool {
        self matches Element::Token(token) && token.kind == Kind::TokenWhitespace && newline_count(
            token.text@,
        ) > 0
    }

    /// A run of whitespace that holds at least one line break.
    #[verifier::when_used_as_spec(spec_is_line_break)]
    pub fn is_line_break(&self) -> (b: bool)
        ensures
            b == self.spec_is_line_break(),
    {
        match self {
            Element::Node(_) => false,
            Element::Token(token) => token.kind == Kind::TokenWhitespace && count_newlines(
                token.text.as_str(),
            ) > 0,
        }
    }

    /// The tree is one that a parser builds: tokens have the kinds of tokens
    /// and nodes the kinds of nodes, and a parenthesized node opens with the
    /// token `(` and closes with the token `)`.
    pub open spec fn is_well_formed(self) -> bool
        decreases self,
    {
        match self {
            Element::Token(token) => token.kind.is_token(),
            Element::Node(node) => {
                &&& !node.kind.is_token()
                &&& node.kind == Kind::NodeParen ==> {
                    &&& node.children@.len() >= 2
                    &&& node.children@.first() is Token
                    &&& node.children@.first().spec_kind() == Kind::TokenParenOpen
                    &&& node.children@.last() is Token
                    &&& node.children@.last().spec_kind() == Kind::TokenParenClose
                }
                &&& forall|i: int|
                    0 <= i < node.children@.len() ==> (#[trigger] node.children@[i]).is_well_formed()
            },
        }
    }

    /// The texts of all comments in this subtree, in source order.
    pub open spec fn comments(self) -> Seq<Seq<char>>
        decreases self,
    {
        match self {
            Element::Token(token) => if token.kind == Kind::TokenComment {
                seq![token.text@]
            } else {
                seq![]
            },
            Element::Node(node) => comments_of_elements(node.children@),
        }
    }
}

/// The texts of all comments below `elements`, in source order.
pub open spec fn comments_of_elements(elements: Seq<Element>) -> Seq<Seq<char>>
    decreases elements,
{
    if elements.len() == 0 {
        seq![]
    } else {
        comments_of_elements(elements.drop_last()) + elements.last().comments()
    }
}

/// Every element of `elements` is well-formed.
pub open spec fn all_well_formed(elements: Seq<Element>) -> bool {
    forall|i: int| 0 <= i < elements.len() ==> (#[trigger] elements[i]).is_well_formed()
}

/// The comments below two sequences of elements, one after the other, are
/// those below the first, then those below the second.
pub proof fn lemma_comments_concat(first: Seq<Element>, second: Seq<Element>)
    ensures
        comments_of_elements(first + second) == comments_of_elements(first) + comments_of_elements(
            second,
        ),
    decreases second.len(),
{
    if second.len() == 0 {
        assert(first + second =~= first);
    } else {
        lemma_comments_concat(first, second.drop_last());
        assert((first + second).drop_last() =~= first + second.drop_last());
    }
}

/// The comments below `elements[from..to]` are those before `elements[at]`,
/// those of `elements[at]`, and those after it.
pub proof fn lemma_comments_split(elements: Seq<Element>, from: int, at: int, to: int)
    requires
        0 <= from <= at < to <= elements.len(),
    ensures
        comments_of_elements(elements.subrange(from, to)) == comments_of_elements(
            elements.subrange(from, at),
        ) + elements[at].comments() + comments_of_elements(elements.subrange(at + 1, to)),
{
    let before = elements.subrange(from, at);
    let one = seq![elements[at]];
    let after = elements.subrange(at + 1, to);
    assert(elements.subrange(from, to) =~= before + one + after);
    lemma_comments_concat(before + one, after);
    lemma_comments_concat(before, one);
    assert(one.drop_last() =~= Seq::<Element>::empty());
    assert(comments_of_elements(one.drop_last()) =~= seq![]);
    assert(one.last() == elements[at]);
    assert(comments_of_elements(one) =~= elements[at].comments());
}

} // verus!
