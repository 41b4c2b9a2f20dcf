//! What the rules need to know about the text of a comment or of a run of
//! whitespace.

use vstd::prelude::*;

verus! {

/// Number of line breaks in `text`.
pub open spec fn newline_count(text: Seq<char>) -> nat
    decreases text.len(),
{
    if text.len() == 0 {
        0
    } else {
        newline_count(text.drop_last()) + if text.last() == '\n' {
            1nat
        } else {
            0nat
        }
    }
}

/// Number of lines that `text` spans: one more than its line breaks.
pub open spec fn line_count(text: Seq<char>) -> nat {
    newline_count(text) + 1
}

/// A line comment: the text opens with `#`.
pub open spec fn is_line_comment(text: Seq<char>) -> bool {
    text.len() >= 1 && text[0] == '#'
}

/// A block comment: the text opens with `/*` and closes with `*/`.
pub open spec fn is_block_comment(text: Seq<char>) -> bool {
    &&& text.len() >= 2
    &&& text[0] == '/'
    &&& text[1] == '*'
    &&& text[text.len() - 2] == '*'
    &&& text[text.len() - 1] == '/'
}

/// A comment that may share a line with the code around it: a block comment
/// that spans exactly three lines.
pub open spec fn is_inline_attachable(text: Seq<char>) -> bool {
    is_block_comment(text) && line_count(text) == 3
}

/// Counts the line breaks in `text`.
pub fn count_newlines(text: &str) -> (count: usize)
    ensures
        count == newline_count(text@),
{
    let len: usize = text.unicode_len();
    let mut count: usize = 0;
    for c in it: text.chars()
        invariant
            it.seq() == text@,
            len == text@.len(),
            count == newline_count(text@.take(it.index() as int)),
            count <= it.index(),
    {
        proof {
            assert(text@.take(it.index() + 1).drop_last() == text@.take(it.index() as int));
        }
        if c == '\n' {
            count = count + 1;
        }
    }
    proof {
        assert(text@.take(text@.len() as int) == text@);
    }
    count
}

/// Tells whether `text` opens with `#`.
pub fn starts_line_comment(text: &str) -> (b: bool)
    ensures
        b == is_line_comment(text@),
{
    let len: usize = text.unicode_len();
    len >= 1 && text.get_char(0) == '#'
}

/// Tells whether `text` is delimited as a block comment.
pub fn is_block_delimited(text: &str) -> (b: bool)
    ensures
        b == is_block_comment(text@),
{
    let len: usize = text.unicode_len();
    len >= 2 && text.get_char(0) == '/' && text.get_char(1) == '*' && text.get_char(len - 2) == '*'
        && text.get_char(len - 1) == '/'
}

/// Tells whether a comment with this text may stay on the line of the code
/// before it.
pub fn stays_inline(text: &str) -> (b: bool)
    ensures
        b == is_inline_attachable(text@),
{
    is_block_delimited(text) && count_newlines(text) == 2
}

} // verus!
