//! The line structure of a byte string.
//!
//! A line ends at a line feed. The line feed is no part of the line, and
//! neither is one carriage return that stands right before it. What follows
//! the last line feed is a line of its own unless it is empty.

use vstd::prelude::*;
use vstd::utf8::*;

verus! {

/// The byte that ends a line.
pub const LF: u8 = 10;

/// The byte that is dropped from a line's end where the line feed follows it.
pub const CR: u8 = 13;

/// The number of bytes of `text` that stand before its first line feed: the
/// whole length where `text` holds no line feed.
pub open spec fn first_newline(text: Seq<u8>) -> int
    decreases text.len(),
{
    if text.len() == 0 || text[0] == LF {
        0
    } else {
        1 + first_newline(text.drop_first())
    }
}

/// `line` without one trailing carriage return.
pub open spec fn chomp(line: Seq<u8>) -> Seq<u8> {
    if line.len() > 0 && line.last() == CR {
        line.drop_last()
    } else {
        line
    }
}

/// The lines of `text`, in order. Where `broken` holds, the text broke off
/// before its end, and what follows its last line feed is no line.
pub open spec fn lines_of(text: Seq<u8>, broken: bool) -> Seq<Seq<u8>>
    decreases text.len(),
{
    let n = first_newline(text);
    if text.len() == 0 {
        Seq::empty()
    } else if 0 <= n < text.len() {
        seq![chomp(text.take(n))] + lines_of(text.skip(n + 1), broken)
    } else if broken {
        Seq::empty()
    } else {
        seq![text]
    }
}

/// The bytes that print `lines`: each line followed by one line feed.
pub open spec fn rendered(lines: Seq<Seq<u8>>) -> Seq<u8>
    decreases lines.len(),
{
    if lines.len() == 0 {
        Seq::empty()
    } else {
        rendered(lines.drop_last()) + lines.last() + seq![LF]
    }
}

/// The number of line feeds in `text`.
pub open spec fn newlines(text: Seq<u8>) -> nat
    decreases text.len(),
{
    if text.len() == 0 {
        0
    } else if text.last() == LF {
        newlines(text.drop_last()) + 1
    } else {
        newlines(text.drop_last())
    }
}

/// `text` with its line ends made alike: a carriage return that stands
/// right before a line feed is left out, and a line feed is added where the
/// last line has none.
pub open spec fn normalized(text: Seq<u8>) -> Seq<u8>
    decreases text.len(),
{
    if text.len() == 0 {
        Seq::empty()
    } else if text.len() >= 2 && text[0] == CR && text[1] == LF {
        seq![LF] + normalized(text.skip(2))
    } else if text.len() == 1 && text[0] != LF {
        seq![text[0], LF]
    } else {
        seq![text[0]] + normalized(text.skip(1))
    }
}

/// The number of lines at the head of `lines` that are UTF-8: the index of
/// the first line that is not, or the number of lines where every line is.
pub open spec fn first_invalid(lines: Seq<Seq<u8>>) -> int
    decreases lines.len(),
{
    if lines.len() == 0 || !valid_utf8(lines[0]) {
        0
    } else {
        1 + first_invalid(lines.drop_first())
    }
}

/// `first_newline` stays inside the text, no line feed stands before it, and
/// a line feed stands at it unless it is the text's length.
pub proof fn lemma_first_newline(text: Seq<u8>)
    ensures
        0 <= first_newline(text) <= text.len(),
        forall|i: int| 0 <= i < first_newline(text) ==> text[i] != LF,
        first_newline(text) < text.len() ==> text[first_newline(text)] == LF,
    decreases text.len(),
{
    if text.len() == 0 || text[0] == LF {
    } else {
        let rest = text.drop_first();
        lemma_first_newline(rest);
        assert forall|i: int| 0 <= i < first_newline(text) implies text[i] != LF by {
            if i > 0 {
                assert(text[i] == rest[i - 1]);
            }
        }
        if first_newline(text) < text.len() {
            assert(text[first_newline(text)] == rest[first_newline(rest)]);
        }
    }
}

/// The only index with the properties of `lemma_first_newline` is
/// `first_newline` itself.
pub proof fn lemma_first_newline_is(text: Seq<u8>, n: int)
    requires
        0 <= n <= text.len(),
        forall|i: int| 0 <= i < n ==> text[i] != LF,
        n < text.len() ==> text[n] == LF,
    ensures
        first_newline(text) == n,
{
    lemma_first_newline(text);
    let m = first_newline(text);
    if m < n {
        assert(text[m] == LF);
    } else if n < m {
        assert(text[n] == LF);
    }
}

/// `first_invalid` stays inside the lines, every line before it is UTF-8,
/// and the line at it is not, unless it is the number of lines.
pub proof fn lemma_first_invalid(lines: Seq<Seq<u8>>)
    ensures
        0 <= first_invalid(lines) <= lines.len(),
        forall|i: int| 0 <= i < first_invalid(lines) ==> valid_utf8(#[trigger] lines[i]),
        first_invalid(lines) < lines.len() ==> !valid_utf8(lines[first_invalid(lines)]),
    decreases lines.len(),
{
    if lines.len() == 0 || !valid_utf8(lines[0]) {
    } else {
        let rest = lines.drop_first();
        lemma_first_invalid(rest);
        assert forall|i: int| 0 <= i < first_invalid(lines) implies valid_utf8(
            #[trigger] lines[i],
        ) by {
            if i > 0 {
                assert(lines[i] == rest[i - 1]);
            }
        }
        if first_invalid(lines) < lines.len() {
            assert(lines[first_invalid(lines)] == rest[first_invalid(rest)]);
        }
    }
}

/// The only index with the properties of `lemma_first_invalid` is
/// `first_invalid` itself.
pub proof fn lemma_first_invalid_is(lines: Seq<Seq<u8>>, k: int)
    requires
        0 <= k <= lines.len(),
        forall|i: int| 0 <= i < k ==> valid_utf8(#[trigger] lines[i]),
        k < lines.len() ==> !valid_utf8(lines[k]),
    ensures
        first_invalid(lines) == k,
{
    lemma_first_invalid(lines);
}

/// Finds the end of the line that starts at `from`: the index of the next
/// line feed, or the length of `text` where none follows.
pub fn find_newline(text: &[u8], from: usize) -> (end: usize)
    requires
        from <= text@.len(),
    ensures
        end == from + first_newline(text@.skip(from as int)),
        from <= end <= text@.len(),
{
    let mut i: usize = from;
    while i < text.len() && text[i] != LF
        invariant
            from <= i <= text@.len(),
            forall|j: int| from <= j < i ==> text@[j] != LF,
        decreases text@.len() - i,
    {
        i = i + 1;
    }
    proof {
        lemma_first_newline_is(text@.skip(from as int), i - from);
    }
    i
}

} // verus!
