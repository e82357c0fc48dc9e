//! What holds of the lines of every text.

use crate::text::{
    chomp, first_newline, lemma_first_newline, lemma_first_newline_is, lines_of, newlines,
    normalized, rendered, CR, LF,
};
use vstd::prelude::*;
use vstd::utf8::*;

verus! {

/// No line holds a line feed.
pub proof fn lemma_lines_hold_no_newline(text: Seq<u8>, broken: bool)
    ensures
        forall|i: int, j: int|
            0 <= i < lines_of(text, broken).len() && 0 <= j < lines_of(text, broken)[i].len()
                ==> #[trigger] lines_of(text, broken)[i][j] != LF,
    decreases text.len(),
{
    let n = first_newline(text);
    let lines = lines_of(text, broken);
    lemma_first_newline(text);
    if text.len() > 0 && n < text.len() {
        let more = lines_of(text.skip(n + 1), broken);
        lemma_lines_hold_no_newline(text.skip(n + 1), broken);
        assert forall|i: int, j: int| 0 <= i < lines.len() && 0 <= j < lines[i].len() implies
            #[trigger] lines[i][j] != LF by {
            if i == 0 {
                assert(lines[0][j] == text[j]);
            } else {
                assert(lines[i] == more[i - 1]);
            }
        }
    }
}

/// The lines of a text that is UTF-8 are UTF-8.
pub proof fn lemma_utf8_text_has_utf8_lines(text: Seq<u8>, broken: bool)
    requires
        valid_utf8(text),
    ensures
        forall|i: int|
            0 <= i < lines_of(text, broken).len() ==> valid_utf8(
                #[trigger] lines_of(text, broken)[i],
            ),
    decreases text.len(),
{
    let n = first_newline(text);
    lemma_first_newline(text);
    if text.len() > 0 && n < text.len() {
        // The line feed is a character of its own, so the text can be cut
        // before it and after it.
        let head = text.take(n);
        let rest = text.skip(n + 1);
        is_char_boundary_iff_not_is_continuation_byte(text, n);
        valid_utf8_split(text, n);
        assert(pop_first_scalar(text.subrange(n, text.len() as int)) =~= rest);
        if head.len() > 0 && head.last() == CR {
            is_char_boundary_iff_not_is_continuation_byte(head, head.len() - 1);
            valid_utf8_split(head, head.len() - 1);
        }
        assert(valid_utf8(chomp(head)));
        lemma_utf8_text_has_utf8_lines(rest, broken);
        let lines = lines_of(text, broken);
        let more = lines_of(rest, broken);
        assert forall|i: int| 0 <= i < lines.len() implies valid_utf8(#[trigger] lines[i]) by {
            if i > 0 {
                assert(lines[i] == more[i - 1]);
            }
        }
    }
}

/// Where a text ends with a line feed, or is empty, the lines of what
/// follows it start anew: the lines of the two texts joined are the lines of
/// the first and then the lines of the second.
pub proof fn lemma_lines_of_joined(first: Seq<u8>, second: Seq<u8>, broken: bool)
    requires
        first.len() == 0 || first.last() == LF,
    ensures
        lines_of(first + second, broken) == lines_of(first, false) + lines_of(second, broken),
    decreases first.len(),
{
    if first.len() > 0 {
        let n = first_newline(first);
        let whole = first + second;
        let rest = first.skip(n + 1);
        lemma_first_newline(first);
        lemma_first_newline_is(whole, n);
        assert(whole.skip(n + 1) =~= rest + second);
        assert(whole.take(n) =~= first.take(n));
        lemma_lines_of_joined(rest, second, broken);
    }
}

/// A single line is printed as its bytes and a line feed.
pub proof fn lemma_rendered_one(line: Seq<u8>)
    ensures
        rendered(seq![line]) == line + seq![LF],
{
    assert(rendered(seq![line].drop_last()) =~= Seq::<u8>::empty());
}

/// Printing lines one after another prints the first, then the others.
pub proof fn lemma_rendered_joins(first: Seq<Seq<u8>>, second: Seq<Seq<u8>>)
    ensures
        rendered(first + second) == rendered(first) + rendered(second),
    decreases second.len(),
{
    if second.len() > 0 {
        lemma_rendered_joins(first, second.drop_last());
        assert((first + second).drop_last() =~= first + second.drop_last());
    }
}

/// Making the line ends alike changes nothing in a text that ends with a
/// line feed, or is empty, and holds no carriage return right before a line
/// feed.
pub proof fn lemma_normalized_keeps(text: Seq<u8>)
    requires
        text.len() == 0 || text.last() == LF,
        forall|i: int| 0 < i < text.len() && #[trigger] text[i] == LF ==> text[i - 1] != CR,
    ensures
        normalized(text) == text,
    decreases text.len(),
{
    if text.len() == 1 {
        assert(normalized(text.skip(1)) =~= Seq::<u8>::empty());
    } else if text.len() > 1 {
        lemma_normalized_keeps(text.skip(1));
    }
}

/// What is printed for a text is the text with its line ends made alike.
pub proof fn lemma_echo_normalizes(text: Seq<u8>)
    ensures
        rendered(lines_of(text, false)) == normalized(text),
    decreases text.len(),
{
    let n = first_newline(text);
    if text.len() == 0 {
    } else if text[0] == LF {
        let rest = text.skip(1);
        lemma_echo_normalizes(rest);
        lemma_rendered_joins(seq![chomp(text.take(0))], lines_of(rest, false));
        lemma_rendered_one(chomp(text.take(0)));
    } else if text.len() >= 2 && text[0] == CR && text[1] == LF {
        let rest = text.skip(2);
        lemma_first_newline_is(text, 1);
        lemma_echo_normalizes(rest);
        lemma_rendered_joins(seq![chomp(text.take(1))], lines_of(rest, false));
        lemma_rendered_one(chomp(text.take(1)));
    } else if text.len() == 1 {
        lemma_rendered_one(text);
    } else {
        let rest = text.skip(1);
        let m = first_newline(rest);
        lemma_first_newline(rest);
        lemma_echo_normalizes(rest);
        if m < rest.len() {
            let line = chomp(text.take(n));
            let short = chomp(rest.take(m));
            assert(line =~= seq![text[0]] + short);
            assert(text.skip(n + 1) =~= rest.skip(m + 1));
            let more = lines_of(rest.skip(m + 1), false);
            lemma_rendered_joins(seq![line], more);
            lemma_rendered_joins(seq![short], more);
            lemma_rendered_one(line);
            lemma_rendered_one(short);
        } else {
            lemma_rendered_one(text);
            lemma_rendered_one(rest);
        }
    }
}

/// A text that ends with a line feed, or is empty, and holds no carriage
/// return right before a line feed is printed as it stands.
pub proof fn lemma_terminated_text_is_echoed_unchanged(text: Seq<u8>)
    requires
        text.len() == 0 || text.last() == LF,
        forall|i: int| 0 < i < text.len() && #[trigger] text[i] == LF ==> text[i - 1] != CR,
    ensures
        rendered(lines_of(text, false)) == text,
{
    lemma_echo_normalizes(text);
    lemma_normalized_keeps(text);
}

/// A text in which no line feed stands has none to count.
pub proof fn lemma_no_newlines(text: Seq<u8>)
    requires
        forall|i: int| 0 <= i < text.len() ==> text[i] != LF,
    ensures
        newlines(text) == 0,
    decreases text.len(),
{
    if text.len() > 0 {
        lemma_no_newlines(text.drop_last());
    }
}

/// The line feeds of two texts joined are those of the first and those of
/// the second.
pub proof fn lemma_newlines_add_up(first: Seq<u8>, second: Seq<u8>)
    ensures
        newlines(first + second) == newlines(first) + newlines(second),
    decreases second.len(),
{
    if second.len() == 0 {
        assert(first + second =~= first);
    } else {
        lemma_newlines_add_up(first, second.drop_last());
        assert((first + second).drop_last() =~= first + second.drop_last());
    }
}

/// A text has one line for each of its line feeds, and one more for what
/// follows the last line feed, unless nothing follows it or the text broke
/// off there.
pub proof fn lemma_line_count(text: Seq<u8>, broken: bool)
    ensures
        lines_of(text, broken).len() == newlines(text) + (if !broken && text.len() > 0
            && text.last() != LF {
            1nat
        } else {
            0nat
        }),
    decreases text.len(),
{
    let n = first_newline(text);
    lemma_first_newline(text);
    if text.len() > 0 {
        if n < text.len() {
            let rest = text.skip(n + 1);
            lemma_line_count(rest, broken);
            lemma_no_newlines(text.take(n));
            lemma_newlines_add_up(text.take(n), seq![LF]);
            lemma_newlines_add_up(text.take(n) + seq![LF], rest);
            assert(text =~= text.take(n) + seq![LF] + rest);
            assert(newlines(seq![LF]) == 1) by {
                assert(newlines(seq![LF].drop_last()) == 0);
            }
            if rest.len() > 0 {
                assert(rest.last() == text.last());
            }
        } else {
            lemma_no_newlines(text);
        }
    }
}

/// What is printed for lines holds one line feed for each line.
pub proof fn lemma_rendered_has_a_newline_per_line(lines: Seq<Seq<u8>>)
    requires
        forall|i: int, j: int|
            0 <= i < lines.len() && 0 <= j < lines[i].len() ==> #[trigger] lines[i][j] != LF,
    ensures
        newlines(rendered(lines)) == lines.len(),
    decreases lines.len(),
{
    if lines.len() > 0 {
        let before = lines.drop_last();
        assert forall|i: int, j: int| 0 <= i < before.len() && 0 <= j < before[i].len() implies
            #[trigger] before[i][j] != LF by {
            assert(before[i] == lines[i]);
        }
        lemma_rendered_has_a_newline_per_line(before);
        lemma_no_newlines(lines.last());
        lemma_newlines_add_up(rendered(before), lines.last());
        lemma_newlines_add_up(rendered(before) + lines.last(), seq![LF]);
        assert(newlines(seq![LF]) == 1) by {
            assert(newlines(seq![LF].drop_last()) == 0);
        }
    }
}

/// What is printed for a text holds as many line feeds as the text has
/// lines: a line is printed for every line that was read.
pub proof fn lemma_echo_keeps_the_number_of_lines(text: Seq<u8>, broken: bool)
    ensures
        newlines(rendered(lines_of(text, broken))) == lines_of(text, broken).len(),
{
    lemma_lines_hold_no_newline(text, broken);
    lemma_rendered_has_a_newline_per_line(lines_of(text, broken));
}

} // verus!
