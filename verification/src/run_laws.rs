//! What holds of every run.

use crate::echo::{echo_of, Echo, EchoModel};
use crate::gzip::{decoded_of, DecodedModel};
use crate::line_laws::{
    lemma_lines_hold_no_newline, lemma_lines_of_joined, lemma_rendered_has_a_newline_per_line,
    lemma_rendered_joins, lemma_rendered_one, lemma_utf8_text_has_utf8_lines,
};
use crate::reader::{fresh, LinesModel};
use crate::report::{CauseModel, FailureModel};
use crate::text::{
    first_invalid, lemma_first_invalid, lemma_first_invalid_is, lines_of, newlines, rendered, LF,
};
use vstd::prelude::*;
use vstd::utf8::*;

verus! {

/// A file that decodes without error to a text that is UTF-8 is printed
/// whole: the run does not fail, it counts every line of the text, and it
/// prints them in their order, each followed by one line feed.
pub proof fn lemma_clean_file_is_echoed_whole(filename: Seq<char>, decoded: DecodedModel)
    requires
        decoded.trouble is None,
        valid_utf8(decoded.text),
    ensures
        echo_of(fresh(filename, decoded)) == (EchoModel {
            output: rendered(lines_of(decoded.text, false)),
            lines: lines_of(decoded.text, false).len(),
            failure: None,
        }),
{
    let lines = lines_of(decoded.text, false);
    lemma_utf8_text_has_utf8_lines(decoded.text, false);
    lemma_first_invalid_is(lines, lines.len() as int);
    assert(lines.subrange(0, lines.len() as int) =~= lines);
}

/// Where the line with the number `n` is the first that is not UTF-8, the
/// run prints the `n - 1` lines before it and nothing after them, and fails
/// with the number `n` and the name of the file.
pub proof fn lemma_run_fails_at_first_invalid_line(
    filename: Seq<char>,
    decoded: DecodedModel,
    n: int,
)
    requires
        1 <= n <= lines_of(decoded.text, decoded.trouble is Some).len(),
        !valid_utf8(lines_of(decoded.text, decoded.trouble is Some)[n - 1]),
        forall|i: int|
            0 <= i < n - 1 ==> valid_utf8(
                #[trigger] lines_of(decoded.text, decoded.trouble is Some)[i],
            ),
    ensures
        echo_of(fresh(filename, decoded)) == (EchoModel {
            output: rendered(lines_of(decoded.text, decoded.trouble is Some).take(n - 1)),
            lines: n as nat,
            failure: Some(
                FailureModel::Line { filename, ordinal: n as nat, cause: CauseModel::InvalidUtf8 },
            ),
        }),
{
    let lines = lines_of(decoded.text, decoded.trouble is Some);
    assert(lines.skip(0) =~= lines);
    lemma_first_invalid_is(lines, n - 1);
}

/// Where decoding stopped with an error and every line before that place
/// is UTF-8, the run prints those lines and fails at the line after them
/// with that error.
pub proof fn lemma_run_fails_where_decoding_stopped(filename: Seq<char>, decoded: DecodedModel)
    requires
        decoded.trouble is Some,
        forall|i: int|
            0 <= i < lines_of(decoded.text, true).len() ==> valid_utf8(
                #[trigger] lines_of(decoded.text, true)[i],
            ),
    ensures
        echo_of(fresh(filename, decoded)) == (EchoModel {
            output: rendered(lines_of(decoded.text, true)),
            lines: lines_of(decoded.text, true).len() + 1,
            failure: Some(
                FailureModel::Line {
                    filename,
                    ordinal: lines_of(decoded.text, true).len() + 1,
                    cause: CauseModel::Read(decoded.trouble->0),
                },
            ),
        }),
{
    let lines = lines_of(decoded.text, true);
    lemma_first_invalid_is(lines, lines.len() as int);
    assert(lines.subrange(0, lines.len() as int) =~= lines);
}

/// Two texts that are UTF-8, the first of which ends with a line feed or
/// is empty, are printed one after the other where they are joined, and
/// their lines are counted together.
pub proof fn lemma_joined_texts_are_echoed_in_turn(
    filename: Seq<char>,
    first: Seq<u8>,
    second: Seq<u8>,
)
    requires
        first.len() == 0 || first.last() == LF,
        valid_utf8(first),
        valid_utf8(second),
    ensures
        ({
            let both = DecodedModel { text: first + second, trouble: None };
            let one = DecodedModel { text: first, trouble: None };
            let other = DecodedModel { text: second, trouble: None };
            &&& echo_of(fresh(filename, both)).output == echo_of(fresh(filename, one)).output
                + echo_of(fresh(filename, other)).output
            &&& echo_of(fresh(filename, both)).lines == echo_of(fresh(filename, one)).lines
                + echo_of(fresh(filename, other)).lines
            &&& echo_of(fresh(filename, both)).failure is None
        }),
{
    valid_utf8_concat(first, second);
    lemma_clean_file_is_echoed_whole(
        filename,
        DecodedModel { text: first + second, trouble: None },
    );
    lemma_clean_file_is_echoed_whole(filename, DecodedModel { text: first, trouble: None });
    lemma_clean_file_is_echoed_whole(filename, DecodedModel { text: second, trouble: None });
    lemma_lines_of_joined(first, second, false);
    lemma_rendered_joins(lines_of(first, false), lines_of(second, false));
}

/// A run is its first pull and then the run of the reader after that pull.
/// Where the pull gives nothing, the run prints nothing and counts no line.
/// Where the pull fails, the run prints nothing, counts the line and fails
/// in the same way. Where the pull gives a line, the run prints the line
/// and a line feed, and goes on as the run of the reader after the pull.
pub proof fn lemma_run_follows_the_pulls(reader: LinesModel)
    ensures
        echo_of(reader) == (match reader.pull() {
            None => EchoModel { output: Seq::empty(), lines: reader.served, failure: None },
            Some(Err(failure)) => EchoModel {
                output: Seq::empty(),
                lines: reader.served + 1,
                failure: Some(failure),
            },
            Some(Ok(line)) => EchoModel {
                output: encode_utf8(line) + seq![LF] + echo_of(reader.pulled()).output,
                ..echo_of(reader.pulled())
            },
        }),
{
    let lines = reader.lines();
    let s = reader.served as int;
    if s <= lines.len() {
        let tail = lines.skip(s);
        let stop = s + first_invalid(tail);
        lemma_first_invalid(tail);
        if s < lines.len() && valid_utf8(lines[s]) {
            let after = lines.skip(s + 1);
            assert(tail[0] == lines[s]);
            assert(tail.drop_first() =~= after);
            assert(first_invalid(tail) == 1 + first_invalid(after));
            assert(lines.subrange(s, stop) =~= seq![lines[s]] + lines.subrange(s + 1, stop));
            lemma_rendered_joins(seq![lines[s]], lines.subrange(s + 1, stop));
            lemma_rendered_one(lines[s]);
            decode_utf8_encode_utf8(lines[s]);
            assert(reader.pulled().lines() == lines);
            assert(echo_of(reader).output =~= encode_utf8(decode_utf8(lines[s])) + seq![LF]
                + echo_of(reader.pulled()).output);
        } else {
            assert(lines.subrange(s, s) =~= Seq::empty());
            assert(echo_of(reader).output =~= Seq::empty());
        }
    }
}

/// The count of a run does not go back, it goes up by one for every line
/// that the run prints and by one for the line that fails, and a failure
/// carries the count as it then stands, and the name of the file.
pub proof fn lemma_run_counts_the_lines(reader: LinesModel)
    ensures
        echo_of(reader).lines >= reader.served,
        echo_of(reader).lines == reader.served + newlines(echo_of(reader).output) + (if echo_of(
            reader,
        ).failure is Some {
            1nat
        } else {
            0nat
        }),
        echo_of(reader).failure matches Some(failure) ==> ({
            &&& failure is Line
            &&& failure->Line_filename == reader.filename
            &&& failure->Line_ordinal == echo_of(reader).lines
        }),
{
    let lines = reader.lines();
    let s = reader.served as int;
    if s <= lines.len() {
        let stop = s + first_invalid(lines.skip(s));
        let printed = lines.subrange(s, stop);
        lemma_first_invalid(lines.skip(s));
        lemma_lines_hold_no_newline(reader.text, reader.trouble is Some);
        assert forall|i: int, j: int| 0 <= i < printed.len() && 0 <= j < printed[i].len() implies
            #[trigger] printed[i][j] != LF by {
            assert(printed[i] == lines[s + i]);
        }
        lemma_rendered_has_a_newline_per_line(printed);
    }
}

/// Two runs over the same file agree: what a run gives is determined by the
/// name of the file, its bytes and the error of the reading. The law takes
/// of each run what `echo_gzip` ensures of its result.
pub proof fn lemma_runs_agree(
    filename: Seq<char>,
    compressed: Seq<u8>,
    read_error: Option<Seq<char>>,
    first: Option<Echo>,
    second: Option<Echo>,
)
    requires
        first is Some <==> decoded_of(compressed, read_error).text.len() < usize::MAX,
        first matches Some(e) ==> e@ == echo_of(
            fresh(filename, decoded_of(compressed, read_error)),
        ),
        second is Some <==> decoded_of(compressed, read_error).text.len() < usize::MAX,
        second matches Some(e) ==> e@ == echo_of(
            fresh(filename, decoded_of(compressed, read_error)),
        ),
    ensures
        first is Some <==> second is Some,
        first is Some ==> first->0@ == second->0@,
{
}

} // verus!
