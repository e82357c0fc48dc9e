//! Printing the lines of a file until one fails.

use crate::gzip::{decoded_of, words};
use crate::reader::{fresh, open_reading_gzip, GzLines, LinesModel};
use crate::report::{CauseModel, Failure, FailureModel};
use crate::text::{first_invalid, lemma_first_invalid_is, rendered, LF};
use vstd::prelude::*;
use vstd::utf8::*;

verus! {

/// What a run over a file gave.
#[derive(Debug, PartialEq, Eq)]
pub struct Echo {
    /// The bytes to print: every line that was read, each with a line feed
    /// after it.
    pub output: Vec<u8>,
    /// The number of lines that were handled, a line that failed included.
    pub lines: u64,
    /// The failure that ended the run, if one did.
    pub failure: Option<Failure>,
}

/// The mathematical model of an [`Echo`].
pub struct EchoModel {
    pub output: Seq<u8>,
    pub lines: nat,
    pub failure: Option<FailureModel>,
}

impl View for Echo {
    type V = EchoModel;

    open spec fn view(&self) -> EchoModel {
        EchoModel {
            output: self.output@,
            lines: self.lines as nat,
            failure: match self.failure {
                Some(failure) => Some(failure@),
                None => None,
            },
        }
    }
}

/// What a run gives that starts at `reader`. The run goes on to the first
/// line that is not UTF-8, or to the end of the lines. It prints the lines
/// before that place. It fails at that place if a line stands there, or if
/// decoding stopped there.
pub open spec fn echo_of(reader: LinesModel) -> EchoModel {
    let lines = reader.lines();
    if reader.served > lines.len() {
        EchoModel { output: Seq::empty(), lines: reader.served, failure: None }
    } else {
        let stop = reader.served + first_invalid(lines.skip(reader.served as int));
        let output = rendered(lines.subrange(reader.served as int, stop));
        let there = LinesModel { served: stop as nat, ..reader };
        if stop < lines.len() {
            EchoModel {
                output,
                lines: (stop + 1) as nat,
                failure: Some(there.failure(CauseModel::InvalidUtf8)),
            }
        } else if reader.trouble is Some {
            EchoModel {
                output,
                lines: (stop + 1) as nat,
                failure: Some(there.failure(CauseModel::Read(reader.trouble->0))),
            }
        } else {
            EchoModel { output, lines: stop as nat, failure: None }
        }
    }
}

/// Runs `reader` to its end or to its first failure, and collects the bytes
/// to print.
pub fn echo(reader: GzLines) -> (r: Echo)
    requires
        reader.wf(),
    ensures
        r@ == echo_of(reader@),
{
    let ghost start = reader@;
    let ghost lines = start.lines();
    let mut reader = reader;
    let mut output: Vec<u8> = Vec::new();
    let mut failure: Option<Failure> = None;
    loop
        invariant_except_break
            lines == start.lines(),
            reader.wf(),
            reader@ == (LinesModel { served: reader@.served, ..start }),
            start.served <= reader@.served,
            failure is None,
            start.served <= lines.len() ==> reader@.served <= lines.len(),
            start.served <= lines.len() ==> forall|j: int|
                start.served <= j < reader@.served ==> valid_utf8(#[trigger] lines[j]),
            start.served <= lines.len() ==> output@ == rendered(
                lines.subrange(start.served as int, reader@.served as int),
            ),
            start.served > lines.len() ==> output@.len() == 0 && reader@.served == start.served,
        ensures
            (EchoModel {
                output: output@,
                lines: reader@.served,
                failure: match failure {
                    Some(failure) => Some(failure@),
                    None => None,
                },
            }) == echo_of(start),
        decreases lines.len() + 1 - reader@.served,
    {
        let ghost before = reader@;
        let ghost s = before.served as int;
        let pull = reader.next_line();
        proof {
            if start.served <= lines.len() && !(before.pull() matches Some(Ok(_))) {
                // The run ends here: every line that it passed is UTF-8, and
                // no such line stands at this place.
                lemma_first_invalid_is(lines.skip(start.served as int), s - start.served);
            }
        }
        match pull {
            None => {
                assert(output@ =~= echo_of(start).output);
                break ;
            },
            Some(Err(f)) => {
                failure = Some(f);
                break ;
            },
            Some(Ok(line)) => {
                proof {
                    decode_utf8_encode_utf8(lines[s]);
                    assert(lines.subrange(start.served as int, s + 1).drop_last()
                        =~= lines.subrange(start.served as int, s));
                }
                output.extend_from_slice(line.as_str().as_bytes());
                output.push(LF);
            },
        }
    }
    Echo { output, lines: reader.line_count(), failure }
}

/// Decodes the gzip file named `filename`, whose bytes are `compressed`, and
/// collects the bytes to print for its lines. `read_error` describes the
/// error that cut the reading of the file short, if one did. There is no
/// result where the decoded text is too long for its lines to be counted.
pub fn echo_gzip(filename: &str, compressed: &[u8], read_error: Option<String>) -> (r: Option<
    Echo,
>)
    ensures
        r is Some <==> decoded_of(compressed@, words(read_error)).text.len() < usize::MAX,
        r matches Some(e) ==> e@ == echo_of(
            fresh(filename@, decoded_of(compressed@, words(read_error))),
        ),
{
    match open_reading_gzip(filename, compressed, read_error) {
        Some(reader) => Some(echo(reader)),
        None => None,
    }
}

} // verus!
