//! Reading the lines of a decoded file one by one.

use crate::gzip::{decode_members, decoded_of, words, Decoded, DecodedModel};
use crate::report::{Cause, CauseModel, Failure, FailureModel};
use crate::text::{find_newline, first_newline, lines_of, CR};
use vstd::prelude::*;
use vstd::slice::*;
use vstd::utf8::*;

verus! {

/// The lines of a gzip file, handed out one by one and counted.
///
/// A pull either gives the next line as a string or fails for that line:
/// where the line is not UTF-8, and where decoding stopped inside it. A
/// reader does not start over.
pub struct GzLines {
    filename: String,
    text: Vec<u8>,
    trouble: Option<String>,
    pos: usize,
    served: u64,
    reported: bool,
}

/// The mathematical model of a [`GzLines`]: the file's name, what decoding
/// gave, and the number of pulls that were answered so far.
pub struct LinesModel {
    pub filename: Seq<char>,
    pub text: Seq<u8>,
    pub trouble: Option<Seq<char>>,
    pub served: nat,
}

impl LinesModel {
    /// The lines that can be handed out, as bytes.
    pub open spec fn lines(self) -> Seq<Seq<u8>> {
        lines_of(self.text, self.trouble is Some)
    }

    /// The failure of the next line for `cause`.
    pub open spec fn failure(self, cause: CauseModel) -> FailureModel {
        FailureModel::Line { filename: self.filename, ordinal: self.served + 1, cause }
    }

    /// What the next pull gives: a line, a failure, or nothing more.
    pub open spec fn pull(self) -> Option<Result<Seq<char>, FailureModel>> {
        let lines = self.lines();
        if self.served < lines.len() {
            let raw = lines[self.served as int];
            if valid_utf8(raw) {
                Some(Ok(decode_utf8(raw)))
            } else {
                Some(Err(self.failure(CauseModel::InvalidUtf8)))
            }
        } else if self.served == lines.len() && self.trouble is Some {
            Some(Err(self.failure(CauseModel::Read(self.trouble->0))))
        } else {
            None
        }
    }

    /// The reader after the next pull: one more pull is counted if it gave
    /// anything.
    pub open spec fn pulled(self) -> LinesModel {
        if self.pull() is Some {
            LinesModel { served: self.served + 1, ..self }
        } else {
            self
        }
    }
}

/// The reader that has handed out nothing yet.
pub open spec fn fresh(filename: Seq<char>, decoded: DecodedModel) -> LinesModel {
    LinesModel { filename, text: decoded.text, trouble: decoded.trouble, served: 0 }
}

/// The mathematical model of what a pull returned.
pub open spec fn pull_model(r: Option<Result<String, Failure>>) -> Option<
    Result<Seq<char>, FailureModel>,
> {
    match r {
        Some(Ok(line)) => Some(Ok(line@)),
        Some(Err(failure)) => Some(Err(failure@)),
        None => None,
    }
}

/// Calls `String::from_utf8`. Nothing is proved of this function. Its
/// contract claims that the call succeeds on exactly the byte strings that
/// are UTF-8, and that the string then holds the characters that the bytes
/// encode.
#[verifier::external_body]
fn utf8_string(bytes: Vec<u8>) -> (r: Option<String>)
    ensures
        r is Some <==> valid_utf8(bytes@),
        r matches Some(s) ==> s@ == decode_utf8(bytes@),
{
    match String::from_utf8(bytes) {
        Ok(s) => Some(s),
        Err(_) => None,
    }
}

impl View for GzLines {
    type V = LinesModel;

    closed spec fn view(&self) -> LinesModel {
        LinesModel {
            filename: self.filename@,
            text: self.text@,
            trouble: words(self.trouble),
            served: self.served as nat,
        }
    }
}

impl GzLines {
    /// What holds of every reader: it stands at the start of a line, and it
    /// has counted the lines before that place.
    pub closed spec fn wf(&self) -> bool {
        let lines = self@.lines();
        &&& self.text@.len() < usize::MAX
        &&& self.pos <= self.text@.len()
        &&& if self.reported {
            self.trouble is Some && self.served == lines.len() + 1
        } else {
            &&& self.served <= lines.len()
            &&& self.served <= self.pos
            &&& lines_of(self.text@.skip(self.pos as int), self.trouble is Some) == lines.skip(
                self.served as int,
            )
        }
    }

    /// A reader over what decoding gave, for the file named `filename`.
    /// The decoded text has to be shorter than `usize::MAX`, so that its
    /// lines can be counted.
    pub fn new(filename: &str, decoded: Decoded) -> (reader: GzLines)
        requires
            decoded@.text.len() < usize::MAX,
        ensures
            reader.wf(),
            reader@ == fresh(filename@, decoded@),
    {
        let reader = GzLines {
            filename: filename.to_owned(),
            text: decoded.text,
            trouble: decoded.trouble,
            pos: 0,
            served: 0,
            reported: false,
        };
        assert(reader.text@.skip(0) =~= reader.text@);
        assert(reader@.lines().skip(0) =~= reader@.lines());
        reader
    }

    /// The number of pulls that gave a line or a failure so far: the ordinal
    /// of the line that was handled last.
    pub fn line_count(&self) -> (n: u64)
        ensures
            n == self@.served,
    {
        self.served
    }

    /// The name of the file that the lines come from.
    pub fn filename(&self) -> (name: &str)
        ensures
            name@ == self@.filename,
    {
        self.filename.as_str()
    }

    /// The failure of the line that was counted last.
    fn failure(&self, cause: Cause) -> (failure: Failure)
        ensures
            failure@ == (FailureModel::Line {
                filename: self@.filename,
                ordinal: self@.served,
                cause: cause@,
            }),
    {
        Failure::Line { filename: self.filename.clone(), ordinal: self.served, cause }
    }

    /// Pulls the next line. The line is counted before it is looked at, so
    /// a failure carries the ordinal of the line that failed.
    pub fn next_line(&mut self) -> (r: Option<Result<String, Failure>>)
        requires
            old(self).wf(),
        ensures
            final(self).wf(),
            pull_model(r) == old(self)@.pull(),
            final(self)@ == old(self)@.pulled(),
            old(self)@.served <= final(self)@.served <= old(self)@.served + 1,
    {
        if self.reported {
            return None;
        }
        let ghost lines = self@.lines();
        let ghost rest = self.text@.skip(self.pos as int);
        let ghost broken = self.trouble is Some;
        let len = self.text.len();
        let end = find_newline(self.text.as_slice(), self.pos);
        if end == len {
            if let Some(error) = &self.trouble {
                let cause = Cause::Read(error.clone());
                self.served = self.served + 1;
                self.reported = true;
                return Some(Err(self.failure(cause)));
            }
            if self.pos == len {
                return None;
            }
        }
        let stop = if end < len && end > self.pos && self.text[end - 1] == CR {
            end - 1
        } else {
            end
        };
        let next = if end < len {
            end + 1
        } else {
            len
        };
        let raw = slice_to_vec(slice_subrange(self.text.as_slice(), self.pos, stop));
        proof {
            // `raw` is the first of the lines that are left, and the others
            // are the lines of what follows it.
            if end < len {
                assert(rest.skip(first_newline(rest) + 1) =~= self.text@.skip(next as int));
            }
            assert(lines.skip(self.served as int)[0] == raw@);
            assert(lines.skip(self.served as int).skip(1) =~= lines.skip(self.served + 1));
            assert(lines_of(rest, broken).skip(1) =~= lines_of(
                self.text@.skip(next as int),
                broken,
            ));
        }
        self.pos = next;
        self.served = self.served + 1;
        match utf8_string(raw) {
            Some(line) => Some(Ok(line)),
            None => Some(Err(self.failure(Cause::InvalidUtf8))),
        }
    }
}

/// Opens the gzip file named `filename`, whose bytes are `compressed`, for
/// reading line by line: every member is decoded, and the reader stands
/// before the first line. `read_error` describes the error that cut the
/// reading of the file short, if one did. There is no reader where the
/// decoded text is too long for its lines to be counted.
pub fn open_reading_gzip(filename: &str, compressed: &[u8], read_error: Option<String>) -> (r:
    Option<GzLines>)
    ensures
        r is Some <==> decoded_of(compressed@, words(read_error)).text.len() < usize::MAX,
        r matches Some(reader) ==> reader.wf() && reader@ == fresh(
            filename@,
            decoded_of(compressed@, words(read_error)),
        ),
{
    let decoded = decode_members(compressed, read_error);
    if decoded.text.len() < usize::MAX {
        Some(GzLines::new(filename, decoded))
    } else {
        None
    }
}

} // verus!
