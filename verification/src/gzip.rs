//! Decoding the members of a gzip file.

use vstd::prelude::*;

verus! {

/// What decoding gave: the decoded bytes, and the description of the error
/// that stopped the decoding where one did. With an error, `text` holds the
/// bytes that were decoded before it.
#[derive(Debug, PartialEq, Eq)]
pub struct Decoded {
    pub text: Vec<u8>,
    pub trouble: Option<String>,
}

/// The mathematical model of a [`Decoded`].
pub struct DecodedModel {
    pub text: Seq<u8>,
    pub trouble: Option<Seq<char>>,
}

/// The characters of an optional string.
pub open spec fn words(text: Option<String>) -> Option<Seq<char>> {
    match text {
        Some(s) => Some(s@),
        None => None,
    }
}

impl View for Decoded {
    type V = DecodedModel;

    open spec fn view(&self) -> DecodedModel {
        DecodedModel { text: self.text@, trouble: words(self.trouble) }
    }
}

/// What the gzip decoder makes of the bytes of a file: the bytes that it
/// decoded from the members of the file, one member after another, and the
/// description of the error that stopped it, if one did. It is what
/// `inflate_members` returns, and nothing else is known of it here.
pub uninterp spec fn gunzip(compressed: Seq<u8>) -> (Seq<u8>, Option<Seq<char>>);

/// What decoding gives for a file of which `compressed` could be read,
/// where `read_error` describes the error that ended the reading, if one
/// did. An error of the reading goes before one of the decoder, which saw
/// only the bytes that came before it.
pub open spec fn decoded_of(compressed: Seq<u8>, read_error: Option<Seq<char>>) -> DecodedModel {
    DecodedModel {
        text: gunzip(compressed).0,
        trouble: if read_error is Some {
            read_error
        } else {
            gunzip(compressed).1
        },
    }
}

/// Runs `flate2::read::MultiGzDecoder` over `compressed`, through
/// `std::io::Read::read_to_end`. Nothing is proved of this function. Its
/// contract claims that the bytes it collects, and the text of the error
/// that stopped it, are determined by `compressed` alone; it gives them the
/// name `gunzip` and says no more of them. It takes for granted that there
/// is memory for the decoded bytes.
#[verifier::external_body]
fn inflate_members(compressed: &[u8]) -> (r: (Vec<u8>, Option<String>))
    ensures
        (r.0@, words(r.1)) == gunzip(compressed@),
{
    let mut text: Vec<u8> = Vec::new();
    let mut decoder = flate2::read::MultiGzDecoder::new(compressed);
    match std::io::Read::read_to_end(&mut decoder, &mut text) {
        Ok(_) => (text, None),
        Err(error) => (text, Some(error.to_string())),
    }
}

/// Decodes every member of the gzip file whose bytes are `compressed`.
/// `read_error` describes the error that cut the reading of the file short,
/// if one did: `compressed` then holds what was read before it.
pub fn decode_members(compressed: &[u8], read_error: Option<String>) -> (decoded: Decoded)
    ensures
        decoded@ == decoded_of(compressed@, words(read_error)),
{
    let (text, stopped) = inflate_members(compressed);
    let trouble = match read_error {
        Some(error) => Some(error),
        None => stopped,
    };
    Decoded { text, trouble }
}

} // verus!
