//! What is reported when the file or one of its lines cannot be read.

use vstd::prelude::*;
use vstd::string::*;

verus! {

/// Why a line could not be read.
#[derive(Debug, PartialEq, Eq)]
pub enum Cause {
    /// The bytes of the line are not UTF-8.
    InvalidUtf8,
    /// Reading or decoding stopped inside the line; the text is the
    /// description of the error that stopped it.
    Read(String),
}

/// A failure that ends the run.
#[derive(Debug, PartialEq, Eq)]
pub enum Failure {
    /// The file could not be opened; `error` describes why.
    Open { filename: String, error: String },
    /// The line with the 1-based number `ordinal` could not be read.
    Line { filename: String, ordinal: u64, cause: Cause },
}

/// The mathematical model of a [`Cause`].
pub enum CauseModel {
    InvalidUtf8,
    Read(Seq<char>),
}

/// The mathematical model of a [`Failure`].
pub enum FailureModel {
    Open { filename: Seq<char>, error: Seq<char> },
    Line { filename: Seq<char>, ordinal: nat, cause: CauseModel },
}

impl View for Cause {
    type V = CauseModel;

    open spec fn view(&self) -> CauseModel {
        match self {
            Cause::InvalidUtf8 => CauseModel::InvalidUtf8,
            Cause::Read(text) => CauseModel::Read(text@),
        }
    }
}

impl View for Failure {
    type V = FailureModel;

    open spec fn view(&self) -> FailureModel {
        match self {
            Failure::Open { filename, error } => FailureModel::Open {
                filename: filename@,
                error: error@,
            },
            Failure::Line { filename, ordinal, cause } => FailureModel::Line {
                filename: filename@,
                ordinal: *ordinal as nat,
                cause: cause@,
            },
        }
    }
}

/// The character of the decimal digit `d`.
pub open spec fn digit(d: nat) -> char
    recommends
        d < 10,
{
    if d == 0 {
        '0'
    } else if d == 1 {
        '1'
    } else if d == 2 {
        '2'
    } else if d == 3 {
        '3'
    } else if d == 4 {
        '4'
    } else if d == 5 {
        '5'
    } else if d == 6 {
        '6'
    } else if d == 7 {
        '7'
    } else if d == 8 {
        '8'
    } else {
        '9'
    }
}

/// `n` in decimal digits, without leading zeros.
pub open spec fn decimal(n: nat) -> Seq<char>
    decreases n,
{
    if n < 10 {
        seq![digit(n)]
    } else {
        decimal(n / 10).push(digit(n % 10))
    }
}

/// The number that the decimal digit `c` stands for.
pub open spec fn digit_value(c: char) -> nat {
    if c == '1' {
        1
    } else if c == '2' {
        2
    } else if c == '3' {
        3
    } else if c == '4' {
        4
    } else if c == '5' {
        5
    } else if c == '6' {
        6
    } else if c == '7' {
        7
    } else if c == '8' {
        8
    } else if c == '9' {
        9
    } else {
        0
    }
}

/// The number that `digits` write in decimal.
pub open spec fn number_of(digits: Seq<char>) -> nat
    decreases digits.len(),
{
    if digits.len() == 0 {
        0
    } else {
        number_of(digits.drop_last()) * 10 + digit_value(digits.last())
    }
}

/// `decimal` writes its number: the digits read back as the number, and no
/// zero stands in front of a number that is not zero.
pub proof fn lemma_decimal_reads_back(n: nat)
    ensures
        number_of(decimal(n)) == n,
        decimal(n).len() > 0,
        n > 0 ==> decimal(n)[0] != '0',
    decreases n,
{
    if n < 10 {
        assert(number_of(seq![digit(n)].drop_last()) == 0);
    } else {
        lemma_decimal_reads_back(n / 10);
        assert(decimal(n).drop_last() =~= decimal(n / 10));
        assert(decimal(n)[0] == decimal(n / 10)[0]);
    }
}

/// The words that describe `cause`.
pub open spec fn cause_text(cause: CauseModel) -> Seq<char> {
    match cause {
        CauseModel::InvalidUtf8 => "stream did not contain valid UTF-8"@,
        CauseModel::Read(text) => text,
    }
}

/// The diagnostic for `failure`: it names the file and the error, and for a
/// line also the line's number.
pub open spec fn message_of(failure: FailureModel) -> Seq<char> {
    match failure {
        FailureModel::Open { filename, error } => "Cannnot open file '"@ + filename
            + "', Error: "@ + error,
        FailureModel::Line { filename, ordinal, cause } => "Cannnot reading the "@ + decimal(
            ordinal,
        ) + "th line of "@ + filename + ", Error: "@ + cause_text(cause),
    }
}

fn digit_str(d: u64) -> (s: &'static str)
    requires
        d < 10,
    ensures
        s@ == seq![digit(d as nat)],
{
    proof {
        reveal_strlit("0");
        reveal_strlit("1");
        reveal_strlit("2");
        reveal_strlit("3");
        reveal_strlit("4");
        reveal_strlit("5");
        reveal_strlit("6");
        reveal_strlit("7");
        reveal_strlit("8");
        reveal_strlit("9");
    }
    let s = if d == 0 {
        "0"
    } else if d == 1 {
        "1"
    } else if d == 2 {
        "2"
    } else if d == 3 {
        "3"
    } else if d == 4 {
        "4"
    } else if d == 5 {
        "5"
    } else if d == 6 {
        "6"
    } else if d == 7 {
        "7"
    } else if d == 8 {
        "8"
    } else {
        "9"
    };
    s
}

/// Writes `n` in decimal digits.
pub fn decimal_string(n: u64) -> (s: String)
    ensures
        s@ == decimal(n as nat),
    decreases n,
{
    if n < 10 {
        String::from_str(digit_str(n))
    } else {
        let mut s = decimal_string(n / 10);
        s.append(digit_str(n % 10));
        s
    }
}

impl Cause {
    /// The words that describe this cause.
    pub fn text(&self) -> (s: String)
        ensures
            s@ == cause_text(self@),
    {
        match self {
            Cause::InvalidUtf8 => String::from_str("stream did not contain valid UTF-8"),
            Cause::Read(text) => text.clone(),
        }
    }
}

impl Failure {
    /// The diagnostic to show for this failure.
    pub fn message(&self) -> (s: String)
        ensures
            s@ == message_of(self@),
    {
        match self {
            Failure::Open { filename, error } => {
                let mut s = String::from_str("Cannnot open file '");
                s.append(filename.as_str());
                s.append("', Error: ");
                s.append(error.as_str());
                s
            },
            Failure::Line { filename, ordinal, cause } => {
                let number = decimal_string(*ordinal);
                let words = cause.text();
                let mut s = String::from_str("Cannnot reading the ");
                s.append(number.as_str());
                s.append("th line of ");
                s.append(filename.as_str());
                s.append(", Error: ");
                s.append(words.as_str());
                s
            },
        }
    }
}

} // verus!
