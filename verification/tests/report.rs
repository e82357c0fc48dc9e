use gzlines::report::{decimal_string, Cause, Failure};

#[test]
fn open_failure_names_the_file_and_the_error() {
    let failure = Failure::Open {
        filename: "test-multi.txt.gz".to_string(),
        error: "No such file or directory (os error 2)".to_string(),
    };
    assert_eq!(
        failure.message(),
        "Cannnot open file 'test-multi.txt.gz', Error: No such file or directory (os error 2)"
    );
}

#[test]
fn line_failure_names_the_line_the_file_and_the_error() {
    let failure = Failure::Line {
        filename: "test-multi.txt.gz".to_string(),
        ordinal: 1024,
        cause: Cause::Read("corrupt deflate stream".to_string()),
    };
    assert_eq!(
        failure.message(),
        "Cannnot reading the 1024th line of test-multi.txt.gz, Error: corrupt deflate stream"
    );
}

#[test]
fn invalid_utf8_has_its_own_words() {
    assert_eq!(Cause::InvalidUtf8.text(), "stream did not contain valid UTF-8");
    assert_eq!(Cause::Read("why".to_string()).text(), "why");
    let failure =
        Failure::Line { filename: "f".to_string(), ordinal: 7, cause: Cause::InvalidUtf8 };
    assert_eq!(
        failure.message(),
        "Cannnot reading the 7th line of f, Error: stream did not contain valid UTF-8"
    );
}

#[test]
fn message_is_what_the_formatter_writes() {
    for ordinal in [1u64, 9, 10, 11, 99, 100, 101, 65535, 4294967296, u64::MAX] {
        let failure = Failure::Line {
            filename: "a b.gz".to_string(),
            ordinal,
            cause: Cause::Read("x".to_string()),
        };
        assert_eq!(
            failure.message(),
            format!("Cannnot reading the {}th line of {}, Error: {}", ordinal, "a b.gz", "x")
        );
    }
}

#[test]
fn decimal_string_writes_the_digits() {
    assert_eq!(decimal_string(0), "0");
    assert_eq!(decimal_string(7), "7");
    assert_eq!(decimal_string(10), "10");
    assert_eq!(decimal_string(1234567890), "1234567890");
    assert_eq!(decimal_string(u64::MAX), "18446744073709551615");
}

#[test]
fn decimal_string_reads_back() {
    for n in [0u64, 1, 9, 10, 19, 20, 99, 100, 999, 1000, 123456789, u64::MAX - 1, u64::MAX] {
        let digits = decimal_string(n);
        assert_eq!(digits.parse::<u64>(), Ok(n));
        assert_eq!(digits, n.to_string());
        assert!(n == 0 || !digits.starts_with('0'));
    }
}
