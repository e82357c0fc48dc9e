use std::io::Write;

use flate2::write::GzEncoder;
use flate2::Compression;
use gzlines::gzip::Decoded;
use gzlines::reader::{open_reading_gzip, GzLines};
use gzlines::report::{Cause, Failure};

fn packed(text: &[u8]) -> Vec<u8> {
    let mut encoder = GzEncoder::new(Vec::new(), Compression::best());
    encoder.write_all(text).unwrap();
    encoder.finish().unwrap()
}

fn over(text: &[u8], trouble: Option<&str>) -> GzLines {
    GzLines::new("in.gz", Decoded { text: text.to_vec(), trouble: trouble.map(|t| t.to_string()) })
}

#[test]
fn lines_come_one_by_one_and_are_counted() {
    let mut reader = open_reading_gzip("in.gz", &packed(b"un\ndeux\r\ntrois"), None).unwrap();
    assert_eq!(reader.filename(), "in.gz");
    assert_eq!(reader.line_count(), 0);
    assert_eq!(reader.next_line(), Some(Ok("un".to_string())));
    assert_eq!(reader.line_count(), 1);
    assert_eq!(reader.next_line(), Some(Ok("deux".to_string())));
    assert_eq!(reader.line_count(), 2);
    assert_eq!(reader.next_line(), Some(Ok("trois".to_string())));
    assert_eq!(reader.line_count(), 3);
    assert_eq!(reader.next_line(), None);
    assert_eq!(reader.line_count(), 3);
    assert_eq!(reader.next_line(), None);
    assert_eq!(reader.line_count(), 3);
}

#[test]
fn lines_hold_the_characters_that_the_bytes_encode() {
    let file = packed("gr\u{fc}\u{df}e\n\u{65e5}\u{672c}\n".as_bytes());
    let mut reader = open_reading_gzip("in.gz", &file, None).unwrap();
    assert_eq!(reader.next_line(), Some(Ok("gr\u{fc}\u{df}e".to_string())));
    assert_eq!(reader.next_line(), Some(Ok("\u{65e5}\u{672c}".to_string())));
    assert_eq!(reader.next_line(), None);
}

#[test]
fn reader_goes_on_after_a_line_that_is_not_utf8() {
    let mut reader = over(b"a\n\x80\nc\n", None);
    assert_eq!(reader.next_line(), Some(Ok("a".to_string())));
    assert_eq!(
        reader.next_line(),
        Some(Err(Failure::Line {
            filename: "in.gz".to_string(),
            ordinal: 2,
            cause: Cause::InvalidUtf8
        }))
    );
    assert_eq!(reader.line_count(), 2);
    assert_eq!(reader.next_line(), Some(Ok("c".to_string())));
    assert_eq!(reader.line_count(), 3);
    assert_eq!(reader.next_line(), None);
}

#[test]
fn trouble_is_reported_once_after_the_whole_lines() {
    let mut reader = over(b"a\nb\nhalf a li", Some("broken pipe"));
    assert_eq!(reader.next_line(), Some(Ok("a".to_string())));
    assert_eq!(reader.next_line(), Some(Ok("b".to_string())));
    assert_eq!(
        reader.next_line(),
        Some(Err(Failure::Line {
            filename: "in.gz".to_string(),
            ordinal: 3,
            cause: Cause::Read("broken pipe".to_string())
        }))
    );
    assert_eq!(reader.line_count(), 3);
    assert_eq!(reader.next_line(), None);
    assert_eq!(reader.line_count(), 3);
}

#[test]
fn trouble_at_a_line_end_is_reported_for_the_next_line() {
    let mut reader = over(b"a\n", Some("stopped"));
    assert_eq!(reader.next_line(), Some(Ok("a".to_string())));
    assert_eq!(
        reader.next_line(),
        Some(Err(Failure::Line {
            filename: "in.gz".to_string(),
            ordinal: 2,
            cause: Cause::Read("stopped".to_string())
        }))
    );
    assert_eq!(reader.next_line(), None);
}

#[test]
fn trouble_with_no_text_is_reported_for_the_first_line() {
    let mut reader = over(b"", Some("nothing there"));
    assert_eq!(
        reader.next_line(),
        Some(Err(Failure::Line {
            filename: "in.gz".to_string(),
            ordinal: 1,
            cause: Cause::Read("nothing there".to_string())
        }))
    );
    assert_eq!(reader.line_count(), 1);
    assert_eq!(reader.next_line(), None);
}

#[test]
fn no_text_and_no_trouble_gives_no_line() {
    let mut reader = over(b"", None);
    assert_eq!(reader.next_line(), None);
    assert_eq!(reader.line_count(), 0);
}

#[test]
fn carriage_return_stays_in_a_last_line_without_line_feed() {
    let mut reader = over(b"x\r\ny\r", None);
    assert_eq!(reader.next_line(), Some(Ok("x".to_string())));
    assert_eq!(reader.next_line(), Some(Ok("y\r".to_string())));
    assert_eq!(reader.next_line(), None);
}

#[test]
fn lone_line_feed_is_one_empty_line() {
    let mut reader = over(b"\n", None);
    assert_eq!(reader.next_line(), Some(Ok(String::new())));
    assert_eq!(reader.next_line(), None);
    assert_eq!(reader.line_count(), 1);
}

#[test]
fn lone_carriage_return_and_line_feed_is_one_empty_line() {
    let mut reader = over(b"\r\n", None);
    assert_eq!(reader.next_line(), Some(Ok(String::new())));
    assert_eq!(reader.next_line(), None);
}
