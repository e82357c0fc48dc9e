use gzlines::text::{find_newline, CR, LF};

#[test]
fn line_end_bytes_are_those_of_ascii() {
    assert_eq!(LF, b'\n');
    assert_eq!(CR, b'\r');
}

#[test]
fn find_newline_gives_the_next_line_feed() {
    let text = b"ab\ncd\n\nef";
    assert_eq!(find_newline(text, 0), 2);
    assert_eq!(find_newline(text, 1), 2);
    assert_eq!(find_newline(text, 2), 2);
    assert_eq!(find_newline(text, 3), 5);
    assert_eq!(find_newline(text, 6), 6);
}

#[test]
fn find_newline_gives_the_length_where_none_follows() {
    let text = b"ab\ncd";
    assert_eq!(find_newline(text, 3), 5);
    assert_eq!(find_newline(text, 5), 5);
    assert_eq!(find_newline(b"", 0), 0);
}
