use sunrise::recognize::{
    cancelled_task, code, completed_task, end_of_line, header, hyperlink, open_task, style, SpanKind,
    Style,
};
use sunrise::scan::{
    find_backtick, find_line_break, find_whitespace, has_pattern, is_alphanumeric_byte,
    is_whitespace_at, skip_alphanumerics, skip_blanks, skip_hashes,
};

#[test]
fn white_space_is_what_unicode_says() {
    let mut buffer = [0u8; 4];
    let mut count = 0;
    for code in 0..=0x10ffffu32 {
        if let Some(c) = char::from_u32(code) {
            let bytes = c.encode_utf8(&mut buffer).as_bytes();
            assert_eq!(is_whitespace_at(bytes, 0), c.is_whitespace(), "U+{:04X}", code);
            if c.is_whitespace() {
                count += 1;
            }
        }
    }
    assert_eq!(count, 25);
}

#[test]
fn white_space_needs_all_its_bytes() {
    assert!(is_whitespace_at(&[0xc2, 0xa0], 0));
    assert!(!is_whitespace_at(&[0xc2], 0));
    assert!(!is_whitespace_at(&[0xc2, 0xa0], 1));
    assert!(is_whitespace_at(&[0x61, 0xe3, 0x80, 0x80], 1));
    assert!(!is_whitespace_at(&[0x61, 0xe3, 0x80], 1));
    assert!(!is_whitespace_at(&[0xe2, 0x80], 0));
    assert!(!is_whitespace_at(&[0xe2, 0x80, 0x8b], 0));
    assert!(is_whitespace_at(&[0xe2, 0x80, 0x8a], 0));
    assert!(is_whitespace_at(&[0xe2, 0x81, 0x9f], 0));
    assert!(!is_whitespace_at(&[0xe2, 0x81, 0xa0], 0));
}

#[test]
fn scans_stop_at_the_first_byte_that_differs() {
    assert_eq!(skip_blanks(b" \t x", 0), 3);
    assert_eq!(skip_blanks(b" \t x", 3), 3);
    assert_eq!(skip_blanks(b"  ", 0), 2);
    assert_eq!(skip_blanks(b"\n ", 0), 0);
    assert_eq!(skip_hashes(b"###x#", 0), 3);
    assert_eq!(skip_hashes(b"###x#", 3), 3);
    assert_eq!(skip_alphanumerics(b"aZ09_", 0), 4);
    assert_eq!(skip_alphanumerics("aé".as_bytes(), 0), 1);
    assert_eq!(find_line_break(b"ab\rc\n", 0), 2);
    assert_eq!(find_line_break(b"ab\rc\n", 3), 4);
    assert_eq!(find_line_break(b"abc", 1), 3);
    assert_eq!(find_backtick(b"ab`c`", 0), 2);
    assert_eq!(find_backtick(b"ab`c`", 3), 4);
    assert_eq!(find_backtick(b"abc", 0), 3);
    assert_eq!(find_whitespace(b"ab c", 0), 2);
    assert_eq!(find_whitespace("ab\u{2003}c".as_bytes(), 0), 2);
    assert_eq!(find_whitespace(b"abc", 0), 3);
}

#[test]
fn letters_and_digits_are_ascii() {
    for b in 0..=255u8 {
        assert_eq!(is_alphanumeric_byte(b), b.is_ascii_alphanumeric());
    }
}

#[test]
fn patterns_are_found_where_they_stand() {
    assert!(has_pattern(b"abc", b"bc", 1));
    assert!(!has_pattern(b"abc", b"bc", 0));
    assert!(!has_pattern(b"abc", b"bc", 2));
    assert!(!has_pattern(b"abc", b"bc", 9));
    assert!(has_pattern(b"abc", b"", 3));
    assert!(!has_pattern(b"abc", b"", 4));
}

#[test]
fn lines_end_with_a_line_feed() {
    assert_eq!(end_of_line(b"ab\ncd", 0), Some(3));
    assert_eq!(end_of_line(b"ab\ncd", 3), None);
    assert_eq!(end_of_line(b"ab\r\ncd", 0), None);
    assert_eq!(end_of_line(b"\n", 0), Some(1));
    assert_eq!(end_of_line(b"", 0), None);
}

fn matched(look: SpanKind, len: usize) -> Option<Style> {
    Some(Style { look, len })
}

#[test]
fn each_recognizer_takes_its_construct() {
    assert_eq!(header(b"## h\nx", 0), matched(SpanKind::Header { hashes: 2 }, 5));
    assert_eq!(header(b" \t#\n", 0), matched(SpanKind::Header { hashes: 1 }, 4));
    assert_eq!(header(b"x# h\n", 0), None);
    assert_eq!(header(b"x# h\n", 1), matched(SpanKind::Header { hashes: 1 }, 4));
    assert_eq!(header(b"# h", 0), None);
    assert_eq!(open_task(b"[ ] a\n", 0), matched(SpanKind::OpenTask, 6));
    assert_eq!(open_task(b"  [] a\n", 0), matched(SpanKind::OpenTask, 7));
    assert_eq!(open_task(b"[x] a\n", 0), None);
    assert_eq!(cancelled_task(b"[x] a\n", 0), matched(SpanKind::CancelledTask, 6));
    assert_eq!(cancelled_task(b"[X] a\n", 0), None);
    assert_eq!(cancelled_task(b"[x] a", 0), None);
    assert_eq!(completed_task(b"\t[/]\n", 0), matched(SpanKind::CompletedTask, 5));
    assert_eq!(completed_task(b"[ ]\n", 0), None);
    assert_eq!(code(b"`a\nb` c", 0), matched(SpanKind::Code, 5));
    assert_eq!(code(b" `a`", 0), None);
    assert_eq!(code(b"`a", 0), None);
    assert_eq!(hyperlink(b"http://a b", 0), matched(SpanKind::Link, 8));
    assert_eq!(hyperlink(b"h2://a", 0), matched(SpanKind::Link, 6));
    assert_eq!(hyperlink(b"ht-tp://a", 0), None);
    assert_eq!(hyperlink(b"http:/a", 0), None);
    assert_eq!(hyperlink(b"http://", 0), None);
    assert_eq!(hyperlink(b"http://\n", 0), None);
}

#[test]
fn recognizers_are_tried_in_their_order() {
    assert_eq!(style(b"# `a` [x]\n", 0), matched(SpanKind::Header { hashes: 1 }, 10));
    assert_eq!(style(b"[ ] `a`\n", 0), matched(SpanKind::OpenTask, 8));
    assert_eq!(style(b"[x] a://b\n", 0), matched(SpanKind::CancelledTask, 10));
    assert_eq!(style(b"`a://b`", 0), matched(SpanKind::Code, 7));
    assert_eq!(style(b"a://`b`", 0), matched(SpanKind::Link, 7));
    assert_eq!(style(b"plain", 0), None);
    assert_eq!(style(b"", 0), None);
    assert_eq!(style(b"ab", 2), None);
}
