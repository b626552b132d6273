use sunrise::tasks::{
    find_last, replace_on_current_line, replace_task_for_cursor, spliced, start_of_line,
};
use sunrise::text::{ascii_string, byte_offset, cycle};

fn cycled(text: &str, cursor: usize) -> String {
    let mut buffer = text.to_string();
    cycle(&mut buffer, cursor);
    buffer
}

#[test]
fn cancelled_and_completed_oscillate() {
    let once = cycled("[x] foo", 7);
    assert_eq!(once, "[/] foo");
    let twice = cycled(&once, 7);
    assert_eq!(twice, "[x] foo");
    let thrice = cycled(&twice, 7);
    assert_eq!(thrice, "[/] foo");
}

#[test]
fn markerless_line_becomes_an_open_task() {
    assert_eq!(cycled("buy milk", 8), "[ ] buy milk");
    assert_eq!(cycled("buy milk", 3), "[ ] buy milk");
    assert_eq!(cycled("buy milk", 0), "[ ] buy milk");
}

#[test]
fn insertion_leaves_other_lines_alone() {
    assert_eq!(cycled("one\nbuy milk\nthree", 12), "one\n[ ] buy milk\nthree");
    assert_eq!(cycled("[x] one\nbuy milk\n[/] three", 16), "[x] one\n[ ] buy milk\n[/] three");
}

#[test]
fn insertion_goes_behind_a_leading_line_feed() {
    assert_eq!(cycled("\nfoo", 4), "\n[ ] foo");
    assert_eq!(cycled("\nfoo", 1), "\n[ ] foo");
    assert_eq!(cycled("\nfoo", 0), "[ ] \nfoo");
}

#[test]
fn open_task_becomes_completed() {
    assert_eq!(cycled("[ ] todo", 8), "[/] todo");
}

#[test]
fn bare_brackets_get_their_blank() {
    assert_eq!(cycled("[] todo", 7), "[ ] todo");
}

#[test]
fn a_full_round_from_bare_brackets() {
    let a = cycled("[] t", 4);
    assert_eq!(a, "[ ] t");
    let b = cycled(&a, 5);
    assert_eq!(b, "[/] t");
    let c = cycled(&b, 5);
    assert_eq!(c, "[x] t");
    let d = cycled(&c, 5);
    assert_eq!(d, "[/] t");
}

#[test]
fn cancelled_is_looked_for_first() {
    assert_eq!(cycled("[/] a [x] b [ ] c []", 20), "[/] a [/] b [ ] c []");
    assert_eq!(cycled("[ ] a [/] b []", 14), "[ ] a [x] b []");
    assert_eq!(cycled("[ ] a []", 8), "[ ] a [ ]");
}

#[test]
fn the_last_marker_of_a_kind_is_taken() {
    assert_eq!(cycled("[x] a [x] b", 11), "[x] a [/] b");
    assert_eq!(cycled("[ ] a [ ] b", 11), "[ ] a [/] b");
}

#[test]
fn markers_behind_the_cursor_do_not_count() {
    assert_eq!(cycled("abc [x]", 4), "[ ] abc [x]");
    assert_eq!(cycled("abc [x]", 6), "[ ] abc [x]");
    assert_eq!(cycled("abc [x]", 7), "abc [/]");
}

#[test]
fn markers_on_other_lines_do_not_count() {
    assert_eq!(cycled("[x] a\nb", 7), "[x] a\n[ ] b");
    assert_eq!(cycled("a\n[x] b", 1), "[ ] a\n[x] b");
}

#[test]
fn cycling_keeps_text_that_is_not_ascii() {
    assert_eq!(cycled("é [x] ☃", 10), "é [/] ☃");
    assert_eq!(cycled("☃\nçé", 8), "☃\n[ ] çé");
    // The cursor inside a character: the line is searched up to that byte.
    assert_eq!(cycled("[x]☃", 4), "[/]☃");
}

#[test]
fn empty_buffer_gets_a_task() {
    assert_eq!(cycled("", 0), "[ ] ");
}

#[test]
fn bytes_are_cycled_like_text() {
    let mut buffer = b"a\n[ ] b\nc".to_vec();
    replace_task_for_cursor(&mut buffer, 7);
    assert_eq!(buffer, b"a\n[/] b\nc".to_vec());
    let mut raw = vec![0xff, 0x0a, 0x80];
    replace_task_for_cursor(&mut raw, 3);
    assert_eq!(raw, vec![0xff, 0x0a, 0x5b, 0x20, 0x5d, 0x20, 0x80]);
}

#[test]
fn replacing_says_whether_it_found() {
    let mut buffer = b"x [a] y [a] z".to_vec();
    assert!(replace_on_current_line(&mut buffer, 13, b"[a]", b"<bb>"));
    assert_eq!(buffer, b"x [a] y <bb> z".to_vec());
    assert!(!replace_on_current_line(&mut buffer, 14, b"[c]", b"!"));
    assert_eq!(buffer, b"x [a] y <bb> z".to_vec());
}

#[test]
fn line_starts_behind_the_last_line_feed() {
    assert_eq!(start_of_line(b"abc", 3), 0);
    assert_eq!(start_of_line(b"a\nbc", 4), 2);
    assert_eq!(start_of_line(b"a\nbc", 2), 2);
    assert_eq!(start_of_line(b"a\nbc", 1), 0);
    assert_eq!(start_of_line(b"a\n\n", 3), 3);
    assert_eq!(start_of_line(b"", 0), 0);
}

#[test]
fn last_occurrence_lies_inside_the_range() {
    assert_eq!(find_last(b"abab", b"ab", 0, 4), Some(2));
    assert_eq!(find_last(b"abab", b"ab", 0, 3), Some(0));
    assert_eq!(find_last(b"abab", b"ab", 1, 3), None);
    assert_eq!(find_last(b"abab", b"ab", 1, 4), Some(2));
    assert_eq!(find_last(b"abab", b"abc", 0, 4), None);
    assert_eq!(find_last(b"ab", b"abab", 0, 2), None);
    assert_eq!(find_last(b"ab", b"", 0, 2), Some(2));
}

#[test]
fn splicing_replaces_a_range() {
    assert_eq!(spliced(b"hello", 1, 3, b"EY"), b"hEYo".to_vec());
    assert_eq!(spliced(b"hello", 5, 0, b"!"), b"hello!".to_vec());
    assert_eq!(spliced(b"hello", 0, 5, b""), b"".to_vec());
}

#[test]
fn ascii_bytes_spell_a_string() {
    assert_eq!(ascii_string(b"2024".to_vec()), "2024");
    assert_eq!(ascii_string(Vec::new()), "");
    assert_eq!(ascii_string(vec![0x7f, 0x00, 0x41]), "\u{7f}\0A");
}

#[test]
fn character_indices_become_byte_offsets() {
    assert_eq!(byte_offset("abc", 0), 0);
    assert_eq!(byte_offset("abc", 2), 2);
    assert_eq!(byte_offset("abc", 3), 3);
    assert_eq!(byte_offset("abc", 9), 3);
    assert_eq!(byte_offset("", 0), 0);
    assert_eq!(byte_offset("", 5), 0);
    let text = "é☃𝄞x";
    assert_eq!(byte_offset(text, 0), 0);
    assert_eq!(byte_offset(text, 1), 2);
    assert_eq!(byte_offset(text, 2), 5);
    assert_eq!(byte_offset(text, 3), 9);
    assert_eq!(byte_offset(text, 4), 10);
    assert_eq!(byte_offset(text, usize::MAX), 10);
    for chars in 0..6 {
        let expected = text.char_indices().nth(chars).map(|(i, _)| i).unwrap_or(text.len());
        assert_eq!(byte_offset(text, chars), expected);
    }
}

#[test]
fn a_cursor_behind_wide_characters_cycles_its_own_line() {
    let text = "é☃\n[x] ü";
    let cursor = byte_offset(text, 9);
    assert_eq!(cursor, 12);
    assert_eq!(cycled(text, cursor), "é☃\n[/] ü");
}
