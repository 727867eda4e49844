use restui::vim_buffer::{
    find_char_backward, find_char_forward, is_punct_char, is_word_char, line_count, line_len,
    row_col_to_offset, word_end_forward, word_start_backward,
};

#[test]
fn word_classes() {
    assert!(is_word_char(b'a'));
    assert!(is_word_char(b'Z'));
    assert!(is_word_char(b'7'));
    assert!(is_word_char(b'_'));
    assert!(!is_word_char(b'-'));
    assert!(is_punct_char(b'.'));
    assert!(!is_punct_char(b' '));
    assert!(!is_punct_char(b'x'));
}

#[test]
fn word_end_forward_skips_word_and_spaces() {
    assert_eq!(word_end_forward(b"foo bar", 0), 4);
    assert_eq!(word_end_forward(b"foo.bar", 0), 3);
    assert_eq!(word_end_forward(b"...x", 0), 3);
    assert_eq!(word_end_forward(b"   x", 0), 3);
    assert_eq!(word_end_forward(b"foo", 3), 3);
    assert_eq!(word_end_forward(b"foo", 10), 10);
}

#[test]
fn word_start_backward_finds_word_start() {
    assert_eq!(word_start_backward(b"foo bar", 7), 4);
    assert_eq!(word_start_backward(b"foo bar", 4), 0);
    assert_eq!(word_start_backward(b"foo bar", 0), 0);
    assert_eq!(word_start_backward(b"a..b", 3), 1);
}

#[test]
fn row_col_to_offset_counts_lines() {
    assert_eq!(row_col_to_offset(b"ab\ncd", 1, 1), 4);
    assert_eq!(row_col_to_offset(b"ab\ncd", 0, 9), 2);
    assert_eq!(row_col_to_offset(b"ab\ncd", 5, 0), 5);
    assert_eq!(row_col_to_offset(b"", 0, 3), 0);
}

#[test]
fn lines_of_text() {
    assert_eq!(line_count(b"ab\ncd"), 2);
    assert_eq!(line_len(b"ab\ncde", 1), 3);
}

#[test]
fn find_char_motions() {
    assert_eq!(find_char_forward(b"a,b,c", 0, b',', false), 1);
    assert_eq!(find_char_forward(b"a,b,c", 0, b',', true), 0);
    assert_eq!(find_char_forward(b"a,b,c", 1, b',', false), 3);
    assert_eq!(find_char_forward(b"abc", 0, b'z', false), 0);
    assert_eq!(find_char_backward(b"a,b,c", 4, b',', false), 3);
    assert_eq!(find_char_backward(b"a,b,c", 4, b',', true), 4);
    assert_eq!(find_char_backward(b"abc", 2, b'z', false), 2);
}
