use restui::body_edit::{join_lines, split_lines, TextBuffer};
use restui::field_edit::LineField;

#[test]
fn field_insert_and_backspace() {
    let mut f = LineField::new(b"ac".to_vec(), 1);
    f.insert_char('b');
    assert_eq!(f.text, b"abc".to_vec());
    assert_eq!(f.cursor, 2);
    f.backspace();
    assert_eq!(f.text, b"ac".to_vec());
    assert_eq!(f.cursor, 1);
}

#[test]
fn field_insert_clamps_cursor() {
    let mut f = LineField::new(b"ab".to_vec(), 9);
    f.insert_char('c');
    assert_eq!(f.text, b"abc".to_vec());
    assert_eq!(f.cursor, 3);
}

#[test]
fn field_typing_non_ascii_then_backspace_restores() {
    let mut f = LineField::new(b"ac".to_vec(), 1);
    f.insert_char('\u{e9}');
    assert_eq!(f.text, "a\u{e9}c".as_bytes().to_vec());
    f.backspace();
    assert_eq!(f.text, b"ac".to_vec());
    assert_eq!(f.cursor, 1);
}

#[test]
fn field_backspace_at_start_does_nothing() {
    let mut f = LineField::new(b"ab".to_vec(), 0);
    f.backspace();
    assert_eq!(f.text, b"ab".to_vec());
    assert_eq!(f.cursor, 0);
}

#[test]
fn field_paste_drops_line_breaks() {
    let mut f = LineField::new(b"ab".to_vec(), 1);
    f.paste(b"x\r\ny");
    assert_eq!(f.text, b"axyb".to_vec());
    assert_eq!(f.cursor, 3);
}

#[test]
fn field_delete_forward_and_cursor_moves() {
    let mut f = LineField::new(b"abc".to_vec(), 1);
    f.delete_forward();
    assert_eq!(f.text, b"ac".to_vec());
    assert_eq!(f.cursor, 1);
    f.cursor_left();
    assert_eq!(f.cursor, 0);
    f.cursor_left();
    assert_eq!(f.cursor, 0);
    f.cursor_home();
    assert_eq!(f.cursor, 0);
}

#[test]
fn body_insert_and_join_lines() {
    let mut b = TextBuffer::new(b"ab".to_vec(), 0, 1);
    b.insert_char('x');
    assert_eq!(b.text, b"axb".to_vec());
    assert_eq!(b.col, 2);
    let mut j = TextBuffer::new(b"ab\ncd".to_vec(), 1, 0);
    j.backspace();
    assert_eq!(j.text, b"abcd".to_vec());
    assert_eq!(j.row, 0);
    assert_eq!(j.col, 4);
}

#[test]
fn body_position_of_cursor() {
    let b = TextBuffer::new(b"ab\ncd".to_vec(), 1, 1);
    assert_eq!(b.pos(), 4);
}

#[test]
fn split_and_join_lines() {
    let lines = split_lines(b"a\nbc\n");
    assert_eq!(lines, vec![b"a".to_vec(), b"bc".to_vec()]);
    assert_eq!(join_lines(&lines), b"a\nbc".to_vec());
}

#[test]
fn field_yank_and_delete_to_ends() {
    let f = LineField::new(b"hello world".to_vec(), 6);
    assert_eq!(f.yank_to_end(), Some(b"world".to_vec()));
    assert_eq!(f.yank_to_start(), Some(b"hello ".to_vec()));
    let mut d = LineField::new(b"hello world".to_vec(), 6);
    assert_eq!(d.delete_to_end(), Some(b"world".to_vec()));
    assert_eq!(d.text, b"hello ".to_vec());
    assert_eq!(d.cursor, 5);
    let mut s = LineField::new(b"hello world".to_vec(), 6);
    assert_eq!(s.delete_to_start(), Some(b"hello ".to_vec()));
    assert_eq!(s.text, b"world".to_vec());
    assert_eq!(s.cursor, 0);
    let mut e = LineField::new(b"ab".to_vec(), 2);
    assert_eq!(e.delete_to_end(), None);
    assert_eq!(e.yank_to_end(), None);
}

#[test]
fn body_yank_and_delete_on_a_line() {
    let b = TextBuffer::new(b"abc def\nxyz".to_vec(), 0, 4);
    assert_eq!(b.yank_to_end(), Some(b"def".to_vec()));
    assert_eq!(b.yank_to_start(), Some(b"abc ".to_vec()));
    let mut w = TextBuffer::new(b"abc def\nxyz".to_vec(), 0, 0);
    assert_eq!(w.delete_word(), Some(b"abc ".to_vec()));
    assert_eq!(w.text, b"def\nxyz".to_vec());
    assert_eq!(w.col, 0);
    let mut d = TextBuffer::new(b"abc def\nxyz".to_vec(), 0, 4);
    assert_eq!(d.delete_to_end(), Some(b"def".to_vec()));
    assert_eq!(d.text, b"abc \nxyz".to_vec());
    assert_eq!(d.col, 3);
    let mut s = TextBuffer::new(b"abc def\nxyz".to_vec(), 1, 2);
    assert_eq!(s.delete_to_start(), Some(b"xy".to_vec()));
    assert_eq!(s.text, b"abc def\nz".to_vec());
    assert_eq!(s.col, 0);
}

#[test]
fn body_delete_to_bottom() {
    let mut b = TextBuffer::new(b"a\nbb\nc".to_vec(), 1, 1);
    assert_eq!(b.delete_to_bottom(), Some(b"bb\nc".to_vec()));
    assert_eq!(b.text, b"a".to_vec());
    assert_eq!((b.row, b.col), (0, 0));
    let mut all = TextBuffer::new(b"x\ny".to_vec(), 0, 0);
    assert_eq!(all.delete_to_bottom(), Some(b"x\ny".to_vec()));
    assert!(all.text.is_empty());
    let mut past = TextBuffer::new(b"x".to_vec(), 3, 0);
    assert_eq!(past.delete_to_bottom(), None);
}

#[test]
fn body_word_deletions() {
    let mut b = TextBuffer::new(b"foo.bar baz".to_vec(), 0, 7);
    assert_eq!(b.delete_word_back(), Some(b"bar".to_vec()));
    assert_eq!(b.text, b"foo. baz".to_vec());
    assert_eq!(b.col, 4);
    let mut e = TextBuffer::new(b"ab  cd".to_vec(), 0, 2);
    assert_eq!(e.delete_word_end(), Some(b"  cd".to_vec()));
    assert_eq!(e.text, b"ab".to_vec());
    assert_eq!(e.col, 1);
}
