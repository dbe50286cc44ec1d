use powerliners::markedjson::reader::{Reader, ReaderError};

#[test]
fn new_reader_buffer_has_null_terminator() {
    let r = Reader::new("abc", "test");
    assert_eq!(r.buffer.len(), 4);
    assert_eq!(r.buffer[3], '\0');
}

#[test]
fn peek_returns_char_at_offset() {
    let r = Reader::new("abc", "t");
    assert_eq!(r.peek(0), 'a');
    assert_eq!(r.peek(1), 'b');
    assert_eq!(r.peek(2), 'c');
    assert_eq!(r.peek(3), '\0');
}

#[test]
fn peek_past_eof_returns_null() {
    let r = Reader::new("a", "t");
    assert_eq!(r.peek(99), '\0');
}

#[test]
fn prefix_returns_substring() {
    let r = Reader::new("hello world", "t");
    assert_eq!(r.prefix(5), "hello");
    assert_eq!(r.prefix(0), "");
}

#[test]
fn prefix_stops_at_buffer_end() {
    let r = Reader::new("ab", "t");
    assert_eq!(r.prefix(10), "ab\0");
}

#[test]
fn forward_advances_pointer_and_column() {
    let mut r = Reader::new("abc", "t");
    r.forward(2);
    assert_eq!(r.pointer, 2);
    assert_eq!(r.column, 2);
    assert_eq!(r.line, 0);
    assert_eq!(r.index, 2);
}

#[test]
fn forward_across_newline_resets_column_increments_line() {
    let mut r = Reader::new("a\nb", "t");
    r.forward(2);
    assert_eq!(r.line, 1);
    assert_eq!(r.column, 0);
}

#[test]
fn update_pointer_stops_at_end() {
    let mut r = Reader::new("a\nb", "t");
    r.update_pointer(100);
    assert_eq!(r.pointer, 4);
    assert_eq!(r.index, 4);
    assert_eq!(r.line, 1);
    assert_eq!(r.column, 2);
}

#[test]
fn get_mark_returns_current_position() {
    let mut r = Reader::new("a\nbc", "t");
    r.forward(3);
    let m = r.get_mark();
    assert_eq!(m.line, 1);
    assert_eq!(m.column, 1);
}

#[test]
fn reader_check_printable_accepts_normal_text() {
    let mut r = Reader::new("hello world", "t");
    assert!(r.check_printable("hello world").is_ok());
}

#[test]
fn check_printable_rejects_control_chars() {
    let mut r = Reader::new("ok", "t");
    assert!(r.check_printable("ok\x07bad").is_err());
}

#[test]
fn check_printable_moves_to_offending_char() {
    let mut r = Reader::new("ab\ncd", "t");
    let e = r.check_printable("ab\nc\x01").unwrap_err();
    assert_eq!(r.pointer, 4);
    assert_eq!(e.mark.unwrap().line, 1);
    assert_eq!(e.mark.unwrap().column, 1);
    assert_eq!(e.problem, "found special characters which are not allowed");
}

#[test]
fn check_printable_found_none_is_ok() {
    let mut r = Reader::new("ab", "t");
    assert!(r.check_printable_found(None).is_ok());
    assert_eq!(r.pointer, 0);
    assert!(r.check_printable_found(Some(1)).is_err());
    assert_eq!(r.pointer, 1);
}

#[test]
fn check_printable_accepts_tab_newline_cr() {
    let mut r = Reader::new("ok", "t");
    assert!(r.check_printable("ok\tnext\nline\rmore").is_ok());
}

#[test]
fn reader_error_implements_error_traits() {
    let e = ReaderError {
        context: "ctx".to_string(),
        problem: "prob".to_string(),
        mark: None,
    };
    assert!(e.to_string().contains("ReaderError"));
    assert_eq!(e.to_string(), "ReaderError: prob (ctx)");
}
