use powerliners::markedjson::error::{
    format_error, repl, strtrans, EchoErr, MarkedError, RichMark, NON_PRINTABLE_PATTERN,
};

#[test]
fn non_printable_pattern_is_control_class() {
    assert_eq!(NON_PRINTABLE_PATTERN, "[\\x00-\\x08\\x0B\\x0C\\x0E-\\x1F\\x7F]");
}

#[test]
fn repl_formats_codepoint_as_hex() {
    assert_eq!(repl("\x07"), "<x0007>");
    assert_eq!(repl("\x1f"), "<x001f>");
    assert_eq!(repl("A"), "<x0041>");
}

#[test]
fn repl_wide_codepoint_is_not_truncated() {
    assert_eq!(repl("\u{1F600}"), "<x1f600>");
    assert_eq!(repl(""), "<x0000>");
}

#[test]
fn strtrans_replaces_tab_with_dashes() {
    assert_eq!(strtrans("a\tb"), "a>---b");
}

#[test]
fn strtrans_escapes_non_printable() {
    assert_eq!(strtrans("a\x07b"), "a<x0007>b");
    assert_eq!(strtrans("\x7f\x00"), "<x007f><x0000>");
}

#[test]
fn strtrans_passes_printable_through() {
    assert_eq!(strtrans("hello world"), "hello world");
    assert_eq!(strtrans("a\nb\rc"), "a\nb\rc");
}

#[test]
fn rich_mark_new_has_no_old_or_merged() {
    let m = RichMark::new("f.json", 0, 0, None, 0);
    assert!(m.old_mark.is_none());
    assert!(m.merged_marks.is_empty());
}

#[test]
fn rich_mark_copy_is_equal() {
    let m = RichMark::new("f.json", 3, 4, None, 0);
    let c = m.copy();
    assert_eq!(m.name, c.name);
    assert_eq!(m.line, c.line);
    assert_eq!(m.column, c.column);
}

#[test]
fn rich_mark_get_snippet_none_when_no_buffer() {
    let m = RichMark::new("f.json", 0, 0, None, 0);
    assert!(m.get_snippet(4, 75).is_none());
}

#[test]
fn rich_mark_get_snippet_extracts_line() {
    let buf: Vec<char> = "hello world\n".chars().collect();
    let m = RichMark::new("f.json", 0, 6, Some(buf), 6);
    let snippet = m.get_snippet(4, 75).unwrap();
    assert!(snippet.contains("hello world"));
    assert!(snippet.contains('^'));
    let caret_line = snippet.lines().nth(1).unwrap();
    assert_eq!(caret_line, "          ^");
}

#[test]
fn rich_mark_get_snippet_exact_text() {
    let buf: Vec<char> = "ab\tc\nnext".chars().collect();
    let m = RichMark::new("f.json", 0, 3, Some(buf), 3);
    assert_eq!(m.get_snippet(2, 75).unwrap(), "  ab>---c\n        ^");
}

#[test]
fn rich_mark_get_snippet_shortens_long_lines() {
    let line: String = std::iter::repeat('x').take(30).collect::<String>() + "Y" + &"z".repeat(30);
    let buf: Vec<char> = line.chars().collect();
    let m = RichMark::new("f", 0, 30, Some(buf), 30);
    let s = m.get_snippet(0, 20).unwrap();
    assert_eq!(s, " ... xxxxxYzzzz ... \n          ^");
}

#[test]
fn rich_mark_advance_string_offsets_column_and_pointer() {
    let m = RichMark::new("f.json", 1, 5, None, 10);
    let advanced = m.advance_string(3);
    assert_eq!(advanced.column, 8);
    assert_eq!(advanced.pointer, 13);
    assert_eq!(advanced.line, 1);
}

#[test]
fn rich_mark_set_merged_mark_appends() {
    let mut m = RichMark::new("a", 0, 0, None, 0);
    m.set_merged_mark(RichMark::new("b", 1, 0, None, 0));
    m.set_merged_mark(RichMark::new("c", 2, 0, None, 0));
    assert_eq!(m.merged_marks.len(), 2);
    assert_eq!(m.merged_marks[0].name, "b");
    assert_eq!(m.merged_marks[1].name, "c");
}

#[test]
fn rich_mark_set_old_mark_chains() {
    let mut m = RichMark::new("a", 0, 0, None, 0);
    let old = RichMark::new("b", 1, 0, None, 0);
    m.set_old_mark(old).unwrap();
    assert!(m.old_mark.is_some());
    assert_eq!(m.old_mark.as_ref().unwrap().name, "b");
}

#[test]
fn rich_mark_set_old_mark_refuses_repeated_mark() {
    let mut m = RichMark::new("a", 0, 0, None, 0);
    let mut old = RichMark::new("b", 1, 0, None, 0);
    old.set_old_mark(RichMark::new("a", 0, 0, None, 5)).unwrap();
    assert!(m.set_old_mark(old).is_err());
    assert!(m.old_mark.is_none());
}

#[test]
fn rich_mark_eq_compares_name_line_column() {
    let a = RichMark::new("f", 1, 2, None, 10);
    let b = RichMark::new("f", 1, 2, None, 99);
    assert_eq!(a, b);
    let c = RichMark::new("f", 1, 3, None, 10);
    assert_ne!(a, c);
}

#[test]
fn rich_mark_to_string_marked_emits_line_column() {
    let m = RichMark::new("f.json", 2, 4, None, 0);
    let s = m.to_string_marked(0, "in ", false);
    assert!(s.contains("\"f.json\", line 3, column 5"));
    assert!(s.contains("in "));
}

#[test]
fn rich_mark_to_string_marked_exact_with_history() {
    let buf: Vec<char> = "{\"a\": 1}".chars().collect();
    let mut m = RichMark::new("new.json", 0, 6, Some(buf.clone()), 6);
    m.set_old_mark(RichMark::new("old.json", 1, 0, None, 0)).unwrap();
    m.set_merged_mark(RichMark::new("m1", 4, 1, None, 0));
    m.set_merged_mark(RichMark::new("m2", 5, 2, None, 0));
    let s = m.to_string_marked(0, "in ", true);
    let expected = "  in \"new.json\", line 1, column 7:\n    {\"a\": 1}\n          ^\n  with additionally merged\n      \"m1\", line 5, column 2\n  and\n      \"m2\", line 6, column 3\n  which replaced value\n      in \"old.json\", line 2, column 1";
    assert_eq!(s, expected);
    assert_eq!(m.to_string(), expected);
}

#[test]
fn rich_mark_to_string_marked_reports_recursive_mark() {
    let mut m = RichMark::new("a", 0, 0, None, 0);
    let mut old = RichMark::new("b", 1, 0, None, 0);
    old.old_mark = Some(Box::new(RichMark::new("a", 0, 0, None, 0)));
    m.old_mark = Some(Box::new(old));
    let s = m.to_string_marked(0, "", true);
    assert!(s.ends_with("\n<recursive mark>"));
}

#[test]
fn format_error_combines_context_and_problem() {
    let cm = RichMark::new("ctx.json", 0, 0, None, 0);
    let pm = RichMark::new("prob.json", 5, 0, None, 0);
    let s = format_error(
        Some("found error"),
        Some(&cm),
        Some("bad token"),
        Some(&pm),
        Some("hint: check syntax"),
        0,
    );
    assert!(s.contains("found error"));
    assert!(s.contains("bad token"));
    assert!(s.contains("ctx.json"));
    assert!(s.contains("prob.json"));
    assert!(s.contains("hint: check syntax"));
}

#[test]
fn format_error_omits_context_mark_when_same_as_problem_mark() {
    let m = RichMark::new("f.json", 0, 0, None, 0);
    let s = format_error(Some("ctx"), Some(&m), Some("prob"), Some(&m), None, 0);
    let count = s.matches("\"f.json\"").count();
    assert_eq!(count, 1);
}

#[test]
fn format_error_indent_prefixes_text() {
    let s = format_error(Some("ctx"), None, None, None, None, 4);
    assert!(s.starts_with("    ctx"));
}

#[test]
fn format_error_exact_lines() {
    let pm = RichMark::new("p", 0, 1, None, 0);
    let s = format_error(None, None, Some("bad"), Some(&pm), Some("note"), 2);
    assert_eq!(s, "  bad\n    in \"p\", line 1, column 2\n  note");
}

#[test]
fn marked_error_format_includes_problem() {
    let pm = RichMark::new("f.json", 1, 1, None, 0);
    let e = MarkedError::new(
        Some("syntax error"),
        None,
        Some("unexpected token"),
        Some(&pm),
        None,
    );
    let s = e.to_string();
    assert!(s.contains("syntax error"));
    assert!(s.contains("unexpected token"));
    assert!(s.contains("f.json"));
}

#[test]
fn marked_error_implements_error_traits() {
    let e = MarkedError::new(Some("ctx"), None, Some("prob"), None, None);
    assert_eq!(e.to_string(), "ctx\nprob");
}

#[test]
fn echoerr_holds_indent() {
    let e = EchoErr::new(4);
    assert_eq!(e.indent, 4);
}

#[test]
fn get_snippet_with_a_small_length_keeps_a_short_line() {
    let m = RichMark::new("f", 0, 1, Some("ab".chars().collect()), 1);
    assert_eq!(m.get_snippet(0, 4).unwrap(), "ab\n ^");
}
