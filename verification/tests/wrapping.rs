use strix::wrap::{editor_view, sanitize_wrap, split_at_width, wrap_comment_body, wrap_display_row, wrap_paragraph};

#[test]
fn sanitizing_expands_tabs_and_drops_controls() {
    assert_eq!(sanitize_wrap("a\tb\u{1b}[31mc"), "a    b[31mc");
    assert_eq!(sanitize_wrap(""), "");
}

#[test]
fn splitting_keeps_at_least_one_char() {
    assert_eq!(split_at_width("abcdef", 4), ("abcd".to_string(), "ef".to_string()));
    assert_eq!(split_at_width("中文", 1), ("中".to_string(), "文".to_string()));
    assert_eq!(split_at_width("ab", 9), ("ab".to_string(), String::new()));
    assert_eq!(split_at_width("", 3), (String::new(), String::new()));
}

#[test]
fn display_rows_wrap_by_width_with_their_starts() {
    let rows = wrap_display_row("abcdefg", 3);
    assert_eq!(rows, vec![("abc".to_string(), 0), ("def".to_string(), 3), ("g".to_string(), 6)]);
    let rows = wrap_display_row("a\tb", 3);
    assert_eq!(rows, vec![("a".to_string(), 0), ("    ".to_string(), 1), ("b".to_string(), 2)]);
    assert_eq!(wrap_display_row("", 5), vec![(String::new(), 0)]);
}

#[test]
fn paragraphs_wrap_at_spaces_and_split_long_words() {
    let mut out = Vec::new();
    wrap_paragraph("the quick brown fox", 10, &mut out);
    assert_eq!(out, vec!["the quick".to_string(), "brown fox".to_string()]);
    let mut out = Vec::new();
    wrap_paragraph("abcdefghij kl", 4, &mut out);
    assert_eq!(out, vec!["abcd".to_string(), "efgh".to_string(), "ij".to_string(), "kl".to_string()]);
}

#[test]
fn comment_bodies_honour_hard_breaks() {
    assert_eq!(wrap_comment_body("one two\r\nthree", 20), vec!["one two".to_string(), "three".to_string()]);
    assert_eq!(wrap_comment_body("", 20), vec![String::new()]);
    assert_eq!(wrap_comment_body("a\rb", 0), vec!["a".to_string(), "b".to_string()]);
    assert_eq!(wrap_comment_body("x\ty", 20), vec!["x    y".to_string()]);
}

#[test]
fn editor_view_locates_the_caret() {
    let v = editor_view("hello world\nok", (0, 7), 5);
    assert_eq!(v.rows, vec!["hello".to_string(), " worl".to_string(), "d".to_string(), "ok".to_string()]);
    assert_eq!((v.caret_row, v.caret_col), (1, 2));
    let v = editor_view("abcde", (0, 5), 5);
    assert_eq!(v.rows, vec!["abcde".to_string(), String::new()]);
    assert_eq!((v.caret_row, v.caret_col), (1, 0));
    let v = editor_view("ab\ncd", (1, 1), 0);
    assert_eq!((v.caret_row, v.caret_col), (3, 0));
}
