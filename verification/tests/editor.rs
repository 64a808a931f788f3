use strix::comments::{Side, Source, Store};
use strix::submit::{save_step, submit_edit, submit_new, SaveStep, SubmitOutcome};
use strix::editor::{char_width, col_at_display, display_col, editor_char_width, line_count, line_str, CommentAnchor, CommentEdit, EditOp};

fn anchor() -> CommentAnchor {
    CommentAnchor { file: "src/lib.rs".to_string(), side: Side::New, line: 7, context: Some("let x = 1;".to_string()) }
}

fn typed(edit: &mut CommentEdit, text: &str) {
    for ch in text.chars() {
        if ch == '\n' {
            edit.apply(EditOp::Newline);
        } else {
            edit.apply(EditOp::Insert(ch));
        }
    }
}

#[test]
fn typing_builds_lines_and_moves_the_caret() {
    let mut e = CommentEdit::new_comment(anchor(), "main".to_string(), None);
    assert_eq!(e.cursor, (0, 0));
    typed(&mut e, "hé\nworld");
    assert_eq!(e.buffer, "hé\nworld");
    assert_eq!(e.cursor, (1, 5));
    assert_eq!(e.preferred_col, 5);
    assert!(e.editing_id.is_none());
}

#[test]
fn backspace_at_line_start_joins_lines() {
    let mut e = CommentEdit::new_comment(anchor(), "main".to_string(), None);
    typed(&mut e, "ab\ncd");
    e.apply(EditOp::Home);
    assert_eq!(e.cursor, (1, 0));
    e.apply(EditOp::Backspace);
    assert_eq!(e.buffer, "abcd");
    assert_eq!(e.cursor, (0, 2));
    e.apply(EditOp::Backspace);
    assert_eq!(e.buffer, "acd");
    assert_eq!(e.cursor, (0, 1));
}

#[test]
fn delete_at_line_end_joins_the_next_line() {
    let mut e = CommentEdit::edit("one\ntwo".to_string(), anchor(), 4, "main".to_string(), None);
    assert_eq!(e.cursor, (1, 3));
    assert_eq!(e.original_text, "one\ntwo");
    assert_eq!(e.editing_id, Some(4));
    e.apply(EditOp::Up);
    assert_eq!(e.cursor, (0, 3));
    e.apply(EditOp::Delete);
    assert_eq!(e.buffer, "onetwo");
    e.apply(EditOp::Delete);
    assert_eq!(e.buffer, "onewo");
    e.apply(EditOp::End);
    e.apply(EditOp::Delete);
    assert_eq!(e.buffer, "onewo");
}

#[test]
fn vertical_moves_keep_the_preferred_column() {
    let mut e = CommentEdit::edit("abcdef\nx\nabcdef".to_string(), anchor(), 1, "main".to_string(), None);
    assert_eq!(e.cursor, (2, 6));
    e.apply(EditOp::Left);
    assert_eq!(e.cursor, (2, 5));
    assert_eq!(e.preferred_col, 5);
    e.apply(EditOp::Up);
    assert_eq!(e.cursor, (1, 1));
    assert_eq!(e.preferred_col, 5);
    e.apply(EditOp::Up);
    assert_eq!(e.cursor, (0, 5));
    e.apply(EditOp::Down);
    e.apply(EditOp::Down);
    assert_eq!(e.cursor, (2, 5));
    e.apply(EditOp::Down);
    assert_eq!(e.cursor, (2, 5));
}

#[test]
fn left_and_right_cross_line_boundaries() {
    let mut e = CommentEdit::edit("ab\nc".to_string(), anchor(), 1, "main".to_string(), None);
    e.apply(EditOp::Home);
    e.apply(EditOp::Left);
    assert_eq!(e.cursor, (0, 2));
    e.apply(EditOp::Right);
    assert_eq!(e.cursor, (1, 0));
    e.apply(EditOp::End);
    e.apply(EditOp::Right);
    assert_eq!(e.cursor, (1, 1));
}

#[test]
fn wide_and_tab_characters_widen_the_display_column() {
    assert_eq!(char_width('中'), 2);
    assert_eq!(char_width('a'), 1);
    assert_eq!(char_width('\u{7}'), 0);
    assert_eq!(editor_char_width('\t'), 4);
    assert_eq!(editor_char_width('\u{1b}'), 0);
    assert_eq!(display_col("中a\tb", 3), 7);
    assert_eq!(display_col("ab", 9), 2);
    assert_eq!(col_at_display("中中中", 3), 1);
    assert_eq!(col_at_display("中中中", 4), 2);
    assert_eq!(col_at_display("ab", 10), 2);
}

#[test]
fn line_helpers_split_on_newlines() {
    let cs: Vec<char> = "a\n\nbc\n".chars().collect();
    assert_eq!(line_count(&cs), 4);
    assert_eq!(line_str("a\n\nbc\n", 2), "bc");
    assert_eq!(line_str("a\n\nbc\n", 3), "");
    assert_eq!(line_str("a\n\nbc\n", 9), "");
}

#[test]
fn newline_then_backspace_restores_the_text() {
    let mut e = CommentEdit::edit("hello".to_string(), anchor(), 1, "main".to_string(), None);
    e.apply(EditOp::Left);
    e.apply(EditOp::Left);
    e.apply(EditOp::Newline);
    assert_eq!(e.buffer, "hel\nlo");
    assert_eq!(e.cursor, (1, 0));
    e.apply(EditOp::Backspace);
    assert_eq!(e.buffer, "hello");
    assert_eq!(e.cursor, (0, 3));
}

#[test]
fn saving_decides_cancel_unchanged_or_submit() {
    let mut e = CommentEdit::new_comment(anchor(), "main".to_string(), None);
    assert_eq!(save_step(&e), SaveStep::Cancel);
    typed(&mut e, "  \n ");
    assert_eq!(save_step(&e), SaveStep::Cancel);
    typed(&mut e, "x");
    assert_eq!(save_step(&e), SaveStep::Submit);
    let e = CommentEdit::edit("same".to_string(), anchor(), 2, "main".to_string(), None);
    assert_eq!(save_step(&e), SaveStep::Unchanged);
}

#[test]
fn submitting_new_and_edited_notes() {
    let mut store = Store::default();
    match submit_new(&mut store, "feature", &anchor(), "please rename", 99, None) {
        SubmitOutcome::Added { id, set } => {
            assert_eq!(id, 1);
            assert_eq!(set.len(), 1);
            assert_eq!(set[0].source, Source::Human);
            assert_eq!(set[0].context.as_deref(), Some("let x = 1;"));
            assert_eq!(set[0].line, 7);
        }
        _ => panic!("expected an added note"),
    }
    match submit_edit(&mut store, "feature", 1, "please rename it") {
        (SubmitOutcome::Updated { id, set }, true) => {
            assert_eq!(id, 1);
            assert_eq!(set[0].text, "please rename it");
            // Everything but the text is kept.
            assert_eq!((set[0].source, set[0].line, set[0].created_at), (Source::Human, 7, 99));
            assert_eq!(set[0].context.as_deref(), Some("let x = 1;"));
        }
        _ => panic!("expected an update"),
    }
    assert!(matches!(submit_edit(&mut store, "feature", 1, "please rename it"), (SubmitOutcome::Updated { .. }, false)));
    assert!(matches!(submit_edit(&mut store, "feature", 7, "x"), (SubmitOutcome::Vanished { .. }, false)));
    match submit_edit(&mut store, "gone", 1, "x") {
        (SubmitOutcome::Vanished { set }, false) => assert!(set.is_empty()),
        _ => panic!("expected a vanished note"),
    }
    assert_eq!(store.branches[0].1.comments[0].text, "please rename it");
}

fn fresh() -> CommentEdit {
    CommentEdit::new_comment(anchor(), "main".to_string(), None)
}

#[test]
fn backspace_undoes_one_character_or_one_line_break() {
    let mut e = fresh();
    for ch in "ab".chars() {
        e.apply(EditOp::Insert(ch));
    }
    e.apply(EditOp::Newline);
    e.apply(EditOp::Insert('c'));
    e.apply(EditOp::Up);
    e.apply(EditOp::Home);
    e.apply(EditOp::Right);
    let (b0, c0) = (e.buffer.clone(), e.cursor);
    e.apply(EditOp::Insert('x'));
    assert_eq!(e.buffer, "axb\nc");
    e.apply(EditOp::Backspace);
    assert_eq!((e.buffer.clone(), e.cursor), (b0.clone(), c0));
    e.apply(EditOp::Newline);
    assert_eq!((e.buffer.as_str(), e.cursor), ("a\nb\nc", (1, 0)));
    e.apply(EditOp::Backspace);
    assert_eq!((e.buffer.clone(), e.cursor), (b0, c0));
}

#[test]
fn the_caret_stays_on_a_character_position() {
    let mut e = fresh();
    let ops = [
        EditOp::Insert('a'),
        EditOp::Insert('b'),
        EditOp::Newline,
        EditOp::Insert('c'),
        EditOp::Left,
        EditOp::Left,
        EditOp::Backspace,
        EditOp::Delete,
        EditOp::End,
        EditOp::Right,
        EditOp::Up,
        EditOp::Down,
        EditOp::Home,
        EditOp::Delete,
    ];
    for op in ops {
        e.apply(op);
        let line = e.buffer.split('\n').nth(e.cursor.0).expect("the caret's line exists");
        assert!(e.cursor.1 <= line.chars().count(), "{:?} left the caret past its line", op);
    }
}

#[test]
fn a_note_written_in_a_review_stamps_a_missing_range() {
    let mut store = Store::default();
    assert!(matches!(submit_new(&mut store, "feature", &anchor(), "one", 1, Some("main")), SubmitOutcome::Added { id: 1, .. }));
    assert_eq!(store.branches[0].1.range.as_deref(), Some("main"));
    // A recorded range is kept.
    assert!(matches!(submit_new(&mut store, "feature", &anchor(), "two", 2, Some("dev")), SubmitOutcome::Added { id: 2, .. }));
    assert_eq!(store.branches[0].1.range.as_deref(), Some("main"));
    assert_eq!(store.branches[0].1.comments.len(), 2);
    // A worktree note records none.
    submit_new(&mut store, "other", &anchor(), "three", 3, None);
    assert_eq!(store.branches[1].1.range, None);
}
