use strix::boxes::{comment_box_rows, editor_box_rows};
use strix::comments::{Comment, Side, Source};
use strix::editor::{CommentAnchor, CommentEdit, EditOp};
use strix::view::{BoxPart, BoxPlacement, EditorPart, RowContent, RowTarget};

fn note(text: &str, side: Side) -> Comment {
    Comment {
        id: 4,
        source: Source::Agent,
        file: "a.rs".to_string(),
        side,
        line: 3,
        text: text.to_string(),
        context: None,
        orphaned: false,
        created_at: 0,
    }
}

fn part_text(content: &RowContent) -> String {
    match content {
        RowContent::Box(b) => match &b.part {
            BoxPart::Title(t) | BoxPart::Body(t) => t.clone(),
            BoxPart::Bottom => "<bottom>".to_string(),
        },
        _ => panic!("not a box row"),
    }
}

#[test]
fn a_comment_box_is_title_body_bottom() {
    let rows = comment_box_rows(&note("hello world", Side::New), false, false, BoxPlacement::Unified(20));
    assert_eq!(rows.len(), 3);
    let texts: Vec<String> = rows.iter().map(|r| part_text(&r.content)).collect();
    assert_eq!(texts, vec!["● agent — a.rs R3".to_string(), "hello world".to_string(), "<bottom>".to_string()]);
    for (i, row) in rows.iter().enumerate() {
        assert_eq!(row.target, RowTarget::Comment(4));
        assert_eq!(row.subrow, i);
        assert_eq!(row.side, None);
    }
}

#[test]
fn an_orphan_box_wraps_in_its_side_column() {
    let placement = BoxPlacement::Sbs { left_w: 10, right_w: 30 };
    let rows = comment_box_rows(&note("one two three four", Side::Old), true, true, placement);
    // Inner width 6 on the old side: "one", "two", "three", "four".
    let texts: Vec<String> = rows.iter().map(|r| part_text(&r.content)).collect();
    assert_eq!(
        texts,
        vec![
            "⚠ agent — a.rs R3".to_string(),
            "one".to_string(),
            "two".to_string(),
            "three".to_string(),
            "four".to_string(),
            "<bottom>".to_string()
        ]
    );
    assert!(rows.iter().all(|r| r.target == RowTarget::Orphan(4) && r.side == Some(Side::Old)));
    assert!(rows.iter().all(|r| matches!(&r.content, RowContent::Box(b) if b.stale && b.id == 4)));
}

#[test]
fn the_editor_box_marks_the_caret_row() {
    let anchor = CommentAnchor { file: "a.rs".to_string(), side: Side::New, line: 3, context: None };
    let mut edit = CommentEdit::new_comment(anchor, "main".to_string(), None);
    edit.apply(EditOp::Insert('a'));
    edit.apply(EditOp::Insert('b'));
    edit.apply(EditOp::Newline);
    edit.apply(EditOp::Insert('c'));
    let rows = editor_box_rows(&edit, BoxPlacement::Unified(20));
    assert_eq!(rows.len(), 4);
    match &rows[0].content {
        RowContent::Editor(EditorPart::Title(t)) => assert_eq!(t, "✎ you — a.rs R3"),
        _ => panic!("expected the editor title"),
    }
    match &rows[1].content {
        RowContent::Editor(EditorPart::Body { text, caret }) => {
            assert_eq!(text, "ab");
            assert_eq!(*caret, None);
        }
        _ => panic!("expected a body row"),
    }
    match &rows[2].content {
        RowContent::Editor(EditorPart::Body { text, caret }) => {
            assert_eq!(text, "c");
            assert_eq!(*caret, Some(1));
        }
        _ => panic!("expected a body row"),
    }
    assert!(matches!(&rows[3].content, RowContent::Editor(EditorPart::Bottom)));
    assert!(rows.iter().all(|r| r.target == RowTarget::Editor));
}
