use strix::comments::{Comment, Side, Source};
use strix::editor::{CommentAnchor, CommentEdit};
use strix::git::diff::{DiffLine, LineKind};
use strix::layout::{editor_new_anchor_line, unified_layout, with_editor_fallback};
use strix::view::{BoxPart, EditorPart, LayoutRow, RowContent, RowTarget, Seg};

fn note(id: u64, line: usize, text: &str) -> Comment {
    Comment {
        id,
        source: Source::Human,
        file: "a.rs".to_string(),
        side: Side::New,
        line,
        text: text.to_string(),
        context: None,
        orphaned: false,
        created_at: 0,
    }
}

fn anchor(line: usize) -> CommentAnchor {
    CommentAnchor { file: "a.rs".to_string(), side: Side::New, line, context: None }
}

fn line(kind: LineKind, old_no: Option<usize>, new_no: Option<usize>) -> DiffLine {
    DiffLine { kind, old_no, new_no, text: "x".to_string() }
}

fn skeleton(rows: &[LayoutRow]) -> Vec<(RowTarget, usize)> {
    rows.iter().map(|r| (r.target, r.subrow)).collect()
}

fn segs() -> Vec<Vec<Seg>> {
    vec![
        vec![Seg { start_char: 0, end_char: 3 }],
        vec![Seg { start_char: 0, end_char: 4 }, Seg { start_char: 4, end_char: 6 }],
        vec![Seg { start_char: 0, end_char: 0 }],
    ]
}

#[test]
fn orphans_lead_then_lines_then_their_boxes() {
    let comments = vec![note(4, 2, "hi"), note(9, 7, "gone")];
    let placements = vec![(1usize, vec![4u64])];
    let rows = unified_layout(&segs(), &[9], &placements, &comments, None, None, 30);
    assert_eq!(
        skeleton(&rows),
        vec![
            (RowTarget::Orphan(9), 0),
            (RowTarget::Orphan(9), 1),
            (RowTarget::Orphan(9), 2),
            (RowTarget::Code(0), 0),
            (RowTarget::Code(1), 0),
            (RowTarget::Code(1), 1),
            (RowTarget::Comment(4), 0),
            (RowTarget::Comment(4), 1),
            (RowTarget::Comment(4), 2),
            (RowTarget::Code(2), 0),
        ]
    );
    match &rows[5].content {
        RowContent::Line { line, seg } => {
            assert_eq!(*line, 1);
            assert_eq!(*seg, Seg { start_char: 4, end_char: 6 });
        }
        _ => panic!("expected a code row"),
    }
    match &rows[1].content {
        RowContent::Box(b) => {
            assert_eq!(b.id, 9);
            assert!(matches!(&b.part, BoxPart::Body(t) if t == "gone"));
        }
        _ => panic!("expected an orphan box row"),
    }
    match &rows[7].content {
        RowContent::Box(b) => assert!(matches!(&b.part, BoxPart::Body(t) if t == "hi")),
        _ => panic!("expected a comment box row"),
    }
}

#[test]
fn an_unknown_id_draws_no_box() {
    let comments = vec![note(4, 2, "hi")];
    let placements = vec![(0usize, vec![77u64])];
    let rows = unified_layout(&segs(), &[55], &placements, &comments, None, None, 30);
    assert_eq!(rows.len(), 4);
    assert!(rows.iter().all(|r| matches!(r.target, RowTarget::Code(_))));
}

#[test]
fn an_edited_comment_shows_the_editor_in_place_of_its_box() {
    let comments = vec![note(4, 2, "hi")];
    let placements = vec![(1usize, vec![4u64])];
    let edit = CommentEdit::edit("hi".to_string(), anchor(2), 4, "main".to_string(), None);
    let rows = unified_layout(&segs(), &[], &placements, &comments, Some(&edit), None, 30);
    let sk = skeleton(&rows);
    assert_eq!(sk[3], (RowTarget::Editor, 0));
    assert_eq!(sk[4], (RowTarget::Editor, 1));
    assert_eq!(sk[5], (RowTarget::Editor, 2));
    assert_eq!(sk[6], (RowTarget::Code(2), 0));
    assert!(!rows.iter().any(|r| matches!(r.target, RowTarget::Comment(_))));
    match &rows[4].content {
        RowContent::Editor(EditorPart::Body { text, caret }) => {
            assert_eq!(text, "hi");
            assert_eq!(*caret, Some(2));
        }
        _ => panic!("expected the editor body"),
    }
}

#[test]
fn a_new_comment_editor_follows_its_line() {
    let comments: Vec<Comment> = Vec::new();
    let placements: Vec<(usize, Vec<u64>)> = Vec::new();
    let edit = CommentEdit::new_comment(anchor(1), "main".to_string(), None);
    let rows = unified_layout(&segs(), &[], &placements, &comments, Some(&edit), Some(0), 30);
    assert_eq!(
        skeleton(&rows),
        vec![
            (RowTarget::Code(0), 0),
            (RowTarget::Editor, 0),
            (RowTarget::Editor, 1),
            (RowTarget::Editor, 2),
            (RowTarget::Code(1), 0),
            (RowTarget::Code(1), 1),
            (RowTarget::Code(2), 0),
        ]
    );
}

#[test]
fn the_new_anchor_line_is_the_first_with_that_number() {
    let lines = vec![
        line(LineKind::Hunk, None, None),
        line(LineKind::Deletion, Some(3), None),
        line(LineKind::Addition, None, Some(3)),
        line(LineKind::Context, Some(4), Some(3)),
    ];
    let edit = CommentEdit::new_comment(anchor(3), "main".to_string(), None);
    assert_eq!(editor_new_anchor_line(&edit, Some("a.rs"), &lines), Some(2));
    assert_eq!(editor_new_anchor_line(&edit, Some("b.rs"), &lines), None);
    assert_eq!(editor_new_anchor_line(&edit, None, &lines), None);
    let missing = CommentEdit::new_comment(anchor(40), "main".to_string(), None);
    assert_eq!(editor_new_anchor_line(&missing, Some("a.rs"), &lines), None);
    let old_side = CommentEdit::new_comment(
        CommentAnchor { file: "a.rs".to_string(), side: Side::Old, line: 4, context: None },
        "main".to_string(),
        None,
    );
    assert_eq!(editor_new_anchor_line(&old_side, Some("a.rs"), &lines), Some(3));
    let editing = CommentEdit::edit("x".to_string(), anchor(3), 1, "main".to_string(), None);
    assert_eq!(editor_new_anchor_line(&editing, Some("a.rs"), &lines), None);
}

#[test]
fn an_editor_without_a_row_falls_back_to_the_top() {
    let comments: Vec<Comment> = Vec::new();
    let placements: Vec<(usize, Vec<u64>)> = Vec::new();
    let edit = CommentEdit::new_comment(anchor(1), "main".to_string(), None);
    let rows = unified_layout(&segs(), &[], &placements, &comments, Some(&edit), None, 30);
    assert_eq!(rows.len(), 4);
    let with = with_editor_fallback(rows, Some(&edit), 30);
    assert_eq!(with.len(), 7);
    assert_eq!(skeleton(&with)[..3], [(RowTarget::Editor, 0), (RowTarget::Editor, 1), (RowTarget::Editor, 2)]);
    assert_eq!(skeleton(&with)[3], (RowTarget::Code(0), 0));

    let placed = unified_layout(&segs(), &[], &placements, &comments, Some(&edit), Some(2), 30);
    let n = placed.len();
    let kept = with_editor_fallback(placed, Some(&edit), 30);
    assert_eq!(kept.len(), n);
    assert_eq!(skeleton(&kept)[0], (RowTarget::Code(0), 0));

    let plain = unified_layout(&segs(), &[], &placements, &comments, None, None, 30);
    assert_eq!(with_editor_fallback(plain, None, 30).len(), 4);
}
