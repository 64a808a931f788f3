use std::rc::Rc;

use strix::comments::{Comment, Side, Source};
use strix::editor::{CommentAnchor, CommentEdit};
use strix::git::diff::{DiffLine, LineKind};
use strix::sbs::sbs_layout;
use strix::view::{LayoutRow, PairCell, PairEmphasis, RowContent, RowTarget, Seg};

fn line(kind: LineKind, old_no: Option<usize>, new_no: Option<usize>) -> DiffLine {
    DiffLine { kind, old_no, new_no, text: "x".to_string() }
}

fn lines() -> Vec<DiffLine> {
    vec![
        line(LineKind::Hunk, None, None),
        line(LineKind::Context, Some(1), Some(1)),
        line(LineKind::Deletion, Some(2), None),
        line(LineKind::Deletion, Some(3), None),
        line(LineKind::Addition, None, Some(2)),
        line(LineKind::Context, Some(4), Some(3)),
    ]
}

fn seg(a: usize, b: usize) -> Seg {
    Seg { start_char: a, end_char: b }
}

fn segs() -> (Vec<Vec<Seg>>, Vec<Vec<Seg>>) {
    let left = vec![vec![], vec![seg(0, 1)], vec![seg(0, 1)], vec![seg(0, 1)], vec![seg(0, 1)], vec![seg(0, 1)]];
    let right = vec![vec![], vec![seg(0, 1)], vec![seg(0, 1)], vec![seg(0, 1)], vec![seg(0, 5), seg(5, 7)], vec![seg(0, 1)]];
    (left, right)
}

fn note(id: u64, side: Side, line: usize, text: &str) -> Comment {
    Comment {
        id,
        source: Source::Human,
        file: "a.rs".to_string(),
        side,
        line,
        text: text.to_string(),
        context: None,
        orphaned: false,
        created_at: 0,
    }
}

fn shape(rows: &[LayoutRow]) -> Vec<(RowTarget, usize, Option<Side>)> {
    rows.iter().map(|r| (r.target, r.subrow, r.side)).collect()
}

fn emphasis() -> (Rc<PairEmphasis>, Vec<Option<Rc<PairEmphasis>>>) {
    let e = Rc::new(PairEmphasis { old_ranges: vec![0..1], new_ranges: vec![2..4] });
    let all = vec![None, Some(e.clone()), Some(e.clone()), None, None];
    (e, all)
}

#[test]
fn pairs_wrap_to_the_taller_side_and_boxes_take_their_column() {
    let (left, right) = segs();
    let (e, emph) = emphasis();
    let comments = vec![note(7, Side::Old, 2, "old"), note(8, Side::New, 3, "new"), note(9, Side::New, 40, "gone")];
    let placements = vec![(2usize, vec![7u64]), (5usize, vec![8u64])];
    let rows = sbs_layout(&lines(), &left, &right, &emph, &[9], &placements, &comments, None, None, 41);
    assert_eq!(
        shape(&rows),
        vec![
            (RowTarget::Orphan(9), 0, None),
            (RowTarget::Orphan(9), 1, None),
            (RowTarget::Orphan(9), 2, None),
            (RowTarget::Code(0), 0, None),
            (RowTarget::Code(1), 0, None),
            (RowTarget::Code(4), 0, None),
            (RowTarget::Code(4), 1, None),
            (RowTarget::Comment(7), 0, Some(Side::Old)),
            (RowTarget::Comment(7), 1, Some(Side::Old)),
            (RowTarget::Comment(7), 2, Some(Side::Old)),
            (RowTarget::Code(3), 0, None),
            (RowTarget::Code(5), 0, None),
            (RowTarget::Comment(8), 0, Some(Side::New)),
            (RowTarget::Comment(8), 1, Some(Side::New)),
            (RowTarget::Comment(8), 2, Some(Side::New)),
        ]
    );
    assert!(matches!(rows[3].content, RowContent::Hunk(0)));
    match &rows[4].content {
        RowContent::Pair { left, right, emphasis } => {
            assert_eq!(*left, Some(PairCell { line: 1, seg: Some(seg(0, 1)) }));
            assert_eq!(*right, Some(PairCell { line: 1, seg: Some(seg(0, 1)) }));
            assert!(emphasis.is_none());
        }
        _ => panic!("expected a context pair"),
    }
    match &rows[6].content {
        RowContent::Pair { left, right, emphasis } => {
            assert_eq!(*left, Some(PairCell { line: 2, seg: None }));
            assert_eq!(*right, Some(PairCell { line: 4, seg: Some(seg(5, 7)) }));
            assert!(Rc::ptr_eq(emphasis.as_ref().unwrap(), &e));
        }
        _ => panic!("expected a modified pair"),
    }
    match &rows[10].content {
        RowContent::Pair { left, right, emphasis } => {
            assert_eq!(*left, Some(PairCell { line: 3, seg: Some(seg(0, 1)) }));
            assert_eq!(*right, None);
            assert!(emphasis.is_none());
        }
        _ => panic!("expected a deletion-only pair"),
    }
}

#[test]
fn a_new_comment_editor_opens_in_its_column_after_the_pair() {
    let (left, right) = segs();
    let (_, emph) = emphasis();
    let comments: Vec<Comment> = Vec::new();
    let placements: Vec<(usize, Vec<u64>)> = Vec::new();
    let anchor = CommentAnchor { file: "a.rs".to_string(), side: Side::New, line: 2, context: None };
    let edit = CommentEdit::new_comment(anchor, "main".to_string(), None);
    let rows = sbs_layout(&lines(), &left, &right, &emph, &[], &placements, &comments, Some(&edit), Some(4), 41);
    let sk = shape(&rows);
    assert_eq!(sk.len(), 9);
    assert_eq!(sk[4], (RowTarget::Editor, 0, Some(Side::New)));
    assert_eq!(sk[5], (RowTarget::Editor, 1, Some(Side::New)));
    assert_eq!(sk[6], (RowTarget::Editor, 2, Some(Side::New)));
    assert_eq!(sk[7], (RowTarget::Code(3), 0, None));
}

#[test]
fn an_edited_orphan_shows_the_editor_full_width() {
    let (left, right) = segs();
    let comments = vec![note(9, Side::Old, 40, "gone")];
    let placements: Vec<(usize, Vec<u64>)> = Vec::new();
    let anchor = CommentAnchor { file: "a.rs".to_string(), side: Side::Old, line: 40, context: None };
    let edit = CommentEdit::edit("gone".to_string(), anchor, 9, "main".to_string(), None);
    let rows = sbs_layout(&lines(), &left, &right, &Vec::new(), &[9], &placements, &comments, Some(&edit), None, 41);
    let sk = shape(&rows);
    assert_eq!(&sk[..3], &[(RowTarget::Editor, 0, None), (RowTarget::Editor, 1, None), (RowTarget::Editor, 2, None)]);
    assert_eq!(sk.len(), 3 + 6);
    assert!(rows[3..].iter().all(|r| matches!(r.target, RowTarget::Code(_))));
    for r in &rows[3..] {
        if let RowContent::Pair { emphasis, .. } = &r.content {
            assert!(emphasis.is_none());
        }
    }
}

#[test]
fn lines_without_segments_still_take_one_row() {
    let none: Vec<Vec<Seg>> = Vec::new();
    let placements: Vec<(usize, Vec<u64>)> = Vec::new();
    let comments: Vec<Comment> = Vec::new();
    let rows = sbs_layout(&lines(), &none, &none, &Vec::new(), &[], &placements, &comments, None, None, 0);
    assert_eq!(rows.len(), 5);
    match &rows[2].content {
        RowContent::Pair { left, right, .. } => {
            assert_eq!(*left, Some(PairCell { line: 2, seg: None }));
            assert_eq!(*right, Some(PairCell { line: 4, seg: None }));
        }
        _ => panic!("expected a pair"),
    }
}
