use strix::comments::{Comment, Side, Source};
use strix::editor::CommentAnchor;
use strix::git::diff::{DiffLine, LineKind};
use strix::git::history::{ChangeKind, CommitFile, CommitStat};
use strix::view::{
    anchor_for_line, box_body_width, commit_file_header, box_title_text, comment_placements, comments_after, editor_title_text,
    header_rows, push_char, sbs_columns, side_rank, side_by_side_rows, split_label, target_comment_id, target_span,
    BoxPlacement, FileHeaderRow, Flash, FlashKind, HeaderPart, LayoutRow, RowContent, RowTarget, SbsCode, Seg,
};

fn dl(kind: LineKind, old_no: Option<usize>, new_no: Option<usize>, text: &str) -> DiffLine {
    DiffLine { kind, old_no, new_no, text: text.to_string() }
}

fn comment(id: u64, file: &str, side: Side, line: usize, orphaned: bool) -> Comment {
    Comment {
        id,
        source: Source::Human,
        file: file.to_string(),
        side,
        line,
        text: String::new(),
        context: None,
        orphaned,
        created_at: 0,
    }
}

fn code_row(target: RowTarget) -> LayoutRow {
    LayoutRow { target, subrow: 0, side: None, content: RowContent::Hunk(0) }
}

#[test]
fn split_label_parts_read_as_the_list_label() {
    assert_eq!(split_label("src/ui/mod.rs", None), ("src/ui/".to_string(), "mod.rs".to_string()));
    assert_eq!(split_label("README.md", None), (String::new(), "README.md".to_string()));
    assert_eq!(split_label("vendor/", None), (String::new(), "vendor/".to_string()));
    assert_eq!(
        split_label("src/new.rs", Some("old/name.rs")),
        ("old/name.rs → src/".to_string(), "new.rs".to_string())
    );
}

#[test]
fn sbs_columns_split_around_a_divider() {
    assert_eq!(sbs_columns(0), (0, 0));
    assert_eq!(sbs_columns(1), (0, 0));
    assert_eq!(sbs_columns(80), (39, 40));
    assert_eq!(sbs_columns(81), (40, 40));
    assert_eq!(box_body_width(40), 36);
    assert_eq!(box_body_width(5), 1);
    assert_eq!(box_body_width(0), 1);
}

#[test]
fn side_by_side_zips_deletions_with_additions() {
    let lines = vec![
        dl(LineKind::Hunk, None, None, "@@"),
        dl(LineKind::Context, Some(1), Some(1), "a"),
        dl(LineKind::Deletion, Some(2), None, "b"),
        dl(LineKind::Deletion, Some(3), None, "c"),
        dl(LineKind::Addition, None, Some(2), "B"),
        dl(LineKind::Context, Some(4), Some(3), "d"),
        dl(LineKind::Addition, None, Some(4), "e"),
    ];
    let rows = side_by_side_rows(&lines);
    assert_eq!(
        rows,
        vec![
            SbsCode::Hunk(0),
            SbsCode::Pair { left: Some(1), right: Some(1) },
            SbsCode::Pair { left: Some(2), right: Some(4) },
            SbsCode::Pair { left: Some(3), right: None },
            SbsCode::Pair { left: Some(5), right: Some(5) },
            SbsCode::Pair { left: None, right: Some(6) },
        ]
    );
}

#[test]
fn comments_are_placed_below_their_lines_or_orphaned() {
    let lines = vec![
        dl(LineKind::Context, Some(1), Some(1), "a"),
        dl(LineKind::Deletion, Some(2), None, "b"),
        dl(LineKind::Addition, None, Some(2), "B"),
    ];
    let comments = vec![
        comment(7, "f.rs", Side::New, 2, false),
        comment(3, "f.rs", Side::Old, 2, false),
        comment(5, "f.rs", Side::New, 2, false),
        comment(9, "f.rs", Side::New, 40, false),
        comment(2, "f.rs", Side::New, 1, true),
        comment(1, "other.rs", Side::New, 1, false),
    ];
    let (orphans, placements) = comment_placements(&lines, &comments, "f.rs");
    assert_eq!(orphans, vec![2, 9]);
    assert_eq!(placements, vec![(1, vec![3]), (2, vec![5, 7])]);
    assert_eq!(comments_after(&placements, 2), &[5, 7]);
    assert!(comments_after(&placements, 0).is_empty());
}

#[test]
fn anchors_follow_the_line_kind() {
    let add = anchor_for_line(&dl(LineKind::Addition, None, Some(4), "x"), "f.rs".to_string()).unwrap();
    assert_eq!((add.side, add.line, add.context.as_deref()), (Side::New, 4, Some("x")));
    let del = anchor_for_line(&dl(LineKind::Deletion, Some(3), None, "y"), "f.rs".to_string()).unwrap();
    assert_eq!((del.side, del.line), (Side::Old, 3));
    let ctx = anchor_for_line(&dl(LineKind::Context, Some(8), Some(9), "z"), "f.rs".to_string()).unwrap();
    assert_eq!((ctx.side, ctx.line), (Side::New, 9));
    assert!(anchor_for_line(&dl(LineKind::Hunk, None, None, "@@"), "f.rs".to_string()).is_none());
    assert!(anchor_for_line(&dl(LineKind::Addition, None, None, "?"), "f.rs".to_string()).is_none());
}

#[test]
fn titles_name_author_file_and_line() {
    let mut c = comment(1, "src/app.rs", Side::New, 120, false);
    assert_eq!(box_title_text(&c, false), "● you — src/app.rs R120");
    c.source = Source::Agent;
    assert_eq!(box_title_text(&c, true), "⚠ agent — src/app.rs R120");
    let anchor = CommentAnchor { file: "a.rs".to_string(), side: Side::Old, line: 3, context: None };
    assert_eq!(editor_title_text(&anchor), "✎ you — a.rs R3");
}

#[test]
fn header_rows_lead_with_a_rule_except_for_the_first_file() {
    let header = FileHeaderRow {
        marker: 'M',
        part: HeaderPart::Band,
        prefix: "src/".to_string(),
        name: "a.rs".to_string(),
        stat: CommitStat { added: 2, deleted: 1, binary: false },
    };
    let first = header_rows(header.clone(), true);
    assert_eq!(first.len(), 1);
    let rest = header_rows(header, false);
    assert_eq!(rest.len(), 2);
    assert_eq!((rest[0].subrow, rest[1].subrow), (0, 1));
    match (&rest[0].content, &rest[1].content) {
        (RowContent::FileHeader(a), RowContent::FileHeader(b)) => {
            assert_eq!(a.part, HeaderPart::Rule);
            assert_eq!(b.part, HeaderPart::Band);
            assert_eq!(b.name, "a.rs");
        }
        _ => panic!("expected header rows"),
    }
    assert!(rest.iter().all(|r| r.target == RowTarget::FileHeader));
}

#[test]
fn target_spans_and_ids() {
    let rows = vec![
        code_row(RowTarget::Code(0)),
        code_row(RowTarget::Comment(4)),
        code_row(RowTarget::Comment(4)),
        code_row(RowTarget::Code(1)),
    ];
    assert_eq!(target_span(&rows, RowTarget::Comment(4)), Some((1, 3)));
    assert_eq!(target_span(&rows, RowTarget::Code(1)), Some((3, 4)));
    assert_eq!(target_span(&rows, RowTarget::Editor), None);
    assert_eq!(target_comment_id(RowTarget::Orphan(9)), Some(9));
    assert_eq!(target_comment_id(RowTarget::FileHeader), None);
}

#[test]
fn emphasis_ranges_merge_consecutive_chars() {
    let mut ranges = Vec::new();
    for idx in [2, 3, 4, 7, 9, 10] {
        push_char(&mut ranges, idx);
    }
    assert_eq!(ranges, vec![2..5, 7..8, 9..11]);
}

#[test]
fn small_view_values() {
    assert_eq!(Seg::full(12), Seg { start_char: 0, end_char: 12 });
    let f = Flash::error("stage failed".to_string());
    assert_eq!(f.kind, FlashKind::Error);
    assert_eq!(Flash::info("theme: dark".to_string()).text, "theme: dark");
    assert_eq!(BoxPlacement::Unified(30).column_for(Side::Old), (None, 30));
    assert_eq!(BoxPlacement::Sbs { left_w: 10, right_w: 11 }.column_for(Side::New), (Some(Side::New), 11));
}

#[test]
fn old_side_comments_rank_first() {
    assert!(side_rank(Side::Old) < side_rank(Side::New));
    assert_eq!(side_rank(Side::Old), 0);
    assert_eq!(side_rank(Side::New), 1);
}

#[test]
fn a_committed_file_header_splits_its_label() {
    let file = CommitFile {
        path: "src/new.rs".to_string(),
        orig_path: Some("old/name.rs".to_string()),
        change: ChangeKind::Renamed,
        stat: CommitStat { added: 3, deleted: 1, binary: false },
    };
    let h = commit_file_header(&file);
    assert_eq!(h.marker, 'R');
    assert_eq!(h.part, HeaderPart::Band);
    assert_eq!(h.prefix, "old/name.rs → src/");
    assert_eq!(h.name, "new.rs");
    assert_eq!(h.stat, CommitStat { added: 3, deleted: 1, binary: false });
}
