use strix::comments::Side;
use strix::pointer::{
    diff_row_at, in_side_column, is_double_click, on_divider, on_hdivider, on_mouse, pane_at, register_click,
    click_in_editor, hit_target, on_click, on_scroll, resize_changes, resize_committed, route_left_down, same_hit, ClickRegion, ClickRoute,
    DragState, HitTarget, ListOffsets, MouseAction, MouseKind, PaneAreas, Position, Rect, Splits, WheelRoute,
    DOUBLE_CLICK_NANOS,
};
use strix::view::{Focus, LayoutRow, RowContent, RowTarget, Seg, ViewMode};

fn pos(x: u16, y: u16) -> Position {
    Position { x, y }
}

fn rect(x: u16, y: u16, width: u16, height: u16) -> Rect {
    Rect { x, y, width, height }
}

fn splits(view: ViewMode, show: bool) -> Splits {
    Splits {
        view,
        show_changes: show,
        body: rect(0, 1, 100, 30),
        divider_x: 30,
        left_col: rect(0, 1, 30, 30),
        hdivider_y: 12,
    }
}

fn target(region: ClickRegion) -> HitTarget {
    HitTarget { generation: 3, view: ViewMode::Status, file: Some("a.rs".to_string()), region }
}

#[test]
fn rects_contain_their_cells_only() {
    let r = rect(2, 3, 4, 2);
    assert!(r.contains(pos(2, 3)));
    assert!(r.contains(pos(5, 4)));
    assert!(!r.contains(pos(6, 4)));
    assert!(!r.contains(pos(5, 5)));
    assert!(!r.contains(pos(1, 3)));
    // The far edge stops at the screen's.
    let edge = rect(u16::MAX - 1, 0, 10, 1);
    assert!(edge.contains(pos(u16::MAX - 1, 0)));
    assert!(!edge.contains(pos(u16::MAX, 0)));
}

#[test]
fn the_divider_is_two_columns_wide_on_body_rows() {
    let sp = splits(ViewMode::Status, true);
    assert!(on_divider(sp, pos(30, 5)));
    assert!(on_divider(sp, pos(29, 5)));
    assert!(!on_divider(sp, pos(31, 5)));
    assert!(!on_divider(sp, pos(30, 0)));
    assert!(!on_divider(splits(ViewMode::Status, false), pos(30, 5)));
}

#[test]
fn the_hdivider_exists_only_in_history() {
    let sp = splits(ViewMode::History, true);
    assert!(on_hdivider(sp, pos(10, 12)));
    assert!(on_hdivider(sp, pos(10, 11)));
    assert!(!on_hdivider(sp, pos(10, 13)));
    assert!(!on_hdivider(sp, pos(30, 12)));
    assert!(!on_hdivider(splits(ViewMode::Status, true), pos(10, 12)));
    assert!(!on_hdivider(splits(ViewMode::History, false), pos(10, 12)));
}

#[test]
fn panes_and_rows_under_the_pointer() {
    let diff = rect(31, 1, 69, 20);
    let staging = rect(0, 1, 30, 20);
    assert_eq!(pane_at(diff, staging, pos(40, 5)), Some(Focus::Diff));
    assert_eq!(pane_at(diff, staging, pos(3, 5)), Some(Focus::Staging));
    assert_eq!(pane_at(diff, staging, pos(30, 5)), None);
    assert_eq!(diff_row_at(diff, 100, pos(40, 5)), Some(104));
    assert_eq!(diff_row_at(diff, 100, pos(40, 21)), None);
}

#[test]
fn side_columns_split_at_the_divider() {
    let diff = rect(10, 0, 41, 5);
    // Left column 20 wide: [10, 30); divider at 30; right column from 31.
    assert!(in_side_column(diff, pos(29, 0), Some(Side::Old)));
    assert!(!in_side_column(diff, pos(30, 0), Some(Side::Old)));
    assert!(!in_side_column(diff, pos(30, 0), Some(Side::New)));
    assert!(in_side_column(diff, pos(31, 0), Some(Side::New)));
    assert!(in_side_column(diff, pos(30, 0), None));
}

#[test]
fn dragging_resizes_within_the_minimums() {
    let body = rect(0, 1, 100, 30);
    assert_eq!(resize_changes(body, pos(40, 5)), 40);
    assert!(resize_changes(body, pos(0, 5)) > 0);
    let left = rect(0, 1, 30, 30);
    let h = resize_committed(left, pos(5, 11));
    assert_eq!(h, 10);
    assert!(resize_committed(left, pos(5, 30)) <= 30);
}

#[test]
fn presses_on_a_bar_start_its_drag_and_release_ends_it() {
    let sp = splits(ViewMode::History, true);
    let idle = DragState::idle();
    let (s, click) = route_left_down(idle, pos(30, 5), sp);
    assert!(s.dragging_divider && !click);
    assert!(s.divider_engaged());
    let (s2, action, forget) = on_mouse(s, false, MouseKind::LeftDrag, pos(40, 5), sp);
    assert_eq!(action, MouseAction::ResizeChanges);
    assert!(forget);
    let (done, action, _) = on_mouse(s2, false, MouseKind::LeftUp, pos(40, 5), sp);
    assert_eq!(action, MouseAction::Redraw);
    assert!(!done.dragging_divider && !done.dragging_hdivider);
    let (h, click) = route_left_down(idle, pos(10, 12), sp);
    assert!(h.dragging_hdivider && !click);
    assert_eq!(on_mouse(h, false, MouseKind::LeftDrag, pos(10, 15), sp).1, MouseAction::ResizeCommitted);
    let (plain, click) = route_left_down(idle, pos(60, 5), sp);
    assert_eq!(plain, idle);
    assert!(click);
}

#[test]
fn hovering_redraws_only_on_change_and_a_modal_swallows_everything() {
    let sp = splits(ViewMode::Status, true);
    let idle = DragState::idle();
    let (s, action, _) = on_mouse(idle, false, MouseKind::Moved, pos(30, 5), sp);
    assert!(s.hovering_divider);
    assert_eq!(action, MouseAction::Hovered { changed: true });
    let (_, action, _) = on_mouse(s, false, MouseKind::Moved, pos(29, 6), sp);
    assert_eq!(action, MouseAction::Hovered { changed: false });
    assert_eq!(on_mouse(s, true, MouseKind::LeftDown, pos(29, 6), sp), (s, MouseAction::Ignored, false));
    assert_eq!(on_mouse(idle, false, MouseKind::ScrollUp, pos(1, 1), sp), (idle, MouseAction::Scroll { down: false }, true));
    assert_eq!(on_mouse(idle, false, MouseKind::ScrollRight, pos(1, 1), sp), (idle, MouseAction::HScroll { right: true }, true));
    assert_eq!(on_mouse(idle, false, MouseKind::LeftDown, pos(1, 1), sp), (idle, MouseAction::Press, false));
}

#[test]
fn a_double_click_needs_the_same_target_in_time() {
    let t = target(ClickRegion::Code(4));
    let prev = (1_000, t.clone());
    assert!(is_double_click(Some(&prev), 1_000 + DOUBLE_CLICK_NANOS, &t));
    assert!(!is_double_click(Some(&prev), 1_001 + DOUBLE_CLICK_NANOS, &t));
    assert!(!is_double_click(Some(&prev), 2_000, &target(ClickRegion::Code(5))));
    assert!(!is_double_click(None, 2_000, &t));
    let other_file = HitTarget { file: Some("b.rs".to_string()), ..t.clone() };
    assert!(!same_hit(&t, &other_file));
    assert!(same_hit(&t, &t.clone()));
}

#[test]
fn a_triple_click_fires_one_double() {
    let t = target(ClickRegion::Comment(9));
    let (d1, last) = register_click(None, 0, Some(t.clone()));
    assert!(!d1);
    let (d2, last) = register_click(last, 100, Some(t.clone()));
    assert!(d2);
    assert!(last.is_none());
    let (d3, last) = register_click(last, 200, Some(t.clone()));
    assert!(!d3);
    assert_eq!(last, Some((200, t)));
    let (d4, last) = register_click(last, 300, None);
    assert!(!d4);
    assert!(last.is_none());
}

fn areas() -> PaneAreas {
    PaneAreas {
        diff: rect(31, 1, 69, 29),
        staging: rect(0, 1, 30, 29),
        review_list: rect(0, 1, 30, 29),
        graph: rect(0, 1, 30, 10),
        committed: rect(0, 12, 30, 18),
    }
}

fn offsets() -> ListOffsets {
    ListOffsets { staging: 5, review_list: 7, graph: 100, committed: 0 }
}

#[test]
fn clicks_route_to_the_active_views_panes() {
    let a = areas();
    let o = offsets();
    assert_eq!(on_click(ViewMode::Status, a, o, pos(40, 3)), ClickRoute::FocusDiff);
    assert_eq!(on_click(ViewMode::Status, a, o, pos(2, 3)), ClickRoute::StagingRow { row: 7, marker: true });
    assert_eq!(on_click(ViewMode::Status, a, o, pos(4, 3)), ClickRoute::StagingRow { row: 7, marker: false });
    assert_eq!(on_click(ViewMode::History, a, o, pos(2, 3)), ClickRoute::GraphRow(102));
    assert_eq!(on_click(ViewMode::History, a, o, pos(2, 14)), ClickRoute::CommittedRow(2));
    assert_eq!(on_click(ViewMode::History, a, o, pos(40, 14)), ClickRoute::PlaceCursor);
    assert_eq!(on_click(ViewMode::History, a, o, pos(2, 11)), ClickRoute::Nothing);
    assert_eq!(on_click(ViewMode::Review, a, o, pos(2, 3)), ClickRoute::ReviewListRow(9));
    assert_eq!(on_click(ViewMode::Review, a, o, pos(40, 3)), ClickRoute::PlaceCursor);
    assert_eq!(on_click(ViewMode::Review, a, o, pos(40, 0)), ClickRoute::Nothing);
}

#[test]
fn wheel_ticks_route_by_pane_and_stay_in_the_diff_while_editing() {
    let a = areas();
    assert_eq!(on_scroll(ViewMode::Status, false, a, pos(2, 3)), WheelRoute::Files);
    assert_eq!(on_scroll(ViewMode::Status, false, a, pos(40, 3)), WheelRoute::Diff { editing: false });
    assert_eq!(on_scroll(ViewMode::Status, true, a, pos(2, 3)), WheelRoute::Nothing);
    assert_eq!(on_scroll(ViewMode::Review, true, a, pos(40, 3)), WheelRoute::Diff { editing: true });
    assert_eq!(on_scroll(ViewMode::History, false, a, pos(2, 3)), WheelRoute::Graph);
    assert_eq!(on_scroll(ViewMode::History, false, a, pos(2, 20)), WheelRoute::Committed);
    assert_eq!(on_scroll(ViewMode::Review, false, a, pos(2, 20)), WheelRoute::ReviewList);
    assert_eq!(on_scroll(ViewMode::Review, false, a, pos(40, 40)), WheelRoute::Nothing);
}

fn layout_row(target: RowTarget, side: Option<Side>) -> LayoutRow {
    LayoutRow { target, subrow: 0, side, content: RowContent::Line { line: 0, seg: Seg { start_char: 0, end_char: 0 } } }
}

#[test]
fn a_click_resolves_to_a_code_line_a_box_or_its_close_cell() {
    let diff = rect(10, 0, 41, 5);
    let rows = vec![
        layout_row(RowTarget::Code(7), None),
        layout_row(RowTarget::Comment(3), Some(Side::New)),
        layout_row(RowTarget::Editor, Some(Side::Old)),
        layout_row(RowTarget::FileHeader, None),
    ];
    let close = vec![(3u64, rect(45, 1, 3, 1))];
    let hit = |p: Position| hit_target(&rows, diff, 0, p, &close, 9, ViewMode::Review, None).map(|t| t.region);
    assert_eq!(hit(pos(12, 0)), Some(ClickRegion::Code(7)));
    assert_eq!(hit(pos(35, 1)), Some(ClickRegion::Comment(3)));
    assert_eq!(hit(pos(46, 1)), Some(ClickRegion::Close(3)));
    assert_eq!(hit(pos(12, 1)), None);
    assert_eq!(hit(pos(12, 2)), None);
    assert_eq!(hit(pos(12, 3)), None);
    assert_eq!(hit(pos(12, 4)), None);
    let t = hit_target(&rows, diff, 0, pos(12, 0), &close, 9, ViewMode::Review, Some("a.rs".to_string())).unwrap();
    assert_eq!((t.generation, t.view, t.file.as_deref()), (9, ViewMode::Review, Some("a.rs")));
    assert!(click_in_editor(&rows, diff, 0, pos(12, 2)));
    assert!(!click_in_editor(&rows, diff, 0, pos(40, 2)));
    assert!(!click_in_editor(&rows, diff, 0, pos(12, 1)));
    assert!(click_in_editor(&rows, diff, 1, pos(12, 1)));
}
