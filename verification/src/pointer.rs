//! The mouse: which pane or split bar a position lands on, the split-bar
//! drags, and double-click recognition.
//!
//! Screen areas are recorded when a frame is drawn and read back here as
//! plain rectangles. Times are nanoseconds on a monotonic clock.

use vstd::prelude::*;
use crate::comments::Side;
use crate::panes::{
    changes_pane_width, changes_width_of, committed_height_of, committed_pane_height, MIN_COMMITTED_HEIGHT,
};
use crate::view::{Focus, LayoutRow, RowTarget, ViewMode, sbs_columns};

verus! {

/// A cell on screen.
#[derive(Clone, Copy, Debug, PartialEq, Eq, Structural)]
pub struct Position {
    pub x: u16,
    pub y: u16,
}

/// A rectangle of cells: `width` columns from `x`, `height` rows from `y`.
#[derive(Clone, Copy, Debug, PartialEq, Eq, Structural)]
pub struct Rect {
    pub x: u16,
    pub y: u16,
    pub width: u16,
    pub height: u16,
}

impl Rect {
    /// Whether the rectangle covers `p`; its far edges stop at the screen's.
    pub open spec fn covers(self, p: Position) -> bool {
        &&& self.x <= p.x < self.x.saturating_add(self.width)
        &&& self.y <= p.y < self.y.saturating_add(self.height)
    }

    /// Whether the rectangle covers `p`.
    pub fn contains(&self, p: Position) -> (r: bool)
        ensures
            r == self.covers(p),
    {
        p.x >= self.x && p.x < self.x.saturating_add(self.width) && p.y >= self.y && p.y < self.y.saturating_add(
            self.height,
        )
    }
}

/// Where the split bars are in the last frame.
#[derive(Clone, Copy, Debug, PartialEq, Eq, Structural)]
pub struct Splits {
    pub view: ViewMode,
    pub show_changes: bool,
    /// The area below the header that the panes share.
    pub body: Rect,
    /// The column of the vertical bar between the left panel and the diff.
    pub divider_x: u16,
    /// The history view's left column.
    pub left_col: Rect,
    /// The row of the horizontal bar between the graph and the commit's files.
    pub hdivider_y: u16,
}

/// Whether `pos` is on the vertical split bar: with the left panel shown,
/// on a body row, in the bar's column or the one just left of it.
pub open spec fn divider_at(sp: Splits, pos: Position) -> bool {
    &&& sp.show_changes
    &&& sp.body.y <= pos.y < sp.body.y.saturating_add(sp.body.height)
    &&& (pos.x == sp.divider_x || pos.x.saturating_add(1) == sp.divider_x)
}

/// Whether `pos` is on the history view's horizontal split bar: its row or
/// the one above it, within the left column.
pub open spec fn hdivider_at(sp: Splits, pos: Position) -> bool {
    &&& sp.view == ViewMode::History
    &&& sp.show_changes
    &&& sp.left_col.x <= pos.x < sp.left_col.x.saturating_add(sp.left_col.width)
    &&& (pos.y == sp.hdivider_y || pos.y.saturating_add(1) == sp.hdivider_y)
}

/// Whether `pos` is on the vertical split bar.
pub fn on_divider(sp: Splits, pos: Position) -> (r: bool)
    ensures
        r == divider_at(sp, pos),
{
    if !sp.show_changes {
        return false;
    }
    let on_body_row = pos.y >= sp.body.y && pos.y < sp.body.y.saturating_add(sp.body.height);
    on_body_row && (pos.x == sp.divider_x || pos.x.saturating_add(1) == sp.divider_x)
}

/// Whether `pos` is on the history view's horizontal split bar.
pub fn on_hdivider(sp: Splits, pos: Position) -> (r: bool)
    ensures
        r == hdivider_at(sp, pos),
{
    if sp.view != ViewMode::History || !sp.show_changes {
        return false;
    }
    let on_left_col = pos.x >= sp.left_col.x && pos.x < sp.left_col.x.saturating_add(sp.left_col.width);
    on_left_col && (pos.y == sp.hdivider_y || pos.y.saturating_add(1) == sp.hdivider_y)
}

/// The pane under `pos`: the diff, the file list, or neither.
pub fn pane_at(diff: Rect, staging: Rect, pos: Position) -> (r: Option<Focus>)
    ensures
        r == if diff.covers(pos) {
            Some(Focus::Diff)
        } else if staging.covers(pos) {
            Some(Focus::Staging)
        } else {
            None
        },
{
    if diff.contains(pos) {
        Some(Focus::Diff)
    } else if staging.contains(pos) {
        Some(Focus::Staging)
    } else {
        None
    }
}

/// The layout row under `pos` when the diff pane paints from row `offset`;
/// none outside the pane.
pub fn diff_row_at(diff: Rect, offset: usize, pos: Position) -> (r: Option<usize>)
    requires
        offset + diff.height <= usize::MAX,
    ensures
        r == if diff.covers(pos) {
            Some((offset + (pos.y - diff.y)) as usize)
        } else {
            None
        },
{
    if !diff.contains(pos) {
        return None;
    }
    Some(offset + (pos.y - diff.y) as usize)
}

/// Whether `pos` is in the column a row on `side` draws in: any column for
/// a full-width row; the old column left of the divider, or the new column
/// right of it, in a side-by-side pane.
pub fn in_side_column(diff: Rect, pos: Position, side: Option<Side>) -> (r: bool)
    requires
        diff.x <= pos.x,
    ensures
        r == in_column(diff, pos, side),
{
    let rel = (pos.x - diff.x) as usize;
    let (left_w, _) = sbs_columns(diff.width);
    match side {
        None => true,
        Some(Side::Old) => rel < left_w,
        Some(Side::New) => rel > left_w,
    }
}

/// The changes panel's width when its bar is dragged to `pos`.
pub fn resize_changes(body: Rect, pos: Position) -> (r: u16)
    ensures
        r == changes_width_of(pos.x.saturating_sub(body.x), body.width),
{
    changes_pane_width(pos.x.saturating_sub(body.x), body.width)
}

/// The Committed Changes sub-pane's height when its bar is dragged to
/// `pos` in the left column `left`.
pub fn resize_committed(left: Rect, pos: Position) -> (r: u16)
    requires
        left.height >= MIN_COMMITTED_HEIGHT,
    ensures
        r == committed_height_of(pos.y.saturating_sub(left.y), left.height),
{
    committed_pane_height(pos.y.saturating_sub(left.y), left.height)
}

/// Which split bar the mouse hovers, and which one a held button drags.
#[derive(Clone, Copy, Debug, PartialEq, Eq, Structural)]
pub struct DragState {
    pub hovering_divider: bool,
    pub hovering_hdivider: bool,
    pub dragging_divider: bool,
    pub dragging_hdivider: bool,
}

impl DragState {
    /// Nothing hovered or dragged.
    pub fn idle() -> (s: Self)
        ensures
            !s.hovering_divider && !s.hovering_hdivider && !s.dragging_divider && !s.dragging_hdivider,
    {
        DragState { hovering_divider: false, hovering_hdivider: false, dragging_divider: false, dragging_hdivider: false }
    }

    /// Whether a split bar shows its active affordance: hovered or dragged.
    pub fn divider_engaged(&self) -> (r: bool)
        ensures
            r == (self.hovering_divider || self.dragging_divider || self.hovering_hdivider
                || self.dragging_hdivider),
    {
        self.hovering_divider || self.dragging_divider || self.hovering_hdivider || self.dragging_hdivider
    }
}

/// What the mouse did.
#[derive(Clone, Copy, Debug, PartialEq, Eq, Structural)]
pub enum MouseKind {
    Moved,
    LeftDown,
    LeftDrag,
    LeftUp,
    ScrollDown,
    ScrollUp,
    ScrollRight,
    ScrollLeft,
    /// Any other button or event.
    Other,
}

/// What is left for the app to do with a mouse event.
#[derive(Clone, Copy, Debug, PartialEq, Eq, Structural)]
pub enum MouseAction {
    /// A modal is open and captures the mouse: nothing, not even a redraw.
    Ignored,
    /// Free movement: redraw only if the bar affordance changed (or an open
    /// dropdown's highlight moved).
    Hovered { changed: bool },
    /// A left press: commit the editor, hit the menu, or click.
    Press,
    /// Resize the changes panel to the dragged position.
    ResizeChanges,
    /// Resize the Committed Changes sub-pane to the dragged position.
    ResizeCommitted,
    /// A wheel tick, down or up.
    Scroll { down: bool },
    /// A sideways wheel tick, right or left.
    HScroll { right: bool },
    /// Just redraw.
    Redraw,
}

/// A mouse event's outcome: the bars' state after it, what is left to do,
/// and whether the double-click tracker forgets its last click (any drag
/// or wheel tick moves the rows under a still pointer).
pub open spec fn mouse_outcome(s: DragState, modal_open: bool, kind: MouseKind, pos: Position, sp: Splits) -> (
    DragState,
    MouseAction,
    bool,
) {
    if modal_open {
        (s, MouseAction::Ignored, false)
    } else {
        match kind {
            MouseKind::Moved => {
                let d = divider_at(sp, pos);
                let h = hdivider_at(sp, pos);
                (
                    DragState { hovering_divider: d, hovering_hdivider: h, ..s },
                    MouseAction::Hovered { changed: (d || h) != (s.hovering_divider || s.hovering_hdivider) },
                    false,
                )
            },
            MouseKind::LeftDown => (s, MouseAction::Press, false),
            MouseKind::LeftDrag => (
                s,
                if s.dragging_divider {
                    MouseAction::ResizeChanges
                } else if s.dragging_hdivider {
                    MouseAction::ResizeCommitted
                } else {
                    MouseAction::Redraw
                },
                true,
            ),
            MouseKind::LeftUp => (
                DragState { dragging_divider: false, dragging_hdivider: false, ..s },
                MouseAction::Redraw,
                false,
            ),
            MouseKind::ScrollDown => (s, MouseAction::Scroll { down: true }, true),
            MouseKind::ScrollUp => (s, MouseAction::Scroll { down: false }, true),
            MouseKind::ScrollRight => (s, MouseAction::HScroll { right: true }, true),
            MouseKind::ScrollLeft => (s, MouseAction::HScroll { right: false }, true),
            MouseKind::Other => (s, MouseAction::Redraw, false),
        }
    }
}

/// Handles a mouse event at `pos`.
pub fn on_mouse(s: DragState, modal_open: bool, kind: MouseKind, pos: Position, sp: Splits) -> (r: (
    DragState,
    MouseAction,
    bool,
))
    ensures
        r == mouse_outcome(s, modal_open, kind, pos, sp),
{
    if modal_open {
        return (s, MouseAction::Ignored, false);
    }
    match kind {
        MouseKind::Moved => {
            let d = on_divider(sp, pos);
            let h = on_hdivider(sp, pos);
            let changed = (d || h) != (s.hovering_divider || s.hovering_hdivider);
            (DragState { hovering_divider: d, hovering_hdivider: h, ..s }, MouseAction::Hovered { changed }, false)
        },
        MouseKind::LeftDown => (s, MouseAction::Press, false),
        MouseKind::LeftDrag => {
            let action = if s.dragging_divider {
                MouseAction::ResizeChanges
            } else if s.dragging_hdivider {
                MouseAction::ResizeCommitted
            } else {
                MouseAction::Redraw
            };
            (s, action, true)
        },
        MouseKind::LeftUp => (
            DragState { dragging_divider: false, dragging_hdivider: false, ..s },
            MouseAction::Redraw,
            false,
        ),
        MouseKind::ScrollDown => (s, MouseAction::Scroll { down: true }, true),
        MouseKind::ScrollUp => (s, MouseAction::Scroll { down: false }, true),
        MouseKind::ScrollRight => (s, MouseAction::HScroll { right: true }, true),
        MouseKind::ScrollLeft => (s, MouseAction::HScroll { right: false }, true),
        MouseKind::Other => (s, MouseAction::Redraw, false),
    }
}

/// Where a left press lands once the editor and the menu let it through:
/// on the vertical bar it starts dragging that bar, on the horizontal bar
/// that one; anywhere else it is a click (the second result).
pub fn route_left_down(s: DragState, pos: Position, sp: Splits) -> (r: (DragState, bool))
    ensures
        r == route_left_down_spec(s, pos, sp),
{
    if on_divider(sp, pos) {
        (DragState { dragging_divider: true, ..s }, false)
    } else if on_hdivider(sp, pos) {
        (DragState { dragging_hdivider: true, ..s }, false)
    } else {
        (s, true)
    }
}

/// Releasing the button ends any drag.
pub proof fn lemma_release_ends_drags(s: DragState, pos: Position, sp: Splits)
    ensures
        !mouse_outcome(s, false, MouseKind::LeftUp, pos, sp).0.dragging_divider,
        !mouse_outcome(s, false, MouseKind::LeftUp, pos, sp).0.dragging_hdivider,
{
}

/// A drag starts only from a press on its bar: no mouse event starts one,
/// and a routed press starts the one under the pointer.
pub proof fn lemma_drags_start_on_their_bar(s: DragState, modal_open: bool, kind: MouseKind, pos: Position, sp: Splits)
    ensures
        mouse_outcome(s, modal_open, kind, pos, sp).0.dragging_divider ==> s.dragging_divider,
        mouse_outcome(s, modal_open, kind, pos, sp).0.dragging_hdivider ==> s.dragging_hdivider,
        !s.dragging_divider && route_left_down_spec(s, pos, sp).0.dragging_divider ==> divider_at(sp, pos),
        !s.dragging_hdivider && route_left_down_spec(s, pos, sp).0.dragging_hdivider ==> hdivider_at(sp, pos),
{
}

/// Where a routed left press goes (see `route_left_down`).
pub open spec fn route_left_down_spec(s: DragState, pos: Position, sp: Splits) -> (DragState, bool) {
    if divider_at(sp, pos) {
        (DragState { dragging_divider: true, ..s }, false)
    } else if hdivider_at(sp, pos) {
        (DragState { dragging_hdivider: true, ..s }, false)
    } else {
        (s, true)
    }
}

/// The part of the diff pane a click resolved to.
#[derive(Clone, Copy, Debug, PartialEq, Eq, Structural)]
pub enum ClickRegion {
    /// The code row of diff line `i`.
    Code(usize),
    /// A row of comment `id`'s box.
    Comment(u64),
    /// The `[x]` close cell of comment `id`'s box.
    Close(u64),
    /// A file header row.
    FileHeader,
}

/// What a click resolved to, as two clicks must agree on to be a double:
/// the same layout build, view, file and region.
#[derive(Clone, Debug, PartialEq, Eq)]
pub struct HitTarget {
    pub generation: u64,
    pub view: ViewMode,
    pub file: Option<String>,
    pub region: ClickRegion,
}

/// Whether two click targets are the same.
pub open spec fn same_target(a: HitTarget, b: HitTarget) -> bool {
    &&& a.generation == b.generation
    &&& a.view == b.view
    &&& a.region == b.region
    &&& match (a.file, b.file) {
        (Some(x), Some(y)) => x@ == y@,
        (None, None) => true,
        _ => false,
    }
}

/// Whether two click targets are the same.
pub fn same_hit(a: &HitTarget, b: &HitTarget) -> (r: bool)
    ensures
        r == same_target(*a, *b),
{
    let files = match (&a.file, &b.file) {
        (Some(x), Some(y)) => crate::text::str_eq(x.as_str(), y.as_str()),
        (None, None) => true,
        _ => false,
    };
    a.generation == b.generation && a.view == b.view && a.region == b.region && files
}

/// How close two presses must be, in nanoseconds, to make a double-click.
pub const DOUBLE_CLICK_NANOS: u64 = 500_000_000;

/// Whether a press on `target` at `now` completes a double-click with the
/// remembered press `prev`: the same target, no later than the window.
pub open spec fn is_double(prev: Option<(u64, HitTarget)>, now: u64, target: HitTarget) -> bool {
    match prev {
        Some(p) => same_target(p.1, target) && now.saturating_sub(p.0) <= DOUBLE_CLICK_NANOS,
        None => false,
    }
}

/// Whether a press on `target` at `now` completes a double-click.
pub fn is_double_click(prev: Option<&(u64, HitTarget)>, now: u64, target: &HitTarget) -> (r: bool)
    ensures
        r == match prev {
            Some(p) => is_double(Some(*p), now, *target),
            None => false,
        },
{
    match prev {
        Some(p) => same_hit(&p.1, target) && now.saturating_sub(p.0) <= DOUBLE_CLICK_NANOS,
        None => false,
    }
}

/// Records a press at `now` on `target` (none: not a double-click
/// candidate). Returns whether it completes a double-click, and the press
/// to remember next: none after a double (a third press cannot fire again)
/// or off any target, else this one.
pub fn register_click(last: Option<(u64, HitTarget)>, now: u64, target: Option<HitTarget>) -> (r: (
    bool,
    Option<(u64, HitTarget)>,
))
    ensures
        r == press(last, now, target),
{
    let double = match &target {
        Some(t) => match &last {
            Some(p) => is_double_click(Some(p), now, t),
            None => false,
        },
        None => false,
    };
    if double {
        (true, None)
    } else {
        match target {
            Some(t) => (false, Some((now, t))),
            None => (false, None),
        }
    }
}

/// The double-click tracker's outcome for a press (see `register_click`).
pub open spec fn press(last: Option<(u64, HitTarget)>, now: u64, target: Option<HitTarget>) -> (
    bool,
    Option<(u64, HitTarget)>,
) {
    let double = target matches Some(t) && is_double(last, now, t);
    (double, if double {
        None
    } else {
        match target {
            Some(t) => Some((now, t)),
            None => None,
        }
    })
}

/// Three quick presses on one target make one double-click, not two: the
/// first never completes one, the second does when it comes within the
/// window, and then the third does not.
pub proof fn lemma_no_triple_click(t: HitTarget, n1: u64, n2: u64, n3: u64)
    requires
        n1 <= n2 <= n3,
    ensures
        ({
            let first = press(None, n1, Some(t));
            let second = press(first.1, n2, Some(t));
            let third = press(second.1, n3, Some(t));
            &&& !first.0
            &&& second.0 == (n2 - n1 <= DOUBLE_CLICK_NANOS)
            &&& second.0 ==> !third.0
        }),
{
}

/// The panes' areas in the last frame.
#[derive(Clone, Copy, Debug, PartialEq, Eq, Structural)]
pub struct PaneAreas {
    pub diff: Rect,
    /// The status view's file list.
    pub staging: Rect,
    /// The review view's file list.
    pub review_list: Rect,
    /// The history view's commit graph.
    pub graph: Rect,
    /// The history view's list of the selected commit's files.
    pub committed: Rect,
}

/// How far each list is scrolled: the list row at its top.
#[derive(Clone, Copy, Debug, PartialEq, Eq, Structural)]
pub struct ListOffsets {
    pub staging: usize,
    pub review_list: usize,
    pub graph: usize,
    pub committed: usize,
}

/// The list columns, from the file list's left edge, that hold the change
/// marker: a click there also toggles staging.
pub const MARKER_ZONE: u16 = 4;

/// Where a left click goes.
#[derive(Clone, Copy, Debug, PartialEq, Eq, Structural)]
pub enum ClickRoute {
    /// Outside every pane: nothing.
    Nothing,
    /// Status: focus the diff.
    FocusDiff,
    /// Status: focus the file list and select the file on list row `row`,
    /// toggling its staging when the click is on the marker.
    StagingRow { row: usize, marker: bool },
    /// History: focus the graph and select the commit on row `row`.
    GraphRow(usize),
    /// History: focus the commit's files and select row `row`.
    CommittedRow(usize),
    /// Review: focus the file list and select the file on row `row`.
    ReviewListRow(usize),
    /// Focus the diff and put the cursor on the clicked row.
    PlaceCursor,
}

/// The list row under `pos` in a list drawn in `area` from row `offset`.
pub open spec fn list_row(area: Rect, offset: usize, pos: Position) -> usize {
    (offset + (pos.y - area.y)) as usize
}

/// Where a left click at `pos` goes, by view: each view hit-tests only its
/// own panes.
pub open spec fn click_route_spec(view: ViewMode, a: PaneAreas, o: ListOffsets, pos: Position) -> ClickRoute {
    match view {
        ViewMode::Status => if a.diff.covers(pos) {
            ClickRoute::FocusDiff
        } else if a.staging.covers(pos) {
            ClickRoute::StagingRow {
                row: list_row(a.staging, o.staging, pos),
                marker: pos.x < a.staging.x + MARKER_ZONE,
            }
        } else {
            ClickRoute::Nothing
        },
        ViewMode::History => if a.graph.covers(pos) {
            ClickRoute::GraphRow(list_row(a.graph, o.graph, pos))
        } else if a.committed.covers(pos) {
            ClickRoute::CommittedRow(list_row(a.committed, o.committed, pos))
        } else if a.diff.covers(pos) {
            ClickRoute::PlaceCursor
        } else {
            ClickRoute::Nothing
        },
        ViewMode::Review => if a.review_list.covers(pos) {
            ClickRoute::ReviewListRow(list_row(a.review_list, o.review_list, pos))
        } else if a.diff.covers(pos) {
            ClickRoute::PlaceCursor
        } else {
            ClickRoute::Nothing
        },
    }
}

/// The list row under `pos`, inside `area`.
fn row_in(area: Rect, offset: usize, pos: Position) -> (r: usize)
    requires
        area.covers(pos),
        offset + area.height <= usize::MAX,
    ensures
        r == list_row(area, offset, pos),
{
    offset + (pos.y - area.y) as usize
}

/// Where a left click at `pos` goes.
pub fn on_click(view: ViewMode, a: PaneAreas, o: ListOffsets, pos: Position) -> (r: ClickRoute)
    requires
        o.staging + a.staging.height <= usize::MAX,
        o.review_list + a.review_list.height <= usize::MAX,
        o.graph + a.graph.height <= usize::MAX,
        o.committed + a.committed.height <= usize::MAX,
    ensures
        r == click_route_spec(view, a, o, pos),
{
    match view {
        ViewMode::Status => {
            if a.diff.contains(pos) {
                ClickRoute::FocusDiff
            } else if a.staging.contains(pos) {
                ClickRoute::StagingRow { row: row_in(a.staging, o.staging, pos), marker: pos.x - a.staging.x < MARKER_ZONE }
            } else {
                ClickRoute::Nothing
            }
        },
        ViewMode::History => {
            if a.graph.contains(pos) {
                ClickRoute::GraphRow(row_in(a.graph, o.graph, pos))
            } else if a.committed.contains(pos) {
                ClickRoute::CommittedRow(row_in(a.committed, o.committed, pos))
            } else if a.diff.contains(pos) {
                ClickRoute::PlaceCursor
            } else {
                ClickRoute::Nothing
            }
        },
        ViewMode::Review => {
            if a.review_list.contains(pos) {
                ClickRoute::ReviewListRow(row_in(a.review_list, o.review_list, pos))
            } else if a.diff.contains(pos) {
                ClickRoute::PlaceCursor
            } else {
                ClickRoute::Nothing
            }
        },
    }
}

/// Where a wheel tick goes.
#[derive(Clone, Copy, Debug, PartialEq, Eq, Structural)]
pub enum WheelRoute {
    Nothing,
    /// Scroll the diff a tick; while editing, within the anchor's file only.
    Diff { editing: bool },
    /// Status: move the file selection.
    Files,
    /// Review: focus the file list and move in it.
    ReviewList,
    /// History: focus the graph and move the commit selection.
    Graph,
    /// History: focus the commit's files and move in them.
    Committed,
}

/// Where a wheel tick at `pos` goes: while the editor is open only the
/// diff scrolls (a tick elsewhere must not change the file being written
/// on); otherwise each view routes it to the pane under the pointer.
pub open spec fn wheel_route_spec(view: ViewMode, editing: bool, a: PaneAreas, pos: Position) -> WheelRoute {
    if editing {
        if a.diff.covers(pos) {
            WheelRoute::Diff { editing: true }
        } else {
            WheelRoute::Nothing
        }
    } else {
        match view {
            ViewMode::Status => if a.diff.covers(pos) {
                WheelRoute::Diff { editing: false }
            } else if a.staging.covers(pos) {
                WheelRoute::Files
            } else {
                WheelRoute::Nothing
            },
            ViewMode::History => if a.graph.covers(pos) {
                WheelRoute::Graph
            } else if a.committed.covers(pos) {
                WheelRoute::Committed
            } else if a.diff.covers(pos) {
                WheelRoute::Diff { editing: false }
            } else {
                WheelRoute::Nothing
            },
            ViewMode::Review => if a.review_list.covers(pos) {
                WheelRoute::ReviewList
            } else if a.diff.covers(pos) {
                WheelRoute::Diff { editing: false }
            } else {
                WheelRoute::Nothing
            },
        }
    }
}

/// Where a wheel tick at `pos` goes.
pub fn on_scroll(view: ViewMode, editing: bool, a: PaneAreas, pos: Position) -> (r: WheelRoute)
    ensures
        r == wheel_route_spec(view, editing, a, pos),
{
    if editing {
        return if a.diff.contains(pos) {
            WheelRoute::Diff { editing: true }
        } else {
            WheelRoute::Nothing
        };
    }
    match view {
        ViewMode::Status => {
            if a.diff.contains(pos) {
                WheelRoute::Diff { editing: false }
            } else if a.staging.contains(pos) {
                WheelRoute::Files
            } else {
                WheelRoute::Nothing
            }
        },
        ViewMode::History => {
            if a.graph.contains(pos) {
                WheelRoute::Graph
            } else if a.committed.contains(pos) {
                WheelRoute::Committed
            } else if a.diff.contains(pos) {
                WheelRoute::Diff { editing: false }
            } else {
                WheelRoute::Nothing
            }
        },
        ViewMode::Review => {
            if a.review_list.contains(pos) {
                WheelRoute::ReviewList
            } else if a.diff.contains(pos) {
                WheelRoute::Diff { editing: false }
            } else {
                WheelRoute::Nothing
            }
        },
    }
}

/// Each view hit-tests only its own panes: a click in the history or the
/// review view never reaches the status file list (nor stages anything),
/// and a wheel tick while editing only ever scrolls the diff.
pub proof fn lemma_routes_stay_in_their_view(view: ViewMode, a: PaneAreas, o: ListOffsets, pos: Position)
    ensures
        ({
            let c = click_route_spec(view, a, o, pos);
            &&& view != ViewMode::Status ==> !(c is StagingRow) && c != ClickRoute::FocusDiff
            &&& view != ViewMode::History ==> !(c is GraphRow) && !(c is CommittedRow)
            &&& view != ViewMode::Review ==> !(c is ReviewListRow)
        }),
        ({
            let w = wheel_route_spec(view, true, a, pos);
            w == (WheelRoute::Diff { editing: true }) || w == WheelRoute::Nothing
        }),
{
}

/// Whether `pos` is in the column a row on `side` draws in (see
/// `in_side_column`).
pub open spec fn in_column(diff: Rect, pos: Position, side: Option<Side>) -> bool {
    let rel = pos.x - diff.x;
    let left_w = if diff.width == 0 {
        0
    } else {
        (diff.width - 1) / 2
    };
    match side {
        None => true,
        Some(Side::Old) => rel < left_w,
        Some(Side::New) => rel > left_w,
    }
}

/// The recorded `[x]` cell of comment `id`'s box, if drawn.
pub open spec fn close_cell(close_rects: Seq<(u64, Rect)>, id: u64) -> Option<Rect> {
    if exists|i: int| 0 <= i < close_rects.len() && close_rects[i].0 == id {
        let i = choose|i: int|
            0 <= i < close_rects.len() && close_rects[i].0 == id && forall|j: int| 0 <= j < i ==> close_rects[j].0 != id;
        Some(close_rects[i].1)
    } else {
        None
    }
}

/// What part of the diff a click at `pos` on a row with `target` and
/// column `side` hits: a code line; a box, unless the click is in the other
/// column; the box's `[x]` cell before the rest of it; nothing on the editor
/// or a file header.
pub open spec fn region_of(target: RowTarget, side: Option<Side>, diff: Rect, pos: Position, close: Option<Rect>) -> Option<
    ClickRegion,
> {
    match target {
        RowTarget::Code(line) => Some(ClickRegion::Code(line)),
        RowTarget::Comment(id) | RowTarget::Orphan(id) => if !in_column(diff, pos, side) {
            None
        } else if close matches Some(r) && r.covers(pos) {
            Some(ClickRegion::Close(id))
        } else {
            Some(ClickRegion::Comment(id))
        },
        _ => None,
    }
}

/// The layout row a click at `pos` lands on, if any.
pub open spec fn row_hit(rows: Seq<LayoutRow>, diff: Rect, offset: usize, pos: Position) -> Option<int> {
    if diff.covers(pos) && offset + (pos.y - diff.y) < rows.len() {
        Some(offset + (pos.y - diff.y))
    } else {
        None
    }
}

/// The recorded `[x]` cell of comment `id`'s box.
fn close_rect_of(close_rects: &Vec<(u64, Rect)>, id: u64) -> (r: Option<Rect>)
    ensures
        r == close_cell(close_rects@, id),
{
    let mut i: usize = 0;
    while i < close_rects.len()
        invariant
            i <= close_rects@.len(),
            forall|j: int| 0 <= j < i ==> close_rects@[j].0 != id,
        decreases close_rects.len() - i,
    {
        if close_rects[i].0 == id {
            let r = close_rects[i].1;
            proof {
                let w = choose|k: int|
                    0 <= k < close_rects@.len() && close_rects@[k].0 == id && forall|j: int|
                        0 <= j < k ==> close_rects@[j].0 != id;
                assert(0 <= i < close_rects@.len() && close_rects@[i as int].0 == id && forall|j: int|
                    0 <= j < i ==> close_rects@[j].0 != id);
                if w < i {
                    assert(close_rects@[w].0 != id);
                } else if w > i {
                    assert(close_rects@[i as int].0 != id);
                }
            }
            return Some(r);
        }
        i = i + 1;
    }
    None
}

/// What a click at `pos` resolved to, as a double-click candidate: none
/// outside the pane, past the last row, on the editor or a file header, or
/// beside a box in the other column. `rows` are the layout painted from
/// row `offset` in `diff`; `close_rects` the boxes' recorded `[x]` cells.
pub fn hit_target(
    rows: &Vec<LayoutRow>,
    diff: Rect,
    offset: usize,
    pos: Position,
    close_rects: &Vec<(u64, Rect)>,
    generation: u64,
    view: ViewMode,
    file: Option<String>,
) -> (r: Option<HitTarget>)
    requires
        offset + diff.height <= usize::MAX,
    ensures
        r == match row_hit(rows@, diff, offset, pos) {
            Some(i) => match region_of(
                rows@[i].target,
                rows@[i].side,
                diff,
                pos,
                match rows@[i].target {
                    RowTarget::Comment(id) | RowTarget::Orphan(id) => close_cell(close_rects@, id),
                    _ => None,
                },
            ) {
                Some(region) => Some(HitTarget { generation, view, file, region }),
                None => None,
            },
            None => None,
        },
{
    let row_idx = match diff_row_at(diff, offset, pos) {
        Some(i) => i,
        None => {
            return None;
        },
    };
    if row_idx >= rows.len() {
        return None;
    }
    let target = rows[row_idx].target;
    let side = rows[row_idx].side;
    let region = match target {
        RowTarget::Code(line) => ClickRegion::Code(line),
        RowTarget::Comment(id) | RowTarget::Orphan(id) => {
            if !in_side_column(diff, pos, side) {
                return None;
            }
            match close_rect_of(close_rects, id) {
                Some(r) => {
                    if r.contains(pos) {
                        ClickRegion::Close(id)
                    } else {
                        ClickRegion::Comment(id)
                    }
                },
                None => ClickRegion::Comment(id),
            }
        },
        _ => {
            return None;
        },
    };
    Some(HitTarget { generation, view, file, region })
}

/// Whether a click at `pos` lands on the open editor: on one of its rows,
/// and in its column.
pub fn click_in_editor(rows: &Vec<LayoutRow>, diff: Rect, offset: usize, pos: Position) -> (r: bool)
    requires
        offset + diff.height <= usize::MAX,
    ensures
        r == (row_hit(rows@, diff, offset, pos) matches Some(i) && rows@[i].target == RowTarget::Editor && in_column(
            diff,
            pos,
            rows@[i].side,
        )),
{
    let row_idx = match diff_row_at(diff, offset, pos) {
        Some(i) => i,
        None => {
            return false;
        },
    };
    if row_idx >= rows.len() {
        return false;
    }
    match rows[row_idx].target {
        RowTarget::Editor => in_side_column(diff, pos, rows[row_idx].side),
        _ => false,
    }
}

} // verus!
