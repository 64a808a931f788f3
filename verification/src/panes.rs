//! The panes' navigation arithmetic: the Changes list's flattened selection
//! (staged entries first, then unstaged), the dropdown menu's stepping over
//! separators, the divider-constrained pane sizes, and scroll offsets.

use vstd::prelude::*;
use crate::git::status::{FileEntry, Section, Status};
use crate::text::str_eq;
use crate::view::HistoryFocus;
use crate::comments::first_file;
use crate::git::history::CommitFile;

verus! {

/// The narrowest the Changes pane may get.
pub const MIN_CHANGES_WIDTH: u16 = 16;

/// The narrowest the diff pane may get.
pub const MIN_DIFF_WIDTH: u16 = 24;

/// The shortest the Committed Changes sub-pane may get.
pub const MIN_COMMITTED_HEIGHT: u16 = 4;

/// The shortest the Graph sub-pane may get.
pub const MIN_GRAPH_HEIGHT: u16 = 4;

/// How many commits one page of history loads.
pub const HISTORY_PAGE: usize = 500;

/// How many display columns one horizontal scroll tick shifts the code.
pub const HSCROLL_STEP: usize = 4;

// ---------------------------------------------------------------------------
// The Changes list selection.
// ---------------------------------------------------------------------------

/// The `(section, entry)` at flattened index `index`: staged entries first,
/// then unstaged ones.
pub fn file_at_index(status: &Status, index: usize) -> (r: Option<(Section, &FileEntry)>)
    ensures
        index < status.staged@.len() ==> r == Some((Section::Staged, &status.staged@[index as int])),
        status.staged@.len() <= index < status.staged@.len() + status.unstaged@.len() ==> r == Some(
            (Section::Unstaged, &status.unstaged@[index - status.staged@.len()]),
        ),
        index >= status.staged@.len() + status.unstaged@.len() ==> r is None,
{
    let n = status.staged.len();
    if index < n {
        Some((Section::Staged, &status.staged[index]))
    } else if index - n < status.unstaged.len() {
        Some((Section::Unstaged, &status.unstaged[index - n]))
    } else {
        None
    }
}

/// The first position in `entries` whose path is `path`.
pub open spec fn path_position(entries: Seq<FileEntry>, path: Seq<char>) -> Option<int>
    decreases entries.len(),
{
    if entries.len() == 0 {
        None
    } else {
        match path_position(entries.drop_last(), path) {
            Some(i) => Some(i),
            None => if entries.last().path@ == path {
                Some(entries.len() - 1)
            } else {
                None
            },
        }
    }
}

proof fn lemma_path_position(entries: Seq<FileEntry>, path: Seq<char>, i: int)
    requires
        0 <= i <= entries.len(),
        forall|k: int| 0 <= k < i ==> entries[k].path@ != path,
        i < entries.len() ==> entries[i].path@ == path,
    ensures
        path_position(entries, path) == if i < entries.len() {
            Some(i)
        } else {
            None::<int>
        },
    decreases entries.len(),
{
    if entries.len() > 0 {
        if i < entries.len() - 1 {
            lemma_path_position(entries.drop_last(), path, i);
        } else {
            lemma_path_position(entries.drop_last(), path, entries.len() - 1);
        }
    }
}

fn position_of_path(entries: &Vec<FileEntry>, path: &str) -> (r: Option<usize>)
    ensures
        match path_position(entries@, path@) {
            Some(i) => r == Some(i as usize),
            None => r is None,
        },
{
    let mut i: usize = 0;
    while i < entries.len()
        invariant
            i <= entries@.len(),
            forall|k: int| 0 <= k < i ==> entries@[k].path@ != path@,
        decreases entries.len() - i,
    {
        if str_eq(entries[i].path.as_str(), path) {
            proof {
                lemma_path_position(entries@, path@, i as int);
            }
            return Some(i);
        }
        i = i + 1;
    }
    proof {
        lemma_path_position(entries@, path@, i as int);
    }
    None
}

/// The flattened index of exactly `(section, path)`: the first entry with
/// that path in that section.
pub open spec fn exact_index(status: Status, section: Section, path: Seq<char>) -> Option<int> {
    match section {
        Section::Staged => path_position(status.staged@, path),
        Section::Unstaged => match path_position(status.unstaged@, path) {
            Some(i) => Some(status.staged@.len() + i),
            None => None,
        },
    }
}

/// The flattened index of exactly `(section, path)`, without looking in the
/// other section.
pub fn index_of_exact(status: &Status, section: Section, path: &str) -> (r: Option<usize>)
    requires
        status.staged@.len() + status.unstaged@.len() <= usize::MAX,
    ensures
        match exact_index(*status, section, path@) {
            Some(i) => r == Some(i as usize),
            None => r is None,
        },
{
    match section {
        Section::Staged => position_of_path(&status.staged, path),
        Section::Unstaged => match position_of_path(&status.unstaged, path) {
            Some(i) => {
                proof {
                    lemma_path_position_found(status.unstaged@, path@);
                }
                Some(status.staged.len() + i)
            },
            None => None,
        },
    }
}

/// The flattened selection index of `path`, preferring `section` but
/// falling back to the other one, since staging moves a file between them.
pub fn index_of(status: &Status, section: Section, path: &str) -> (r: Option<usize>)
    requires
        status.staged@.len() + status.unstaged@.len() <= usize::MAX,
    ensures
        ({
            let other = match section {
                Section::Staged => Section::Unstaged,
                Section::Unstaged => Section::Staged,
            };
            match exact_index(*status, section, path@) {
                Some(i) => r == Some(i as usize),
                None => match exact_index(*status, other, path@) {
                    Some(i) => r == Some(i as usize),
                    None => r is None,
                },
            }
        }),
{
    let other = match section {
        Section::Staged => Section::Unstaged,
        Section::Unstaged => Section::Staged,
    };
    match index_of_exact(status, section, path) {
        Some(i) => Some(i),
        None => index_of_exact(status, other, path),
    }
}

/// Looking an index up finds the file it was looked up by: the entry at the
/// exact index of `(section, path)` is in `section` and has that path.
pub proof fn lemma_index_round_trip(status: Status, section: Section, path: Seq<char>)
    requires
        exact_index(status, section, path) is Some,
    ensures
        ({
            let i = exact_index(status, section, path)->0;
            match section {
                Section::Staged => 0 <= i < status.staged@.len() && status.staged@[i].path@ == path,
                Section::Unstaged => status.staged@.len() <= i < status.staged@.len()
                    + status.unstaged@.len() && status.unstaged@[i - status.staged@.len()].path@ == path,
            }
        }),
{
    match section {
        Section::Staged => lemma_path_position_found(status.staged@, path),
        Section::Unstaged => lemma_path_position_found(status.unstaged@, path),
    }
}

proof fn lemma_path_position_found(entries: Seq<FileEntry>, path: Seq<char>)
    ensures
        path_position(entries, path) matches Some(i) ==> 0 <= i < entries.len() && entries[i].path@ == path,
    decreases entries.len(),
{
    if entries.len() > 0 {
        lemma_path_position_found(entries.drop_last(), path);
    }
}

/// The selection one row down, held to the last row.
pub fn select_next(selected: usize, total: usize) -> (r: usize)
    ensures
        r == if total == 0 {
            0
        } else if selected + 1 < total {
            (selected + 1) as usize
        } else {
            (total - 1) as usize
        },
{
    let last = total.saturating_sub(1);
    if selected < last {
        selected + 1
    } else {
        last
    }
}

/// The selection one row up, held to the first row.
pub fn select_prev(selected: usize) -> (r: usize)
    ensures
        r == if selected == 0 {
            0
        } else {
            (selected - 1) as usize
        },
{
    selected.saturating_sub(1)
}

/// The selection held to the last of `total` rows.
pub fn clamp_selection(selected: usize, total: usize) -> (r: usize)
    ensures
        r == if total == 0 {
            0
        } else if selected < total {
            selected
        } else {
            (total - 1) as usize
        },
{
    let last = total.saturating_sub(1);
    if selected < last {
        selected
    } else {
        last
    }
}

// ---------------------------------------------------------------------------
// Dropdown menus.
// ---------------------------------------------------------------------------

/// The index `k` rows on from `i` in a wrapping list of `n` rows.
pub open spec fn wrap_step(i: int, k: int, n: int, down: bool) -> int {
    if down {
        (i + k) % n
    } else {
        (i - k) % n
    }
}

/// The first activatable row, or 0 when there is none.
pub fn menu_first_selectable(selectable: &[bool]) -> (r: usize)
    ensures
        (exists|k: int| 0 <= k < selectable@.len() && selectable@[k]) ==> r < selectable@.len()
            && selectable@[r as int] && forall|k: int| 0 <= k < r ==> !selectable@[k],
        !(exists|k: int| 0 <= k < selectable@.len() && selectable@[k]) ==> r == 0,
{
    let mut i: usize = 0;
    while i < selectable.len()
        invariant
            i <= selectable@.len(),
            forall|k: int| 0 <= k < i ==> !selectable@[k],
        decreases selectable.len() - i,
    {
        if selectable[i] {
            return i;
        }
        i = i + 1;
    }
    0
}

/// The row after (or before) `i` in a wrapping list of `n` rows.
pub open spec fn wrap_next(i: int, n: int, down: bool) -> int {
    if down {
        if i + 1 == n {
            0
        } else {
            i + 1
        }
    } else {
        if i == 0 {
            n - 1
        } else {
            i - 1
        }
    }
}

proof fn lemma_wrap_step_next(s: int, k: int, n: int, down: bool)
    requires
        n > 0,
    ensures
        0 <= wrap_step(s, k, n, down) < n,
        wrap_step(s, k + 1, n, down) == wrap_next(wrap_step(s, k, n, down), n, down),
{
    let x = if down {
        s + k
    } else {
        s - k
    };
    let q = x / n;
    let r = x % n;
    vstd::arithmetic::div_mod::lemma_fundamental_div_mod(x, n);
    assert(x == q * n + r) by (nonlinear_arith)
        requires
            x == n * q + r,
    ;
    if down {
        if r + 1 == n {
            assert(x + 1 == (q + 1) * n + 0) by (nonlinear_arith)
                requires
                    x == q * n + r,
                    r + 1 == n,
            ;
            vstd::arithmetic::div_mod::lemma_fundamental_div_mod_converse(x + 1, n, q + 1, 0);
        } else {
            vstd::arithmetic::div_mod::lemma_fundamental_div_mod_converse(x + 1, n, q, r + 1);
        }
    } else {
        if r == 0 {
            assert(x - 1 == (q - 1) * n + (n - 1)) by (nonlinear_arith)
                requires
                    x == q * n + r,
                    r == 0,
            ;
            vstd::arithmetic::div_mod::lemma_fundamental_div_mod_converse(x - 1, n, q - 1, n - 1);
        } else {
            vstd::arithmetic::div_mod::lemma_fundamental_div_mod_converse(x - 1, n, q, r - 1);
        }
    }
}

/// Every row of a wrapping list of `n` rows is reached within one turn from
/// `s`, in either direction.
proof fn lemma_wrap_step_covers(s: int, n: int, m: int, down: bool) -> (j: int)
    requires
        0 <= s < n,
        0 <= m < n,
    ensures
        1 <= j <= n,
        wrap_step(s, j, n, down) == m,
{
    if down {
        if m > s {
            vstd::arithmetic::div_mod::lemma_fundamental_div_mod_converse(m, n, 0, m);
            m - s
        } else {
            assert(s + (m - s + n) == 1 * n + m) by (nonlinear_arith);
            vstd::arithmetic::div_mod::lemma_fundamental_div_mod_converse(m + n, n, 1, m);
            m - s + n
        }
    } else {
        if m < s {
            vstd::arithmetic::div_mod::lemma_fundamental_div_mod_converse(m, n, 0, m);
            s - m
        } else {
            assert(s - (s - m + n) == (-1) * n + m) by (nonlinear_arith);
            vstd::arithmetic::div_mod::lemma_fundamental_div_mod_converse(m - n, n, -1, m);
            s - m + n
        }
    }
}

/// `item` held to the last of `n` rows.
pub open spec fn held_to_last(item: int, n: int) -> int {
    if item < n {
        item
    } else {
        n - 1
    }
}

/// Stepping from `item` (held to the last row) lands on `r`: `r` is the
/// first activatable row of the turn round the list from there, or, with none
/// in the whole turn, where the turn ends.
pub open spec fn stepped_to(selectable: Seq<bool>, item: int, down: bool, r: int) -> bool {
    let n = selectable.len() as int;
    let start = held_to_last(item, n);
    exists|k: int|
        #![trigger wrap_step(start, k, n, down)]
        1 <= k <= n && r == wrap_step(start, k, n, down) && (selectable[r] || k == n) && forall|j: int|
            1 <= j < k ==> !selectable[#[trigger] wrap_step(start, j, n, down)]
}

/// The row one step from `item` (held to the last row), skipping rows that
/// cannot be activated and wrapping around; after a full turn with none
/// found, the row where the turn ended.
pub fn menu_step(selectable: &[bool], item: usize, down: bool) -> (r: usize)
    ensures
        selectable@.len() == 0 ==> r == 0,
        selectable@.len() > 0 ==> r < selectable@.len(),
        selectable@.len() > 0 ==> stepped_to(selectable@, item as int, down, r as int),
        (exists|k: int| 0 <= k < selectable@.len() && selectable@[k]) ==> selectable@[r as int],
{
    let n = selectable.len();
    if n == 0 {
        return 0;
    }
    let start: usize = if item < n {
        item
    } else {
        n - 1
    };
    proof {
        vstd::arithmetic::div_mod::lemma_fundamental_div_mod_converse(start as int, n as int, 0, start as int);
    }
    let mut idx: usize = start;
    let mut k: usize = 0;
    while k < n
        invariant
            n == selectable@.len() > 0,
            start as int == if item < n {
                item as int
            } else {
                n - 1
            },
            k <= n,
            idx as int == wrap_step(start as int, k as int, n as int, down),
            forall|j: int| 1 <= j <= k ==> !selectable@[#[trigger] wrap_step(start as int, j, n as int, down)],
        decreases n - k,
    {
        proof {
            lemma_wrap_step_next(start as int, k as int, n as int, down);
        }
        idx = if down {
            if idx + 1 == n {
                0
            } else {
                idx + 1
            }
        } else {
            if idx == 0 {
                n - 1
            } else {
                idx - 1
            }
        };
        k = k + 1;
        if selectable[idx] {
            proof {
                assert(idx == wrap_step(held_to_last(item as int, n as int), k as int, n as int, down));
            }
            return idx;
        }
    }
    proof {
        assert forall|m: int| 0 <= m < n implies !selectable@[m] by {
            let j = lemma_wrap_step_covers(start as int, n as int, m, down);
            assert(!selectable@[wrap_step(start as int, j, n as int, down)]);
        }
        assert(idx == wrap_step(held_to_last(item as int, n as int), n as int, n as int, down));
    }
    idx
}

// ---------------------------------------------------------------------------
// Pane sizes and scrolling.
// ---------------------------------------------------------------------------

/// The Changes pane's width for a dragged `width` in a body `body_width`
/// wide: held between its minimum and what leaves the diff pane its own
/// minimum (never below the pane's).
pub open spec fn changes_width_of(width: u16, body_width: u16) -> int {
    let max = if body_width >= MIN_DIFF_WIDTH + MIN_CHANGES_WIDTH {
        body_width - MIN_DIFF_WIDTH
    } else {
        MIN_CHANGES_WIDTH as int
    };
    if width < MIN_CHANGES_WIDTH {
        MIN_CHANGES_WIDTH as int
    } else if width > max {
        max
    } else {
        width as int
    }
}

/// The Changes pane's width: the dragged width held between its minimum and
/// what leaves the diff pane its own minimum (never below the pane's).
pub fn changes_pane_width(width: u16, body_width: u16) -> (r: u16)
    ensures
        r == changes_width_of(width, body_width),
{
    let spare = body_width.saturating_sub(MIN_DIFF_WIDTH);
    let max = if spare > MIN_CHANGES_WIDTH {
        spare
    } else {
        MIN_CHANGES_WIDTH
    };
    if width < MIN_CHANGES_WIDTH {
        MIN_CHANGES_WIDTH
    } else if width > max {
        max
    } else {
        width
    }
}

/// The Committed Changes sub-pane's height for a dragged `height` in a left
/// column `left_height` rows tall: held between its minimum and what leaves
/// the Graph its own minimum.
pub open spec fn committed_height_of(height: u16, left_height: u16) -> int {
    let spare = if left_height >= MIN_GRAPH_HEIGHT {
        left_height - MIN_GRAPH_HEIGHT
    } else {
        0
    };
    let max = if spare > MIN_COMMITTED_HEIGHT {
        spare
    } else {
        MIN_COMMITTED_HEIGHT as int
    };
    if height < MIN_COMMITTED_HEIGHT {
        MIN_COMMITTED_HEIGHT as int
    } else if height > max {
        max
    } else {
        height as int
    }
}

/// The Committed Changes sub-pane's height in a left column `left_height`
/// rows tall: the dragged height held between its minimum and what leaves
/// the Graph its own minimum.
pub fn committed_pane_height(height: u16, left_height: u16) -> (r: u16)
    requires
        left_height >= MIN_COMMITTED_HEIGHT,
    ensures
        r == committed_height_of(height, left_height),
        MIN_COMMITTED_HEIGHT <= r <= left_height,
{
    let spare = left_height.saturating_sub(MIN_GRAPH_HEIGHT);
    let max0 = if spare > MIN_COMMITTED_HEIGHT {
        spare
    } else {
        MIN_COMMITTED_HEIGHT
    };
    let max = if max0 < left_height {
        max0
    } else {
        left_height
    };
    if height < MIN_COMMITTED_HEIGHT {
        MIN_COMMITTED_HEIGHT
    } else if height > max {
        max
    } else {
        height
    }
}

/// The top row that keeps row `caret` in a viewport of `viewport` rows
/// over `count` rows, moving the current `top` as little as possible.
pub fn reveal_top(caret: usize, top: usize, viewport: usize, count: usize) -> (r: usize)
    requires
        viewport > 0,
    ensures
        ({
            let wanted = if caret < top {
                caret as int
            } else if caret >= top + viewport {
                caret - viewport + 1
            } else {
                top as int
            };
            let max_top = if count > viewport {
                count - viewport
            } else {
                0
            };
            r == if wanted < max_top {
                wanted
            } else {
                max_top
            }
        }),
{
    let new_top = if caret < top {
        caret
    } else if caret - top >= viewport {
        caret - viewport + 1
    } else {
        top
    };
    let max_top = count.saturating_sub(viewport);
    if new_top < max_top {
        new_top
    } else {
        max_top
    }
}

/// The top row that reveals the cursor target spanning rows `[start, end)`
/// in a viewport of `viewport` rows over `count` rows: unchanged when the
/// target is in view; above the viewport, or taller than it, its first row
/// goes to the top; below, its last row comes to the bottom; never past the
/// last full page.
pub open spec fn span_top(start: usize, end: usize, top: usize, viewport: usize, count: usize) -> int {
    let wanted = if start < top || end - start >= viewport {
        start as int
    } else if end > top + viewport {
        end - viewport
    } else {
        top as int
    };
    let max_top = if count > viewport {
        count - viewport
    } else {
        0
    };
    if wanted < max_top {
        wanted
    } else {
        max_top
    }
}

/// The top row that reveals the cursor target spanning `[start, end)`.
pub fn reveal_span_top(start: usize, end: usize, top: usize, viewport: usize, count: usize) -> (r: usize)
    requires
        viewport > 0,
        start <= end,
    ensures
        r == span_top(start, end, top, viewport, count),
{
    let new_top = if start < top || end - start >= viewport {
        start
    } else if end > top && end - top > viewport {
        end - viewport
    } else {
        top
    };
    let max_top = count.saturating_sub(viewport);
    if new_top < max_top {
        new_top
    } else {
        max_top
    }
}

/// Whether row `row` is on screen in a viewport of `viewport` rows from `top`.
pub open spec fn row_visible(row: usize, top: usize, viewport: usize) -> bool {
    top <= row < top + viewport
}

/// Whether the cursor's first row `cursor` is on screen.
pub fn cursor_visible(cursor: usize, top: usize, viewport: usize) -> (r: bool)
    ensures
        r == row_visible(cursor, top, viewport),
{
    cursor >= top && cursor - top < viewport
}

/// Revealing a target shows its first row whenever that row exists, and
/// shows the whole target when it fits in the viewport.
pub proof fn lemma_reveal_shows_target(start: usize, end: usize, top: usize, viewport: usize, count: usize)
    requires
        viewport > 0,
        start <= end,
    ensures
        start < end && start < count ==> row_visible(start, span_top(start, end, top, viewport, count) as usize, viewport),
        end <= count && end - start <= viewport ==> span_top(start, end, top, viewport, count) <= start && end
            <= span_top(start, end, top, viewport, count) + viewport,
        0 <= span_top(start, end, top, viewport, count),
{
}

/// The stored scroll offset read as a stream position: one past the
/// content's last row reads as the content's bottom.
pub fn stream_offset(stored: usize, rows: usize, viewport: usize) -> (r: usize)
    ensures
        r == if stored > rows {
            if rows > viewport {
                (rows - viewport) as usize
            } else {
                0
            }
        } else {
            stored
        },
{
    if stored > rows {
        rows.saturating_sub(viewport)
    } else {
        stored
    }
}

/// The rows `[start, end)` a viewport shows from `offset` over `rows` rows.
pub fn anchor_span(rows: usize, viewport: usize, offset: usize) -> (r: (usize, usize))
    ensures
        r.0 == if offset < rows {
            offset
        } else {
            rows
        },
        r.1 == r.0 + if rows - r.0 < viewport {
            rows - r.0
        } else {
            viewport as int
        },
        r.0 <= r.1 <= rows,
{
    let start = if offset < rows {
        offset
    } else {
        rows
    };
    let left = rows - start;
    let len = if left < viewport {
        left
    } else {
        viewport
    };
    (start, start + len)
}

/// The horizontal offset after one tick right (or left) from `stored`,
/// held between 0 and `max`, the longest code line less the visible width.
pub fn hscroll_tick(stored: usize, max: usize, right: bool) -> (r: usize)
    ensures
        ({
            let current = if stored < max {
                stored as int
            } else {
                max as int
            };
            r == if right {
                if current + HSCROLL_STEP < max {
                    current + HSCROLL_STEP
                } else {
                    max as int
                }
            } else if current >= HSCROLL_STEP {
                current - HSCROLL_STEP
            } else {
                0
            }
        }),
{
    let current = if stored < max {
        stored
    } else {
        max
    };
    if right {
        if max >= HSCROLL_STEP && current < max - HSCROLL_STEP {
            current + HSCROLL_STEP
        } else {
            max
        }
    } else {
        current.saturating_sub(HSCROLL_STEP)
    }
}

/// The horizontal offset the code is drawn at: the stored one held to
/// `max`, and none while lines wrap.
pub fn effective_hscroll(stored: usize, max: usize, wrap: bool) -> (r: usize)
    ensures
        r == if wrap {
            0
        } else if stored < max {
            stored
        } else {
            max
        },
{
    if wrap {
        0
    } else if stored < max {
        stored
    } else {
        max
    }
}

// ---------------------------------------------------------------------------
// The history view's sub-panes.
// ---------------------------------------------------------------------------

/// The next sub-pane in Tab order: Graph, Committed Changes, Diff, round.
pub fn cycle_history_focus(f: HistoryFocus) -> (r: HistoryFocus)
    ensures
        r == match f {
            HistoryFocus::Graph => HistoryFocus::CommittedChanges,
            HistoryFocus::CommittedChanges => HistoryFocus::Diff,
            HistoryFocus::Diff => HistoryFocus::Graph,
        },
{
    match f {
        HistoryFocus::Graph => HistoryFocus::CommittedChanges,
        HistoryFocus::CommittedChanges => HistoryFocus::Diff,
        HistoryFocus::Diff => HistoryFocus::Graph,
    }
}

/// The sub-pane to the left, held at the Graph.
pub fn history_focus_left(f: HistoryFocus) -> (r: HistoryFocus)
    ensures
        r == match f {
            HistoryFocus::Diff => HistoryFocus::CommittedChanges,
            _ => HistoryFocus::Graph,
        },
{
    match f {
        HistoryFocus::Diff => HistoryFocus::CommittedChanges,
        HistoryFocus::CommittedChanges | HistoryFocus::Graph => HistoryFocus::Graph,
    }
}

/// The sub-pane to the right, held at the Diff.
pub fn history_focus_right(f: HistoryFocus) -> (r: HistoryFocus)
    ensures
        r == match f {
            HistoryFocus::Graph => HistoryFocus::CommittedChanges,
            _ => HistoryFocus::Diff,
        },
{
    match f {
        HistoryFocus::Graph => HistoryFocus::CommittedChanges,
        HistoryFocus::CommittedChanges | HistoryFocus::Diff => HistoryFocus::Diff,
    }
}

/// Half a viewport of rows, at least one.
pub fn half_page(viewport: u16) -> (r: u16)
    ensures
        r == if viewport / 2 >= 1 {
            viewport / 2
        } else {
            1
        },
{
    let half = viewport / 2;
    if half >= 1 {
        half
    } else {
        1
    }
}

/// How many commits to ask for when the Graph selection reaches the end of
/// the `loaded` ones: one more page.
pub fn history_want(loaded: usize) -> (r: usize)
    requires
        loaded + HISTORY_PAGE <= usize::MAX,
    ensures
        r == loaded + HISTORY_PAGE,
{
    loaded + HISTORY_PAGE
}

/// Whether a step down from commit `selected` reaches past the `loaded`
/// commits, so the next page is asked for before the selection moves (with
/// [`select_next`] over however many are loaded then).
pub fn history_at_end(selected: usize, loaded: usize) -> (r: bool)
    ensures
        r == (selected + 1 >= loaded),
{
    selected >= loaded || loaded - selected <= 1
}

/// The review list's selection after the range was relisted as `files`:
/// the file the selection was on, followed by path, or else the old row held
/// to the new list's last.
pub fn follow_selection(files: &[CommitFile], prev_path: Option<&str>, prev_selected: usize) -> (r: usize)
    ensures
        r == match prev_path {
            Some(p) => match first_file(files@, p@) {
                Some(i) => i as usize,
                None => clamp_to(prev_selected, files@.len()),
            },
            None => clamp_to(prev_selected, files@.len()),
        },
{
    if let Some(path) = prev_path {
        let mut i: usize = 0;
        while i < files.len()
            invariant
                prev_path == Some(path),
                i <= files@.len(),
                forall|j: int| 0 <= j < i ==> (#[trigger] files@[j]).path@ != path@,
            decreases files.len() - i,
        {
            if str_eq(files[i].path.as_str(), path) {
                proof {
                    crate::comments::lemma_first_file_at(files@, path@, i as int);
                }
                return i;
            }
            i = i + 1;
        }
        proof {
            crate::comments::lemma_first_file_none(files@, path@);
        }
    }
    let last = files.len().saturating_sub(1);
    if prev_selected < last {
        prev_selected
    } else {
        last
    }
}

/// `selected` held to the last of `len` rows (0 for none).
pub open spec fn clamp_to(selected: usize, len: nat) -> usize {
    if len == 0 {
        0
    } else if selected < len {
        selected
    } else {
        (len - 1) as usize
    }
}

} // verus!
