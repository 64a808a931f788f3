//! The cross-file diff stream's scroll arithmetic. The stream is the current
//! view's files laid end to end; a scroll state is an anchor file and a row
//! offset into it. Settling a state first renormalizes it across file
//! boundaries, which never moves the top row shown, and then clamps it so the
//! viewport's bottom never passes the last row the stream offers.
//!
//! Each file's row count is `Some(rows)` once its section is prepared, or
//! `None` when it could not be: such a file shows no rows, and a window
//! filling down the stream stops at it.

use vstd::prelude::*;
use crate::panes::stream_offset;

verus! {

/// The rows a file contributes to the stream.
pub open spec fn count(r: Option<usize>) -> int {
    match r {
        Some(n) => n as int,
        None => 0,
    }
}

/// The rows of the first `i` files.
pub open spec fn prefix(rows: Seq<Option<usize>>, i: int) -> int
    decreases i,
{
    if i <= 0 {
        0
    } else {
        prefix(rows, i - 1) + count(rows[i - 1])
    }
}

/// The rows of the whole stream.
pub open spec fn total(rows: Seq<Option<usize>>) -> int {
    prefix(rows, rows.len() as int)
}

/// The stream row that `(index, offset)` shows at the viewport's top.
pub open spec fn position(rows: Seq<Option<usize>>, index: int, offset: int) -> int {
    prefix(rows, index) + offset
}

/// `a`, held to at most `b`.
pub open spec fn at_most(a: int, b: int) -> int {
    if a <= b {
        a
    } else {
        b
    }
}

/// The window filled so far (`filled` rows) after taking in the files from
/// `next` on, up to `viewport` rows, stopping at a file without a section.
pub open spec fn fill_from(rows: Seq<Option<usize>>, next: int, filled: int, viewport: int) -> int
    decreases rows.len() - next,
{
    if filled >= viewport || next >= rows.len() || next < 0 {
        filled
    } else {
        match rows[next] {
            None => filled,
            Some(r) => fill_from(rows, next + 1, at_most(filled + r, viewport), viewport),
        }
    }
}

/// How many rows a window anchored at `(index, offset)` draws, up to
/// `viewport`.
pub open spec fn window_fill(rows: Seq<Option<usize>>, index: int, offset: int, viewport: int) -> int {
    let own = count(rows[index]) - offset;
    fill_from(rows, index + 1, at_most(if own < 0 { 0 } else { own }, viewport), viewport)
}

/// Whether every file's section is prepared.
pub open spec fn all_prepared(rows: Seq<Option<usize>>) -> bool {
    forall|i: int| 0 <= i < rows.len() ==> rows[i] is Some
}

/// A legal resting state: a file of the stream, an offset within it (or past
/// the end of the last file), and never above the first row of its file
/// unless it is the first.
pub open spec fn settled_form(rows: Seq<Option<usize>>, index: int, offset: int) -> bool {
    &&& 0 <= index < rows.len()
    &&& offset <= count(rows[index]) || index == rows.len() - 1
    &&& offset >= 0 || index == 0
}

proof fn lemma_prefix_mono(rows: Seq<Option<usize>>, i: int, j: int)
    requires
        i <= j,
    ensures
        prefix(rows, i) <= prefix(rows, j),
    decreases j - i,
{
    if i < j {
        lemma_prefix_mono(rows, i, j - 1);
    }
}

proof fn lemma_count_in_total(rows: Seq<Option<usize>>, i: int)
    requires
        0 <= i < rows.len(),
    ensures
        0 <= prefix(rows, i),
        0 <= count(rows[i]),
        prefix(rows, i + 1) == prefix(rows, i) + count(rows[i]),
        prefix(rows, i + 1) <= total(rows),
        count(rows[i]) <= total(rows),
{
    lemma_prefix_mono(rows, 0, i);
    lemma_prefix_mono(rows, i + 1, rows.len() as int);
}

/// With every section prepared, a window fills with what is left of the
/// stream below its top row, up to the viewport.
proof fn lemma_fill_from_prepared(rows: Seq<Option<usize>>, next: int, filled: int, viewport: int)
    requires
        all_prepared(rows),
        0 <= next <= rows.len(),
        0 <= filled <= viewport,
    ensures
        fill_from(rows, next, filled, viewport) == at_most(filled + total(rows) - prefix(rows, next), viewport),
    decreases rows.len() - next,
{
    lemma_prefix_mono(rows, next, rows.len() as int);
    if filled >= viewport || next >= rows.len() {
    } else {
        let r = rows[next]->0;
        lemma_fill_from_prepared(rows, next + 1, at_most(filled + r, viewport), viewport);
        lemma_prefix_mono(rows, next + 1, rows.len() as int);
    }
}

proof fn lemma_window_fill_prepared(rows: Seq<Option<usize>>, index: int, offset: int, viewport: int)
    requires
        all_prepared(rows),
        0 <= index < rows.len(),
        0 <= offset,
        offset <= count(rows[index]) || index == rows.len() - 1,
        0 <= viewport,
    ensures
        window_fill(rows, index, offset, viewport) == if total(rows) - position(rows, index, offset) < 0 {
            0
        } else {
            at_most(total(rows) - position(rows, index, offset), viewport)
        },
{
    let own = count(rows[index]) - offset;
    let first = at_most(if own < 0 { 0 } else { own }, viewport);
    lemma_fill_from_prepared(rows, index + 1, first, viewport);
    lemma_prefix_mono(rows, index + 1, rows.len() as int);
}

/// How many rows file `index` has in the stream.
fn rows_at(rows: &[Option<usize>], index: usize) -> (r: usize)
    requires
        index < rows@.len(),
    ensures
        r == count(rows@[index as int]),
{
    match rows[index] {
        Some(n) => n,
        None => 0,
    }
}

/// How many rows a window anchored at `(index, offset)` draws, up to
/// `viewport`, taking in following files until it is full, the stream ends,
/// or a file has no section.
pub fn window_rows(rows: &[Option<usize>], index: usize, offset: usize, viewport: usize) -> (filled: usize)
    requires
        index < rows@.len(),
    ensures
        filled == window_fill(rows@, index as int, offset as int, viewport as int),
        filled <= viewport,
{
    let n = rows.len();
    let own = rows_at(rows, index);
    let first = own.saturating_sub(offset);
    let mut filled = if first < viewport {
        first
    } else {
        viewport
    };
    let mut next = index + 1;
    while filled < viewport && next < n
        invariant
            n == rows@.len(),
            index < next <= rows@.len(),
            filled <= viewport,
            fill_from(rows@, next as int, filled as int, viewport as int) == window_fill(
                rows@,
                index as int,
                offset as int,
                viewport as int,
            ),
        decreases rows.len() - next,
    {
        match rows[next] {
            None => {
                return filled;
            },
            Some(r) => {
                filled = if r < viewport - filled {
                    filled + r
                } else {
                    viewport
                };
                next = next + 1;
            },
        }
    }
    filled
}

/// The largest stream the scroll arithmetic handles (a billion rows), so
/// that row counts and offsets fit `usize` on every target and stay far
/// inside `i64`.
pub open spec fn stream_limit() -> int {
    0x4000_0000
}

/// Moves `(anchor, offset)` across file boundaries until the offset lies
/// within its file: down while it passes the file's last row (stopping at
/// the last file), up while it is above the file's first row (stopping at
/// the first). The stream row shown at the top never changes.
pub fn renormalize(rows: &[Option<usize>], anchor: usize, offset: i64) -> (r: (usize, i64))
    requires
        anchor < rows@.len(),
        total(rows@) <= stream_limit(),
        -stream_limit() <= offset <= stream_limit(),
    ensures
        settled_form(rows@, r.0 as int, r.1 as int),
        position(rows@, r.0 as int, r.1 as int) == position(rows@, anchor as int, offset as int),
        -stream_limit() <= r.1 <= stream_limit(),
        r.0 >= anchor ==> forall|j: int|
            anchor <= j < r.0 ==> position(rows@, anchor as int, offset as int) > #[trigger] prefix(rows@, j + 1),
        r.0 <= anchor ==> forall|j: int|
            r.0 < j <= anchor ==> position(rows@, anchor as int, offset as int) < #[trigger] prefix(rows@, j),
        settled_form(rows@, anchor as int, offset as int) ==> r.0 == anchor && r.1 == offset,
{
    let n = rows.len();
    let ghost p0 = position(rows@, anchor as int, offset as int);
    let mut index = anchor;
    let mut off = offset;
    proof {
        lemma_count_in_total(rows@, anchor as int);
    }
    while index + 1 < n && off > rows_at(rows, index) as i64
        invariant
            n == rows@.len(),
            total(rows@) <= stream_limit(),
            anchor <= index < n,
            position(rows@, index as int, off as int) == p0,
            -stream_limit() <= off <= stream_limit(),
            index > anchor ==> off > 0,
            forall|j: int| anchor <= j < index ==> p0 > #[trigger] prefix(rows@, j + 1),
            count(rows@[index as int]) <= stream_limit(),
        decreases n - index,
    {
        off = off - rows_at(rows, index) as i64;
        index = index + 1;
        proof {
            lemma_count_in_total(rows@, index as int);
        }
    }
    let ghost mid = index;
    while off < 0 && index > 0
        invariant
            n == rows@.len(),
            total(rows@) <= stream_limit(),
            index < n,
            index <= mid,
            position(rows@, index as int, off as int) == p0,
            -stream_limit() <= off <= stream_limit(),
            index < mid ==> off < count(rows@[index as int]),
            mid > anchor ==> index == mid && off > 0,
            off <= count(rows@[index as int]) || index == n - 1,
            forall|j: int| index < j <= mid ==> p0 < #[trigger] prefix(rows@, j),
        decreases index,
    {
        index = index - 1;
        proof {
            lemma_count_in_total(rows@, index as int);
        }
        off = off + rows_at(rows, index) as i64;
    }
    (index, off)
}

/// The stream row a settled state at stream row `p` ends on: `p` held
/// between the stream's first row and the last top row that still fills the
/// viewport (no upper hold for an empty viewport).
pub open spec fn clamped_position(rows: Seq<Option<usize>>, p: int, viewport: int) -> int {
    let top = if total(rows) - viewport < 0 {
        0
    } else {
        total(rows) - viewport
    };
    if p < 0 {
        0
    } else if viewport > 0 && p > top {
        top
    } else {
        p
    }
}

/// Backs a settled state off by whatever the window drawn from it comes up
/// short, walking back into earlier files as needed, so the viewport's
/// bottom never passes the stream's last row; the stream's first row is the
/// floor.
pub fn clamp_to_end(rows: &[Option<usize>], index: usize, offset: i64, viewport: usize) -> (r: (usize, usize))
    requires
        settled_form(rows@, index as int, offset as int),
        total(rows@) <= stream_limit(),
        -stream_limit() <= offset <= stream_limit(),
        viewport <= stream_limit(),
    ensures
        settled_form(rows@, r.0 as int, r.1 as int),
        window_fill(rows@, r.0 as int, r.1 as int, viewport as int) == viewport || (r.0 == 0 && r.1 == 0),
        position(rows@, r.0 as int, r.1 as int) <= position(rows@, index as int, offset as int) || (r.0 == 0
            && r.1 == 0),
        offset >= 0 && window_fill(rows@, index as int, offset as int, viewport as int) == viewport ==> r.0
            == index && r.1 == offset,
        index == 0 && offset == 0 ==> r.0 == 0 && r.1 == 0,
        all_prepared(rows@) ==> position(rows@, r.0 as int, r.1 as int) == clamped_position(
            rows@,
            position(rows@, index as int, offset as int),
            viewport as int,
        ),
{
    let n = rows.len();
    let ghost idx0 = index;
    let ghost p0 = position(rows@, index as int, offset as int);
    let ghost tv = total(rows@) - viewport;
    let ghost target = clamped_position(rows@, p0, viewport as int);
    let ghost full0 = offset >= 0 && window_fill(rows@, index as int, offset as int, viewport as int) == viewport;
    let mut index = index;
    let mut off = offset;
    proof {
        lemma_count_in_total(rows@, index as int);
    }
    loop
        invariant_except_break
            n == rows@.len(),
            p0 == position(rows@, idx0 as int, offset as int),
            tv == total(rows@) - viewport,
            target == clamped_position(rows@, p0, viewport as int),
            full0 == (offset >= 0 && window_fill(rows@, idx0 as int, offset as int, viewport as int) == viewport),
            0 <= index < n,
            off <= count(rows@[index as int]) || index == n - 1,
            total(rows@) <= stream_limit(),
            viewport <= stream_limit(),
            -3 * stream_limit() <= off <= stream_limit(),
            position(rows@, index as int, off as int) <= p0,
            full0 ==> index == idx0 && off == offset,
            idx0 == 0 && offset == 0 ==> index == 0 && off == 0,
            viewport == 0 ==> position(rows@, index as int, off as int) == p0,
            all_prepared(rows@) ==> position(rows@, index as int, off as int) >= (if target <= tv {
                target
            } else {
                tv
            }) || (p0 < 0 && position(rows@, index as int, off as int) == p0),
        ensures
            0 <= index < n,
            0 <= off,
            settled_form(rows@, index as int, off as int),
            window_fill(rows@, index as int, off as int, viewport as int) == viewport || (index == 0 && off == 0),
            position(rows@, index as int, off as int) <= p0 || (index == 0 && off == 0),
            full0 ==> index == idx0 && off == offset,
            idx0 == 0 && offset == 0 ==> index == 0 && off == 0,
            all_prepared(rows@) ==> position(rows@, index as int, off as int) == target,
        decreases (if position(rows@, index as int, off as int) < 0 {
            0
        } else {
            position(rows@, index as int, off as int)
        }), index, (if off < 0 {
            0int
        } else {
            1int
        }),
    {
        proof {
            lemma_count_in_total(rows@, index as int);
        }
        if off < 0 {
            if index == 0 {
                off = 0;
                break;
            }
            index = index - 1;
            proof {
                lemma_count_in_total(rows@, index as int);
            }
            off = off + rows_at(rows, index) as i64;
            continue;
        }
        let uoff = off as usize;
        assert(uoff == off);
        let filled = window_rows(rows, index, uoff, viewport);
        proof {
            if all_prepared(rows@) {
                lemma_window_fill_prepared(rows@, index as int, off as int, viewport as int);
            }
        }
        let short = viewport - filled;
        if short == 0 {
            break;
        }
        if index == 0 && off == 0 {
            break;
        }
        off = off - short as i64;
    }
    let uoff = off as usize;
    assert(uoff == off);
    (index, uoff)
}

/// Settles a scroll state in the stream: renormalizes `(anchor, offset)`,
/// then clamps it at the stream's end. Returns the file to anchor on and the
/// offset into it.
pub fn settle_stream_offset(rows: &[Option<usize>], anchor: usize, offset: i64, viewport: usize) -> (r: (
    usize,
    usize,
))
    requires
        anchor < rows@.len(),
        total(rows@) <= stream_limit(),
        -stream_limit() <= offset <= stream_limit(),
        viewport <= stream_limit(),
    ensures
        settled_form(rows@, r.0 as int, r.1 as int),
        window_fill(rows@, r.0 as int, r.1 as int, viewport as int) == viewport || (r.0 == 0 && r.1 == 0),
        position(rows@, r.0 as int, r.1 as int) <= position(rows@, anchor as int, offset as int) || (r.0 == 0
            && r.1 == 0),
        all_prepared(rows@) ==> position(rows@, r.0 as int, r.1 as int) == clamped_position(
            rows@,
            position(rows@, anchor as int, offset as int),
            viewport as int,
        ),
        settled_form(rows@, anchor as int, offset as int) && offset >= 0 && (window_fill(
            rows@,
            anchor as int,
            offset as int,
            viewport as int,
        ) == viewport || (anchor == 0 && offset == 0)) ==> r.0 == anchor && r.1 == offset,
{
    let (index, off) = renormalize(rows, anchor, offset);
    clamp_to_end(rows, index, off, viewport)
}

/// The rows the scroll limit counts: `total` so far, then the prepared
/// files of the strip from `i` on, until `cap` is reached, the strip ends,
/// or a file has no section.
pub open spec fn strip_rows(strip: Seq<Option<usize>>, i: int, total: int, cap: int) -> int
    decreases strip.len() - i,
{
    if total >= cap || i >= strip.len() || i < 0 {
        total
    } else {
        match strip[i] {
            None => total,
            Some(r) => strip_rows(strip, i + 1, total + r, cap),
        }
    }
}

/// `a - b`, or 0 when `b` is larger.
pub open spec fn minus(a: int, b: int) -> int {
    if a >= b {
        a - b
    } else {
        0
    }
}

/// The largest offset the stream allows for an anchor of `anchor_rows`
/// rows: its rows plus those of the prepared files after it (`strip`, empty
/// when cross-file scrolling is off), less the viewport, so the viewport's
/// bottom never passes the last row the stream offers. The walk stops once
/// the result would pass the anchor's own rows, which no settled offset can.
pub fn stream_scroll_limit(anchor_rows: usize, strip: &[Option<usize>], viewport: usize) -> (r: usize)
    requires
        anchor_rows + total(strip@) + viewport <= usize::MAX,
    ensures
        r == minus(strip_rows(strip@, 0, anchor_rows as int, viewport + anchor_rows), viewport as int),
{
    proof {
        lemma_prefix_mono(strip@, 0, strip@.len() as int);
    }
    let cap = viewport + anchor_rows;
    let mut sum = anchor_rows;
    let mut i: usize = 0;
    while i < strip.len() && sum < cap
        invariant
            i <= strip@.len(),
            cap == viewport + anchor_rows,
            anchor_rows + total(strip@) + viewport <= usize::MAX,
            sum == anchor_rows + prefix(strip@, i as int),
            strip_rows(strip@, i as int, sum as int, cap as int) == strip_rows(
                strip@,
                0,
                anchor_rows as int,
                cap as int,
            ),
        ensures
            strip_rows(strip@, i as int, sum as int, cap as int) == sum,
            strip_rows(strip@, i as int, sum as int, cap as int) == strip_rows(
                strip@,
                0,
                anchor_rows as int,
                cap as int,
            ),
        decreases strip.len() - i,
    {
        proof {
            lemma_count_in_total(strip@, i as int);
            lemma_prefix_mono(strip@, i as int + 1, strip@.len() as int);
        }
        match strip[i] {
            None => {
                break;
            },
            Some(r) => {
                sum = sum + r;
            },
        }
        i = i + 1;
    }
    sum.saturating_sub(viewport)
}

/// The largest scroll offset within the anchor's own rows.
pub fn diff_max_scroll(content_rows: usize, viewport: usize) -> (r: usize)
    ensures
        r == minus(content_rows as int, viewport as int),
{
    content_rows.saturating_sub(viewport)
}

/// Whether the viewport is pinned against its edge in the scroll direction:
/// the held offset is 0 going up, or the largest offset going down. Content
/// no taller than the viewport is at both edges.
pub fn at_hard_edge(scroll: usize, content_rows: usize, viewport: usize, down: bool) -> (r: bool)
    ensures
        ({
            let max = minus(content_rows as int, viewport as int);
            let held = if scroll < max {
                scroll as int
            } else {
                max
            };
            r == if down {
                held >= max
            } else {
                held == 0
            }
        }),
{
    let max = diff_max_scroll(content_rows, viewport);
    let offset = if scroll < max {
        scroll
    } else {
        max
    };
    if down {
        offset >= max
    } else {
        offset == 0
    }
}

/// The offset a frame draws from: the stored offset read as a stream
/// position, then held to what the prepared stream can fill.
pub fn paint_offset(stored: usize, anchor_rows: usize, strip: &[Option<usize>], viewport: usize) -> (r: usize)
    requires
        anchor_rows + total(strip@) + viewport <= usize::MAX,
    ensures
        ({
            let read = if stored > anchor_rows {
                minus(anchor_rows as int, viewport as int)
            } else {
                stored as int
            };
            let limit = minus(strip_rows(strip@, 0, anchor_rows as int, viewport + anchor_rows), viewport as int);
            r == at_most(read, limit)
        }),
{
    let read = stream_offset(stored, anchor_rows, viewport);
    let limit = stream_scroll_limit(anchor_rows, strip, viewport);
    if read < limit {
        read
    } else {
        limit
    }
}

/// Where a keyboard step of `step` rows lands from a target spanning rows
/// `[start, end)` of file `index`, as a file and a row in it: downward from
/// the target's last row at least, upward from its first. A step that runs
/// off a file spends the rest in the next one; past the stream's last row it
/// stops on that row (nowhere, when the last file has no rows), above the
/// first it stops on the first.
pub fn walk_step(rows: &[Option<usize>], index: usize, start: usize, end: usize, down: bool, step: usize) -> (r:
    Option<(usize, usize)>)
    requires
        index < rows@.len(),
        total(rows@) <= stream_limit(),
        start <= stream_limit(),
        end <= stream_limit(),
        step <= stream_limit(),
    ensures
        ({
            let n = rows@.len() as int;
            if down {
                let p = prefix(rows@, index as int) + if start + step < end {
                    end as int
                } else {
                    start + step
                };
                if p < total(rows@) {
                    r matches Some((f, row)) && index <= f < n && prefix(rows@, f as int) + row == p && p
                        < prefix(rows@, f + 1) && forall|g: int| index <= g < f ==> p >= #[trigger] prefix(rows@, g + 1)
                } else if count(rows@[n - 1]) > 0 {
                    r == Some(((n - 1) as usize, (count(rows@[n - 1]) - 1) as usize))
                } else {
                    r is None
                }
            } else {
                let p = prefix(rows@, index as int) + start - step;
                if p < 0 {
                    r == Some((0usize, 0usize))
                } else {
                    r matches Some((f, row)) && f <= index && prefix(rows@, f as int) + row == p && prefix(
                        rows@,
                        f as int,
                    ) <= p && forall|g: int| f < g <= index ==> p < #[trigger] prefix(rows@, g)
                }
            }
        }),
{
    let n = rows.len();
    let mut file = index;
    proof {
        lemma_count_in_total(rows@, index as int);
    }
    if down {
        let first = start + step;
        let mut row = if first < end {
            end
        } else {
            first
        };
        let ghost p = prefix(rows@, index as int) + row;
        loop
            invariant
                n == rows@.len(),
                down,
                p == prefix(rows@, index as int) + if start + step < end {
                    end as int
                } else {
                    start + step
                },
                total(rows@) <= stream_limit(),
                index <= file < n,
                prefix(rows@, file as int) + row == p,
                row <= 2 * stream_limit(),
                forall|g: int| index <= g < file ==> p >= #[trigger] prefix(rows@, g + 1),
            decreases n - file,
        {
            proof {
                lemma_count_in_total(rows@, file as int);
                lemma_prefix_mono(rows@, file as int + 1, n as int);
            }
            let here = rows_at(rows, file);
            if row < here {
                return Some((file, row));
            }
            if file + 1 >= n {
                if here == 0 {
                    return None;
                }
                return Some((file, here - 1));
            }
            row = row - here;
            file = file + 1;
        }
    } else {
        let mut row: i64 = start as i64 - step as i64;
        let ghost p = prefix(rows@, index as int) + start - step;
        while row < 0
            invariant
                n == rows@.len(),
                !down,
                p == prefix(rows@, index as int) + start - step,
                total(rows@) <= stream_limit(),
                file <= index < n,
                prefix(rows@, file as int) + row == p,
                -2 * stream_limit() <= row <= stream_limit(),
                forall|g: int| file < g <= index ==> p < #[trigger] prefix(rows@, g),
            decreases file,
        {
            if file == 0 {
                return Some((0, 0));
            }
            file = file - 1;
            proof {
                lemma_count_in_total(rows@, file as int);
            }
            row = row + rows_at(rows, file) as i64;
        }
        proof {
            lemma_prefix_mono(rows@, 0, file as int);
        }
        Some((file, row as usize))
    }
}

/// The step a keyboard move takes within the anchor's own `count` rows from
/// a target spanning `[start, end)`: down past the target's last row at
/// least, held to the last row; up held to the first. Nowhere when the
/// anchor has no rows.
pub fn anchor_step(count: usize, start: usize, end: usize, down: bool, step: usize) -> (r: Option<usize>)
    requires
        start + step <= usize::MAX,
    ensures
        count == 0 ==> r is None,
        count > 0 ==> r == Some(
            if down {
                let past = if start + step < end {
                    end as int
                } else {
                    start + step
                };
                at_most(past, count - 1) as usize
            } else {
                minus(start as int, step as int) as usize
            },
        ),
{
    if count == 0 {
        return None;
    }
    if down {
        let first = start + step;
        let past = if first < end {
            end
        } else {
            first
        };
        Some(
            if past < count - 1 {
                past
            } else {
                count - 1
            },
        )
    } else {
        Some(start.saturating_sub(step))
    }
}

/// The rows `[start, end)` of file `index` in the anchor's offset domain:
/// counted from the anchor file's own first row, negative for a file above
/// the anchor.
pub fn offset_span(rows: &[Option<usize>], anchor: usize, index: usize, start: usize, end: usize) -> (r: (i64, i64))
    requires
        anchor < rows@.len(),
        index < rows@.len(),
        total(rows@) <= stream_limit(),
        start <= stream_limit(),
        end <= stream_limit(),
    ensures
        r.0 == prefix(rows@, index as int) - prefix(rows@, anchor as int) + start,
        r.1 == prefix(rows@, index as int) - prefix(rows@, anchor as int) + end,
{
    let mut base: i64 = 0;
    proof {
        lemma_count_in_total(rows@, anchor as int);
        lemma_count_in_total(rows@, index as int);
    }
    if index >= anchor {
        let mut file = anchor;
        while file < index
            invariant
                anchor <= file <= index < rows@.len(),
                total(rows@) <= stream_limit(),
                base == prefix(rows@, file as int) - prefix(rows@, anchor as int),
                0 <= base <= stream_limit(),
            decreases index - file,
        {
            proof {
                lemma_count_in_total(rows@, file as int);
                lemma_prefix_mono(rows@, anchor as int, file as int + 1);
                lemma_prefix_mono(rows@, 0, anchor as int);
            }
            base = base + rows_at(rows, file) as i64;
            file = file + 1;
        }
    } else {
        let mut file = index;
        while file < anchor
            invariant
                index <= file <= anchor < rows@.len(),
                total(rows@) <= stream_limit(),
                base == prefix(rows@, index as int) - prefix(rows@, file as int),
                -stream_limit() <= base <= 0,
            decreases anchor - file,
        {
            proof {
                lemma_count_in_total(rows@, file as int);
                lemma_prefix_mono(rows@, index as int, file as int + 1);
                lemma_prefix_mono(rows@, 0, index as int);
            }
            base = base - rows_at(rows, file) as i64;
            file = file + 1;
        }
    }
    (base + start as i64, base + end as i64)
}

/// How many rows each following file contributes to a window whose anchor
/// segment drew `filled` rows: files after the anchor (`strip`) until the
/// viewport is full, the stream ends, or a file has no section.
pub open spec fn window_takes(strip: Seq<Option<usize>>, i: int, filled: int, viewport: int) -> Seq<usize>
    decreases strip.len() - i,
{
    if filled >= viewport || i >= strip.len() || i < 0 {
        Seq::empty()
    } else {
        match strip[i] {
            None => Seq::empty(),
            Some(r) => {
                let take = at_most(r as int, viewport - filled);
                seq![take as usize] + window_takes(strip, i + 1, filled + take, viewport)
            },
        }
    }
}

/// The rows each file after the anchor draws in the window, in order; the
/// anchor segment itself drew `filled` rows.
pub fn strip_segments(filled: usize, strip: &[Option<usize>], viewport: usize) -> (takes: Vec<usize>)
    requires
        filled <= viewport,
    ensures
        takes@ == window_takes(strip@, 0, filled as int, viewport as int),
{
    let mut takes: Vec<usize> = Vec::new();
    let mut filled = filled;
    let mut i: usize = 0;
    let ghost filled0 = filled;
    while filled < viewport && i < strip.len()
        invariant
            i <= strip@.len(),
            filled <= viewport,
            takes@ + window_takes(strip@, i as int, filled as int, viewport as int) == window_takes(
                strip@,
                0,
                filled0 as int,
                viewport as int,
            ),
        ensures
            window_takes(strip@, i as int, filled as int, viewport as int) == Seq::<usize>::empty(),
            takes@ + window_takes(strip@, i as int, filled as int, viewport as int) == window_takes(
                strip@,
                0,
                filled0 as int,
                viewport as int,
            ),
        decreases strip.len() - i,
    {
        match strip[i] {
            None => {
                break;
            },
            Some(r) => {
                let room = viewport - filled;
                let take = if r < room {
                    r
                } else {
                    room
                };
                let ghost before = takes@;
                takes.push(take);
                proof {
                    let rest = window_takes(strip@, i + 1, filled + take, viewport as int);
                    assert(window_takes(strip@, i as int, filled as int, viewport as int) == seq![take] + rest);
                    assert(takes@ + rest =~= before + (seq![take] + rest));
                }
                filled = filled + take;
            },
        }
        i = i + 1;
    }
    assert(takes@ + Seq::<usize>::empty() =~= takes@);
    takes
}

} // verus!
