//! A file's side-by-side layout. Orphan boxes lead, full width; then each
//! side-by-side code row: a hunk header across both columns, or a pair whose
//! two sides wrap independently in their columns and share one cursor stop
//! for as many subrows as the taller side needs. After a pair come the boxes
//! of the comments on its old line, then on its new line, then the editor
//! when a new comment is being written on either, each in its side's column.
//!
//! Code rows are given exactly; box and editor rows are described by their
//! stop and subrow and checked against what those call for.

use vstd::prelude::*;
use std::rc::Rc;
use crate::boxes::editor_box_rows;
use crate::comments::{Comment, Side};
use crate::editor::CommentEdit;
use crate::git::diff::DiffLine;
use crate::layout::{
    box_row_ok, boxes_skeleton, editor_lines, editor_value, lemma_editor_block, push_boxes, row_ok,
    rows_ok, skeleton, stop_rows,
};
use crate::view::{
    BoxPlacement, LayoutRow, PairCell, PairEmphasis, RowContent, RowTarget, SbsCode, Seg, comments_after,
    ids_after, sbs_columns, sbs_rows, sbs_scan, side_by_side_rows, zipped,
};

verus! {

/// A row as the layout pins it: its stop and subrow, and for a code row its
/// column and what it draws.
pub type RowShape = (RowTarget, usize, Option<(Option<Side>, RowContent)>);

/// The shape of a row.
pub open spec fn row_shape(r: LayoutRow) -> RowShape {
    (r.target, r.subrow, if r.target is Code {
        Some((r.side, r.content))
    } else {
        None
    })
}

/// The shape of each row.
pub open spec fn shapes(rows: Seq<LayoutRow>) -> Seq<RowShape> {
    rows.map_values(|r: LayoutRow| row_shape(r))
}

/// Box rows' stops and subrows as shapes.
pub open spec fn lifted(sk: Seq<(RowTarget, usize)>) -> Seq<RowShape> {
    sk.map_values(|p: (RowTarget, usize)| (p.0, p.1, None::<(Option<Side>, RowContent)>))
}

/// The column widths of a side-by-side pane `width` cells wide.
pub open spec fn columns_of(width: u16) -> (usize, usize) {
    if width == 0 {
        (0, 0)
    } else {
        (((width - 1) / 2) as usize, (width - 1 - (width - 1) / 2) as usize)
    }
}

/// Where the boxes of a side-by-side pane `width` cells wide go.
pub open spec fn sbs_place(width: u16) -> BoxPlacement {
    BoxPlacement::Sbs { left_w: columns_of(width).0, right_w: columns_of(width).1 }
}

/// How many segments diff line `line` wraps into, none for a missing side.
pub open spec fn segs_len(segs: Seq<Vec<Seg>>, line: Option<usize>) -> nat {
    match line {
        Some(i) => if i < segs.len() {
            segs[i as int]@.len()
        } else {
            0
        },
        None => 0,
    }
}

/// One side of subrow `s` of a pair: the line and its `s`-th segment, if it
/// has one.
pub open spec fn cell_at(segs: Seq<Vec<Seg>>, line: Option<usize>, s: int) -> Option<PairCell> {
    match line {
        Some(i) => Some(
            PairCell {
                line: i,
                seg: if i < segs.len() && 0 <= s < segs[i as int]@.len() {
                    Some(segs[i as int]@[s])
                } else {
                    None
                },
            },
        ),
        None => None,
    }
}

/// A pair's height: its taller side's, at least one row.
pub open spec fn pair_height(left: Option<usize>, right: Option<usize>, lsegs: Seq<Vec<Seg>>, rsegs: Seq<Vec<Seg>>) -> nat {
    let a = segs_len(lsegs, left);
    let b = segs_len(rsegs, right);
    let m = if a < b {
        b
    } else {
        a
    };
    if m < 1 {
        1
    } else {
        m
    }
}

/// The word emphasis of code row `k`: only a genuine modified pair (two
/// different lines) carries one.
pub open spec fn emphasis_of(
    emph: Seq<Option<Rc<PairEmphasis>>>,
    k: int,
    left: Option<usize>,
    right: Option<usize>,
) -> Option<Rc<PairEmphasis>> {
    if left is Some && right is Some && left != right && 0 <= k < emph.len() {
        emph[k]
    } else {
        None
    }
}

/// The line a pair's cursor stop names: its new side, else its old side.
pub open spec fn pair_line(left: Option<usize>, right: Option<usize>) -> usize {
    match right {
        Some(r) => r,
        None => left->0,
    }
}

/// The rows of code row `k`.
pub open spec fn code_shape(
    code: SbsCode,
    k: int,
    lsegs: Seq<Vec<Seg>>,
    rsegs: Seq<Vec<Seg>>,
    emph: Seq<Option<Rc<PairEmphasis>>>,
) -> Seq<RowShape> {
    match code {
        SbsCode::Hunk(i) => seq![(RowTarget::Code(i), 0usize, Some((None::<Side>, RowContent::Hunk(i))))],
        SbsCode::Pair { left, right } => Seq::new(
            pair_height(left, right, lsegs, rsegs),
            |s: int|
                (
                    RowTarget::Code(pair_line(left, right)),
                    s as usize,
                    Some(
                        (
                            None::<Side>,
                            RowContent::Pair {
                                left: cell_at(lsegs, left, s),
                                right: cell_at(rsegs, right, s),
                                emphasis: emphasis_of(emph, k, left, right),
                            },
                        ),
                    ),
                ),
        ),
    }
}

/// Whether a pair has a line on at least one side.
pub open spec fn sided(code: SbsCode) -> bool {
    code matches SbsCode::Pair { left, right } ==> (left is Some || right is Some)
}

proof fn lemma_zipped_sided(dels: Seq<usize>, adds: Seq<usize>)
    ensures
        forall|k: int| 0 <= k < zipped(dels, adds).len() ==> sided(#[trigger] zipped(dels, adds)[k]),
{
    assert forall|k: int| 0 <= k < zipped(dels, adds).len() implies sided(#[trigger] zipped(dels, adds)[k]) by {
        assert(k < dels.len() || k < adds.len());
    }
}

proof fn lemma_scan_sided(lines: Seq<DiffLine>, n: nat)
    ensures
        forall|k: int| 0 <= k < sbs_scan(lines, n).0.len() ==> sided(#[trigger] sbs_scan(lines, n).0[k]),
    decreases n,
{
    if n == 0 || n > lines.len() {
    } else {
        let prev = sbs_scan(lines, (n - 1) as nat);
        lemma_scan_sided(lines, (n - 1) as nat);
        lemma_zipped_sided(prev.1, prev.2);
        let rows = sbs_scan(lines, n).0;
        assert forall|k: int| 0 <= k < rows.len() implies sided(#[trigger] rows[k]) by {
            let z = zipped(prev.1, prev.2);
            if k < prev.0.len() {
                assert(sided(prev.0[k]));
            } else if k < prev.0.len() + z.len() {
                assert(sided(z[k - prev.0.len()]));
            }
        }
    }
}

/// Every side-by-side pair has a line on at least one side.
pub proof fn lemma_pairs_sided(lines: Seq<DiffLine>)
    ensures
        forall|k: int| 0 <= k < sbs_rows(lines).len() ==> sided(#[trigger] sbs_rows(lines)[k]),
{
    let end = sbs_scan(lines, lines.len());
    lemma_scan_sided(lines, lines.len());
    lemma_zipped_sided(end.1, end.2);
    let rows = sbs_rows(lines);
    assert forall|k: int| 0 <= k < rows.len() implies sided(#[trigger] rows[k]) by {
        if k < end.0.len() {
            assert(sided(end.0[k]));
        } else {
            assert(sided(zipped(end.1, end.2)[k - end.0.len()]));
        }
    }
}

/// The box and editor rows after code row `code`: the comments on its old
/// line, then those on its new line (once, for a context pair), then the
/// editor when a new comment is being written on either line.
pub open spec fn code_boxes(
    code: SbsCode,
    cs: Seq<Comment>,
    ed: Option<CommentEdit>,
    placements: Seq<(usize, Vec<u64>)>,
    editor_line: Option<usize>,
    place: BoxPlacement,
) -> Seq<(RowTarget, usize)> {
    match code {
        SbsCode::Hunk(_) => Seq::empty(),
        SbsCode::Pair { left, right } => {
            let old_side = match left {
                Some(l) => boxes_skeleton(cs, ed, ids_after(placements, l, 0), false, place),
                None => Seq::empty(),
            };
            let new_side = match right {
                Some(r) => if left != Some(r) {
                    boxes_skeleton(cs, ed, ids_after(placements, r, 0), false, place)
                } else {
                    Seq::empty()
                },
                None => Seq::empty(),
            };
            let editing = if editor_line is Some && (editor_line == left || editor_line == right) && ed is Some {
                stop_rows(RowTarget::Editor, editor_lines(ed->0, place).0.len() + 2)
            } else {
                Seq::empty()
            };
            old_side + new_side + editing
        },
    }
}

/// The rows of the first `upto` code rows, each followed by its boxes.
pub open spec fn codes_shape(
    codes: Seq<SbsCode>,
    upto: int,
    lsegs: Seq<Vec<Seg>>,
    rsegs: Seq<Vec<Seg>>,
    emph: Seq<Option<Rc<PairEmphasis>>>,
    cs: Seq<Comment>,
    ed: Option<CommentEdit>,
    placements: Seq<(usize, Vec<u64>)>,
    editor_line: Option<usize>,
    place: BoxPlacement,
) -> Seq<RowShape>
    decreases upto,
{
    if upto <= 0 {
        Seq::empty()
    } else {
        codes_shape(codes, upto - 1, lsegs, rsegs, emph, cs, ed, placements, editor_line, place) + code_shape(
            codes[upto - 1],
            upto - 1,
            lsegs,
            rsegs,
            emph,
        ) + lifted(code_boxes(codes[upto - 1], cs, ed, placements, editor_line, place))
    }
}

/// The whole side-by-side layout: the orphans' full-width boxes, then every
/// code row with its boxes.
pub open spec fn sbs_layout_shape(
    lines: Seq<DiffLine>,
    lsegs: Seq<Vec<Seg>>,
    rsegs: Seq<Vec<Seg>>,
    emph: Seq<Option<Rc<PairEmphasis>>>,
    orphans: Seq<u64>,
    placements: Seq<(usize, Vec<u64>)>,
    cs: Seq<Comment>,
    ed: Option<CommentEdit>,
    editor_line: Option<usize>,
    width: u16,
) -> Seq<RowShape> {
    let codes = sbs_rows(lines);
    lifted(boxes_skeleton(cs, ed, orphans, true, BoxPlacement::Unified(width as usize))) + codes_shape(
        codes,
        codes.len() as int,
        lsegs,
        rsegs,
        emph,
        cs,
        ed,
        placements,
        editor_line,
        sbs_place(width),
    )
}

/// Whether a box or editor row draws what its stop and subrow call for:
/// an orphan's box full width, a comment's in its side's column, the editor
/// full width (over an orphan) or in its anchor's column.
pub open spec fn sbs_row_ok(row: LayoutRow, cs: Seq<Comment>, ed: Option<CommentEdit>, width: u16) -> bool {
    match row.target {
        RowTarget::Code(_) => true,
        RowTarget::Orphan(_) => box_row_ok(row, cs, ed, BoxPlacement::Unified(width as usize)),
        RowTarget::Comment(_) => box_row_ok(row, cs, ed, sbs_place(width)),
        RowTarget::Editor => box_row_ok(
            row,
            cs,
            ed,
            if row.side is None {
                BoxPlacement::Unified(width as usize)
            } else {
                sbs_place(width)
            },
        ),
        RowTarget::FileHeader => false,
    }
}

/// Whether every box and editor row draws what it should.
pub open spec fn sbs_rows_ok(rows: Seq<LayoutRow>, cs: Seq<Comment>, ed: Option<CommentEdit>, width: u16) -> bool {
    forall|i: int| 0 <= i < rows.len() ==> #[trigger] sbs_row_ok(rows[i], cs, ed, width)
}

/// The stops a run of boxes can take: the editor's, or the boxes' own kind.
pub open spec fn box_kind(t: RowTarget, orphan: bool) -> bool {
    t is Editor || (orphan && t is Orphan) || (!orphan && t is Comment)
}

proof fn lemma_boxes_kind(cs: Seq<Comment>, ed: Option<CommentEdit>, ids: Seq<u64>, orphan: bool, place: BoxPlacement)
    ensures
        forall|k: int|
            0 <= k < boxes_skeleton(cs, ed, ids, orphan, place).len() ==> box_kind(
                (#[trigger] boxes_skeleton(cs, ed, ids, orphan, place)[k]).0,
                orphan,
            ),
    decreases ids.len(),
{
    if ids.len() > 0 {
        lemma_boxes_kind(cs, ed, ids.drop_last(), orphan, place);
        let a = boxes_skeleton(cs, ed, ids.drop_last(), orphan, place);
        let b = crate::layout::box_skeleton(cs, ed, ids.last(), orphan, place);
        assert forall|k: int| 0 <= k < (a + b).len() implies box_kind((#[trigger] (a + b)[k]).0, orphan) by {
            if k < a.len() {
                assert((a + b)[k] == a[k]);
            } else {
                assert((a + b)[k] == b[k - a.len()]);
            }
        }
    }
}

proof fn lemma_lift_block(
    b: Seq<LayoutRow>,
    sk: Seq<(RowTarget, usize)>,
    segs: Seq<Vec<Seg>>,
    cs: Seq<Comment>,
    ed: Option<CommentEdit>,
    orphan: bool,
    place: BoxPlacement,
    width: u16,
)
    requires
        skeleton(b) == sk,
        rows_ok(b, segs, cs, ed, place),
        forall|k: int| 0 <= k < sk.len() ==> box_kind((#[trigger] sk[k]).0, orphan),
        orphan ==> place == BoxPlacement::Unified(width as usize),
        !orphan ==> place == sbs_place(width),
    ensures
        shapes(b) == lifted(sk),
        sbs_rows_ok(b, cs, ed, width),
{
    assert forall|k: int| 0 <= k < b.len() implies #[trigger] sbs_row_ok(b[k], cs, ed, width) && shapes(b)[k]
        == lifted(sk)[k] by {
        assert(skeleton(b)[k] == (b[k].target, b[k].subrow));
        assert(box_kind(sk[k].0, orphan));
        assert(row_ok(b[k], segs, cs, ed, place));
    }
    assert(shapes(b) =~= lifted(sk));
}

proof fn lemma_lifted_add(a: Seq<(RowTarget, usize)>, b: Seq<(RowTarget, usize)>)
    ensures
        lifted(a + b) == lifted(a) + lifted(b),
{
    assert(lifted(a + b) =~= lifted(a) + lifted(b));
}

proof fn lemma_shapes_add(a: Seq<LayoutRow>, b: Seq<LayoutRow>)
    ensures
        shapes(a + b) == shapes(a) + shapes(b),
{
    assert(shapes(a + b) =~= shapes(a) + shapes(b));
}

proof fn lemma_ok_add(a: Seq<LayoutRow>, b: Seq<LayoutRow>, cs: Seq<Comment>, ed: Option<CommentEdit>, width: u16)
    requires
        sbs_rows_ok(a, cs, ed, width),
        sbs_rows_ok(b, cs, ed, width),
    ensures
        sbs_rows_ok(a + b, cs, ed, width),
{
    assert forall|i: int| 0 <= i < (a + b).len() implies #[trigger] sbs_row_ok((a + b)[i], cs, ed, width) by {
        if i < a.len() {
            assert((a + b)[i] == a[i]);
        } else {
            assert((a + b)[i] == b[i - a.len()]);
        }
    }
}

/// Appends the boxes for `ids`: the orphans' full width, the others' in
/// their sides' columns.
fn push_sbs_boxes(
    rows: &mut Vec<LayoutRow>,
    cs: &[Comment],
    editor: Option<&CommentEdit>,
    ids: &[u64],
    orphan: bool,
    place: BoxPlacement,
    width: u16,
)
    requires
        orphan ==> place == BoxPlacement::Unified(width as usize),
        !orphan ==> place == sbs_place(width),
        sbs_rows_ok(old(rows)@, cs@, editor_value(editor), width),
    ensures
        shapes(final(rows)@) == shapes(old(rows)@) + lifted(boxes_skeleton(cs@, editor_value(editor), ids@, orphan, place)),
        sbs_rows_ok(final(rows)@, cs@, editor_value(editor), width),
{
    let ghost ed = editor_value(editor);
    let ghost before = rows@;
    let mut block: Vec<LayoutRow> = Vec::new();
    push_boxes(&mut block, cs, editor, ids, orphan, place, Ghost(Seq::empty()));
    let ghost b = block@;
    proof {
        let sk = boxes_skeleton(cs@, ed, ids@, orphan, place);
        assert(skeleton(Seq::<LayoutRow>::empty()) + sk =~= sk);
        lemma_boxes_kind(cs@, ed, ids@, orphan, place);
        lemma_lift_block(b, sk, Seq::empty(), cs@, ed, orphan, place, width);
    }
    rows.append(&mut block);
    proof {
        lemma_shapes_add(before, b);
        lemma_ok_add(before, b, cs@, ed, width);
    }
}

/// Appends the open editor's box in its anchor's column.
fn push_sbs_editor(rows: &mut Vec<LayoutRow>, cs: &[Comment], e: &CommentEdit, width: u16)
    requires
        sbs_rows_ok(old(rows)@, cs@, Some(*e), width),
    ensures
        shapes(final(rows)@) == shapes(old(rows)@) + lifted(
            stop_rows(RowTarget::Editor, editor_lines(*e, sbs_place(width)).0.len() + 2),
        ),
        sbs_rows_ok(final(rows)@, cs@, Some(*e), width),
{
    let (left_w, right_w) = sbs_columns(width);
    let place = BoxPlacement::Sbs { left_w, right_w };
    assert(place == sbs_place(width));
    let ghost before = rows@;
    let mut block = editor_box_rows(e, place);
    let ghost b = block@;
    proof {
        let sk = stop_rows(RowTarget::Editor, editor_lines(*e, place).0.len() + 2);
        lemma_editor_block(b, *e, place, Seq::empty(), cs@, Some(*e));
        lemma_lift_block(b, sk, Seq::empty(), cs@, Some(*e), false, place, width);
    }
    rows.append(&mut block);
    proof {
        lemma_shapes_add(before, b);
        lemma_ok_add(before, b, cs@, Some(*e), width);
    }
}

/// `Rc::clone`: a second pointer to the same allocation, so the same value.
#[verifier::external_body]
fn share_emphasis(e: &Rc<PairEmphasis>) -> (r: Rc<PairEmphasis>)
    ensures
        r == *e,
{
    Rc::clone(e)
}

/// Another handle on the same emphasis.
fn share_opt(e: &Option<Rc<PairEmphasis>>) -> (r: Option<Rc<PairEmphasis>>)
    ensures
        r == *e,
{
    match e {
        Some(x) => Some(share_emphasis(x)),
        None => None,
    }
}

/// How many segments line `line` wraps into.
fn side_len(segs: &Vec<Vec<Seg>>, line: Option<usize>) -> (n: usize)
    ensures
        n == segs_len(segs@, line),
{
    match line {
        Some(i) => {
            if i < segs.len() {
                segs[i].len()
            } else {
                0
            }
        },
        None => 0,
    }
}

/// One side of subrow `s` of a pair.
fn pair_cell(segs: &Vec<Vec<Seg>>, line: Option<usize>, s: usize) -> (r: Option<PairCell>)
    ensures
        r == cell_at(segs@, line, s as int),
{
    match line {
        Some(i) => {
            let seg = if i < segs.len() && s < segs[i].len() {
                Some(segs[i][s])
            } else {
                None
            };
            Some(PairCell { line: i, seg })
        },
        None => None,
    }
}

/// The word emphasis of code row `k`.
fn emphasis_at(
    emph: &Vec<Option<Rc<PairEmphasis>>>,
    k: usize,
    left: Option<usize>,
    right: Option<usize>,
) -> (r: Option<Rc<PairEmphasis>>)
    ensures
        r == emphasis_of(emph@, k as int, left, right),
{
    let modified = match (left, right) {
        (Some(l), Some(r)) => l != r,
        _ => false,
    };
    if modified && k < emph.len() {
        share_opt(&emph[k])
    } else {
        None
    }
}

/// Appends the subrows of the pair `left`, `right` at code row `k`.
fn push_pair(
    rows: &mut Vec<LayoutRow>,
    left: Option<usize>,
    right: Option<usize>,
    k: usize,
    lsegs: &Vec<Vec<Seg>>,
    rsegs: &Vec<Vec<Seg>>,
    emph: &Vec<Option<Rc<PairEmphasis>>>,
    Ghost(cs): Ghost<Seq<Comment>>,
    Ghost(ed): Ghost<Option<CommentEdit>>,
    width: u16,
)
    requires
        left is Some || right is Some,
        sbs_rows_ok(old(rows)@, cs, ed, width),
    ensures
        shapes(final(rows)@) == shapes(old(rows)@) + code_shape(
            SbsCode::Pair { left, right },
            k as int,
            lsegs@,
            rsegs@,
            emph@,
        ),
        sbs_rows_ok(final(rows)@, cs, ed, width),
{
    let line = match right {
        Some(r) => r,
        None => left.unwrap(),
    };
    let lh = side_len(lsegs, left);
    let rh = side_len(rsegs, right);
    let mut height = if lh < rh {
        rh
    } else {
        lh
    };
    if height < 1 {
        height = 1;
    }
    let e = emphasis_at(emph, k, left, right);
    let ghost start = shapes(rows@);
    let ghost want = code_shape(SbsCode::Pair { left, right }, k as int, lsegs@, rsegs@, emph@);
    let mut s: usize = 0;
    proof {
        assert(start + want.take(0) =~= start);
    }
    while s < height
        invariant
            s <= height,
            height == want.len(),
            line == pair_line(left, right),
            e == emphasis_of(emph@, k as int, left, right),
            want == code_shape(SbsCode::Pair { left, right }, k as int, lsegs@, rsegs@, emph@),
            shapes(rows@) == start + want.take(s as int),
            sbs_rows_ok(rows@, cs, ed, width),
        decreases height - s,
    {
        let ghost before = rows@;
        let row = LayoutRow {
            target: RowTarget::Code(line),
            subrow: s,
            side: None,
            content: RowContent::Pair {
                left: pair_cell(lsegs, left, s),
                right: pair_cell(rsegs, right, s),
                emphasis: share_opt(&e),
            },
        };
        rows.push(row);
        proof {
            assert(shapes(rows@) =~= shapes(before).push(row_shape(row)));
            assert(want.take(s as int + 1) =~= want.take(s as int).push(want[s as int]));
            assert forall|i: int| 0 <= i < rows@.len() implies #[trigger] sbs_row_ok(rows@[i], cs, ed, width) by {
                if i < before.len() {
                    assert(rows@[i] == before[i]);
                }
            }
        }
        s = s + 1;
    }
    proof {
        assert(want.take(s as int) =~= want);
    }
}

/// Whether two optional line indices are equal.
fn same_line(a: Option<usize>, b: Option<usize>) -> (r: bool)
    ensures
        r == (a == b),
{
    match (a, b) {
        (Some(x), Some(y)) => x == y,
        (None, None) => true,
        _ => false,
    }
}

/// Appends code row `code` (at position `k`) and the boxes after it.
fn push_code(
    rows: &mut Vec<LayoutRow>,
    code: SbsCode,
    k: usize,
    lsegs: &Vec<Vec<Seg>>,
    rsegs: &Vec<Vec<Seg>>,
    emph: &Vec<Option<Rc<PairEmphasis>>>,
    placements: &Vec<(usize, Vec<u64>)>,
    comments: &[Comment],
    editor: Option<&CommentEdit>,
    editor_line: Option<usize>,
    width: u16,
)
    requires
        sided(code),
        sbs_rows_ok(old(rows)@, comments@, editor_value(editor), width),
    ensures
        shapes(final(rows)@) == shapes(old(rows)@) + code_shape(code, k as int, lsegs@, rsegs@, emph@) + lifted(
            code_boxes(code, comments@, editor_value(editor), placements@, editor_line, sbs_place(width)),
        ),
        sbs_rows_ok(final(rows)@, comments@, editor_value(editor), width),
{
    let ghost ed = editor_value(editor);
    let (left_w, right_w) = sbs_columns(width);
    let place = BoxPlacement::Sbs { left_w, right_w };
    assert(place == sbs_place(width));
    let ghost start = shapes(rows@);
    match code {
        SbsCode::Hunk(i) => {
            let ghost before = rows@;
            let row = LayoutRow { target: RowTarget::Code(i), subrow: 0, side: None, content: RowContent::Hunk(i) };
            rows.push(row);
            proof {
                assert(shapes(rows@) =~= shapes(before).push(row_shape(row)));
                assert(shapes(rows@) =~= start + code_shape(code, k as int, lsegs@, rsegs@, emph@) + lifted(
                    Seq::empty(),
                ));
                assert forall|j: int| 0 <= j < rows@.len() implies #[trigger] sbs_row_ok(rows@[j], comments@, ed, width) by {
                    if j < before.len() {
                        assert(rows@[j] == before[j]);
                    }
                }
            }
        },
        SbsCode::Pair { left, right } => {
            push_pair(rows, left, right, k, lsegs, rsegs, emph, Ghost(comments@), Ghost(ed), width);
            let ghost after_code = shapes(rows@);
            let ghost old_side = match left {
                Some(l) => boxes_skeleton(comments@, ed, ids_after(placements@, l, 0), false, place),
                None => Seq::empty(),
            };
            if let Some(l) = left {
                push_sbs_boxes(rows, comments, editor, comments_after(placements, l), false, place, width);
            } else {
                assert(shapes(rows@) =~= shapes(rows@) + lifted(Seq::empty()));
            }
            let ghost after_old = shapes(rows@);
            let ghost new_side = match right {
                Some(r) => if left != Some(r) {
                    boxes_skeleton(comments@, ed, ids_after(placements@, r, 0), false, place)
                } else {
                    Seq::empty()
                },
                None => Seq::empty(),
            };
            let mut pushed_new = false;
            if let Some(r) = right {
                if !same_line(left, Some(r)) {
                    push_sbs_boxes(rows, comments, editor, comments_after(placements, r), false, place, width);
                    pushed_new = true;
                }
            }
            if !pushed_new {
                assert(shapes(rows@) =~= shapes(rows@) + lifted(Seq::empty()));
            }
            let ghost after_new = shapes(rows@);
            let ghost editing = if editor_line is Some && (editor_line == left || editor_line == right) && ed is Some {
                stop_rows(RowTarget::Editor, editor_lines(ed->0, place).0.len() + 2)
            } else {
                Seq::empty()
            };
            let mut pushed_editor = false;
            if editor_line.is_some() && (same_line(editor_line, left) || same_line(editor_line, right)) {
                if let Some(e) = editor {
                    push_sbs_editor(rows, comments, e, width);
                    pushed_editor = true;
                }
            }
            if !pushed_editor {
                assert(shapes(rows@) =~= shapes(rows@) + lifted(Seq::empty()));
            }
            proof {
                lemma_lifted_add(old_side, new_side);
                lemma_lifted_add(old_side + new_side, editing);
                assert(code_boxes(code, comments@, ed, placements@, editor_line, place) == old_side + new_side + editing);
                assert(shapes(rows@) =~= start + code_shape(code, k as int, lsegs@, rsegs@, emph@) + lifted(
                    code_boxes(code, comments@, ed, placements@, editor_line, place),
                ));
            }
        },
    }
}

/// The side-by-side layout of a file with a text diff, `width` cells wide.
/// `left_segs[i]` and `right_segs[i]` are the segments diff line `i` wraps
/// into in the old and new column; `emphasis[k]` is the word emphasis of the
/// `k`-th side-by-side code row; `orphans`, `placements`, `comments`,
/// `editor` and `editor_line` are as for the unified layout.
pub fn sbs_layout(
    lines: &[DiffLine],
    left_segs: &Vec<Vec<Seg>>,
    right_segs: &Vec<Vec<Seg>>,
    emphasis: &Vec<Option<Rc<PairEmphasis>>>,
    orphans: &[u64],
    placements: &Vec<(usize, Vec<u64>)>,
    comments: &[Comment],
    editor: Option<&CommentEdit>,
    editor_line: Option<usize>,
    width: u16,
) -> (rows: Vec<LayoutRow>)
    ensures
        shapes(rows@) == sbs_layout_shape(
            lines@,
            left_segs@,
            right_segs@,
            emphasis@,
            orphans@,
            placements@,
            comments@,
            editor_value(editor),
            editor_line,
            width,
        ),
        sbs_rows_ok(rows@, comments@, editor_value(editor), width),
{
    let ghost ed = editor_value(editor);
    let mut rows: Vec<LayoutRow> = Vec::new();
    push_sbs_boxes(&mut rows, comments, editor, orphans, true, BoxPlacement::Unified(width as usize), width);
    let ghost head = shapes(rows@);
    proof {
        assert(shapes(Seq::<LayoutRow>::empty()) =~= Seq::<RowShape>::empty());
        assert(Seq::<RowShape>::empty() + head =~= head);
        assert(head + Seq::<RowShape>::empty() =~= head);
    }
    let codes = side_by_side_rows(lines);
    proof {
        lemma_pairs_sided(lines@);
    }
    let mut k: usize = 0;
    while k < codes.len()
        invariant
            k <= codes@.len(),
            codes@ == sbs_rows(lines@),
            ed == editor_value(editor),
            forall|j: int| 0 <= j < codes@.len() ==> sided(#[trigger] codes@[j]),
            head == lifted(boxes_skeleton(comments@, ed, orphans@, true, BoxPlacement::Unified(width as usize))),
            shapes(rows@) == head + codes_shape(
                codes@,
                k as int,
                left_segs@,
                right_segs@,
                emphasis@,
                comments@,
                ed,
                placements@,
                editor_line,
                sbs_place(width),
            ),
            sbs_rows_ok(rows@, comments@, ed, width),
        decreases codes.len() - k,
    {
        assert(sided(codes@[k as int]));
        push_code(
            &mut rows,
            codes[k],
            k,
            left_segs,
            right_segs,
            emphasis,
            placements,
            comments,
            editor,
            editor_line,
            width,
        );
        k = k + 1;
    }
    rows
}

} // verus!
