//! A file's unified layout: the physical rows of the diff pane. Orphan boxes
//! lead; then each diff line's display rows (one per wrapped segment, all on
//! the line's cursor stop), followed by the boxes of the comments anchored
//! after it and, where a new comment is being written, the editor box. A
//! comment being edited shows the editor in place of its box.
//!
//! Every row is described by its cursor stop and subrow (the layout's
//! skeleton) and by what it draws, which the stop and subrow determine.

use vstd::prelude::*;
use crate::boxes::{
    box_marker, box_part_text, box_target, caret_at, column_of, comment_box_rows, comment_box_spec,
    editor_box_rows, editor_box_spec, editor_part, inner_width, is_body_part, is_body_row, is_box_row,
    is_bottom_part, is_editor_row, is_title_part,
};
use crate::comment_cli::{first_with_id, lemma_first_with_id};
use crate::comments::Comment;
use crate::editor::CommentEdit;
use crate::view::{
    BoxPlacement, EditorPart, LayoutRow, RowContent, RowTarget, Seg, author_word, comments_after,
    ids_after, title_of,
};
use crate::wrap::{body_lines, editor_layout};
use crate::git::diff::DiffLine;
use crate::text::str_eq;
use crate::view::{line_no, number_on};

verus! {

/// The cursor stop and subrow of each row.
pub open spec fn skeleton(rows: Seq<LayoutRow>) -> Seq<(RowTarget, usize)> {
    rows.map_values(|r: LayoutRow| (r.target, r.subrow))
}

/// `n` rows on cursor stop `target`, subrows counting from 0.
pub open spec fn stop_rows(target: RowTarget, n: nat) -> Seq<(RowTarget, usize)> {
    Seq::new(n, |k: int| (target, k as usize))
}

/// The buffer of editor `e` laid out for its box under `place`.
pub open spec fn editor_lines(e: CommentEdit, place: BoxPlacement) -> (Seq<Seq<char>>, int, int) {
    editor_layout(
        e.buffer@,
        (e.cursor.0 as int, e.cursor.1 as int),
        inner_width(column_of(place, e.anchor.side).1),
    )
}

/// The wrapped body of comment `c`'s box under `place`.
pub open spec fn box_body(c: Comment, place: BoxPlacement) -> Seq<Seq<char>> {
    body_lines(c.text@, inner_width(column_of(place, c.side).1))
}

/// Whether editor `e` is editing comment `id`.
pub open spec fn edits(editor: Option<CommentEdit>, id: u64) -> bool {
    editor is Some && editor->0.editing_id == Some(id)
}

/// The rows the box for comment `id` occupies: none when no comment has
/// that id; the editor's rows when it is editing that comment.
pub open spec fn box_skeleton(
    cs: Seq<Comment>,
    editor: Option<CommentEdit>,
    id: u64,
    orphan: bool,
    place: BoxPlacement,
) -> Seq<(RowTarget, usize)> {
    match first_with_id(cs, id) {
        None => Seq::empty(),
        Some(j) => if edits(editor, id) {
            stop_rows(RowTarget::Editor, editor_lines(editor->0, place).0.len() + 2)
        } else {
            stop_rows(box_target(id, orphan), box_body(cs[j], place).len() + 2)
        },
    }
}

/// The rows of the boxes for `ids`, in order.
pub open spec fn boxes_skeleton(
    cs: Seq<Comment>,
    editor: Option<CommentEdit>,
    ids: Seq<u64>,
    orphan: bool,
    place: BoxPlacement,
) -> Seq<(RowTarget, usize)>
    decreases ids.len(),
{
    if ids.len() == 0 {
        Seq::empty()
    } else {
        boxes_skeleton(cs, editor, ids.drop_last(), orphan, place) + box_skeleton(
            cs,
            editor,
            ids.last(),
            orphan,
            place,
        )
    }
}

/// Whether `row` is a correct row of the box of comment `id` (an orphan's
/// when `orphan`): its title, body line or bottom border by subrow.
pub open spec fn comment_row_ok(row: LayoutRow, cs: Seq<Comment>, id: u64, orphan: bool, place: BoxPlacement) -> bool {
    first_with_id(cs, id) matches Some(j) && {
        let c = cs[j];
        let body = box_body(c, place);
        &&& is_box_row(row, box_target(id, orphan), row.subrow as int, column_of(place, c.side).0, id, false)
        &&& row.subrow == 0 ==> is_title_part(row) && box_part_text(row) == Some(
            title_of(box_marker(orphan), author_word(c.source), c.file@, c.line as nat),
        )
        &&& 1 <= row.subrow <= body.len() ==> is_body_part(row) && box_part_text(row) == Some(
            body[row.subrow - 1],
        )
        &&& row.subrow == body.len() + 1 ==> is_bottom_part(row)
    }
}

/// Whether `row` is a correct row of editor `e`'s box: its title, a body
/// row with the caret marked on the caret's row, or the bottom border.
pub open spec fn editor_row_ok(row: LayoutRow, e: CommentEdit, place: BoxPlacement) -> bool {
    let layout = editor_lines(e, place);
    &&& is_editor_row(row, row.subrow as int, column_of(place, e.anchor.side).0)
    &&& row.subrow == 0 ==> (editor_part(row) matches Some(EditorPart::Title(t)) && t@ == title_of(
        '✎',
        seq!['y', 'o', 'u'],
        e.anchor.file@,
        e.anchor.line as nat,
    ))
    &&& 1 <= row.subrow <= layout.0.len() ==> is_body_row(
        editor_part(row),
        layout.0[row.subrow - 1],
        caret_at(row.subrow - 1, layout),
    )
    &&& row.subrow == layout.0.len() + 1 ==> (editor_part(row) matches Some(EditorPart::Bottom))
}

/// Whether `row`, a row of a comment box or of the editor's, draws what its
/// stop and subrow call for.
pub open spec fn box_row_ok(row: LayoutRow, cs: Seq<Comment>, editor: Option<CommentEdit>, place: BoxPlacement) -> bool {
    match row.target {
        RowTarget::Comment(id) => comment_row_ok(row, cs, id, false, place),
        RowTarget::Orphan(id) => comment_row_ok(row, cs, id, true, place),
        RowTarget::Editor => editor is Some && editor_row_ok(row, editor->0, place),
        _ => false,
    }
}

/// Whether `row` draws what its stop and subrow call for.
pub open spec fn row_ok(
    row: LayoutRow,
    segs: Seq<Vec<Seg>>,
    cs: Seq<Comment>,
    editor: Option<CommentEdit>,
    place: BoxPlacement,
) -> bool {
    match row.target {
        RowTarget::Code(i) => {
            &&& row.side is None
            &&& i < segs.len()
            &&& row.subrow < segs[i as int]@.len()
            &&& row.content == RowContent::Line { line: i, seg: segs[i as int]@[row.subrow as int] }
        },
        _ => box_row_ok(row, cs, editor, place),
    }
}

/// Whether every row draws what its stop and subrow call for.
pub open spec fn rows_ok(
    rows: Seq<LayoutRow>,
    segs: Seq<Vec<Seg>>,
    cs: Seq<Comment>,
    editor: Option<CommentEdit>,
    place: BoxPlacement,
) -> bool {
    forall|i: int| 0 <= i < rows.len() ==> #[trigger] row_ok(rows[i], segs, cs, editor, place)
}

pub(crate) proof fn lemma_skeleton_append(a: Seq<LayoutRow>, b: Seq<LayoutRow>)
    ensures
        skeleton(a + b) == skeleton(a) + skeleton(b),
{
    assert(skeleton(a + b) =~= skeleton(a) + skeleton(b));
}

pub(crate) proof fn lemma_rows_ok_append(
    a: Seq<LayoutRow>,
    b: Seq<LayoutRow>,
    segs: Seq<Vec<Seg>>,
    cs: Seq<Comment>,
    editor: Option<CommentEdit>,
    place: BoxPlacement,
)
    requires
        rows_ok(a, segs, cs, editor, place),
        rows_ok(b, segs, cs, editor, place),
    ensures
        rows_ok(a + b, segs, cs, editor, place),
{
    assert forall|i: int| 0 <= i < (a + b).len() implies #[trigger] row_ok((a + b)[i], segs, cs, editor, place) by {
        if i < a.len() {
            assert((a + b)[i] == a[i]);
        } else {
            assert((a + b)[i] == b[i - a.len()]);
        }
    }
}

proof fn lemma_comment_block(
    b: Seq<LayoutRow>,
    c: Comment,
    cs: Seq<Comment>,
    j: int,
    orphan: bool,
    place: BoxPlacement,
    segs: Seq<Vec<Seg>>,
    ed: Option<CommentEdit>,
)
    requires
        0 <= j < cs.len(),
        cs[j] == c,
        first_with_id(cs, c.id) == Some(j),
        comment_box_spec(b, c, orphan, false, place),
    ensures
        skeleton(b) == stop_rows(box_target(c.id, orphan), box_body(c, place).len() + 2),
        rows_ok(b, segs, cs, ed, place),
{
    let body = box_body(c, place);
    assert forall|k: int| 0 <= k < b.len() implies skeleton(b)[k] == stop_rows(
        box_target(c.id, orphan),
        body.len() + 2,
    )[k] by {
        assert(is_box_row(b[k], box_target(c.id, orphan), k, column_of(place, c.side).0, c.id, false));
    }
    assert(skeleton(b) =~= stop_rows(box_target(c.id, orphan), body.len() + 2));
    assert forall|k: int| 0 <= k < b.len() implies #[trigger] row_ok(b[k], segs, cs, ed, place) by {
        assert(is_box_row(b[k], box_target(c.id, orphan), k, column_of(place, c.side).0, c.id, false));
        if 1 <= k <= body.len() {
            assert(is_body_part(b[k]));
        }
    }
}

pub(crate) proof fn lemma_editor_block(
    b: Seq<LayoutRow>,
    e: CommentEdit,
    place: BoxPlacement,
    segs: Seq<Vec<Seg>>,
    cs: Seq<Comment>,
    ed: Option<CommentEdit>,
)
    requires
        ed == Some(e),
        editor_box_spec(b, e, place, editor_lines(e, place)),
    ensures
        skeleton(b) == stop_rows(RowTarget::Editor, editor_lines(e, place).0.len() + 2),
        rows_ok(b, segs, cs, ed, place),
{
    let layout = editor_lines(e, place);
    assert forall|k: int| 0 <= k < b.len() implies skeleton(b)[k] == stop_rows(
        RowTarget::Editor,
        layout.0.len() + 2,
    )[k] by {
        assert(is_editor_row(b[k], k, column_of(place, e.anchor.side).0));
    }
    assert(skeleton(b) =~= stop_rows(RowTarget::Editor, layout.0.len() + 2));
    assert forall|k: int| 0 <= k < b.len() implies #[trigger] row_ok(b[k], segs, cs, ed, place) by {
        assert(is_editor_row(b[k], k, column_of(place, e.anchor.side).0));
        if 1 <= k <= layout.0.len() {
            assert(is_body_row(editor_part(b[k]), layout.0[k - 1], caret_at(k - 1, layout)));
        }
    }
}

/// The position of the first comment with id `id`.
fn find_comment(cs: &[Comment], id: u64) -> (r: Option<usize>)
    ensures
        r matches Some(i) ==> i < cs@.len() && cs@[i as int].id == id && first_with_id(cs@, id) == Some(i as int),
        r is None ==> first_with_id(cs@, id) is None,
{
    let mut i: usize = 0;
    while i < cs.len()
        invariant
            i <= cs@.len(),
            forall|k: int| 0 <= k < i ==> cs@[k].id != id,
        decreases cs.len() - i,
    {
        if cs[i].id == id {
            proof {
                lemma_first_with_id(cs@, id, i as int);
            }
            return Some(i);
        }
        i = i + 1;
    }
    proof {
        lemma_first_with_id(cs@, id, i as int);
    }
    None
}

/// Appends the box for comment `id` (the editor's when it edits that
/// comment; nothing when no comment has the id).
fn push_box(
    rows: &mut Vec<LayoutRow>,
    cs: &[Comment],
    editor: Option<&CommentEdit>,
    id: u64,
    orphan: bool,
    place: BoxPlacement,
    Ghost(segs): Ghost<Seq<Vec<Seg>>>,
)
    requires
        rows_ok(old(rows)@, segs, cs@, match editor { Some(e) => Some(*e), None => None }, place),
    ensures
        ({
            let ed = match editor {
                Some(e) => Some(*e),
                None => None,
            };
            &&& skeleton(final(rows)@) == skeleton(old(rows)@) + box_skeleton(cs@, ed, id, orphan, place)
            &&& rows_ok(final(rows)@, segs, cs@, ed, place)
        }),
{
    let ghost ed = match editor {
        Some(e) => Some(*e),
        None => None,
    };
    let j = match find_comment(cs, id) {
        Some(j) => j,
        None => {
            assert(skeleton(rows@) + Seq::empty() =~= skeleton(rows@));
            return;
        },
    };
    let ghost before = rows@;
    let editing = match editor {
        Some(e) => match e.editing_id {
            Some(x) => x == id,
            None => false,
        },
        None => false,
    };
    if editing {
        let e = editor.unwrap();
        let mut block = editor_box_rows(e, place);
        let ghost b = block@;
        proof {
            lemma_editor_block(b, *e, place, segs, cs@, ed);
        }
        rows.append(&mut block);
        proof {
            lemma_skeleton_append(before, b);
            lemma_rows_ok_append(before, b, segs, cs@, ed, place);
        }
    } else {
        let mut block = comment_box_rows(&cs[j], orphan, false, place);
        let ghost b = block@;
        proof {
            lemma_comment_block(b, cs@[j as int], cs@, j as int, orphan, place, segs, ed);
        }
        rows.append(&mut block);
        proof {
            lemma_skeleton_append(before, b);
            lemma_rows_ok_append(before, b, segs, cs@, ed, place);
        }
    }
}

/// The rows a diff line contributes: its display rows, then the boxes of
/// the comments placed after it, then the editor when a new comment is being
/// written on it.
pub open spec fn line_skeleton(
    segs: Seq<Vec<Seg>>,
    cs: Seq<Comment>,
    editor: Option<CommentEdit>,
    placements: Seq<(usize, Vec<u64>)>,
    editor_line: Option<usize>,
    place: BoxPlacement,
    i: int,
) -> Seq<(RowTarget, usize)> {
    stop_rows(RowTarget::Code(i as usize), segs[i]@.len()) + boxes_skeleton(
        cs,
        editor,
        ids_after(placements, i as usize, 0),
        false,
        place,
    ) + if editor_line == Some(i as usize) && editor is Some {
        stop_rows(RowTarget::Editor, editor_lines(editor->0, place).0.len() + 2)
    } else {
        Seq::empty()
    }
}

/// The rows of the first `upto` diff lines.
pub open spec fn lines_skeleton(
    segs: Seq<Vec<Seg>>,
    cs: Seq<Comment>,
    editor: Option<CommentEdit>,
    placements: Seq<(usize, Vec<u64>)>,
    editor_line: Option<usize>,
    place: BoxPlacement,
    upto: int,
) -> Seq<(RowTarget, usize)>
    decreases upto,
{
    if upto <= 0 {
        Seq::empty()
    } else {
        lines_skeleton(segs, cs, editor, placements, editor_line, place, upto - 1) + line_skeleton(
            segs,
            cs,
            editor,
            placements,
            editor_line,
            place,
            upto - 1,
        )
    }
}

/// The whole unified layout's rows: the orphan boxes, then every line's.
pub open spec fn unified_skeleton(
    segs: Seq<Vec<Seg>>,
    orphans: Seq<u64>,
    cs: Seq<Comment>,
    editor: Option<CommentEdit>,
    placements: Seq<(usize, Vec<u64>)>,
    editor_line: Option<usize>,
    place: BoxPlacement,
) -> Seq<(RowTarget, usize)> {
    boxes_skeleton(cs, editor, orphans, true, place) + lines_skeleton(
        segs,
        cs,
        editor,
        placements,
        editor_line,
        place,
        segs.len() as int,
    )
}

/// The editor, as a plain value.
pub open spec fn editor_value(editor: Option<&CommentEdit>) -> Option<CommentEdit> {
    match editor {
        Some(e) => Some(*e),
        None => None,
    }
}

/// Appends the boxes for `ids` in order.
pub(crate) fn push_boxes(
    rows: &mut Vec<LayoutRow>,
    cs: &[Comment],
    editor: Option<&CommentEdit>,
    ids: &[u64],
    orphan: bool,
    place: BoxPlacement,
    Ghost(segs): Ghost<Seq<Vec<Seg>>>,
)
    requires
        rows_ok(old(rows)@, segs, cs@, editor_value(editor), place),
    ensures
        skeleton(final(rows)@) == skeleton(old(rows)@) + boxes_skeleton(cs@, editor_value(editor), ids@, orphan, place),
        rows_ok(final(rows)@, segs, cs@, editor_value(editor), place),
{
    let ghost base = skeleton(rows@);
    let mut k: usize = 0;
    proof {
        assert(ids@.take(0) =~= Seq::<u64>::empty());
        assert(base + Seq::<(RowTarget, usize)>::empty() =~= base);
    }
    while k < ids.len()
        invariant
            k <= ids@.len(),
            skeleton(rows@) == base + boxes_skeleton(cs@, editor_value(editor), ids@.take(k as int), orphan, place),
            rows_ok(rows@, segs, cs@, editor_value(editor), place),
        decreases ids.len() - k,
    {
        push_box(rows, cs, editor, ids[k], orphan, place, Ghost(segs));
        proof {
            let t = ids@.take(k as int + 1);
            assert(t.drop_last() =~= ids@.take(k as int));
            assert(t.last() == ids@[k as int]);
            assert(base + boxes_skeleton(cs@, editor_value(editor), ids@.take(k as int), orphan, place)
                + box_skeleton(cs@, editor_value(editor), ids@[k as int], orphan, place) =~= base
                + boxes_skeleton(cs@, editor_value(editor), t, orphan, place));
        }
        k = k + 1;
    }
    proof {
        assert(ids@.take(k as int) =~= ids@);
    }
}

/// The unified layout of a file with a text diff: `segs[i]` are the
/// display segments diff line `i` wraps into; `orphans` are the ids of the
/// comments whose line is gone; `placements` list, per diff line, the ids of
/// the comments anchored after it; `comments` are the notes the ids name;
/// `editor` is the open editor when this file may carry it, and `editor_line`
/// the line a new comment is being written after. Boxes take the full
/// `width`.
pub fn unified_layout(
    segs: &Vec<Vec<Seg>>,
    orphans: &[u64],
    placements: &Vec<(usize, Vec<u64>)>,
    comments: &[Comment],
    editor: Option<&CommentEdit>,
    editor_line: Option<usize>,
    width: usize,
) -> (rows: Vec<LayoutRow>)
    ensures
        skeleton(rows@) == unified_skeleton(
            segs@,
            orphans@,
            comments@,
            editor_value(editor),
            placements@,
            editor_line,
            BoxPlacement::Unified(width),
        ),
        rows_ok(rows@, segs@, comments@, editor_value(editor), BoxPlacement::Unified(width)),
{
    let place = BoxPlacement::Unified(width);
    let ghost ed = editor_value(editor);
    let mut rows: Vec<LayoutRow> = Vec::new();
    push_boxes(&mut rows, comments, editor, orphans, true, place, Ghost(segs@));
    let ghost head = skeleton(rows@);
    proof {
        assert(head + Seq::<(RowTarget, usize)>::empty() =~= head);
    }
    let mut index: usize = 0;
    while index < segs.len()
        invariant
            index <= segs@.len(),
            place == BoxPlacement::Unified(width),
            ed == editor_value(editor),
            head == boxes_skeleton(comments@, ed, orphans@, true, place),
            skeleton(rows@) == head + lines_skeleton(segs@, comments@, ed, placements@, editor_line, place, index as int),
            rows_ok(rows@, segs@, comments@, ed, place),
        decreases segs.len() - index,
    {
        let ghost start = skeleton(rows@);
        let line_segs = &segs[index];
        let mut s: usize = 0;
        proof {
            assert(start + stop_rows(RowTarget::Code(index), 0) =~= start);
        }
        while s < line_segs.len()
            invariant
                index < segs@.len(),
                line_segs == &segs@[index as int],
                s <= line_segs@.len(),
                skeleton(rows@) == start + stop_rows(RowTarget::Code(index), s as nat),
                rows_ok(rows@, segs@, comments@, ed, place),
            decreases line_segs.len() - s,
        {
            let ghost before = rows@;
            let row = LayoutRow {
                target: RowTarget::Code(index),
                subrow: s,
                side: None,
                content: RowContent::Line { line: index, seg: line_segs[s] },
            };
            rows.push(row);
            proof {
                assert(skeleton(rows@) =~= skeleton(before).push((RowTarget::Code(index), s)));
                assert(stop_rows(RowTarget::Code(index), (s + 1) as nat) =~= stop_rows(
                    RowTarget::Code(index),
                    s as nat,
                ).push((RowTarget::Code(index), s)));
                assert forall|i: int| 0 <= i < rows@.len() implies #[trigger] row_ok(rows@[i], segs@, comments@, ed, place) by {
                    if i < before.len() {
                        assert(rows@[i] == before[i]);
                    }
                }
            }
            s = s + 1;
        }
        let after = comments_after(placements, index);
        push_boxes(&mut rows, comments, editor, after, false, place, Ghost(segs@));
        if editor_line == Some(index) {
            if let Some(e) = editor {
                let ghost before = rows@;
                let mut block = editor_box_rows(e, place);
                let ghost b = block@;
                proof {
                    lemma_editor_block(b, *e, place, segs@, comments@, ed);
                }
                rows.append(&mut block);
                proof {
                    lemma_skeleton_append(before, b);
                    lemma_rows_ok_append(before, b, segs@, comments@, ed, place);
                }
            }
        }
        proof {
            let line = line_skeleton(segs@, comments@, ed, placements@, editor_line, place, index as int);
            assert(skeleton(rows@) =~= head + lines_skeleton(segs@, comments@, ed, placements@, editor_line, place, index as int) + line);
        }
        index = index + 1;
    }
    rows
}

/// The first diff line numbered `line` on `side`.
pub open spec fn line_at(lines: Seq<DiffLine>, side: crate::comments::Side, line: usize) -> Option<int>
    decreases lines.len(),
{
    if lines.len() == 0 {
        None
    } else {
        match line_at(lines.drop_last(), side, line) {
            Some(i) => Some(i),
            None => if number_on(lines.last(), side) == Some(line) {
                Some(lines.len() - 1)
            } else {
                None
            },
        }
    }
}

pub(crate) proof fn lemma_line_at(lines: Seq<DiffLine>, side: crate::comments::Side, line: usize, i: int)
    requires
        0 <= i <= lines.len(),
        forall|k: int| 0 <= k < i ==> number_on(#[trigger] lines[k], side) != Some(line),
        i < lines.len() ==> number_on(lines[i], side) == Some(line),
    ensures
        line_at(lines, side, line) == if i < lines.len() {
            Some(i)
        } else {
            None::<int>
        },
    decreases lines.len(),
{
    if lines.len() > 0 {
        let init = lines.drop_last();
        assert forall|k: int| 0 <= k < init.len() implies init[k] == lines[k] by {}
        if i < lines.len() - 1 {
            lemma_line_at(init, side, line, i);
        } else {
            lemma_line_at(init, side, line, lines.len() - 1);
        }
    }
}

/// A path as text.
pub open spec fn path_view(path: Option<&str>) -> Option<Seq<char>> {
    match path {
        Some(p) => Some(p@),
        None => None,
    }
}

/// The diff line a new comment's editor opens after: the first line that
/// carries the anchor's number on its side, when the editor writes a new
/// comment on the file shown (`path`).
pub open spec fn new_anchor_line(edit: CommentEdit, path: Option<Seq<char>>, lines: Seq<DiffLine>) -> Option<usize> {
    if edit.editing_id is Some || !(path matches Some(p) && p == edit.anchor.file@) {
        None
    } else {
        match line_at(lines, edit.anchor.side, edit.anchor.line) {
            Some(i) => Some(i as usize),
            None => None,
        }
    }
}

/// The diff line a new comment's editor opens after: the first line that
/// carries the anchor's number on its side, when the editor writes a new
/// comment on the file shown (`path`); none when it edits an existing
/// comment (its box carries it) or anchors on another file.
pub fn editor_new_anchor_line(edit: &CommentEdit, path: Option<&str>, lines: &[DiffLine]) -> (r: Option<usize>)
    ensures
        r == new_anchor_line(*edit, path_view(path), lines@),
{
    if edit.editing_id.is_some() {
        return None;
    }
    match path {
        Some(p) => {
            if !str_eq(p, edit.anchor.file.as_str()) {
                return None;
            }
        },
        None => {
            return None;
        },
    }
    let mut i: usize = 0;
    while i < lines.len()
        invariant
            edit.editing_id is None,
            path matches Some(p) && p@ == edit.anchor.file@,
            i <= lines@.len(),
            forall|k: int| 0 <= k < i ==> number_on(#[trigger] lines@[k], edit.anchor.side) != Some(edit.anchor.line),
        decreases lines.len() - i,
    {
        if line_no(&lines[i], edit.anchor.side) == Some(edit.anchor.line) {
            proof {
                lemma_line_at(lines@, edit.anchor.side, edit.anchor.line, i as int);
            }
            return Some(i);
        }
        i = i + 1;
    }
    proof {
        lemma_line_at(lines@, edit.anchor.side, edit.anchor.line, i as int);
    }
    None
}

/// Whether some row draws part of the editor.
pub open spec fn has_editor_row(rows: Seq<LayoutRow>) -> bool {
    exists|i: int| 0 <= i < rows.len() && rows[i].content is Editor
}

/// `r` is `body` with the open editor's fallback: when the editor found no
/// row in `body`, its full-width box leads; otherwise `r` is `body`.
pub open spec fn with_fallback(body: Seq<LayoutRow>, r: Seq<LayoutRow>, editor: Option<CommentEdit>, width: usize) -> bool {
    match editor {
        Some(e) => if has_editor_row(body) {
            r == body
        } else {
            exists|k: int|
                0 <= k <= r.len() && r.subrange(k, r.len() as int) == body && editor_box_spec(
                    r.subrange(0, k),
                    e,
                    BoxPlacement::Unified(width),
                    editor_lines(e, BoxPlacement::Unified(width)),
                )
        },
        None => r == body,
    }
}

/// The layout with the open editor's fallback: an editor that found no row
/// (its anchor no longer maps to a line, or the comment it edits is gone)
/// shows as a full-width box at the top.
pub fn with_editor_fallback(rows: Vec<LayoutRow>, editor: Option<&CommentEdit>, width: usize) -> (r: Vec<LayoutRow>)
    ensures
        with_fallback(rows@, r@, editor_value(editor), width),
{
    let e = match editor {
        Some(e) => e,
        None => {
            return rows;
        },
    };
    let mut i: usize = 0;
    while i < rows.len()
        invariant
            i <= rows@.len(),
            forall|k: int| 0 <= k < i ==> !(rows@[k].content is Editor),
        decreases rows.len() - i,
    {
        let is_editor = match &rows[i].content {
            RowContent::Editor(_) => true,
            _ => false,
        };
        if is_editor {
            return rows;
        }
        i = i + 1;
    }
    let mut block = editor_box_rows(e, BoxPlacement::Unified(width));
    let ghost b = block@;
    let mut rest = rows;
    block.append(&mut rest);
    proof {
        let k = b.len() as int;
        assert(block@.subrange(k, block@.len() as int) =~= rows@);
        assert(block@.subrange(0, k) =~= b);
    }
    block
}

} // verus!
