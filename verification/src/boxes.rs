//! Comment boxes and the in-place editor as physical diff-pane rows: a title
//! border, the body wrapped to the box's inner width, and a bottom border,
//! all sharing one cursor target.

use vstd::prelude::*;
use crate::comments::Comment;
use crate::editor::CommentEdit;
use crate::view::{
    BoxPart, BoxPlacement, BoxRow, EditorPart, LayoutRow, RowContent, RowTarget, author_word,
    box_body_width, box_title_text, editor_title_text, title_of,
};
use crate::wrap::{body_lines, editor_layout, editor_view, strings_chars, wrap_comment_body};

verus! {

/// The column a box anchored on `side` takes, and the box's width.
pub open spec fn column_of(p: BoxPlacement, side: crate::comments::Side) -> (Option<crate::comments::Side>, usize) {
    match p {
        BoxPlacement::Unified(w) => (None, w),
        BoxPlacement::Sbs { left_w, right_w } => match side {
            crate::comments::Side::Old => (Some(crate::comments::Side::Old), left_w),
            crate::comments::Side::New => (Some(crate::comments::Side::New), right_w),
        },
    }
}

/// Whether `row` is physical row `subrow` of a comment box on `target` in
/// column `side`, drawing `part`-kind content: its title `title`, body line
/// `body`, or bottom border.
pub open spec fn is_box_row(
    row: LayoutRow,
    target: RowTarget,
    subrow: int,
    side: Option<crate::comments::Side>,
    id: u64,
    stale: bool,
) -> bool {
    &&& row.target == target
    &&& row.subrow == subrow
    &&& row.side == side
    &&& row.content matches RowContent::Box(b) && b.id == id && b.stale == stale
}

/// The text a box row draws: its title, a body line, or none for the
/// bottom border.
pub open spec fn box_part_text(row: LayoutRow) -> Option<Seq<char>> {
    match row.content {
        RowContent::Box(b) => match b.part {
            BoxPart::Title(t) => Some(t@),
            BoxPart::Body(t) => Some(t@),
            BoxPart::Bottom => None,
        },
        _ => None,
    }
}

/// Whether a box row draws the title border.
pub open spec fn is_title_part(row: LayoutRow) -> bool {
    row.content matches RowContent::Box(b) && b.part is Title
}

/// Whether a box row draws a body line.
pub open spec fn is_body_part(row: LayoutRow) -> bool {
    row.content matches RowContent::Box(b) && b.part is Body
}

/// Whether a box row draws the bottom border.
pub open spec fn is_bottom_part(row: LayoutRow) -> bool {
    row.content matches RowContent::Box(b) && b.part is Bottom
}

/// The cursor target of a comment's box.
pub open spec fn box_target(id: u64, orphan: bool) -> RowTarget {
    if orphan {
        RowTarget::Orphan(id)
    } else {
        RowTarget::Comment(id)
    }
}

/// A box title's leading marker: `⚠` for an orphan, `●` otherwise.
pub open spec fn box_marker(orphan: bool) -> char {
    if orphan {
        '⚠'
    } else {
        '●'
    }
}

/// The inner width of a box `w` columns wide (see [`box_body_width`]).
pub open spec fn inner_width(w: usize) -> nat {
    if w > 5 {
        (w - 4) as nat
    } else {
        1
    }
}

/// The rows of `comment`'s box (see [`comment_box_rows`]).
pub open spec fn comment_box_spec(
    rows: Seq<LayoutRow>,
    comment: Comment,
    orphan: bool,
    stale: bool,
    placement: BoxPlacement,
) -> bool {
    let side = column_of(placement, comment.side).0;
    let body = body_lines(comment.text@, inner_width(column_of(placement, comment.side).1));
    &&& rows.len() == body.len() + 2
    &&& forall|i: int|
        0 <= i < rows.len() ==> #[trigger] is_box_row(rows[i], box_target(comment.id, orphan), i, side, comment.id, stale)
    &&& is_title_part(rows[0])
    &&& box_part_text(rows[0]) == Some(
        title_of(box_marker(orphan), author_word(comment.source), comment.file@, comment.line as nat),
    )
    &&& forall|i: int|
        1 <= i <= body.len() ==> #[trigger] is_body_part(rows[i]) && box_part_text(rows[i]) == Some(body[i - 1])
    &&& is_bottom_part(rows[rows.len() - 1])
}

/// The rows of `comment`'s box: its title (`⚠` for an orphan), its text
/// wrapped to the box's inner width, and the bottom border, all on the
/// comment's target (an orphan's when `orphan`) in the column its side takes.
pub fn comment_box_rows(comment: &Comment, orphan: bool, stale: bool, placement: BoxPlacement) -> (rows: Vec<
    LayoutRow,
>)
    ensures
        comment_box_spec(rows@, *comment, orphan, stale, placement),
{
    let (side, w) = placement.column_for(comment.side);
    assert(side == column_of(placement, comment.side).0 && w == column_of(placement, comment.side).1);
    let target = if orphan {
        RowTarget::Orphan(comment.id)
    } else {
        RowTarget::Comment(comment.id)
    };
    assert(target == box_target(comment.id, orphan));
    let body = wrap_comment_body(comment.text.as_str(), box_body_width(w));
    let ghost lines = strings_chars(body@);
    assert(lines == body_lines(comment.text@, inner_width(w)));
    let title = box_title_text(comment, orphan);
    assert(title@ == title_of(box_marker(orphan), author_word(comment.source), comment.file@, comment.line as nat));
    let mut rows: Vec<LayoutRow> = Vec::new();
    rows.push(
        LayoutRow { target, subrow: 0, side, content: RowContent::Box(BoxRow { id: comment.id, stale, part: BoxPart::Title(title) }) },
    );
    let mut i: usize = 0;
    while i < body.len()
        invariant
            i <= body@.len(),
            lines == strings_chars(body@),
            side == column_of(placement, comment.side).0,
            target == box_target(comment.id, orphan),
            rows@.len() == i + 1,
            forall|k: int| 0 <= k < rows@.len() ==> #[trigger] is_box_row(rows@[k], target, k, side, comment.id, stale),
            is_title_part(rows@[0]),
            box_part_text(rows@[0]) == Some(
                title_of(box_marker(orphan), author_word(comment.source), comment.file@, comment.line as nat),
            ),
            forall|k: int| 1 <= k <= i ==> #[trigger] is_body_part(rows@[k]) && box_part_text(rows@[k]) == Some(lines[k - 1]),
        decreases body.len() - i,
    {
        let text = body[i].clone();
        rows.push(
            LayoutRow {
                target,
                subrow: i + 1,
                side,
                content: RowContent::Box(BoxRow { id: comment.id, stale, part: BoxPart::Body(text) }),
            },
        );
        i = i + 1;
    }
    let n = rows.len();
    let ghost prev = rows@;
    rows.push(
        LayoutRow { target, subrow: n, side, content: RowContent::Box(BoxRow { id: comment.id, stale, part: BoxPart::Bottom }) },
    );
    proof {
        assert forall|k: int| 0 <= k < rows@.len() implies #[trigger] is_box_row(rows@[k], target, k, side, comment.id, stale) by {
            if k < prev.len() {
                assert(rows@[k] == prev[k]);
            }
        }
        assert forall|k: int| 1 <= k <= lines.len() implies #[trigger] is_body_part(rows@[k]) && box_part_text(rows@[k]) == Some(lines[k - 1]) by {
            assert(rows@[k] == prev[k]);
            assert(is_body_part(prev[k]) && box_part_text(prev[k]) == Some(lines[k - 1]));
        }
        assert(rows@[0] == prev[0]);
        lemma_box_spec(rows@, lines, *comment, orphan, stale, placement);
    }
    rows
}

proof fn lemma_box_spec(
    rows: Seq<LayoutRow>,
    lines: Seq<Seq<char>>,
    comment: Comment,
    orphan: bool,
    stale: bool,
    placement: BoxPlacement,
)
    requires
        lines == body_lines(comment.text@, inner_width(column_of(placement, comment.side).1)),
        rows.len() == lines.len() + 2,
        forall|i: int|
            0 <= i < rows.len() ==> #[trigger] is_box_row(
                rows[i],
                box_target(comment.id, orphan),
                i,
                column_of(placement, comment.side).0,
                comment.id,
                stale,
            ),
        is_title_part(rows[0]),
        box_part_text(rows[0]) == Some(
            title_of(box_marker(orphan), author_word(comment.source), comment.file@, comment.line as nat),
        ),
        forall|i: int|
            1 <= i <= lines.len() ==> #[trigger] is_body_part(rows[i]) && box_part_text(rows[i]) == Some(lines[i - 1]),
        is_bottom_part(rows[rows.len() - 1]),
    ensures
        comment_box_spec(rows, comment, orphan, stale, placement),
{
}

/// Whether `row` is physical row `subrow` of the editor box in column
/// `side`.
pub open spec fn is_editor_row(row: LayoutRow, subrow: int, side: Option<crate::comments::Side>) -> bool {
    &&& row.target == RowTarget::Editor
    &&& row.subrow == subrow
    &&& row.side == side
    &&& row.content is Editor
}

/// Whether `part` is an editor body row drawing `text` with caret `caret`.
pub open spec fn is_body_row(part: Option<EditorPart>, text: Seq<char>, caret: Option<usize>) -> bool {
    part matches Some(EditorPart::Body { text: t, caret: c }) && t@ == text && c == caret
}

/// The caret mark of body row `row` under `layout`: its display column on
/// the caret's row, none elsewhere.
pub open spec fn caret_at(row: int, layout: (Seq<Seq<char>>, int, int)) -> Option<usize> {
    if row == layout.1 {
        Some(layout.2 as usize)
    } else {
        None
    }
}

/// The editor part a row draws, if it is an editor row.
pub open spec fn editor_part(row: LayoutRow) -> Option<EditorPart> {
    match row.content {
        RowContent::Editor(p) => Some(p),
        _ => None,
    }
}

/// The rows of the editor's box (see [`editor_box_rows`]): `layout` is the
/// buffer laid out for the box, its body rows and the caret's row and
/// column.
pub open spec fn editor_box_spec(
    rows: Seq<LayoutRow>,
    edit: CommentEdit,
    placement: BoxPlacement,
    layout: (Seq<Seq<char>>, int, int),
) -> bool {
    let side = column_of(placement, edit.anchor.side).0;
    let body = layout.0;
    &&& layout == editor_layout(
        edit.buffer@,
        (edit.cursor.0 as int, edit.cursor.1 as int),
        inner_width(column_of(placement, edit.anchor.side).1),
    )
    &&& rows.len() == body.len() + 2
    &&& forall|i: int| 0 <= i < rows.len() ==> #[trigger] is_editor_row(rows[i], i, side)
    &&& editor_part(rows[0]) matches Some(EditorPart::Title(t)) && t@ == title_of(
        '✎',
        seq!['y', 'o', 'u'],
        edit.anchor.file@,
        edit.anchor.line as nat,
    )
    &&& forall|i: int|
        1 <= i <= body.len() ==> is_body_row(#[trigger] editor_part(rows[i]), body[i - 1], caret_at(i - 1, layout))
    &&& editor_part(rows[rows.len() - 1]) matches Some(EditorPart::Bottom)
}

proof fn lemma_editor_box_spec(
    rows: Seq<LayoutRow>,
    edit: CommentEdit,
    placement: BoxPlacement,
    layout: (Seq<Seq<char>>, int, int),
)
    requires
        layout == editor_layout(
            edit.buffer@,
            (edit.cursor.0 as int, edit.cursor.1 as int),
            inner_width(column_of(placement, edit.anchor.side).1),
        ),
        rows.len() == layout.0.len() + 2,
        forall|i: int|
            0 <= i < rows.len() ==> #[trigger] is_editor_row(rows[i], i, column_of(placement, edit.anchor.side).0),
        editor_part(rows[0]) matches Some(EditorPart::Title(t)) && t@ == title_of(
            '✎',
            seq!['y', 'o', 'u'],
            edit.anchor.file@,
            edit.anchor.line as nat,
        ),
        forall|i: int|
            1 <= i <= layout.0.len() ==> is_body_row(#[trigger] editor_part(rows[i]), layout.0[i - 1], caret_at(i - 1, layout)),
        editor_part(rows[rows.len() - 1]) matches Some(EditorPart::Bottom),
    ensures
        editor_box_spec(rows, edit, placement, layout),
{
}

/// The rows of the in-place editor's box: the editor title, the buffer
/// wrapped to the box's inner width with the caret marked on its row, and the
/// bottom border, all on the editor target in the column the anchor's side
/// takes.
pub fn editor_box_rows(edit: &CommentEdit, placement: BoxPlacement) -> (rows: Vec<LayoutRow>)
    ensures
        editor_box_spec(
            rows@,
            *edit,
            placement,
            editor_layout(
                edit.buffer@,
                (edit.cursor.0 as int, edit.cursor.1 as int),
                inner_width(column_of(placement, edit.anchor.side).1),
            ),
        ),
{
    let (side, w) = placement.column_for(edit.anchor.side);
    assert(side == column_of(placement, edit.anchor.side).0 && w == column_of(placement, edit.anchor.side).1);
    let view = editor_view(edit.buffer.as_str(), edit.cursor, box_body_width(w));
    let ghost layout = editor_layout(edit.buffer@, (edit.cursor.0 as int, edit.cursor.1 as int), inner_width(w));
    let ghost lines = view.rows@.map_values(|s: String| s@);
    assert(lines == layout.0);
    let title = editor_title_text(&edit.anchor);
    let mut rows: Vec<LayoutRow> = Vec::new();
    rows.push(LayoutRow { target: RowTarget::Editor, subrow: 0, side, content: RowContent::Editor(EditorPart::Title(title)) });
    let mut i: usize = 0;
    while i < view.rows.len()
        invariant
            i <= view.rows@.len(),
            lines == view.rows@.map_values(|s: String| s@),
            lines == layout.0,
            view.caret_row as int == layout.1,
            view.caret_col as int == layout.2,
            side == column_of(placement, edit.anchor.side).0,
            rows@.len() == i + 1,
            forall|k: int| 0 <= k < rows@.len() ==> #[trigger] is_editor_row(rows@[k], k, side),
            editor_part(rows@[0]) matches Some(EditorPart::Title(t)) && t@ == title_of(
                '✎',
                seq!['y', 'o', 'u'],
                edit.anchor.file@,
                edit.anchor.line as nat,
            ),
            forall|k: int|
                1 <= k <= i ==> is_body_row(#[trigger] editor_part(rows@[k]), lines[k - 1], caret_at(k - 1, layout)),
        decreases view.rows.len() - i,
    {
        let text = view.rows[i].clone();
        let caret = if i == view.caret_row {
            Some(view.caret_col)
        } else {
            None
        };
        rows.push(
            LayoutRow { target: RowTarget::Editor, subrow: i + 1, side, content: RowContent::Editor(EditorPart::Body { text, caret }) },
        );
        i = i + 1;
    }
    let n = rows.len();
    let ghost prev = rows@;
    rows.push(LayoutRow { target: RowTarget::Editor, subrow: n, side, content: RowContent::Editor(EditorPart::Bottom) });
    proof {
        assert forall|k: int| 0 <= k < rows@.len() implies #[trigger] is_editor_row(rows@[k], k, side) by {
            if k < prev.len() {
                assert(rows@[k] == prev[k]);
            }
        }
        assert forall|k: int|
            1 <= k <= lines.len() implies is_body_row(#[trigger] editor_part(rows@[k]), lines[k - 1], caret_at(k - 1, layout)) by {
            assert(rows@[k] == prev[k]);
            assert(editor_part(prev[k]) == editor_part(rows@[k]));
        }
        assert(rows@[0] == prev[0]);
        lemma_editor_box_spec(rows@, *edit, placement, layout);
    }
    rows
}

} // verus!
