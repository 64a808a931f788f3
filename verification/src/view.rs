//! The diff pane's view model: the focus and mode enums, the transient
//! footer message, and the physical rows a diff layout is built from, with
//! the pure functions that place code lines, comment boxes and file headers.

use vstd::prelude::*;
use crate::comments::{Comment, Side, Source};
use crate::editor::CommentAnchor;
use crate::git::diff::{DiffLine, FileDiff, LineKind};
use crate::git::history::{CommitFile, CommitStat};
use crate::git::status::{Change, label_of, opt_view};
use crate::text::{chars_of, push_chars, push_decimal, decimal, str_eq};

verus! {

/// Which pane receives keyboard input.
#[derive(Clone, Copy, Debug, PartialEq, Eq, Structural)]
pub enum Focus {
    Staging,
    Diff,
}

/// How the diff pane renders a change.
#[derive(Clone, Copy, Debug, PartialEq, Eq, Structural)]
pub enum DiffMode {
    Unified,
    SideBySide,
}

/// Which top-level view is showing.
#[derive(Clone, Copy, Debug, PartialEq, Eq, Structural)]
pub enum ViewMode {
    Status,
    History,
    /// A branch-to-branch review session.
    Review,
}

/// A top-level menu of the header's menu bar.
#[derive(Clone, Copy, Debug, PartialEq, Eq, Structural)]
pub enum MenuId {
    View,
    Theme,
}

/// The open dropdown menu: `item` indexes its full row list, separators
/// included.
#[derive(Clone, Copy, Debug, PartialEq, Eq, Structural)]
pub struct OpenMenu {
    pub menu: MenuId,
    pub item: usize,
}

/// Which sub-pane of the review view receives keyboard input.
#[derive(Clone, Copy, Debug, PartialEq, Eq, Structural)]
pub enum ReviewFocus {
    /// The flat changed-file list.
    List,
    /// The diff pane.
    Diff,
}

/// Which sub-pane of the history view receives keyboard input.
#[derive(Clone, Copy, Debug, PartialEq, Eq, Structural)]
pub enum HistoryFocus {
    Graph,
    CommittedChanges,
    Diff,
}

/// A transient footer message shown until the next input: `Error` marks a
/// failed action, `Info` a benign notice.
#[derive(Clone, Debug)]
pub struct Flash {
    pub text: String,
    pub kind: FlashKind,
}

#[derive(Clone, Copy, Debug, PartialEq, Eq, Structural)]
pub enum FlashKind {
    Error,
    Info,
}

impl Flash {
    /// An error message.
    pub fn error(text: String) -> (f: Flash)
        ensures
            f.text == text,
            f.kind == FlashKind::Error,
    {
        Flash { text, kind: FlashKind::Error }
    }

    /// A benign notice.
    pub fn info(text: String) -> (f: Flash)
        ensures
            f.text == text,
            f.kind == FlashKind::Info,
    {
        Flash { text, kind: FlashKind::Info }
    }
}

/// A half-open char window `[start_char, end_char)` into a line's sanitized
/// text; one display row renders exactly one.
#[derive(Clone, Copy, Debug, PartialEq, Eq, Structural)]
pub struct Seg {
    pub start_char: usize,
    pub end_char: usize,
}

impl Seg {
    /// The whole line as one segment `[0, char_count)`.
    pub fn full(char_count: usize) -> (s: Seg)
        ensures
            s.start_char == 0,
            s.end_char == char_count,
    {
        Seg { start_char: 0, end_char: char_count }
    }
}

/// One side of a side-by-side pair subrow: the diff line it draws and the
/// char window of this subrow (`None` once that line ran out of segments
/// while the other side still has some).
#[derive(Clone, Copy, Debug, PartialEq, Eq, Structural)]
pub struct PairCell {
    pub line: usize,
    pub seg: Option<Seg>,
}

/// Per-side changed character ranges of a modified side-by-side pair, as
/// char offsets into each side's sanitized text.
#[derive(Clone, Debug, Default)]
pub struct PairEmphasis {
    pub old_ranges: Vec<core::ops::Range<usize>>,
    pub new_ranges: Vec<core::ops::Range<usize>>,
}

/// What a physical layout row draws.
#[derive(Clone)]
pub enum RowContent {
    /// One display row of a unified diff line.
    Line { line: usize, seg: Seg },
    /// A side-by-side hunk header, spanning both columns.
    Hunk(usize),
    /// One display row of a side-by-side pair; each side is absent or a cell.
    Pair { left: Option<PairCell>, right: Option<PairCell>, emphasis: Option<std::rc::Rc<PairEmphasis>> },
    /// One physical row of a comment box.
    Box(BoxRow),
    /// One physical row of the in-place comment editor.
    Editor(EditorPart),
    /// One physical row of a file's header.
    FileHeader(FileHeaderRow),
}

/// Which physical part of a file header a row draws.
#[derive(Clone, Copy, Debug, PartialEq, Eq, Structural)]
pub enum HeaderPart {
    /// The separator rule above a header, drawn for every file but the first.
    Rule,
    /// The header band itself.
    Band,
}

/// What a file header's band draws: the change marker, the dim prefix (the
/// directory, or the whole old path for a rename), the basename, the counts.
#[derive(Clone, Debug)]
pub struct FileHeaderRow {
    pub marker: char,
    pub part: HeaderPart,
    pub prefix: String,
    pub name: String,
    pub stat: CommitStat,
}

/// Which physical part of the in-place editor box a row draws.
#[derive(Clone)]
pub enum EditorPart {
    /// The top border, carrying the editor title.
    Title(String),
    /// A wrapped body row; `caret` is the caret's display column when the
    /// caret falls on this row.
    Body { text: String, caret: Option<usize> },
    /// The bottom border.
    Bottom,
}

/// One physical row of a comment box.
#[derive(Clone)]
pub struct BoxRow {
    pub id: u64,
    pub stale: bool,
    pub part: BoxPart,
}

/// Which physical part of a comment box a row draws.
#[derive(Clone)]
pub enum BoxPart {
    /// The top border, carrying the title text.
    Title(String),
    /// A body line, already word-wrapped to the box's inner width.
    Body(String),
    /// The bottom border.
    Bottom,
}

/// The logical unit the diff cursor addresses, decoupled from the physical
/// rows it renders on.
#[derive(Clone, Copy, Debug, PartialEq, Eq, Structural)]
pub enum RowTarget {
    Code(usize),
    Comment(u64),
    Orphan(u64),
    /// The in-place editor box.
    Editor,
    /// A file's header.
    FileHeader,
}

/// One physical row of the diff pane: its logical target, its offset within
/// that target, the side column a side-by-side box occupies, and what it draws.
#[derive(Clone)]
pub struct LayoutRow {
    pub target: RowTarget,
    pub subrow: usize,
    pub side: Option<Side>,
    pub content: RowContent,
}

/// One file's prepared part of the diff stream: its diff and its rows.
pub struct FileSection {
    pub diff: FileDiff,
    pub rows: Vec<LayoutRow>,
}

/// A blocking overlay that captures input until dismissed.
#[derive(Clone, Debug)]
pub enum Modal {
    /// Confirm discarding a file's changes (or deleting an untracked file).
    ConfirmDiscard { path: String, change: Change, label: String },
    /// The keybinding help overlay.
    Help,
}

/// Where a comment box goes: full width, or into one side-by-side column.
#[derive(Clone, Copy, Debug, PartialEq, Eq, Structural)]
pub enum BoxPlacement {
    Unified(usize),
    Sbs { left_w: usize, right_w: usize },
}

impl BoxPlacement {
    /// The row's side column (`None` for full width) and the box width for a
    /// box anchored on `side`.
    pub fn column_for(self, side: Side) -> (r: (Option<Side>, usize))
        ensures
            r == match self {
                BoxPlacement::Unified(w) => (None, w),
                BoxPlacement::Sbs { left_w, right_w } => match side {
                    Side::Old => (Some(Side::Old), left_w),
                    Side::New => (Some(Side::New), right_w),
                },
            },
    {
        match self {
            BoxPlacement::Unified(w) => (None, w),
            BoxPlacement::Sbs { left_w, right_w } => match side {
                Side::Old => (Some(Side::Old), left_w),
                Side::New => (Some(Side::New), right_w),
            },
        }
    }
}

/// A side-by-side code row before comment boxes are interleaved.
#[derive(Clone, Copy, Debug, PartialEq, Eq, Structural)]
pub enum SbsCode {
    Hunk(usize),
    Pair { left: Option<usize>, right: Option<usize> },
}

/// The comment a target names, if any.
pub fn target_comment_id(target: RowTarget) -> (r: Option<u64>)
    ensures
        r == match target {
            RowTarget::Comment(id) | RowTarget::Orphan(id) => Some(id),
            _ => None::<u64>,
        },
{
    match target {
        RowTarget::Comment(id) | RowTarget::Orphan(id) => Some(id),
        RowTarget::Code(_) | RowTarget::Editor | RowTarget::FileHeader => None,
    }
}

/// The run of rows sharing `target`: from its first row through the last
/// consecutive row with that target; `None` when no row has it.
pub fn target_span(rows: &[LayoutRow], target: RowTarget) -> (r: Option<(usize, usize)>)
    ensures
        match r {
            None => forall|i: int| 0 <= i < rows@.len() ==> (#[trigger] rows@[i]).target != target,
            Some((start, end)) => {
                &&& start < end <= rows@.len()
                &&& forall|i: int| 0 <= i < start ==> (#[trigger] rows@[i]).target != target
                &&& forall|i: int| start <= i < end ==> (#[trigger] rows@[i]).target == target
                &&& end < rows@.len() ==> rows@[end as int].target != target
            },
        },
{
    let mut start: usize = 0;
    while start < rows.len() && rows[start].target != target
        invariant
            start <= rows@.len(),
            forall|i: int| 0 <= i < start ==> (#[trigger] rows@[i]).target != target,
        decreases rows.len() - start,
    {
        start = start + 1;
    }
    if start == rows.len() {
        return None;
    }
    let mut end: usize = start + 1;
    while end < rows.len() && rows[end].target == target
        invariant
            start < end <= rows@.len(),
            forall|i: int| start <= i < end ==> (#[trigger] rows@[i]).target == target,
        decreases rows.len() - end,
    {
        end = end + 1;
    }
    Some((start, end))
}

/// Sort rank putting old-side comments before new-side ones.
pub fn side_rank(side: Side) -> (r: u8)
    ensures
        r == match side {
            Side::Old => 0u8,
            Side::New => 1u8,
        },
{
    match side {
        Side::Old => 0,
        Side::New => 1,
    }
}

/// The line number of `line` on `side`.
pub open spec fn number_on(line: DiffLine, side: Side) -> Option<usize> {
    match side {
        Side::Old => line.old_no,
        Side::New => line.new_no,
    }
}

/// The diff-line number on `side`.
pub fn line_no(line: &DiffLine, side: Side) -> (r: Option<usize>)
    ensures
        r == number_on(*line, side),
{
    match side {
        Side::Old => line.old_no,
        Side::New => line.new_no,
    }
}

/// The anchor for a new comment on a diff line: an addition anchors to the
/// new side, a deletion to the old side, a context line to the new side; the
/// line's text becomes the context. `None` for a hunk header or a line
/// missing that side's number.
pub fn anchor_for_line(line: &DiffLine, file: String) -> (r: Option<CommentAnchor>)
    ensures
        line.kind == LineKind::Hunk ==> r is None,
        line.kind != LineKind::Hunk ==> {
            let side = if line.kind == LineKind::Deletion {
                Side::Old
            } else {
                Side::New
            };
            match number_on(*line, side) {
                None => r is None,
                Some(n) => r matches Some(a) && a.file == file && a.side == side && a.line == n
                    && a.context == Some(line.text),
            }
        },
{
    let (side, number) = match line.kind {
        LineKind::Addition => (Side::New, line.new_no),
        LineKind::Deletion => (Side::Old, line.old_no),
        LineKind::Context => (Side::New, line.new_no),
        LineKind::Hunk => {
            return None;
        },
    };
    match number {
        Some(n) => Some(CommentAnchor { file, side, line: n, context: Some(line.text.clone()) }),
        None => None,
    }
}

/// The left and right column widths of a side-by-side pane of inner width
/// `width`: a one-cell divider between two roughly equal columns.
pub fn sbs_columns(width: u16) -> (r: (usize, usize))
    ensures
        width == 0 ==> r == (0usize, 0usize),
        width > 0 ==> r.0 == (width - 1) / 2 && r.1 == width - 1 - r.0,
        width > 0 ==> r.0 + 1 + r.1 == width,
        r.0 <= r.1 <= r.0 + 1,
{
    let w = width as usize;
    let left = w.saturating_sub(1) / 2;
    let right = w.saturating_sub(left + 1);
    (left, right)
}

/// The word-wrap width of a box body: the box width less two borders and two
/// pads, at least 1.
pub fn box_body_width(box_width: usize) -> (w: usize)
    ensures
        w == if box_width > 5 {
            (box_width - 4) as usize
        } else {
            1usize
        },
{
    let inner = box_width.saturating_sub(4);
    if inner > 1 {
        inner
    } else {
        1
    }
}

/// Appends char index `idx` to `ranges`, extending the last range when `idx`
/// directly follows it (changed chars arrive in increasing order, so a run
/// collapses into one range).
pub fn push_char(ranges: &mut Vec<core::ops::Range<usize>>, idx: usize)
    requires
        idx < usize::MAX,
    ensures
        ({
            let n = old(ranges)@.len();
            if n > 0 && old(ranges)@[n - 1].end == idx {
                final(ranges)@ == old(ranges)@.update(
                    n - 1,
                    core::ops::Range { start: old(ranges)@[n - 1].start, end: (idx + 1) as usize },
                )
            } else {
                final(ranges)@ == old(ranges)@.push(core::ops::Range { start: idx, end: (idx + 1) as usize })
            }
        }),
{
    let n = ranges.len();
    if n > 0 && ranges[n - 1].end == idx {
        let start = ranges[n - 1].start;
        ranges.set(n - 1, start..idx + 1);
    } else {
        ranges.push(idx..idx + 1);
    }
}

/// The last index below `j` holding `c`, or -1.
pub open spec fn last_index(s: Seq<char>, c: char, j: int) -> int
    decreases j,
{
    if j <= 0 {
        -1
    } else if s[j - 1] == c {
        j - 1
    } else {
        last_index(s, c, j - 1)
    }
}

proof fn lemma_last_index(s: Seq<char>, c: char, j: int)
    requires
        0 <= j <= s.len(),
    ensures
        -1 <= last_index(s, c, j) < j,
        last_index(s, c, j) >= 0 ==> s[last_index(s, c, j)] == c,
    decreases j,
{
    if j > 0 && s[j - 1] != c {
        lemma_last_index(s, c, j - 1);
    }
}

/// A path's directory part (through its last `/`) and basename; a path with
/// no `/`, or ending in one (a collapsed untracked directory), is all name.
pub open spec fn split_dir(path: Seq<char>) -> (Seq<char>, Seq<char>) {
    let k = last_index(path, '/', path.len() as int);
    if k >= 0 && k + 1 < path.len() {
        (path.take(k + 1), path.skip(k + 1))
    } else {
        (Seq::empty(), path)
    }
}

/// The dim prefix and the basename of a file's list label: the directory,
/// preceded by `orig → ` for a rename.
pub open spec fn label_parts(path: Seq<char>, orig: Option<Seq<char>>) -> (Seq<char>, Seq<char>) {
    let (dir, name) = split_dir(path);
    match orig {
        Some(o) => (o + seq![' ', '→', ' '] + dir, name),
        None => (dir, name),
    }
}

/// Splits a file's list label into the dim prefix and the basename the
/// header's chip carries; together they read exactly as the list label.
pub fn split_label(path: &str, orig_path: Option<&str>) -> (r: (String, String))
    ensures
        (r.0@, r.1@) == label_parts(path@, match orig_path {
            Some(o) => Some(o@),
            None => None::<Seq<char>>,
        }),
        r.0@ + r.1@ == label_of(path@, match orig_path {
            Some(o) => Some(o@),
            None => None::<Seq<char>>,
        }),
{
    let cs = chars_of(path);
    let mut j: usize = cs.len();
    while j > 0 && cs[j - 1] != '/'
        invariant
            j <= cs@.len(),
            last_index(cs@, '/', j as int) == last_index(cs@, '/', cs@.len() as int),
        decreases j,
    {
        j = j - 1;
    }
    proof {
        lemma_last_index(cs@, '/', cs@.len() as int);
    }
    let (dir, name) = if j > 0 && j < cs.len() {
        (
            crate::text::string_of_range(cs.as_slice(), 0, j),
            crate::text::string_of_range(cs.as_slice(), j, cs.len()),
        )
    } else {
        (String::new(), crate::text::string_of(cs.as_slice()))
    };
    proof {
        assert(cs@.take(j as int) + cs@.skip(j as int) =~= cs@);
        assert(cs@.subrange(0, j as int) =~= cs@.take(j as int));
        assert(cs@.subrange(j as int, cs@.len() as int) =~= cs@.skip(j as int));
    }
    match orig_path {
        Some(orig) => {
            let mut prefix = String::new();
            let oc = chars_of(orig);
            push_chars(&mut prefix, oc.as_slice());
            let sep: [char; 3] = [' ', '→', ' '];
            push_chars(&mut prefix, sep.as_slice());
            let dc = chars_of(dir.as_str());
            push_chars(&mut prefix, dc.as_slice());
            proof {
                assert(prefix@ =~= orig@ + seq![' ', '→', ' '] + dir@);
                assert(prefix@ + name@ =~= orig@ + seq![' ', '→', ' '] + (dir@ + name@));
            }
            (prefix, name)
        },
        None => {
            assert(dir@ + name@ =~= path@);
            (dir, name)
        },
    }
}

/// The header band for a committed file (a reviewed range's or one
/// commit's): its change marker, its label split into prefix and basename,
/// and git's counts.
pub fn commit_file_header(file: &CommitFile) -> (h: FileHeaderRow)
    ensures
        h.marker == file.change.marker_of(),
        h.part == HeaderPart::Band,
        (h.prefix@, h.name@) == label_parts(file.path@, opt_view(file.orig_path)),
        h.stat == file.stat,
{
    let orig = match &file.orig_path {
        Some(o) => Some(o.as_str()),
        None => None,
    };
    let (prefix, name) = split_label(file.path.as_str(), orig);
    FileHeaderRow { marker: file.change.marker(), part: HeaderPart::Band, prefix, name, stat: file.stat }
}

/// The physical rows leading a file's layout: the band alone for the
/// stream's first file, a separating rule above it for every other file;
/// all of them one cursor stop.
pub fn header_rows(header: FileHeaderRow, first: bool) -> (rows: Vec<LayoutRow>)
    ensures
        rows@.len() == if first {
            1int
        } else {
            2int
        },
        forall|i: int|
            0 <= i < rows@.len() ==> {
                &&& (#[trigger] rows@[i]).target == RowTarget::FileHeader
                &&& rows@[i].subrow == i
                &&& rows@[i].side is None
                &&& rows@[i].content matches RowContent::FileHeader(h) && h.marker == header.marker
                    && h.prefix == header.prefix && h.name == header.name && h.stat == header.stat
                    && h.part == if !first && i == 0 {
                    HeaderPart::Rule
                } else {
                    HeaderPart::Band
                }
            },
{
    let mut rows: Vec<LayoutRow> = Vec::new();
    if !first {
        rows.push(header_row(&header, 0, HeaderPart::Rule));
    }
    let sub: usize = if first {
        0
    } else {
        1
    };
    rows.push(header_row(&header, sub, HeaderPart::Band));
    rows
}

fn header_row(header: &FileHeaderRow, subrow: usize, part: HeaderPart) -> (row: LayoutRow)
    ensures
        row.target == RowTarget::FileHeader,
        row.subrow == subrow,
        row.side is None,
        row.content matches RowContent::FileHeader(h) && h.marker == header.marker && h.prefix
            == header.prefix && h.name == header.name && h.stat == header.stat && h.part == part,
{
    LayoutRow {
        target: RowTarget::FileHeader,
        subrow,
        side: None,
        content: RowContent::FileHeader(
            FileHeaderRow {
                marker: header.marker,
                part,
                prefix: header.prefix.clone(),
                name: header.name.clone(),
                stat: header.stat,
            },
        ),
    }
}

/// `"you"` for a human note, `"agent"` for an agent's.
pub open spec fn author_word(source: Source) -> Seq<char> {
    match source {
        Source::Human => seq!['y', 'o', 'u'],
        Source::Agent => seq!['a', 'g', 'e', 'n', 't'],
    }
}

/// `<marker> <who> — <file> R<line>`.
pub open spec fn title_of(marker: char, who: Seq<char>, file: Seq<char>, line: nat) -> Seq<char> {
    seq![marker, ' '] + who + seq![' ', '—', ' '] + file + seq![' ', 'R'] + decimal(line)
}

fn title_string(marker: char, who: &[char], file: &str, line: usize) -> (s: String)
    ensures
        s@ == title_of(marker, who@, file@, line as nat),
{
    let mut s = String::new();
    let head: [char; 2] = [marker, ' '];
    push_chars(&mut s, head.as_slice());
    push_chars(&mut s, who);
    let dash: [char; 3] = [' ', '—', ' '];
    push_chars(&mut s, dash.as_slice());
    let fc = chars_of(file);
    push_chars(&mut s, fc.as_slice());
    let r: [char; 2] = [' ', 'R'];
    push_chars(&mut s, r.as_slice());
    push_decimal(&mut s, line as u128);
    assert(s@ =~= title_of(marker, who@, file@, line as nat));
    s
}

/// The title of a comment box: `● you — <file> R<line>`, with `⚠` for an
/// orphan and `agent` for an agent's note.
pub fn box_title_text(comment: &Comment, orphan: bool) -> (s: String)
    ensures
        s@ == title_of(
            if orphan {
                '⚠'
            } else {
                '●'
            },
            author_word(comment.source),
            comment.file@,
            comment.line as nat,
        ),
{
    let marker = if orphan {
        '⚠'
    } else {
        '●'
    };
    let who: Vec<char> = match comment.source {
        Source::Human => vec!['y', 'o', 'u'],
        Source::Agent => vec!['a', 'g', 'e', 'n', 't'],
    };
    assert(who@ =~= author_word(comment.source));
    title_string(marker, who.as_slice(), comment.file.as_str(), comment.line)
}

/// The title of the in-place editor box: `✎ you — <file> R<line>`.
pub fn editor_title_text(anchor: &CommentAnchor) -> (s: String)
    ensures
        s@ == title_of('✎', seq!['y', 'o', 'u'], anchor.file@, anchor.line as nat),
{
    let who: Vec<char> = vec!['y', 'o', 'u'];
    assert(who@ =~= seq!['y', 'o', 'u']);
    title_string('✎', who.as_slice(), anchor.file.as_str(), anchor.line)
}

// ---------------------------------------------------------------------------
// Side-by-side pairing.
// ---------------------------------------------------------------------------

/// Element `i` of `s`, or `None` past its end.
pub open spec fn get_opt(s: Seq<usize>, i: int) -> Option<usize> {
    if 0 <= i < s.len() {
        Some(s[i])
    } else {
        None
    }
}

/// A run of deletions zipped against the following run of additions, the
/// shorter side padded with blanks.
pub open spec fn zipped(dels: Seq<usize>, adds: Seq<usize>) -> Seq<SbsCode> {
    let n = if dels.len() < adds.len() {
        adds.len()
    } else {
        dels.len()
    };
    Seq::new(n, |i: int| SbsCode::Pair { left: get_opt(dels, i), right: get_opt(adds, i) })
}

/// After the first `n` lines: the rows emitted so far and the pending runs
/// of deletions and additions.
pub open spec fn sbs_scan(lines: Seq<DiffLine>, n: nat) -> (Seq<SbsCode>, Seq<usize>, Seq<usize>)
    decreases n,
{
    if n == 0 || n > lines.len() {
        (Seq::empty(), Seq::empty(), Seq::empty())
    } else {
        let prev = sbs_scan(lines, (n - 1) as nat);
        let i = (n - 1) as usize;
        match lines[n - 1].kind {
            LineKind::Deletion => (prev.0, prev.1.push(i), prev.2),
            LineKind::Addition => (prev.0, prev.1, prev.2.push(i)),
            LineKind::Context => (
                (prev.0 + zipped(prev.1, prev.2)).push(SbsCode::Pair { left: Some(i), right: Some(i) }),
                Seq::empty(),
                Seq::empty(),
            ),
            LineKind::Hunk => (
                (prev.0 + zipped(prev.1, prev.2)).push(SbsCode::Hunk(i)),
                Seq::empty(),
                Seq::empty(),
            ),
        }
    }
}

/// The side-by-side code rows of `lines`.
pub open spec fn sbs_rows(lines: Seq<DiffLine>) -> Seq<SbsCode> {
    let end = sbs_scan(lines, lines.len());
    end.0 + zipped(end.1, end.2)
}

/// Emits the zipped pending runs and empties them.
fn flush_pairs(rows: &mut Vec<SbsCode>, deletions: &mut Vec<usize>, additions: &mut Vec<usize>)
    ensures
        final(rows)@ == old(rows)@ + zipped(old(deletions)@, old(additions)@),
        final(deletions)@ == Seq::<usize>::empty(),
        final(additions)@ == Seq::<usize>::empty(),
{
    let ghost start = rows@;
    let n = if deletions.len() < additions.len() {
        additions.len()
    } else {
        deletions.len()
    };
    let ghost z = zipped(deletions@, additions@);
    let mut i: usize = 0;
    while i < n
        invariant
            i <= n == z.len(),
            z == zipped(deletions@, additions@),
            rows@ == start + z.take(i as int),
        decreases n - i,
    {
        let left = if i < deletions.len() {
            Some(deletions[i])
        } else {
            None
        };
        let right = if i < additions.len() {
            Some(additions[i])
        } else {
            None
        };
        rows.push(SbsCode::Pair { left, right });
        i = i + 1;
        assert(rows@ =~= start + z.take(i as int));
    }
    assert(z.take(i as int) =~= z);
    deletions.clear();
    additions.clear();
}

/// Pairs unified diff lines into side-by-side code rows (by index): context
/// lines on both sides, hunk headers across, and each run of deletions zipped
/// against the run of additions that follows it.
pub fn side_by_side_rows(lines: &[DiffLine]) -> (rows: Vec<SbsCode>)
    ensures
        rows@ == sbs_rows(lines@),
{
    let mut rows: Vec<SbsCode> = Vec::new();
    let mut deletions: Vec<usize> = Vec::new();
    let mut additions: Vec<usize> = Vec::new();
    let mut i: usize = 0;
    while i < lines.len()
        invariant
            i <= lines@.len(),
            (rows@, deletions@, additions@) == sbs_scan(lines@, i as nat),
        decreases lines.len() - i,
    {
        match lines[i].kind {
            LineKind::Deletion => deletions.push(i),
            LineKind::Addition => additions.push(i),
            LineKind::Context => {
                flush_pairs(&mut rows, &mut deletions, &mut additions);
                rows.push(SbsCode::Pair { left: Some(i), right: Some(i) });
            },
            LineKind::Hunk => {
                flush_pairs(&mut rows, &mut deletions, &mut additions);
                rows.push(SbsCode::Hunk(i));
            },
        }
        i = i + 1;
    }
    flush_pairs(&mut rows, &mut deletions, &mut additions);
    rows
}

// ---------------------------------------------------------------------------
// Comment placement.
// ---------------------------------------------------------------------------

/// Whether `s` is in ascending order.
pub open spec fn ascending(s: Seq<u64>) -> bool {
    forall|i: int, j: int| 0 <= i < j < s.len() ==> s[i] <= s[j]
}

/// `v`'s ids in ascending order.
pub fn sorted_ids(v: &Vec<u64>) -> (r: Vec<u64>)
    ensures
        ascending(r@),
        r@.to_multiset() == v@.to_multiset(),
{
    let mut r: Vec<u64> = Vec::new();
    let mut i: usize = 0;
    assert(v@.take(0) =~= r@);
    while i < v.len()
        invariant
            i <= v@.len(),
            ascending(r@),
            r@.to_multiset() == v@.take(i as int).to_multiset(),
        decreases v.len() - i,
    {
        let x = v[i];
        let mut pos: usize = 0;
        while pos < r.len() && r[pos] <= x
            invariant
                pos <= r@.len(),
                forall|k: int| 0 <= k < pos ==> r@[k] <= x,
            decreases r.len() - pos,
        {
            pos = pos + 1;
        }
        let ghost before = r@;
        r.insert(pos, x);
        proof {
            assert(v@.take(i + 1) =~= v@.take(i as int).push(x));
            vstd::seq_lib::to_multiset_insert(before, pos as int, x);
            vstd::seq_lib::to_multiset_build(v@.take(i as int), x);
            assert forall|a: int, b: int| 0 <= a < b < r@.len() implies r@[a] <= r@[b] by {
                if a < pos && b == pos {
                } else if a == pos && b > pos {
                    assert(r@[b] == before[b - 1]);
                    if pos < before.len() {
                        assert(before[pos as int] > x);
                        assert(before[pos as int] <= before[b - 1]);
                    }
                } else if a < pos && b > pos {
                    assert(r@[b] == before[b - 1]);
                } else if a > pos {
                    assert(r@[a] == before[a - 1]);
                    assert(r@[b] == before[b - 1]);
                }
            }
        }
        i = i + 1;
    }
    assert(v@.take(i as int) =~= v@);
    r
}

/// The first line at or after `i` whose number on `side` is `line`, or
/// `lines.len()`.
pub open spec fn match_from(lines: Seq<DiffLine>, side: Side, line: usize, i: int) -> int
    decreases lines.len() - i,
{
    if i >= lines.len() {
        lines.len() as int
    } else if number_on(lines[i], side) == Some(line) {
        i
    } else {
        match_from(lines, side, line, i + 1)
    }
}

/// The line a comment anchors below: the first whose number on its side is
/// its line, or `lines.len()` when none is.
pub open spec fn anchor_index(lines: Seq<DiffLine>, c: Comment) -> int {
    match_from(lines, c.side, c.line, 0)
}

/// Whether `c` belongs to `file` and goes to the orphan block: orphaned, or
/// matching no line.
pub open spec fn is_orphan_of(lines: Seq<DiffLine>, c: Comment, file: Seq<char>) -> bool {
    c.file@ == file && (c.orphaned || anchor_index(lines, c) >= lines.len())
}

/// Whether `c` belongs to `file` and is placed below line `index`.
pub open spec fn is_placed_at(lines: Seq<DiffLine>, c: Comment, file: Seq<char>, index: int) -> bool {
    c.file@ == file && !c.orphaned && anchor_index(lines, c) == index && index < lines.len()
}

/// The ids of the comments of `cs` that satisfy `keep`, in order.
pub open spec fn ids_where(cs: Seq<Comment>, keep: spec_fn(Comment) -> bool) -> Seq<u64>
    decreases cs.len(),
{
    if cs.len() == 0 {
        Seq::empty()
    } else {
        let prev = ids_where(cs.drop_last(), keep);
        if keep(cs.last()) {
            prev.push(cs.last().id)
        } else {
            prev
        }
    }
}

/// Whether `line`'s number on `side` is `n`.
fn number_is(line: &DiffLine, side: Side, n: usize) -> (r: bool)
    ensures
        r == (number_on(*line, side) == Some(n)),
{
    match line_no(line, side) {
        Some(m) => m == n,
        None => false,
    }
}

/// The orphan-block test as a predicate.
pub open spec fn orphan_keep(lines: Seq<DiffLine>, file: Seq<char>) -> spec_fn(Comment) -> bool {
    |c: Comment| is_orphan_of(lines, c, file)
}

/// The placed-below-`index` test as a predicate.
pub open spec fn placed_keep(lines: Seq<DiffLine>, file: Seq<char>, index: int) -> spec_fn(Comment) -> bool {
    |c: Comment| is_placed_at(lines, c, file, index)
}

/// The ids of `file`'s comments that go to the orphan block, in order.
pub open spec fn orphan_ids(lines: Seq<DiffLine>, comments: Seq<Comment>, file: Seq<char>) -> Seq<u64> {
    ids_where(comments, orphan_keep(lines, file))
}

/// The ids of `file`'s comments placed below line `index`, in order.
pub open spec fn placed_ids(lines: Seq<DiffLine>, comments: Seq<Comment>, file: Seq<char>, index: int) -> Seq<u64> {
    ids_where(comments, placed_keep(lines, file, index))
}

/// The diff-line index each comment anchors below.
fn anchor_indices(lines: &[DiffLine], comments: &[Comment]) -> (r: Vec<usize>)
    ensures
        r@.len() == comments@.len(),
        forall|k: int| 0 <= k < r@.len() ==> r@[k] == anchor_index(lines@, #[trigger] comments@[k]),
{
    let mut r: Vec<usize> = Vec::new();
    let mut k: usize = 0;
    while k < comments.len()
        invariant
            k <= comments@.len(),
            r@.len() == k,
            forall|m: int| 0 <= m < k ==> r@[m] == anchor_index(lines@, #[trigger] comments@[m]),
        decreases comments.len() - k,
    {
        let c = &comments[k];
        let mut i: usize = 0;
        while i < lines.len() && !number_is(&lines[i], c.side, c.line)
            invariant
                i <= lines@.len(),
                match_from(lines@, c.side, c.line, i as int) == anchor_index(lines@, *c),
            decreases lines.len() - i,
        {
            i = i + 1;
        }
        r.push(i);
        k = k + 1;
    }
    r
}

/// Resolves a file's comments into render placements: the ids of the orphan
/// block, and for each diff line that has notes below it, its index and
/// their ids. A comment goes below the first line whose number on its side is
/// its line; one that is orphaned, or matches no line, goes to the orphan
/// block. Ids come in ascending order; lines in ascending index order.
pub fn comment_placements(lines: &[DiffLine], comments: &[Comment], file: &str) -> (r: (
    Vec<u64>,
    Vec<(usize, Vec<u64>)>,
))
    ensures
        ascending(r.0@),
        r.0@.to_multiset() == orphan_ids(lines@, comments@, file@).to_multiset(),
        forall|j: int|
            0 <= j < r.1@.len() ==> {
                let (index, ids) = #[trigger] r.1@[j];
                &&& index < lines@.len()
                &&& ids@.len() > 0
                &&& ascending(ids@)
                &&& ids@.to_multiset() == placed_ids(lines@, comments@, file@, index as int).to_multiset()
            },
        forall|a: int, b: int| 0 <= a < b < r.1@.len() ==> r.1@[a].0 < r.1@[b].0,
        forall|index: int|
            0 <= index < lines@.len() && (#[trigger] placed_ids(lines@, comments@, file@, index)).len() > 0 ==> exists|j: int| 0 <= j < r.1@.len() && #[trigger] r.1@[j].0 == index,
{
    let at = anchor_indices(lines, comments);
    let mut orphans: Vec<u64> = Vec::new();
    let mut k: usize = 0;
    while k < comments.len()
        invariant
            k <= comments@.len(),
            at@.len() == comments@.len(),
            forall|m: int| 0 <= m < at@.len() ==> at@[m] == anchor_index(lines@, #[trigger] comments@[m]),
            orphans@ == ids_where(comments@.take(k as int), orphan_keep(lines@, file@)),
        decreases comments.len() - k,
    {
        assert(comments@.take(k + 1).drop_last() =~= comments@.take(k as int));
        let c = &comments[k];
        if str_eq(c.file.as_str(), file) && (c.orphaned || at[k] >= lines.len()) {
            orphans.push(c.id);
        }
        k = k + 1;
    }
    assert(comments@.take(k as int) =~= comments@);
    let orphans = sorted_ids(&orphans);
    let mut placements: Vec<(usize, Vec<u64>)> = Vec::new();
    let mut index: usize = 0;
    while index < lines.len()
        invariant
            index <= lines@.len(),
            at@.len() == comments@.len(),
            forall|m: int| 0 <= m < at@.len() ==> at@[m] == anchor_index(lines@, #[trigger] comments@[m]),
            forall|j: int|
                0 <= j < placements@.len() ==> {
                    let (ix, ids) = #[trigger] placements@[j];
                    &&& ix < index
                    &&& ids@.len() > 0
                    &&& ascending(ids@)
                    &&& ids@.to_multiset() == placed_ids(lines@, comments@, file@, ix as int).to_multiset()
                },
            forall|a: int, b: int| 0 <= a < b < placements@.len() ==> placements@[a].0 < placements@[b].0,
            forall|ix: int|
                0 <= ix < index && (#[trigger] placed_ids(lines@, comments@, file@, ix)).len() > 0 ==> exists|j: int| 0 <= j < placements@.len() && #[trigger] placements@[j].0 == ix,
        decreases lines.len() - index,
    {
        let mut ids: Vec<u64> = Vec::new();
        let mut k: usize = 0;
        while k < comments.len()
            invariant
                k <= comments@.len(),
                index < lines@.len(),
                at@.len() == comments@.len(),
                forall|m: int| 0 <= m < at@.len() ==> at@[m] == anchor_index(lines@, #[trigger] comments@[m]),
                ids@ == ids_where(comments@.take(k as int), placed_keep(lines@, file@, index as int)),
            decreases comments.len() - k,
        {
            assert(comments@.take(k + 1).drop_last() =~= comments@.take(k as int));
            let c = &comments[k];
            if str_eq(c.file.as_str(), file) && !c.orphaned && at[k] == index {
                ids.push(c.id);
            }
            k = k + 1;
        }
        assert(comments@.take(k as int) =~= comments@);
        if ids.len() > 0 {
            let sorted = sorted_ids(&ids);
            proof {
                vstd::seq_lib::to_multiset_len(sorted@);
                vstd::seq_lib::to_multiset_len(ids@);
            }
            let ghost prev = placements@;
            placements.push((index, sorted));
            proof {
                assert forall|ix: int|
                    0 <= ix < index + 1 && (#[trigger] placed_ids(lines@, comments@, file@, ix)).len() > 0 implies exists|j: int| 0 <= j < placements@.len() && #[trigger] placements@[j].0 == ix by {
                    if ix == index {
                        assert(placements@[prev.len() as int].0 == ix);
                    } else {
                        let j = choose|j: int| 0 <= j < prev.len() && #[trigger] prev[j].0 == ix;
                        assert(placements@[j].0 == ix);
                    }
                }
            }
        } else {
            proof {
                assert forall|ix: int|
                    0 <= ix < index + 1 && (#[trigger] placed_ids(lines@, comments@, file@, ix)).len() > 0 implies exists|j: int| 0 <= j < placements@.len() && #[trigger] placements@[j].0 == ix by {
                    if ix == index {
                        assert(placed_ids(lines@, comments@, file@, index as int).len() == 0);
                    }
                }
            }
        }
        index = index + 1;
    }
    (orphans, placements)
}

/// The comment ids to emit right below diff line `index`, in ascending order.
pub fn comments_after(placements: &Vec<(usize, Vec<u64>)>, index: usize) -> (r: &[u64])
    ensures
        r@ == ids_after(placements@, index, 0),
        (exists|j: int| 0 <= j < placements@.len() && placements@[j].0 == index) ==> exists|j: int|
            0 <= j < placements@.len() && placements@[j].0 == index && r@ == placements@[j].1@,
        !(exists|j: int| 0 <= j < placements@.len() && placements@[j].0 == index) ==> r@.len() == 0,
{
    let mut j: usize = 0;
    while j < placements.len()
        invariant
            j <= placements@.len(),
            forall|m: int| 0 <= m < j ==> placements@[m].0 != index,
            ids_after(placements@, index, j as int) == ids_after(placements@, index, 0),
        decreases placements.len() - j,
    {
        if placements[j].0 == index {
            return placements[j].1.as_slice();
        }
        j = j + 1;
    }
    &[]
}

/// The ids placed after diff line `index`: those of the first placement
/// from `j` on that names it, none when no placement does.
pub open spec fn ids_after(placements: Seq<(usize, Vec<u64>)>, index: usize, j: int) -> Seq<u64>
    decreases placements.len() - j,
{
    if j < 0 || j >= placements.len() {
        Seq::empty()
    } else if placements[j].0 == index {
        placements[j].1@
    } else {
        ids_after(placements, index, j + 1)
    }
}

proof fn lemma_match_from(lines: Seq<DiffLine>, side: Side, line: usize, i: int)
    requires
        0 <= i <= lines.len(),
    ensures
        i <= match_from(lines, side, line, i) <= lines.len(),
    decreases lines.len() - i,
{
    if i < lines.len() && number_on(lines[i], side) != Some(line) {
        lemma_match_from(lines, side, line, i + 1);
    }
}

/// No comment of the file is dropped: each goes to the orphan block or
/// below exactly one diff line, never both.
pub proof fn lemma_placement_total(lines: Seq<DiffLine>, c: Comment, file: Seq<char>)
    requires
        c.file@ == file,
    ensures
        is_orphan_of(lines, c, file) || is_placed_at(lines, c, file, anchor_index(lines, c)),
        is_placed_at(lines, c, file, anchor_index(lines, c)) ==> 0 <= anchor_index(lines, c) < lines.len(),
        forall|i: int, j: int|
            is_placed_at(lines, c, file, i) && is_placed_at(lines, c, file, j) ==> i == j,
        is_orphan_of(lines, c, file) ==> forall|i: int|
            0 <= i < lines.len() ==> !is_placed_at(lines, c, file, i),
{
    lemma_match_from(lines, c.side, c.line, 0);
}

} // verus!
