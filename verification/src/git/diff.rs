//! The structured diff model that drives both unified and side-by-side
//! rendering, and the binary-content test.

use vstd::prelude::*;
use crate::text::{decoded, lossy_string};
use crate::text::{chars_of, decimal, push_chars, push_decimal, string_of_range};

verus! {

/// Lines of unchanged context kept around each change.
pub const CONTEXT_LINES: usize = 3;

/// How many leading bytes are scanned for a NUL when deciding "binary".
pub const BINARY_SCAN_BYTES: usize = 8000;

#[derive(Clone, Copy, Debug, PartialEq, Eq, Structural)]
pub enum LineKind {
    Context,
    Addition,
    Deletion,
    Hunk,
}

/// One rendered diff row: a context/added/removed line, or a `@@` hunk header.
#[derive(Clone, Debug, PartialEq, Eq)]
pub struct DiffLine {
    pub kind: LineKind,
    pub old_no: Option<usize>,
    pub new_no: Option<usize>,
    pub text: String,
}

#[derive(Clone, Debug, PartialEq, Eq)]
pub enum FileDiff {
    Text(Vec<DiffLine>),
    Binary,
}

/// Whether a NUL byte occurs among the first [`BINARY_SCAN_BYTES`] bytes.
pub open spec fn spec_is_binary(bytes: Seq<u8>) -> bool {
    exists|i: int| 0 <= i < bytes.len() && i < BINARY_SCAN_BYTES && bytes[i] == 0
}

/// Content is treated as binary when a NUL occurs in its first 8000 bytes.
pub fn is_binary(bytes: &[u8]) -> (b: bool)
    ensures
        b == spec_is_binary(bytes@),
{
    let mut i: usize = 0;
    while i < bytes.len() && i < BINARY_SCAN_BYTES
        invariant
            i <= bytes@.len(),
            i <= BINARY_SCAN_BYTES,
            forall|j: int| 0 <= j < i ==> bytes@[j] != 0,
        decreases bytes.len() - i,
    {
        if bytes[i] == 0 {
            return true;
        }
        i = i + 1;
    }
    false
}

// ---------------------------------------------------------------------------
// Line diffs.
// ---------------------------------------------------------------------------

#[verifier::external_type_specification]
#[verifier::external_body]
pub struct ExDiffOp(similar::DiffOp);

/// One operation of a line diff, over the two texts' line tokens, as the
/// similar crate reports it.
#[derive(Clone, Copy, Debug, PartialEq, Eq, Structural)]
pub enum LineOp {
    Equal { old_index: usize, new_index: usize, len: usize },
    Delete { old_index: usize, old_len: usize, new_index: usize },
    Insert { old_index: usize, new_index: usize, new_len: usize },
    Replace { old_index: usize, old_len: usize, new_index: usize, new_len: usize },
}

/// A grouped line diff: the change clusters, each with its context, and the
/// two texts' line tokens (each line with its terminator).
pub struct LineDiff {
    pub groups: Vec<Vec<LineOp>>,
    pub old_lines: Vec<String>,
    pub new_lines: Vec<String>,
}

/// The change clusters `TextDiff::from_lines(old, new).grouped_ops(context)`
/// yields.
pub uninterp spec fn similar_groups(old: Seq<char>, new: Seq<char>, context: usize) -> Seq<Seq<LineOp>>;

/// The line tokens similar splits `text` into (`TextDiff::old_slices`).
pub uninterp spec fn similar_lines(text: Seq<char>) -> Seq<Seq<char>>;

/// The old-side token range `[start, end)` an operation covers.
pub open spec fn old_span(op: LineOp) -> (int, int) {
    match op {
        LineOp::Equal { old_index, len, .. } => (old_index as int, old_index + len),
        LineOp::Delete { old_index, old_len, .. } => (old_index as int, old_index + old_len),
        LineOp::Insert { old_index, .. } => (old_index as int, old_index as int),
        LineOp::Replace { old_index, old_len, .. } => (old_index as int, old_index + old_len),
    }
}

/// The new-side token range `[start, end)` an operation covers.
pub open spec fn new_span(op: LineOp) -> (int, int) {
    match op {
        LineOp::Equal { new_index, len, .. } => (new_index as int, new_index + len),
        LineOp::Delete { new_index, .. } => (new_index as int, new_index as int),
        LineOp::Insert { new_index, new_len, .. } => (new_index as int, new_index + new_len),
        LineOp::Replace { new_index, new_len, .. } => (new_index as int, new_index + new_len),
    }
}

/// Whether every operation's ranges lie within the two token lists.
pub open spec fn groups_in_bounds(groups: Seq<Seq<LineOp>>, n_old: int, n_new: int) -> bool {
    forall|g: int, j: int|
        0 <= g < groups.len() && 0 <= j < groups[g].len() ==> {
            let op = #[trigger] groups[g][j];
            &&& old_span(op).1 <= n_old
            &&& new_span(op).1 <= n_new
        }
}

/// Whether an equal run pairs old tokens with new tokens of the same text
/// (other operations pair nothing).
pub open spec fn run_matches(op: LineOp, olds: Seq<Seq<char>>, news: Seq<Seq<char>>) -> bool {
    match op {
        LineOp::Equal { old_index, new_index, len } => olds.subrange(old_index as int, old_index + len)
            == news.subrange(new_index as int, new_index + len),
        _ => true,
    }
}

/// Whether every equal run of every cluster pairs tokens of the same text.
pub open spec fn equal_runs_match(groups: Seq<Seq<LineOp>>, olds: Seq<Seq<char>>, news: Seq<Seq<char>>) -> bool {
    forall|g: int, j: int|
        0 <= g < groups.len() && 0 <= j < groups[g].len() ==> run_matches(#[trigger] groups[g][j], olds, news)
}

/// `TextDiff::from_lines(old, new)` of similar, grouped with `context` lines
/// of context (`grouped_ops`), with its line tokens. The clusters and the
/// tokens are named, not restated; the crate's source builds every
/// operation over these token lists, so its ranges lie within them, and it
/// reports an equal run only over tokens it compared equal (the common
/// prefix and suffix scans and the compaction shifts all test
/// `new[i] == old[j]`, and grouping only trims runs), so an equal run pairs
/// tokens of the same text. The grouping doubles `context`, so it is held
/// to where that cannot overflow.
#[verifier::external_body]
fn grouped_line_diff(old: &str, new: &str, context: usize) -> (d: LineDiff)
    requires
        context <= usize::MAX / 2,
    ensures
        d.groups@.map_values(|g: Vec<LineOp>| g@) == similar_groups(old@, new@, context),
        d.old_lines@.map_values(|s: String| s@) == similar_lines(old@),
        d.new_lines@.map_values(|s: String| s@) == similar_lines(new@),
        groups_in_bounds(d.groups@.map_values(|g: Vec<LineOp>| g@), d.old_lines@.len() as int, d.new_lines@.len() as int),
        equal_runs_match(
            d.groups@.map_values(|g: Vec<LineOp>| g@),
            d.old_lines@.map_values(|s: String| s@),
            d.new_lines@.map_values(|s: String| s@),
        ),
{
    let diff = similar::TextDiff::from_lines(old, new);
    let groups = diff.grouped_ops(context).iter().map(|g| g.iter().map(line_op).collect()).collect();
    let old_lines = diff.old_slices().iter().map(|s| s.to_string()).collect();
    let new_lines = diff.new_slices().iter().map(|s| s.to_string()).collect();
    LineDiff { groups, old_lines, new_lines }
}

/// A similar `DiffOp` as a [`LineOp`], field for field.
#[verifier::external_body]
fn line_op(op: &similar::DiffOp) -> LineOp {
    match *op {
        similar::DiffOp::Equal { old_index, new_index, len } => LineOp::Equal { old_index, new_index, len },
        similar::DiffOp::Delete { old_index, old_len, new_index } => LineOp::Delete { old_index, old_len, new_index },
        similar::DiffOp::Insert { old_index, new_index, new_len } => LineOp::Insert { old_index, new_index, new_len },
        similar::DiffOp::Replace { old_index, old_len, new_index, new_len } => LineOp::Replace { old_index, old_len, new_index, new_len },
    }
}

/// `s` without its trailing `\n` and `\r` characters.
pub open spec fn trim_eol(s: Seq<char>) -> Seq<char>
    decreases s.len(),
{
    if s.len() > 0 && (s.last() == '\n' || s.last() == '\r') {
        trim_eol(s.drop_last())
    } else {
        s
    }
}

/// A diff row as plain values: kind, old and new line numbers, text.
pub open spec fn row_of(l: DiffLine) -> (LineKind, Option<usize>, Option<usize>, Seq<char>) {
    (l.kind, l.old_no, l.new_no, l.text@)
}

/// The rows of a list of diff lines.
pub open spec fn rows_of(v: Seq<DiffLine>) -> Seq<(LineKind, Option<usize>, Option<usize>, Seq<char>)> {
    v.map_values(|l: DiffLine| row_of(l))
}

/// The rows one operation yields: an equal run as context lines, a deleted
/// run as deletions, an inserted run as additions, a replacement as its
/// deletions then its additions; numbers are 1-based.
pub open spec fn op_rows(op: LineOp, olds: Seq<Seq<char>>, news: Seq<Seq<char>>) -> Seq<
    (LineKind, Option<usize>, Option<usize>, Seq<char>),
> {
    match op {
        LineOp::Equal { old_index, new_index, len } => Seq::new(
            len as nat,
            |k: int|
                (
                    LineKind::Context,
                    Some((old_index + k + 1) as usize),
                    Some((new_index + k + 1) as usize),
                    trim_eol(olds[old_index + k]),
                ),
        ),
        LineOp::Delete { old_index, old_len, .. } => deleted_rows(old_index, old_len, olds),
        LineOp::Insert { new_index, new_len, .. } => inserted_rows(new_index, new_len, news),
        LineOp::Replace { old_index, old_len, new_index, new_len } => deleted_rows(
            old_index,
            old_len,
            olds,
        ) + inserted_rows(new_index, new_len, news),
    }
}

/// Deletion rows for old tokens `[from, from + n)`.
pub open spec fn deleted_rows(from: usize, n: usize, olds: Seq<Seq<char>>) -> Seq<
    (LineKind, Option<usize>, Option<usize>, Seq<char>),
> {
    Seq::new(
        n as nat,
        |k: int| (LineKind::Deletion, Some((from + k + 1) as usize), None::<usize>, trim_eol(olds[from + k])),
    )
}

/// Addition rows for new tokens `[from, from + n)`.
pub open spec fn inserted_rows(from: usize, n: usize, news: Seq<Seq<char>>) -> Seq<
    (LineKind, Option<usize>, Option<usize>, Seq<char>),
> {
    Seq::new(
        n as nat,
        |k: int| (LineKind::Addition, None::<usize>, Some((from + k + 1) as usize), trim_eol(news[from + k])),
    )
}

/// The rows of a run of operations, in order.
pub open spec fn ops_rows(ops: Seq<LineOp>, olds: Seq<Seq<char>>, news: Seq<Seq<char>>) -> Seq<
    (LineKind, Option<usize>, Option<usize>, Seq<char>),
>
    decreases ops.len(),
{
    if ops.len() == 0 {
        Seq::empty()
    } else {
        ops_rows(ops.drop_last(), olds, news) + op_rows(ops.last(), olds, news)
    }
}

/// The smallest start and largest end of one side's ranges over a cluster
/// (`(0, 0)` for none).
pub open spec fn cluster_span(ops: Seq<LineOp>, old_side: bool) -> (int, int)
    decreases ops.len(),
{
    if ops.len() == 0 {
        (0, 0)
    } else {
        let r = if old_side {
            old_span(ops.last())
        } else {
            new_span(ops.last())
        };
        if ops.len() == 1 {
            r
        } else {
            let p = cluster_span(ops.drop_last(), old_side);
            (
                if r.0 < p.0 {
                    r.0
                } else {
                    p.0
                },
                if r.1 > p.1 {
                    r.1
                } else {
                    p.1
                },
            )
        }
    }
}

/// `@@ -<old start>,<old count> +<new start>,<new count> @@`, 1-based.
pub open spec fn header_text(ops: Seq<LineOp>) -> Seq<char> {
    let o = cluster_span(ops, true);
    let n = cluster_span(ops, false);
    seq!['@', '@', ' ', '-'] + decimal((o.0 + 1) as nat) + seq![','] + decimal((o.1 - o.0) as nat)
        + seq![' ', '+'] + decimal((n.0 + 1) as nat) + seq![','] + decimal((n.1 - n.0) as nat)
        + seq![' ', '@', '@']
}

/// A cluster's rows: its hunk header, then its operations' rows.
pub open spec fn cluster_rows(ops: Seq<LineOp>, olds: Seq<Seq<char>>, news: Seq<Seq<char>>) -> Seq<
    (LineKind, Option<usize>, Option<usize>, Seq<char>),
> {
    seq![(LineKind::Hunk, None::<usize>, None::<usize>, header_text(ops))] + ops_rows(ops, olds, news)
}

/// The rows of all clusters, in order.
pub open spec fn diff_rows(groups: Seq<Seq<LineOp>>, olds: Seq<Seq<char>>, news: Seq<Seq<char>>) -> Seq<
    (LineKind, Option<usize>, Option<usize>, Seq<char>),
>
    decreases groups.len(),
{
    if groups.len() == 0 {
        Seq::empty()
    } else {
        diff_rows(groups.drop_last(), olds, news) + cluster_rows(groups.last(), olds, news)
    }
}

/// Whether line number `no` is that of a line among `toks` whose text, its
/// line end dropped, is `text`.
pub open spec fn shows_line(no: Option<usize>, text: Seq<char>, toks: Seq<Seq<char>>) -> bool {
    match no {
        Some(n) => 1 <= n <= toks.len() && text == trim_eol(toks[n - 1]),
        None => false,
    }
}

/// Whether a diff row's numbers point at the lines it shows: a context row
/// shows its old line and its new line, a deleted row its old line and an
/// added row its new line, each with no number on the other side; a hunk
/// header carries no number.
pub open spec fn row_numbered(
    r: (LineKind, Option<usize>, Option<usize>, Seq<char>),
    olds: Seq<Seq<char>>,
    news: Seq<Seq<char>>,
) -> bool {
    match r.0 {
        LineKind::Context => shows_line(r.1, r.3, olds) && shows_line(r.2, r.3, news),
        LineKind::Deletion => shows_line(r.1, r.3, olds) && r.2 is None,
        LineKind::Addition => r.1 is None && shows_line(r.2, r.3, news),
        LineKind::Hunk => r.1 is None && r.2 is None,
    }
}

proof fn lemma_op_rows_numbered(op: LineOp, olds: Seq<Seq<char>>, news: Seq<Seq<char>>)
    requires
        olds.len() <= usize::MAX,
        news.len() <= usize::MAX,
        old_span(op).1 <= olds.len(),
        new_span(op).1 <= news.len(),
        run_matches(op, olds, news),
    ensures
        forall|i: int| 0 <= i < op_rows(op, olds, news).len() ==> row_numbered(#[trigger] op_rows(op, olds, news)[i], olds, news),
{
    let rows = op_rows(op, olds, news);
    match op {
        LineOp::Equal { old_index, new_index, len } => {
            assert forall|i: int| 0 <= i < rows.len() implies row_numbered(#[trigger] rows[i], olds, news) by {
                assert(olds.subrange(old_index as int, old_index + len)[i] == olds[old_index + i]);
                assert(news.subrange(new_index as int, new_index + len)[i] == news[new_index + i]);
            }
        },
        LineOp::Delete { .. } => {},
        LineOp::Insert { .. } => {},
        LineOp::Replace { old_index, old_len, new_index, new_len } => {
            let d = deleted_rows(old_index, old_len, olds);
            let a = inserted_rows(new_index, new_len, news);
            assert forall|i: int| 0 <= i < rows.len() implies row_numbered(#[trigger] rows[i], olds, news) by {
                if i < d.len() {
                    assert(rows[i] == d[i]);
                } else {
                    assert(rows[i] == a[i - d.len()]);
                }
            }
        },
    }
}

proof fn lemma_ops_rows_numbered(ops: Seq<LineOp>, olds: Seq<Seq<char>>, news: Seq<Seq<char>>)
    requires
        olds.len() <= usize::MAX,
        news.len() <= usize::MAX,
        forall|j: int|
            0 <= j < ops.len() ==> old_span(#[trigger] ops[j]).1 <= olds.len() && new_span(ops[j]).1 <= news.len()
                && run_matches(ops[j], olds, news),
    ensures
        forall|i: int| 0 <= i < ops_rows(ops, olds, news).len() ==> row_numbered(#[trigger] ops_rows(ops, olds, news)[i], olds, news),
    decreases ops.len(),
{
    if ops.len() > 0 {
        let front = ops.drop_last();
        assert forall|j: int| 0 <= j < front.len() implies old_span(#[trigger] front[j]).1 <= olds.len()
            && new_span(front[j]).1 <= news.len() && run_matches(front[j], olds, news) by {
            assert(front[j] == ops[j]);
        }
        lemma_ops_rows_numbered(front, olds, news);
        assert(ops.last() == ops[ops.len() - 1]);
        lemma_op_rows_numbered(ops.last(), olds, news);
        let p = ops_rows(front, olds, news);
        let q = op_rows(ops.last(), olds, news);
        let rows = ops_rows(ops, olds, news);
        assert forall|i: int| 0 <= i < rows.len() implies row_numbered(#[trigger] rows[i], olds, news) by {
            if i < p.len() {
                assert(rows[i] == p[i]);
            } else {
                assert(rows[i] == q[i - p.len()]);
            }
        }
    }
}

/// Every row of a grouped line diff is numbered by the lines it shows: a
/// context or added row's new number `n` is that of the `n`-th new line,
/// whose text (its line end dropped) the row shows, and a context or
/// deleted row's old number is likewise that of the old line it shows; an
/// added row has no old number, a deleted row no new one, and a hunk header
/// neither. This holds of any clusters that lie within the two token lists
/// and whose equal runs pair tokens of the same text.
pub proof fn lemma_rows_number_their_lines(groups: Seq<Seq<LineOp>>, olds: Seq<Seq<char>>, news: Seq<Seq<char>>)
    requires
        olds.len() <= usize::MAX,
        news.len() <= usize::MAX,
        groups_in_bounds(groups, olds.len() as int, news.len() as int),
        equal_runs_match(groups, olds, news),
    ensures
        forall|i: int|
            0 <= i < diff_rows(groups, olds, news).len() ==> row_numbered(#[trigger] diff_rows(groups, olds, news)[i], olds, news),
    decreases groups.len(),
{
    if groups.len() > 0 {
        let front = groups.drop_last();
        let last = groups.last();
        assert forall|g: int, j: int| 0 <= g < front.len() && 0 <= j < front[g].len() implies {
            let op = #[trigger] front[g][j];
            &&& old_span(op).1 <= olds.len()
            &&& new_span(op).1 <= news.len()
        } by {
            assert(front[g] == groups[g]);
            assert(groups[g][j] == front[g][j]);
        }
        assert forall|g: int, j: int| 0 <= g < front.len() && 0 <= j < front[g].len() implies run_matches(
            #[trigger] front[g][j],
            olds,
            news,
        ) by {
            assert(front[g] == groups[g]);
            assert(groups[g][j] == front[g][j]);
        }
        lemma_rows_number_their_lines(front, olds, news);
        let gl = groups.len() - 1;
        assert(last == groups[gl]);
        assert forall|j: int| 0 <= j < last.len() implies old_span(#[trigger] last[j]).1 <= olds.len()
            && new_span(last[j]).1 <= news.len() && run_matches(last[j], olds, news) by {
            assert(groups[gl][j] == last[j]);
        }
        lemma_ops_rows_numbered(last, olds, news);
        let p = diff_rows(front, olds, news);
        let q = cluster_rows(last, olds, news);
        let o = ops_rows(last, olds, news);
        let rows = diff_rows(groups, olds, news);
        assert forall|i: int| 0 <= i < rows.len() implies row_numbered(#[trigger] rows[i], olds, news) by {
            if i < p.len() {
                assert(rows[i] == p[i]);
            } else if i > p.len() {
                assert(rows[i] == q[i - p.len()]);
                assert(q[i - p.len()] == o[i - p.len() - 1]);
            } else {
                assert(rows[i] == q[0]);
            }
        }
    }
}

/// `s` without its trailing line terminators.
fn trimmed_line(s: &String) -> (r: String)
    ensures
        r@ == trim_eol(s@),
{
    let cs = chars_of(s.as_str());
    let mut e: usize = cs.len();
    assert(cs@.take(e as int) =~= cs@);
    while e > 0 && (cs[e - 1] == '\n' || cs[e - 1] == '\r')
        invariant
            e <= cs@.len(),
            trim_eol(cs@.take(e as int)) == trim_eol(cs@),
        decreases e,
    {
        assert(cs@.take(e as int).drop_last() =~= cs@.take(e - 1));
        e = e - 1;
    }
    assert(cs@.take(e as int) =~= cs@.subrange(0, e as int));
    assert(cs@.take(cs@.len() as int) =~= cs@);
    string_of_range(cs.as_slice(), 0, e)
}

/// Appends `n` rows of `kind` for tokens `[from, from + n)` of `toks`.
fn push_run(
    out: &mut Vec<DiffLine>,
    kind: LineKind,
    old_from: Option<usize>,
    new_from: Option<usize>,
    toks: &Vec<String>,
    from: usize,
    n: usize,
)
    requires
        from + n <= toks@.len() <= usize::MAX,
        old_from matches Some(o) ==> o + n <= usize::MAX,
        new_from matches Some(o) ==> o + n <= usize::MAX,
    ensures
        rows_of(final(out)@) == rows_of(old(out)@) + Seq::new(
            n as nat,
            |k: int|
                (
                    kind,
                    match old_from {
                        Some(o) => Some((o + k + 1) as usize),
                        None => None::<usize>,
                    },
                    match new_from {
                        Some(o) => Some((o + k + 1) as usize),
                        None => None::<usize>,
                    },
                    trim_eol(toks@[from + k]@),
                ),
        ),
{
    let ghost start = rows_of(out@);
    let ghost want = Seq::new(
        n as nat,
        |k: int|
            (
                kind,
                match old_from {
                    Some(o) => Some((o + k + 1) as usize),
                    None => None::<usize>,
                },
                match new_from {
                    Some(o) => Some((o + k + 1) as usize),
                    None => None::<usize>,
                },
                trim_eol(toks@[from + k]@),
            ),
    );
    let mut k: usize = 0;
    while k < n
        invariant
            k <= n,
            from + n <= toks@.len() <= usize::MAX,
            old_from matches Some(o) ==> o + n <= usize::MAX,
            new_from matches Some(o) ==> o + n <= usize::MAX,
            want == Seq::new(
                n as nat,
                |k: int|
                    (
                        kind,
                        match old_from {
                            Some(o) => Some((o + k + 1) as usize),
                            None => None::<usize>,
                        },
                        match new_from {
                            Some(o) => Some((o + k + 1) as usize),
                            None => None::<usize>,
                        },
                        trim_eol(toks@[from + k]@),
                    ),
            ),
            rows_of(out@) == start + want.take(k as int),
        decreases n - k,
    {
        let old_no = match old_from {
            Some(o) => Some(o + k + 1),
            None => None,
        };
        let new_no = match new_from {
            Some(o) => Some(o + k + 1),
            None => None,
        };
        let text = trimmed_line(&toks[from + k]);
        let ghost before = out@;
        let line = DiffLine { kind, old_no, new_no, text };
        assert(row_of(line) == want[k as int]);
        out.push(line);
        assert(want.take(k + 1) =~= want.take(k as int).push(want[k as int]));
        assert(rows_of(out@) =~= rows_of(before).push(row_of(line)));
        k = k + 1;
    }
    assert(want.take(k as int) =~= want);
}

/// Appends the rows of one operation.
fn push_op(out: &mut Vec<DiffLine>, op: LineOp, olds: &Vec<String>, news: &Vec<String>)
    requires
        old_span(op).1 <= olds@.len(),
        new_span(op).1 <= news@.len(),
    ensures
        rows_of(final(out)@) == rows_of(old(out)@) + op_rows(
            op,
            olds@.map_values(|s: String| s@),
            news@.map_values(|s: String| s@),
        ),
{
    let ghost ov = olds@.map_values(|s: String| s@);
    let ghost nv = news@.map_values(|s: String| s@);
    let ghost start = rows_of(out@);
    let _ = olds.len();
    let _ = news.len();
    match op {
        LineOp::Equal { old_index, new_index, len } => {
            push_run(out, LineKind::Context, Some(old_index), Some(new_index), olds, old_index, len);
            assert(rows_of(out@) =~= start + op_rows(op, ov, nv));
        },
        LineOp::Delete { old_index, old_len, .. } => {
            push_run(out, LineKind::Deletion, Some(old_index), None, olds, old_index, old_len);
            assert(rows_of(out@) =~= start + op_rows(op, ov, nv));
        },
        LineOp::Insert { new_index, new_len, .. } => {
            push_run(out, LineKind::Addition, None, Some(new_index), news, new_index, new_len);
            assert(rows_of(out@) =~= start + op_rows(op, ov, nv));
        },
        LineOp::Replace { old_index, old_len, new_index, new_len } => {
            push_run(out, LineKind::Deletion, Some(old_index), None, olds, old_index, old_len);
            let ghost mid = rows_of(out@);
            push_run(out, LineKind::Addition, None, Some(new_index), news, new_index, new_len);
            assert(rows_of(out@) =~= start + op_rows(op, ov, nv));
        },
    }
}

/// One side's range of an operation.
fn span_of(op: LineOp, old_side: bool) -> (r: (usize, usize))
    requires
        old_side ==> old_span(op).1 <= usize::MAX,
        !old_side ==> new_span(op).1 <= usize::MAX,
    ensures
        r.0 as int == (if old_side {
            old_span(op)
        } else {
            new_span(op)
        }).0,
        r.1 as int == (if old_side {
            old_span(op)
        } else {
            new_span(op)
        }).1,
{
    if old_side {
        match op {
            LineOp::Equal { old_index, len, .. } => (old_index, old_index + len),
            LineOp::Delete { old_index, old_len, .. } => (old_index, old_index + old_len),
            LineOp::Insert { old_index, .. } => (old_index, old_index),
            LineOp::Replace { old_index, old_len, .. } => (old_index, old_index + old_len),
        }
    } else {
        match op {
            LineOp::Equal { new_index, len, .. } => (new_index, new_index + len),
            LineOp::Delete { new_index, .. } => (new_index, new_index),
            LineOp::Insert { new_index, new_len, .. } => (new_index, new_index + new_len),
            LineOp::Replace { new_index, new_len, .. } => (new_index, new_index + new_len),
        }
    }
}

/// One side's span over a cluster.
fn cluster_span_of(ops: &Vec<LineOp>, old_side: bool, bound: usize) -> (r: (usize, usize))
    requires
        forall|j: int|
            0 <= j < ops@.len() ==> (if old_side {
                old_span(#[trigger] ops@[j])
            } else {
                new_span(ops@[j])
            }).1 <= bound,
    ensures
        r.0 as int == cluster_span(ops@, old_side).0,
        r.1 as int == cluster_span(ops@, old_side).1,
        r.0 <= r.1 <= bound || ops@.len() == 0,
{
    let mut lo: usize = 0;
    let mut hi: usize = 0;
    let mut j: usize = 0;
    while j < ops.len()
        invariant
            j <= ops@.len(),
            forall|m: int|
                0 <= m < ops@.len() ==> (if old_side {
                    old_span(#[trigger] ops@[m])
                } else {
                    new_span(ops@[m])
                }).1 <= bound,
            lo as int == cluster_span(ops@.take(j as int), old_side).0,
            hi as int == cluster_span(ops@.take(j as int), old_side).1,
            j > 0 ==> lo <= hi <= bound,
        decreases ops.len() - j,
    {
        assert(ops@.take(j + 1).drop_last() =~= ops@.take(j as int));
        assert(ops@.take(j + 1).last() == ops@[j as int]);
        let r = span_of(ops[j], old_side);
        if j == 0 {
            lo = r.0;
            hi = r.1;
        } else {
            if r.0 < lo {
                lo = r.0;
            }
            if r.1 > hi {
                hi = r.1;
            }
        }
        j = j + 1;
    }
    assert(ops@.take(j as int) =~= ops@);
    (lo, hi)
}

/// Appends a cluster's hunk header and rows.
fn push_cluster(out: &mut Vec<DiffLine>, ops: &Vec<LineOp>, olds: &Vec<String>, news: &Vec<String>)
    requires
        forall|j: int|
            0 <= j < ops@.len() ==> old_span(#[trigger] ops@[j]).1 <= olds@.len() && new_span(ops@[j]).1
                <= news@.len(),
    ensures
        rows_of(final(out)@) == rows_of(old(out)@) + cluster_rows(
            ops@,
            olds@.map_values(|s: String| s@),
            news@.map_values(|s: String| s@),
        ),
{
    let ghost ov = olds@.map_values(|s: String| s@);
    let ghost nv = news@.map_values(|s: String| s@);
    let ghost start = rows_of(out@);
    let o = cluster_span_of(ops, true, olds.len());
    let n = cluster_span_of(ops, false, news.len());
    let mut text = String::new();
    let a: [char; 4] = ['@', '@', ' ', '-'];
    push_chars(&mut text, a.as_slice());
    push_decimal(&mut text, o.0 as u128 + 1);
    let comma: [char; 1] = [','];
    push_chars(&mut text, comma.as_slice());
    push_decimal(&mut text, (o.1 - o.0) as u128);
    let plus: [char; 2] = [' ', '+'];
    push_chars(&mut text, plus.as_slice());
    push_decimal(&mut text, n.0 as u128 + 1);
    push_chars(&mut text, comma.as_slice());
    push_decimal(&mut text, (n.1 - n.0) as u128);
    let tail: [char; 3] = [' ', '@', '@'];
    push_chars(&mut text, tail.as_slice());
    assert(text@ =~= header_text(ops@));
    out.push(DiffLine { kind: LineKind::Hunk, old_no: None, new_no: None, text });
    let ghost with_header = rows_of(out@);
    assert(with_header =~= start + seq![(LineKind::Hunk, None::<usize>, None::<usize>, header_text(ops@))]);
    let mut j: usize = 0;
    while j < ops.len()
        invariant
            j <= ops@.len(),
            ov == olds@.map_values(|s: String| s@),
            nv == news@.map_values(|s: String| s@),
            forall|m: int|
                0 <= m < ops@.len() ==> old_span(#[trigger] ops@[m]).1 <= olds@.len() && new_span(
                    ops@[m],
                ).1 <= news@.len(),
            rows_of(out@) == with_header + ops_rows(ops@.take(j as int), ov, nv),
        decreases ops.len() - j,
    {
        assert(ops@.take(j + 1).drop_last() =~= ops@.take(j as int));
        assert(ops@.take(j + 1).last() == ops@[j as int]);
        push_op(out, ops[j], olds, news);
        j = j + 1;
    }
    assert(ops@.take(j as int) =~= ops@);
}

/// The rows of a grouped line diff: each cluster's hunk header followed by
/// its context, deleted and added lines, numbered 1-based, their line
/// terminators dropped.
pub fn diff_rows_of(d: &LineDiff) -> (lines: Vec<DiffLine>)
    requires
        groups_in_bounds(d.groups@.map_values(|g: Vec<LineOp>| g@), d.old_lines@.len() as int, d.new_lines@.len() as int),
    ensures
        rows_of(lines@) == diff_rows(
            d.groups@.map_values(|g: Vec<LineOp>| g@),
            d.old_lines@.map_values(|s: String| s@),
            d.new_lines@.map_values(|s: String| s@),
        ),
{
    let ghost gv = d.groups@.map_values(|g: Vec<LineOp>| g@);
    let ghost ov = d.old_lines@.map_values(|s: String| s@);
    let ghost nv = d.new_lines@.map_values(|s: String| s@);
    let mut out: Vec<DiffLine> = Vec::new();
    let mut g: usize = 0;
    assert(rows_of(out@) =~= diff_rows(gv.take(0), ov, nv));
    while g < d.groups.len()
        invariant
            g <= d.groups@.len(),
            gv == d.groups@.map_values(|g: Vec<LineOp>| g@),
            ov == d.old_lines@.map_values(|s: String| s@),
            nv == d.new_lines@.map_values(|s: String| s@),
            groups_in_bounds(gv, d.old_lines@.len() as int, d.new_lines@.len() as int),
            rows_of(out@) == diff_rows(gv.take(g as int), ov, nv),
        decreases d.groups.len() - g,
    {
        assert(gv.take(g + 1).drop_last() =~= gv.take(g as int));
        assert(gv.take(g + 1).last() == d.groups@[g as int]@);
        assert forall|j: int| 0 <= j < d.groups@[g as int]@.len() implies old_span(
            #[trigger] d.groups@[g as int]@[j],
        ).1 <= d.old_lines@.len() && new_span(d.groups@[g as int]@[j]).1 <= d.new_lines@.len() by {
            assert(gv[g as int][j] == d.groups@[g as int]@[j]);
        }
        push_cluster(&mut out, &d.groups[g], &d.old_lines, &d.new_lines);
        g = g + 1;
    }
    assert(gv.take(g as int) =~= gv);
    out
}

/// The line diff of `old` against `new` as diff rows, with three lines of
/// context around each change.
pub fn diff_lines(old: &str, new: &str) -> (lines: Vec<DiffLine>)
    ensures
        rows_of(lines@) == diff_rows(
            similar_groups(old@, new@, CONTEXT_LINES),
            similar_lines(old@),
            similar_lines(new@),
        ),
        forall|i: int|
            0 <= i < lines@.len() ==> row_numbered(#[trigger] row_of(lines@[i]), similar_lines(old@), similar_lines(new@)),
{
    let d = grouped_line_diff(old, new, CONTEXT_LINES);
    let lines = diff_rows_of(&d);
    let _ = d.old_lines.len();
    let _ = d.new_lines.len();
    proof {
        let ov = d.old_lines@.map_values(|s: String| s@);
        let nv = d.new_lines@.map_values(|s: String| s@);
        assert(ov.len() == d.old_lines@.len() && nv.len() == d.new_lines@.len());
        lemma_rows_number_their_lines(d.groups@.map_values(|g: Vec<LineOp>| g@), ov, nv);
        assert forall|i: int| 0 <= i < lines@.len() implies row_numbered(
            #[trigger] row_of(lines@[i]),
            similar_lines(old@),
            similar_lines(new@),
        ) by {
            assert(rows_of(lines@)[i] == row_of(lines@[i]));
        }
    }
    lines
}

/// A file's diff from its old to its new content: binary when either side
/// is, else the line diff of the two decoded texts.
pub fn file_diff(old: &[u8], new: &[u8]) -> (d: FileDiff)
    ensures
        spec_is_binary(old@) || spec_is_binary(new@) ==> d is Binary,
        !(spec_is_binary(old@) || spec_is_binary(new@)) ==> (d matches FileDiff::Text(lines) && rows_of(lines@)
            == diff_rows(
            similar_groups(decoded(old@), decoded(new@), CONTEXT_LINES),
            similar_lines(decoded(old@)),
            similar_lines(decoded(new@)),
        )),
        d matches FileDiff::Text(lines) ==> forall|i: int|
            0 <= i < lines@.len() ==> row_numbered(
                #[trigger] row_of(lines@[i]),
                similar_lines(decoded(old@)),
                similar_lines(decoded(new@)),
            ),
{
    if is_binary(old) || is_binary(new) {
        return FileDiff::Binary;
    }
    let o = lossy_string(old);
    let n = lossy_string(new);
    FileDiff::Text(diff_lines(o.as_str(), n.as_str()))
}

} // verus!
