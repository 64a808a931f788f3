//! The in-place comment editor: a text buffer addressed by hard lines
//! (`\n`-separated) and a caret `(line, char column)`, with one operation per
//! editor key. Display widths (tabs, control and wide characters) only steer
//! vertical movement; wrapping is a rendering concern.

use vstd::prelude::*;
use crate::comments::Side;
use crate::text::{chars_of, string_of};
use unicode_width::UnicodeWidthChar;

verus! {

// ---------------------------------------------------------------------------
// The line model of a buffer.
// ---------------------------------------------------------------------------

/// 1 for a line feed, 0 for any other character.
pub open spec fn nl(c: char) -> nat {
    if c == '\n' {
        1
    } else {
        0
    }
}

/// The number of line feeds in `s`.
pub open spec fn newlines(s: Seq<char>) -> nat
    decreases s.len(),
{
    if s.len() == 0 {
        0
    } else {
        newlines(s.drop_last()) + nl(s.last())
    }
}

/// The number of hard lines of `s`: one more than its line feeds, so the
/// empty buffer has one (empty) line and a trailing `\n` opens a last empty one.
pub open spec fn line_total(s: Seq<char>) -> nat {
    newlines(s) + 1
}

/// Starting at index `i`, the index just past the `k`-th line feed at or after
/// `i` (`i` itself for `k == 0`), or `s.len()` when there are fewer.
pub open spec fn start_after(s: Seq<char>, i: int, k: nat) -> int
    decreases s.len() - i,
{
    if k == 0 {
        i
    } else if i >= s.len() {
        s.len() as int
    } else if s[i] == '\n' {
        start_after(s, i + 1, (k - 1) as nat)
    } else {
        start_after(s, i + 1, k)
    }
}

/// The index of the first line feed at or after `i`, or `s.len()`.
pub open spec fn end_from(s: Seq<char>, i: int) -> int
    decreases s.len() - i,
{
    if i >= s.len() {
        s.len() as int
    } else if s[i] == '\n' {
        i
    } else {
        end_from(s, i + 1)
    }
}

/// Where hard line `l` begins.
pub open spec fn line_start(s: Seq<char>, l: nat) -> int {
    start_after(s, 0, l)
}

/// Where hard line `l` ends (the index of its `\n`, or the buffer's end).
pub open spec fn line_end(s: Seq<char>, l: nat) -> int {
    end_from(s, line_start(s, l))
}

/// The characters of hard line `l`, without its `\n`.
pub open spec fn line_chars(s: Seq<char>, l: nat) -> Seq<char> {
    s.subrange(line_start(s, l), line_end(s, l))
}

/// The number of characters of hard line `l`.
pub open spec fn line_len(s: Seq<char>, l: nat) -> nat {
    (line_end(s, l) - line_start(s, l)) as nat
}

/// The buffer index of caret `(l, c)`; a column past the line's end means
/// the end of the line.
pub open spec fn caret_index(s: Seq<char>, l: nat, c: nat) -> int {
    if c <= line_len(s, l) {
        line_start(s, l) + c
    } else {
        line_end(s, l)
    }
}

proof fn lemma_newlines_add(a: Seq<char>, b: Seq<char>)
    ensures
        newlines(a + b) == newlines(a) + newlines(b),
    decreases b.len(),
{
    if b.len() == 0 {
        assert(a + b =~= a);
    } else {
        lemma_newlines_add(a, b.drop_last());
        assert((a + b).drop_last() =~= a + b.drop_last());
        assert((a + b).last() == b.last());
    }
}

proof fn lemma_newlines_bound(s: Seq<char>)
    ensures
        newlines(s) <= s.len(),
    decreases s.len(),
{
    if s.len() > 0 {
        lemma_newlines_bound(s.drop_last());
    }
}

proof fn lemma_newlines_step(s: Seq<char>, i: int)
    requires
        0 <= i < s.len(),
    ensures
        newlines(s.take(i + 1)) == newlines(s.take(i)) + nl(s[i]),
{
    assert(s.take(i + 1).drop_last() =~= s.take(i));
}

/// Inserting one character adds its line feed, if it is one.
pub proof fn lemma_newlines_insert(s: Seq<char>, p: int, c: char)
    requires
        0 <= p <= s.len(),
    ensures
        newlines(s.insert(p, c)) == newlines(s) + nl(c),
{
    assert(s.insert(p, c) =~= s.take(p) + (seq![c] + s.skip(p)));
    assert(s =~= s.take(p) + s.skip(p));
    lemma_newlines_add(s.take(p), seq![c] + s.skip(p));
    lemma_newlines_add(seq![c], s.skip(p));
    lemma_newlines_add(s.take(p), s.skip(p));
    assert(seq![c].drop_last() =~= Seq::<char>::empty());
    assert(seq![c].last() == c);
    assert(newlines(Seq::<char>::empty()) == 0);
    assert(newlines(seq![c]) == nl(c));
}

/// Removing one character removes its line feed, if it is one.
pub proof fn lemma_newlines_remove(s: Seq<char>, p: int)
    requires
        0 <= p < s.len(),
    ensures
        newlines(s.remove(p)) + nl(s[p]) == newlines(s),
{
    let c = s[p];
    assert(s.remove(p).insert(p, c) =~= s);
    lemma_newlines_insert(s.remove(p), p, c);
}

proof fn lemma_start_after(s: Seq<char>, i: int, k: nat)
    requires
        0 <= i <= s.len(),
        newlines(s.take(i)) + k <= newlines(s),
    ensures
        i <= start_after(s, i, k) <= s.len(),
        newlines(s.take(start_after(s, i, k))) == newlines(s.take(i)) + k,
        k > 0 ==> start_after(s, i, k) >= 1 && s[start_after(s, i, k) - 1] == '\n',
    decreases s.len() - i,
{
    if k == 0 {
    } else if i >= s.len() {
        assert(s.take(i) =~= s);
    } else {
        lemma_newlines_step(s, i);
        if s[i] == '\n' {
            lemma_start_after(s, i + 1, (k - 1) as nat);
        } else {
            lemma_start_after(s, i + 1, k);
        }
    }
}

proof fn lemma_end_from(s: Seq<char>, i: int)
    requires
        0 <= i <= s.len(),
    ensures
        i <= end_from(s, i) <= s.len(),
        forall|j: int| i <= j < end_from(s, i) ==> s[j] != '\n',
        end_from(s, i) < s.len() ==> s[end_from(s, i)] == '\n',
        newlines(s.take(end_from(s, i))) == newlines(s.take(i)),
    decreases s.len() - i,
{
    if i >= s.len() {
    } else if s[i] == '\n' {
    } else {
        lemma_newlines_step(s, i);
        lemma_end_from(s, i + 1);
    }
}

proof fn lemma_start_split(s: Seq<char>, i: int, a: nat, b: nat)
    requires
        0 <= i <= s.len(),
    ensures
        start_after(s, i, a + b) == start_after(s, start_after(s, i, a), b),
    decreases s.len() - i,
{
    if a == 0 {
    } else if i >= s.len() {
        if b > 0 {
            assert(start_after(s, s.len() as int, b) == s.len());
        }
    } else if s[i] == '\n' {
        lemma_start_split(s, i + 1, (a - 1) as nat, b);
        assert((a + b - 1) as nat == (a - 1) as nat + b);
    } else {
        lemma_start_split(s, i + 1, a, b);
    }
}

proof fn lemma_start_next(s: Seq<char>, i: int)
    requires
        0 <= i <= s.len(),
        end_from(s, i) < s.len(),
    ensures
        start_after(s, i, 1) == end_from(s, i) + 1,
    decreases s.len() - i,
{
    assert(i < s.len());
    if s[i] == '\n' {
        assert(start_after(s, i + 1, 0) == i + 1);
    } else {
        lemma_start_next(s, i + 1);
    }
}

/// The facts about hard line `l` of `s` that the editor relies on: its
/// bounds lie in the buffer, it holds no line feed, a line feed precedes it
/// unless it is the first, and one follows it unless it is the last, right
/// before the next line's start.
pub proof fn lemma_line(s: Seq<char>, l: nat)
    requires
        l < line_total(s),
    ensures
        0 <= line_start(s, l) <= line_end(s, l) <= s.len(),
        forall|j: int| line_start(s, l) <= j < line_end(s, l) ==> s[j] != '\n',
        l > 0 ==> line_start(s, l) >= 1 && s[line_start(s, l) - 1] == '\n',
        l + 1 < line_total(s) ==> line_end(s, l) < s.len() && s[line_end(s, l)] == '\n'
            && line_start(s, l + 1) == line_end(s, l) + 1,
        l + 1 == line_total(s) ==> line_end(s, l) == s.len(),
        newlines(s.take(line_start(s, l))) == l,
{
    assert(s.take(0) =~= Seq::<char>::empty());
    lemma_start_after(s, 0, l);
    let p = line_start(s, l);
    lemma_end_from(s, p);
    let e = line_end(s, l);
    if e == s.len() {
        assert(s.take(e) =~= s);
    }
    if l + 1 < line_total(s) {
        lemma_start_split(s, 0, l, 1);
        lemma_start_next(s, p);
    } else {
        if e < s.len() {
            lemma_newlines_step(s, e);
            assert(s.take(s.len() as int) =~= s);
            lemma_newlines_take_mono(s, e + 1, s.len() as int);
        }
    }
}

proof fn lemma_newlines_take_mono(s: Seq<char>, i: int, j: int)
    requires
        0 <= i <= j <= s.len(),
    ensures
        newlines(s.take(i)) <= newlines(s.take(j)),
    decreases j - i,
{
    if i < j {
        lemma_newlines_step(s, j - 1);
        lemma_newlines_take_mono(s, i, j - 1);
    }
}

proof fn lemma_start_after_bound(s: Seq<char>, i: int, k: nat)
    requires
        0 <= i <= s.len(),
    ensures
        i <= start_after(s, i, k) <= s.len(),
    decreases s.len() - i,
{
    if k > 0 && i < s.len() {
        if s[i] == '\n' {
            lemma_start_after_bound(s, i + 1, (k - 1) as nat);
        } else {
            lemma_start_after_bound(s, i + 1, k);
        }
    }
}

/// Any line index, even past the last line, names a (possibly empty) range
/// of the buffer.
pub proof fn lemma_line_range(s: Seq<char>, l: nat)
    ensures
        0 <= line_start(s, l) <= line_end(s, l) <= s.len(),
{
    lemma_start_after_bound(s, 0, l);
    lemma_end_from(s, line_start(s, l));
}

/// Whether `[a, b)` holds hard line `l` of `s`: it starts the buffer or
/// follows the `l`-th line feed, and runs, feed-free, to the next feed or
/// the buffer's end.
pub open spec fn holds_line(s: Seq<char>, l: nat, a: int, b: int) -> bool {
    &&& 0 <= a <= b <= s.len()
    &&& newlines(s.take(a)) == l
    &&& (a == 0 || s[a - 1] == '\n')
    &&& forall|j: int| a <= j < b ==> s[j] != '\n'
    &&& (b == s.len() || s[b] == '\n')
}

proof fn lemma_feed_between(s: Seq<char>, i: int, k: int, j: int)
    requires
        0 <= i <= k < j <= s.len(),
        s[k] == '\n',
    ensures
        newlines(s.take(j)) >= newlines(s.take(i)) + 1,
{
    lemma_newlines_take_mono(s, i, k);
    lemma_newlines_step(s, k);
    lemma_newlines_take_mono(s, k + 1, j);
}

/// The range that holds a line is the line's.
proof fn lemma_line_unique(s: Seq<char>, l: nat, a: int, b: int)
    requires
        l < line_total(s),
        holds_line(s, l, a, b),
    ensures
        a == line_start(s, l),
        b == line_end(s, l),
{
    lemma_line(s, l);
    let p = line_start(s, l);
    let e = line_end(s, l);
    if a < p {
        assert(l > 0) by {
            if l == 0 {
                assert(p == 0);
            }
        }
        lemma_feed_between(s, a, p - 1, p);
    } else if p < a {
        lemma_feed_between(s, p, a - 1, a);
    }
    if b < e {
        assert(s[b] != '\n');
    } else if e < b {
        assert(s[e] == '\n');
    }
}

/// A character other than a line feed typed into line `l` lengthens it by one.
pub proof fn lemma_insert_in_line(s: Seq<char>, l: nat, i: int, ch: char)
    requires
        l < line_total(s),
        line_start(s, l) <= i <= line_end(s, l),
        ch != '\n',
    ensures
        l < line_total(s.insert(i, ch)),
        line_start(s.insert(i, ch), l) == line_start(s, l),
        line_len(s.insert(i, ch), l) == line_len(s, l) + 1,
{
    lemma_line(s, l);
    let t = s.insert(i, ch);
    let p = line_start(s, l);
    let e = line_end(s, l);
    lemma_newlines_insert(s, i, ch);
    assert(t.take(p) =~= s.take(p));
    assert forall|j: int| p <= j < e + 1 implies t[j] != '\n' by {
        if j > i {
            assert(t[j] == s[j - 1]);
        }
    }
    if e < s.len() {
        assert(t[e + 1] == s[e]);
    }
    if p > 0 {
        assert(t[p - 1] == s[p - 1]);
    }
    assert(holds_line(t, l, p, e + 1));
    lemma_line_unique(t, l, p, e + 1);
}

/// Removing a character of line `l` (not its feed) shortens it by one.
pub proof fn lemma_remove_in_line(s: Seq<char>, l: nat, i: int)
    requires
        l < line_total(s),
        line_start(s, l) <= i < line_end(s, l),
    ensures
        l < line_total(s.remove(i)),
        line_len(s.remove(i), l) == line_len(s, l) - 1,
{
    lemma_line(s, l);
    let t = s.remove(i);
    let p = line_start(s, l);
    let e = line_end(s, l);
    lemma_newlines_remove(s, i);
    assert(t.take(p) =~= s.take(p));
    assert forall|j: int| p <= j < e - 1 implies t[j] != '\n' by {
        if j >= i {
            assert(t[j] == s[j + 1]);
        }
    }
    if e < s.len() {
        assert(t[e - 1] == s[e]);
    }
    if p > 0 {
        assert(t[p - 1] == s[p - 1]);
    }
    assert(holds_line(t, l, p, e - 1));
    lemma_line_unique(t, l, p, e - 1);
}

/// Removing the feed that ends line `l` joins it with the next line.
pub proof fn lemma_join_lines(s: Seq<char>, l: nat)
    requires
        l + 1 < line_total(s),
    ensures
        l < line_total(s.remove(line_end(s, l))),
        line_len(s.remove(line_end(s, l)), l) == line_len(s, l) + line_len(s, l + 1),
{
    lemma_line(s, l);
    lemma_line(s, l + 1);
    let e = line_end(s, l);
    let t = s.remove(e);
    let p = line_start(s, l);
    let e2 = line_end(s, l + 1);
    lemma_newlines_remove(s, e);
    assert(t.take(p) =~= s.take(p));
    assert forall|j: int| p <= j < e2 - 1 implies t[j] != '\n' by {
        if j >= e {
            assert(t[j] == s[j + 1]);
        }
    }
    if e2 < s.len() {
        assert(t[e2 - 1] == s[e2]);
    }
    if p > 0 {
        assert(t[p - 1] == s[p - 1]);
    }
    assert(holds_line(t, l, p, e2 - 1));
    lemma_line_unique(t, l, p, e2 - 1);
}

proof fn lemma_feed_free_count(s: Seq<char>, a: int, j: int)
    requires
        0 <= a <= j <= s.len(),
        forall|k: int| a <= k < j ==> s[k] != '\n',
    ensures
        newlines(s.take(j)) == newlines(s.take(a)),
    decreases j - a,
{
    if a < j {
        lemma_feed_free_count(s, a, j - 1);
        lemma_newlines_step(s, j - 1);
    }
}

/// A line feed typed at column `c` of line `l` ends that line there and
/// starts line `l + 1` just after it.
proof fn lemma_newline_splits(s: Seq<char>, l: nat, c: nat)
    requires
        l < line_total(s),
        c <= line_len(s, l),
    ensures
        ({
            let i = line_start(s, l) + c;
            let t = s.insert(i, '\n');
            &&& l + 1 < line_total(t)
            &&& line_start(t, l) == line_start(s, l)
            &&& line_len(t, l) == c
            &&& line_start(t, l + 1) == i + 1
        }),
{
    lemma_line(s, l);
    let p = line_start(s, l);
    let e = line_end(s, l);
    let i = p + c;
    let t = s.insert(i, '\n');
    lemma_newlines_insert(s, i, '\n');
    assert(t.take(p) =~= s.take(p));
    if p > 0 {
        assert(t[p - 1] == s[p - 1]);
    }
    assert forall|j: int| p <= j < i implies t[j] != '\n' by {
        assert(t[j] == s[j]);
    }
    assert(holds_line(t, l, p, i));
    lemma_line_unique(t, l, p, i);
    lemma_feed_free_count(s, p, i);
    assert(t.take(i + 1) =~= s.take(i).push('\n'));
    assert(t.take(i + 1).drop_last() =~= s.take(i));
    assert forall|j: int| i + 1 <= j < e + 1 implies t[j] != '\n' by {
        assert(t[j] == s[j - 1]);
    }
    if e < s.len() {
        assert(t[e + 1] == s[e]);
    }
    assert(holds_line(t, l + 1, i + 1, e + 1));
    lemma_line_unique(t, (l + 1) as nat, i + 1, e + 1);
}

/// Backspace undoes one typed character or one line break: the buffer and
/// the caret are as before it.
pub proof fn lemma_backspace_undoes(s: Seq<char>, l: nat, c: nat, op: EditOp)
    requires
        l < line_total(s),
        c <= line_len(s, l),
        op is Newline || (op matches EditOp::Insert(ch) && ch != '\n'),
    ensures
        ({
            let t = buffer_after(s, l, c, op);
            let cur = cursor_after(s, l, c, op);
            &&& buffer_after(t, cur.0 as nat, cur.1 as nat, EditOp::Backspace) == s
            &&& cursor_after(t, cur.0 as nat, cur.1 as nat, EditOp::Backspace) == (l as int, c as int)
        }),
{
    lemma_line(s, l);
    let i = line_start(s, l) + c;
    match op {
        EditOp::Insert(ch) => {
            lemma_insert_in_line(s, l, i, ch);
            let t = s.insert(i, ch);
            assert(t.remove(i) =~= s);
        },
        _ => {
            lemma_newline_splits(s, l, c);
            let t = s.insert(i, '\n');
            assert(t.remove(i) =~= s);
        },
    }
}

/// Every horizontal or editing operation but typing a raw line feed keeps
/// the caret on a character position of an existing hard line.
pub proof fn lemma_caret_stays_on_its_line(s: Seq<char>, l: nat, c: nat, op: EditOp)
    requires
        l < line_total(s),
        c <= line_len(s, l),
        !(op is Up || op is Down),
        op != EditOp::Insert('\n'),
    ensures
        ({
            let t = buffer_after(s, l, c, op);
            let cur = cursor_after(s, l, c, op);
            &&& 0 <= cur.0 < line_total(t)
            &&& 0 <= cur.1 <= line_len(t, cur.0 as nat)
        }),
{
    lemma_line(s, l);
    match op {
        EditOp::Insert(ch) => {
            lemma_insert_in_line(s, l, line_start(s, l) + c, ch);
        },
        EditOp::Newline => {
            lemma_newlines_insert(s, caret_index(s, l, c), '\n');
        },
        EditOp::Backspace => {
            if c > 0 {
                lemma_remove_in_line(s, l, line_start(s, l) + c - 1);
            } else if l > 0 {
                lemma_line(s, (l - 1) as nat);
                lemma_join_lines(s, (l - 1) as nat);
            }
        },
        EditOp::Delete => {
            if c < line_len(s, l) {
                lemma_remove_in_line(s, l, line_start(s, l) + c);
            } else if l + 1 < line_total(s) {
                lemma_join_lines(s, l);
            }
        },
        EditOp::Left => {
            if c == 0 && l > 0 {
                lemma_line(s, (l - 1) as nat);
            }
        },
        EditOp::Right => {
            if c >= line_len(s, l) && l + 1 < line_total(s) {
                lemma_line(s, l + 1);
            }
        },
        _ => {},
    }
}

// ---------------------------------------------------------------------------
// Executable line helpers.
// ---------------------------------------------------------------------------

/// The number of hard lines of `cs` (at least one).
pub fn line_count(cs: &[char]) -> (n: usize)
    requires
        cs@.len() < usize::MAX,
    ensures
        n == line_total(cs@),
{
    let mut k: usize = 0;
    let mut i: usize = 0;
    while i < cs.len()
        invariant
            i <= cs@.len() < usize::MAX,
            k == newlines(cs@.take(i as int)),
            k <= i,
        decreases cs.len() - i,
    {
        proof {
            lemma_newlines_step(cs@, i as int);
        }
        if cs[i] == '\n' {
            k = k + 1;
        }
        i = i + 1;
    }
    assert(cs@.take(i as int) =~= cs@);
    k + 1
}

/// The text of hard line `line` of `buf`, without its `\n`; empty past the
/// last line.
pub fn line_str(buf: &str, line: usize) -> (r: String)
    ensures
        r@ == line_chars(buf@, line as nat),
{
    let cs = chars_of(buf);
    let (st, en) = line_bounds(cs.as_slice(), line);
    proof {
        lemma_line_range(cs@, line as nat);
    }
    crate::text::string_of_range(cs.as_slice(), st, en)
}

/// The number of characters of `s`.
pub fn char_count(s: &str) -> (n: usize)
    ensures
        n == s@.len(),
{
    let cs = chars_of(s);
    cs.len()
}

/// The bounds `(start, end)` of hard line `l` of `cs`.
pub fn line_bounds(cs: &[char], l: usize) -> (r: (usize, usize))
    ensures
        r.0 == line_start(cs@, l as nat),
        r.1 == line_end(cs@, l as nat),
{
    let ghost s = cs@;
    let mut i: usize = 0;
    let mut k: usize = l;
    while k > 0 && i < cs.len()
        invariant
            s == cs@,
            i <= s.len(),
            start_after(s, i as int, k as nat) == start_after(s, 0, l as nat),
        decreases s.len() - i,
    {
        if cs[i] == '\n' {
            k = k - 1;
        }
        i = i + 1;
    }
    let start = i;
    let mut j: usize = start;
    while j < cs.len() && cs[j] != '\n'
        invariant
            s == cs@,
            start <= j <= s.len(),
            end_from(s, j as int) == end_from(s, start as int),
        decreases s.len() - j,
    {
        j = j + 1;
    }
    (start, j)
}

// ---------------------------------------------------------------------------
// Display widths.
// ---------------------------------------------------------------------------

/// What `UnicodeWidthChar::width` returns for `c`.
pub uninterp spec fn unicode_width(c: char) -> Option<usize>;

/// `UnicodeWidthChar::width` of the unicode-width crate: the columns `c`
/// occupies, or `None` for a control character. Its source answers `None`
/// exactly below U+0020 and within U+007F..U+009F, `Some(1)` for printable
/// ASCII, and never more than 3 columns; the table lookup for the other
/// characters is not restated here.
#[verifier::external_body]
fn unicode_char_width(c: char) -> (w: Option<usize>)
    ensures
        w == unicode_width(c),
        w is None <==> is_control(c),
        0x20 <= (c as u32) < 0x7F ==> w == Some(1usize),
        w matches Some(n) ==> n <= 3,
{
    UnicodeWidthChar::width(c)
}

/// Whether `c` is a control code (general category Cc): U+0000..U+001F or
/// U+007F..U+009F.
pub open spec fn is_control(c: char) -> bool {
    (c as u32) < 0x20 || (0x7F <= (c as u32) && (c as u32) < 0xA0)
}

/// The terminal columns of `c`: its Unicode width, 0 for control characters.
pub open spec fn char_cols(c: char) -> nat {
    match unicode_width(c) {
        Some(n) => n as nat,
        None => 0,
    }
}

/// The terminal columns `c` occupies (0 for a control character).
pub fn char_width(c: char) -> (w: usize)
    ensures
        w == char_cols(c),
        w <= 3,
        is_control(c) ==> w == 0,
        0x20 <= (c as u32) < 0x7F ==> w == 1,
{
    match unicode_char_width(c) {
        Some(n) => n,
        None => 0,
    }
}

/// Whether `c` is a control code.
pub fn char_is_control(c: char) -> (b: bool)
    ensures
        b == is_control(c),
{
    let v = c as u32;
    v < 0x20 || (0x7F <= v && v < 0xA0)
}

/// The editor's columns for `c`: a tab shows as 4, a control character as
/// nothing, anything else by its terminal width.
pub open spec fn edit_cols(c: char) -> nat {
    if c == '\t' {
        4
    } else if is_control(c) {
        0
    } else {
        char_cols(c)
    }
}

/// The editor's display width of one character.
pub fn editor_char_width(ch: char) -> (w: usize)
    ensures
        w == edit_cols(ch),
        w <= 4,
{
    if ch == '\t' {
        4
    } else if char_is_control(ch) {
        0
    } else {
        char_width(ch)
    }
}

/// The editor's display width of all of `s`.
pub open spec fn cols(s: Seq<char>) -> nat
    decreases s.len(),
{
    if s.len() == 0 {
        0
    } else {
        cols(s.drop_last()) + edit_cols(s.last())
    }
}

/// `n`, or `usize::MAX` when it does not fit.
pub open spec fn capped(n: nat) -> usize {
    if n <= usize::MAX {
        n as usize
    } else {
        usize::MAX
    }
}

/// The display column of char index `col` in `line`: the width of the
/// characters before it (all of them when `col` is past the end).
pub open spec fn display_cols(line: Seq<char>, col: nat) -> nat {
    if col <= line.len() {
        cols(line.take(col as int))
    } else {
        cols(line)
    }
}

/// Whether `r` is the char index of `line` nearest to, but not past, display
/// column `target`: the characters before it fit in `target` columns and one
/// more would not.
pub open spec fn lands_at(line: Seq<char>, target: nat, r: nat) -> bool {
    &&& r <= line.len()
    &&& cols(line.take(r as int)) <= target
    &&& r < line.len() ==> cols(line.take(r + 1 as int)) > target
}

proof fn lemma_cols_step(s: Seq<char>, i: int)
    requires
        0 <= i < s.len(),
    ensures
        cols(s.take(i + 1)) == cols(s.take(i)) + edit_cols(s[i]),
{
    assert(s.take(i + 1).drop_last() =~= s.take(i));
}

/// The display column of char index `col` within `cs[start..end]`, saturated
/// at `usize::MAX`.
pub fn display_col_in(cs: &[char], start: usize, end: usize, col: usize) -> (r: usize)
    requires
        start <= end <= cs@.len(),
    ensures
        r == capped(display_cols(cs@.subrange(start as int, end as int), col as nat)),
{
    let ghost line = cs@.subrange(start as int, end as int);
    let stop: usize = if col <= end - start {
        start + col
    } else {
        end
    };
    let mut sum: usize = 0;
    let mut i: usize = start;
    while i < stop
        invariant
            line == cs@.subrange(start as int, end as int),
            start <= i <= stop <= end <= cs@.len(),
            sum == capped(cols(line.take(i - start))),
        decreases stop - i,
    {
        proof {
            lemma_cols_step(line, i - start);
        }
        sum = sum.saturating_add(editor_char_width(cs[i]));
        i = i + 1;
    }
    if col > end - start {
        assert(line.take(line.len() as int) =~= line);
    }
    sum
}

/// The display column of char index `col` within `line`.
pub fn display_col(line: &str, col: usize) -> (r: usize)
    ensures
        r == capped(display_cols(line@, col as nat)),
{
    let cs = chars_of(line);
    let r = display_col_in(cs.as_slice(), 0, cs.len(), col);
    assert(cs@.subrange(0, cs@.len() as int) =~= cs@);
    r
}

/// The char index within `cs[start..end]` nearest to, but not past, display
/// column `target`.
fn col_at_display_in(cs: &[char], start: usize, end: usize, target: usize) -> (r: usize)
    requires
        start <= end <= cs@.len(),
    ensures
        lands_at(cs@.subrange(start as int, end as int), target as nat, r as nat),
{
    let ghost line = cs@.subrange(start as int, end as int);
    let mut used: usize = 0;
    let mut col: usize = 0;
    while col < end - start
        invariant
            line == cs@.subrange(start as int, end as int),
            start <= end <= cs@.len(),
            col <= end - start,
            used == cols(line.take(col as int)),
            used <= target,
        decreases end - start - col,
    {
        proof {
            lemma_cols_step(line, col as int);
        }
        let w = editor_char_width(cs[start + col]);
        if w > target - used {
            return col;
        }
        used = used + w;
        col = col + 1;
    }
    col
}

/// The char index on `line` nearest to, but not past, display column `target`.
pub fn col_at_display(line: &str, target: usize) -> (r: usize)
    ensures
        lands_at(line@, target as nat, r as nat),
{
    let cs = chars_of(line);
    let r = col_at_display_in(cs.as_slice(), 0, cs.len(), target);
    assert(cs@.subrange(0, cs@.len() as int) =~= cs@);
    r
}

// ---------------------------------------------------------------------------
// The editor state.
// ---------------------------------------------------------------------------

/// A comment's anchor, captured by value when the editor opens, so a reload
/// that rebuilds the diff while typing cannot dangle it.
#[derive(Clone, Debug)]
pub struct CommentAnchor {
    pub file: String,
    pub side: Side,
    pub line: usize,
    pub context: Option<String>,
}

/// One editing operation: every editor key maps to one of these.
#[derive(Clone, Copy, Debug, PartialEq, Eq, Structural)]
pub enum EditOp {
    Insert(char),
    Newline,
    Backspace,
    Delete,
    Left,
    Right,
    Up,
    Down,
    Home,
    End,
}

/// The in-place comment editor: the buffer, the caret `(hard line, char
/// column)`, the display column that up/down try to keep, and what a save
/// needs, captured when the editor opened.
pub struct CommentEdit {
    /// The note text, hard lines separated by `\n`.
    pub buffer: String,
    /// The text at open (empty for a new comment): a save compares against it.
    pub original_text: String,
    /// The caret; the column may lie past the end of its line, which then
    /// means the line's end.
    pub cursor: (usize, usize),
    /// The display column up/down aim for.
    pub preferred_col: usize,
    pub anchor: CommentAnchor,
    /// The inbox key a save lands under.
    pub branch_key: String,
    /// The note being edited, or `None` for a new comment.
    pub editing_id: Option<u64>,
    /// The baseline HEAD stamped on a new worktree comment.
    pub base: Option<String>,
}

/// The display column of caret `(l, c)` in `s`.
pub open spec fn caret_cols(s: Seq<char>, l: nat, c: nat) -> usize {
    capped(display_cols(line_chars(s, l), c))
}

/// The buffer after `op` with the caret at `(l, c)`.
pub open spec fn buffer_after(s: Seq<char>, l: nat, c: nat, op: EditOp) -> Seq<char> {
    match op {
        EditOp::Insert(ch) => s.insert(caret_index(s, l, c), ch),
        EditOp::Newline => s.insert(caret_index(s, l, c), '\n'),
        EditOp::Backspace => if c > 0 {
            if c <= line_len(s, l) {
                s.remove(line_start(s, l) + c - 1)
            } else {
                s
            }
        } else if l > 0 {
            s.remove(line_start(s, l) - 1)
        } else {
            s
        },
        EditOp::Delete => if c < line_len(s, l) {
            s.remove(line_start(s, l) + c)
        } else if l + 1 < line_total(s) {
            s.remove(line_end(s, l))
        } else {
            s
        },
        _ => s,
    }
}

/// The caret after a horizontal or editing `op` at `(l, c)` in `s`.
pub open spec fn cursor_after(s: Seq<char>, l: nat, c: nat, op: EditOp) -> (int, int) {
    match op {
        EditOp::Insert(_) => (l as int, c + 1int),
        EditOp::Newline => (l + 1int, 0),
        EditOp::Backspace | EditOp::Left => if c > 0 {
            (l as int, c - 1)
        } else if l > 0 {
            (l - 1, line_len(s, (l - 1) as nat) as int)
        } else {
            (l as int, c as int)
        },
        EditOp::Right => if c < line_len(s, l) {
            (l as int, c + 1int)
        } else if l + 1 < line_total(s) {
            (l + 1int, 0)
        } else {
            (l as int, c as int)
        },
        EditOp::Home => (l as int, 0),
        EditOp::End => (l as int, line_len(s, l) as int),
        _ => (l as int, c as int),
    }
}

/// The buffer index of caret `(l, c)`.
fn caret_of(cs: &[char], l: usize, c: usize) -> (r: usize)
    requires
        l < line_total(cs@),
    ensures
        r == caret_index(cs@, l as nat, c as nat),
        r <= cs@.len(),
{
    let (st, en) = line_bounds(cs, l);
    proof {
        lemma_line(cs@, l as nat);
    }
    if c <= en - st {
        st + c
    } else {
        en
    }
}

impl CommentEdit {
    /// The state every editor keeps: the caret's line exists, and the buffer's
    /// length leaves room to count its lines.
    pub open spec fn wf(&self) -> bool {
        &&& self.cursor.0 < line_total(self.buffer@)
        &&& self.buffer@.len() < usize::MAX
    }

    /// Whether the caret names a character position of its line: at most
    /// one past the line's last character.
    pub open spec fn caret_valid(&self) -> bool {
        self.cursor.1 <= line_len(self.buffer@, self.cursor.0 as nat)
    }

    /// Whether `op` can run without overflowing: an insertion needs room in the
    /// buffer, and a typed character one more column.
    pub open spec fn fits(&self, op: EditOp) -> bool {
        &&& (op is Insert || op is Newline) ==> self.buffer@.len() + 1 < usize::MAX
        &&& op is Insert ==> self.cursor.1 < usize::MAX
    }

    /// Whether `self` and `other` carry the same identity and anchor.
    pub open spec fn same_target(&self, other: &CommentEdit) -> bool {
        &&& self.original_text == other.original_text
        &&& self.anchor == other.anchor
        &&& self.branch_key == other.branch_key
        &&& self.editing_id == other.editing_id
        &&& self.base == other.base
    }

    /// Resets the preferred column to the caret's display column.
    fn recompute_preferred(&mut self)
        requires
            old(self).cursor.0 < line_total(old(self).buffer@),
        ensures
            final(self).buffer == old(self).buffer,
            final(self).cursor == old(self).cursor,
            final(self).same_target(&*old(self)),
            final(self).preferred_col == caret_cols(
                final(self).buffer@,
                final(self).cursor.0 as nat,
                final(self).cursor.1 as nat,
            ),
    {
        let cs = chars_of(self.buffer.as_str());
        let (st, en) = line_bounds(cs.as_slice(), self.cursor.0);
        proof {
            lemma_line(cs@, self.cursor.0 as nat);
        }
        self.preferred_col = display_col_in(cs.as_slice(), st, en, self.cursor.1);
    }

    /// Applies one editing operation to the buffer and the caret. Up and down
    /// move between hard lines to the char nearest the preferred display
    /// column and keep it; every other operation resets it to the caret's
    /// display column.
    pub fn apply(&mut self, op: EditOp)
        requires
            old(self).wf(),
            old(self).fits(op),
        ensures
            final(self).wf(),
            final(self).same_target(&*old(self)),
            old(self).caret_valid() && op != EditOp::Insert('\n') ==> final(self).caret_valid(),
            final(self).buffer@ == buffer_after(
                old(self).buffer@,
                old(self).cursor.0 as nat,
                old(self).cursor.1 as nat,
                op,
            ),
            !(op is Up || op is Down) ==> {
                let cur = cursor_after(
                    old(self).buffer@,
                    old(self).cursor.0 as nat,
                    old(self).cursor.1 as nat,
                    op,
                );
                &&& final(self).cursor.0 == cur.0
                &&& final(self).cursor.1 == cur.1
                &&& final(self).preferred_col == caret_cols(
                    final(self).buffer@,
                    final(self).cursor.0 as nat,
                    final(self).cursor.1 as nat,
                )
            },
            op is Up ==> final(self).preferred_col == old(self).preferred_col && if old(
                self,
            ).cursor.0 > 0 {
                &&& final(self).cursor.0 == old(self).cursor.0 - 1
                &&& lands_at(
                    line_chars(old(self).buffer@, (old(self).cursor.0 - 1) as nat),
                    old(self).preferred_col as nat,
                    final(self).cursor.1 as nat,
                )
            } else {
                final(self).cursor == old(self).cursor
            },
            op is Down ==> final(self).preferred_col == old(self).preferred_col && if old(
                self,
            ).cursor.0 + 1 < line_total(old(self).buffer@) {
                &&& final(self).cursor.0 == old(self).cursor.0 + 1
                &&& lands_at(
                    line_chars(old(self).buffer@, (old(self).cursor.0 + 1) as nat),
                    old(self).preferred_col as nat,
                    final(self).cursor.1 as nat,
                )
            } else {
                final(self).cursor == old(self).cursor
            },
    {
        let (l, c) = self.cursor;
        let cs = chars_of(self.buffer.as_str());
        let ghost s = cs@;
        proof {
            lemma_line(s, l as nat);
            if self.caret_valid() && !(op is Up || op is Down) && op != EditOp::Insert('\n') {
                lemma_caret_stays_on_its_line(s, l as nat, c as nat, op);
            }
            if l > 0 {
                lemma_line_range(s, (l - 1) as nat);
            }
            lemma_line_range(s, (l + 1) as nat);
        }
        let (st, en) = line_bounds(cs.as_slice(), l);
        match op {
            EditOp::Insert(ch) => {
                let at = caret_of(cs.as_slice(), l, c);
                let mut v = cs;
                v.insert(at, ch);
                proof {
                    lemma_newlines_insert(s, at as int, ch);
                }
                self.buffer = string_of(v.as_slice());
                self.cursor = (l, c + 1);
                self.recompute_preferred();
            },
            EditOp::Newline => {
                let at = caret_of(cs.as_slice(), l, c);
                let mut v = cs;
                v.insert(at, '\n');
                proof {
                    lemma_newlines_insert(s, at as int, '\n');
                    lemma_newlines_bound(s);
                }
                self.buffer = string_of(v.as_slice());
                self.cursor = (l + 1, 0);
                self.recompute_preferred();
            },
            EditOp::Backspace => {
                if c > 0 {
                    if c <= en - st {
                        let mut v = cs;
                        v.remove(st + c - 1);
                        proof {
                            lemma_newlines_remove(s, st + c - 1);
                        }
                        self.buffer = string_of(v.as_slice());
                    }
                    self.cursor = (l, c - 1);
                } else if l > 0 {
                    let (pst, pen) = line_bounds(cs.as_slice(), l - 1);
                    proof {
                        lemma_line(s, (l - 1) as nat);
                    }
                    let mut v = cs;
                    v.remove(st - 1);
                    proof {
                        lemma_newlines_remove(s, st - 1);
                    }
                    self.buffer = string_of(v.as_slice());
                    self.cursor = (l - 1, pen - pst);
                }
                self.recompute_preferred();
            },
            EditOp::Delete => {
                let total = line_count(cs.as_slice());
                if c < en - st {
                    let mut v = cs;
                    v.remove(st + c);
                    proof {
                        lemma_newlines_remove(s, st + c);
                    }
                    self.buffer = string_of(v.as_slice());
                } else if l + 1 < total {
                    let mut v = cs;
                    v.remove(en);
                    proof {
                        lemma_newlines_remove(s, en as int);
                    }
                    self.buffer = string_of(v.as_slice());
                }
                self.recompute_preferred();
            },
            EditOp::Left => {
                if c > 0 {
                    self.cursor = (l, c - 1);
                } else if l > 0 {
                    let (pst, pen) = line_bounds(cs.as_slice(), l - 1);
                    proof {
                        lemma_line(s, (l - 1) as nat);
                    }
                    self.cursor = (l - 1, pen - pst);
                }
                self.recompute_preferred();
            },
            EditOp::Right => {
                let total = line_count(cs.as_slice());
                if c < en - st {
                    self.cursor = (l, c + 1);
                } else if l + 1 < total {
                    self.cursor = (l + 1, 0);
                }
                self.recompute_preferred();
            },
            EditOp::Home => {
                self.cursor = (l, 0);
                self.recompute_preferred();
            },
            EditOp::End => {
                self.cursor = (l, en - st);
                self.recompute_preferred();
            },
            EditOp::Up => {
                if l > 0 {
                    let (pst, pen) = line_bounds(cs.as_slice(), l - 1);
                    proof {
                        lemma_line(s, (l - 1) as nat);
                    }
                    let col = col_at_display_in(cs.as_slice(), pst, pen, self.preferred_col);
                    self.cursor = (l - 1, col);
                }
            },
            EditOp::Down => {
                let total = line_count(cs.as_slice());
                if l + 1 < total {
                    let (nst, nen) = line_bounds(cs.as_slice(), l + 1);
                    proof {
                        lemma_line(s, (l + 1) as nat);
                    }
                    let col = col_at_display_in(cs.as_slice(), nst, nen, self.preferred_col);
                    self.cursor = (l + 1, col);
                }
            },
        }
    }
}

impl CommentEdit {
    /// A fresh editor for a new comment on `anchor`, caret at the empty start.
    pub fn new_comment(anchor: CommentAnchor, branch_key: String, base: Option<String>) -> (e: Self)
        ensures
            e.wf(),
            e.caret_valid(),
            e.buffer@ == Seq::<char>::empty(),
            e.original_text@ == Seq::<char>::empty(),
            e.cursor == (0usize, 0usize),
            e.preferred_col == 0,
            e.anchor == anchor,
            e.branch_key == branch_key,
            e.editing_id is None,
            e.base == base,
    {
        CommentEdit {
            buffer: String::new(),
            original_text: String::new(),
            cursor: (0, 0),
            preferred_col: 0,
            anchor,
            branch_key,
            editing_id: None,
            base,
        }
    }

    /// An editor pre-filled to edit note `id`, caret at the end of the text.
    pub fn edit(
        text: String,
        anchor: CommentAnchor,
        id: u64,
        branch_key: String,
        base: Option<String>,
    ) -> (e: Self)
        requires
            text@.len() < usize::MAX,
        ensures
            e.wf(),
            e.caret_valid(),
            e.buffer == text,
            e.original_text == text,
            e.cursor.0 == line_total(text@) - 1,
            e.cursor.1 == line_len(text@, e.cursor.0 as nat),
            e.preferred_col == caret_cols(text@, e.cursor.0 as nat, e.cursor.1 as nat),
            e.anchor == anchor,
            e.branch_key == branch_key,
            e.editing_id == Some(id),
            e.base == base,
    {
        let cs = chars_of(text.as_str());
        let last = line_count(cs.as_slice()) - 1;
        let (st, en) = line_bounds(cs.as_slice(), last);
        proof {
            lemma_line(cs@, last as nat);
        }
        let col = en - st;
        let preferred_col = display_col_in(cs.as_slice(), st, en, col);
        CommentEdit {
            original_text: text.clone(),
            buffer: text,
            cursor: (last, col),
            preferred_col,
            anchor,
            branch_key,
            editing_id: Some(id),
            base,
        }
    }
}

} // verus!
