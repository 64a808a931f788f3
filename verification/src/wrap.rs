//! Wrapping text for the comment boxes and the editor: sanitizing (tabs as
//! spaces, control characters dropped), hard-splitting at a display width,
//! word-wrapping note bodies, and laying the editor buffer out with its caret.

use vstd::prelude::*;
use crate::editor::{capped, char_cols, char_width, cols, display_col_in, display_cols, edit_cols, editor_char_width, is_control, char_is_control};
use crate::keys::{pieces, split_pieces};
use crate::text::{chars_of, push_chars, string_of_range};

verus! {

// ---------------------------------------------------------------------------
// Sanitizing.
// ---------------------------------------------------------------------------

/// What one character shows as: a tab as four spaces, a control character
/// as nothing, anything else as itself.
pub open spec fn shown(c: char) -> Seq<char> {
    if c == '\t' {
        seq![' ', ' ', ' ', ' ']
    } else if is_control(c) {
        Seq::empty()
    } else {
        seq![c]
    }
}

/// What `s` shows as.
pub open spec fn sanitized(s: Seq<char>) -> Seq<char>
    decreases s.len(),
{
    if s.len() == 0 {
        Seq::empty()
    } else {
        sanitized(s.drop_last()) + shown(s.last())
    }
}

/// Appends what `c` shows as.
fn push_shown(out: &mut String, c: char)
    ensures
        final(out)@ == old(out)@ + shown(c),
{
    if c == '\t' {
        let tab: [char; 4] = [' ', ' ', ' ', ' '];
        push_chars(out, tab.as_slice());
        assert(tab@ =~= seq![' ', ' ', ' ', ' ']);
    } else if char_is_control(c) {
        assert(old(out)@ + shown(c) =~= old(out)@);
    } else {
        crate::text::push_char(out, c);
        assert(old(out)@.push(c) =~= old(out)@ + seq![c]);
    }
}

/// `text` with tabs expanded to spaces and control characters dropped, so a
/// note cannot inject terminal escapes.
pub fn sanitize_wrap(text: &str) -> (r: String)
    ensures
        r@ == sanitized(text@),
{
    let cs = chars_of(text);
    let mut out = String::new();
    let mut i: usize = 0;
    while i < cs.len()
        invariant
            i <= cs@.len(),
            cs@ == text@,
            out@ == sanitized(cs@.take(i as int)),
        decreases cs.len() - i,
    {
        assert(cs@.take(i + 1).drop_last() =~= cs@.take(i as int));
        push_shown(&mut out, cs[i]);
        i = i + 1;
    }
    assert(cs@.take(i as int) =~= cs@);
    out
}

// ---------------------------------------------------------------------------
// Splitting at a width.
// ---------------------------------------------------------------------------

/// The terminal width of all of `s`.
pub open spec fn str_cols(s: Seq<char>) -> nat
    decreases s.len(),
{
    if s.len() == 0 {
        0
    } else {
        str_cols(s.drop_last()) + char_cols(s.last())
    }
}

/// Where `split_at_width` cuts `s`: before the first character (but never
/// the first) whose columns would take the prefix past `width`, else at the
/// end.
pub open spec fn cut_from(s: Seq<char>, i: int, used: nat, width: nat) -> int
    decreases s.len() - i,
{
    if i >= s.len() {
        s.len() as int
    } else if i > 0 && used + char_cols(s[i]) > width {
        i
    } else {
        cut_from(s, i + 1, used + char_cols(s[i]), width)
    }
}

/// The cut lies within `s`, past its first character when `s` is not empty.
pub proof fn lemma_cut_from(s: Seq<char>, i: int, used: nat, width: nat)
    requires
        0 <= i <= s.len(),
    ensures
        i <= cut_from(s, i, used, width) <= s.len(),
        s.len() > 0 ==> cut_from(s, i, used, width) >= 1 || i > 0,
    decreases s.len() - i,
{
    if i < s.len() && !(i > 0 && used + char_cols(s[i]) > width) {
        lemma_cut_from(s, i + 1, used + char_cols(s[i]), width);
    }
}

/// Splits `s` where its prefix would exceed `width` columns; the prefix
/// always holds at least one character of a non-empty `s`, so a wide
/// character in a narrow box cannot loop forever.
pub fn split_at_width(s: &str, width: usize) -> (r: (String, String))
    ensures
        r.0@ == s@.take(cut_from(s@, 0, 0, width as nat)),
        r.1@ == s@.skip(cut_from(s@, 0, 0, width as nat)),
        s@.len() > 0 ==> r.0@.len() > 0,
{
    let cs = chars_of(s);
    let mut used: u128 = 0;
    let mut i: usize = 0;
    proof {
        lemma_cut_from(cs@, 0, 0, width as nat);
    }
    while i < cs.len() && !(i > 0 && used + (char_width(cs[i]) as u128) > width as u128)
        invariant
            i <= cs@.len(),
            cs@ == s@,
            used <= width + 3,
            i == 0 ==> used == 0,
            cut_from(cs@, i as int, used as nat, width as nat) == cut_from(cs@, 0, 0, width as nat),
        decreases cs.len() - i,
    {
        used = used + char_width(cs[i]) as u128;
        i = i + 1;
    }
    assert(cs@.take(i as int) =~= cs@.subrange(0, i as int));
    assert(cs@.skip(i as int) =~= cs@.subrange(i as int, cs@.len() as int));
    (string_of_range(cs.as_slice(), 0, i), string_of_range(cs.as_slice(), i, cs.len()))
}

// ---------------------------------------------------------------------------
// Char-wrapping the editor's hard lines.
// ---------------------------------------------------------------------------

/// Char-wraps `line` from index `i` on, given the rows made so far and the
/// row being filled (its shown text, columns and starting char index): a
/// character that would take a non-empty row past `width` starts a new row.
pub open spec fn wrap_from(
    line: Seq<char>,
    i: int,
    rows: Seq<(Seq<char>, int)>,
    cur: Seq<char>,
    cur_w: nat,
    cur_start: int,
    width: nat,
) -> Seq<(Seq<char>, int)>
    decreases line.len() - i,
{
    if i >= line.len() {
        rows.push((cur, cur_start))
    } else {
        let w = edit_cols(line[i]);
        if cur_w + w > width && cur_w > 0 {
            wrap_from(line, i + 1, rows.push((cur, cur_start)), shown(line[i]), w, i, width)
        } else {
            wrap_from(line, i + 1, rows, cur + shown(line[i]), cur_w + w, cur_start, width)
        }
    }
}

/// The display rows of `line` at `width` columns, each with the char index
/// where it begins.
pub open spec fn wrap_rows(line: Seq<char>, width: nat) -> Seq<(Seq<char>, int)> {
    wrap_from(line, 0, Seq::empty(), Seq::empty(), 0, 0, width)
}

proof fn lemma_wrap_from(
    line: Seq<char>,
    i: int,
    rows: Seq<(Seq<char>, int)>,
    cur: Seq<char>,
    cur_w: nat,
    cur_start: int,
    width: nat,
)
    requires
        0 <= i <= line.len(),
        0 <= cur_start <= i,
        rows.len() == 0 ==> cur_start == 0,
        forall|k: int| 0 <= k < rows.len() ==> 0 <= (#[trigger] rows[k]).1 <= cur_start,
        rows.len() > 0 ==> rows[0].1 == 0,
    ensures
        ({
            let out = wrap_from(line, i, rows, cur, cur_w, cur_start, width);
            &&& out.len() >= 1
            &&& out[0].1 == 0
            &&& forall|k: int| 0 <= k < out.len() ==> 0 <= (#[trigger] out[k]).1 <= line.len()
            &&& forall|k: int| 0 <= k < rows.len() ==> out[k] == rows[k]
        }),
    decreases line.len() - i,
{
    if i < line.len() {
        let w = edit_cols(line[i]);
        if cur_w + w > width && cur_w > 0 {
            lemma_wrap_from(line, i + 1, rows.push((cur, cur_start)), shown(line[i]), w, i, width);
        } else {
            lemma_wrap_from(line, i + 1, rows, cur + shown(line[i]), cur_w + w, cur_start, width);
        }
    }
}

/// The display rows of a list of `(text, start)` pairs as plain values.
pub open spec fn pairs_view(v: Seq<(String, usize)>) -> Seq<(Seq<char>, int)> {
    v.map_values(|p: (String, usize)| (p.0@, p.1 as int))
}

/// Char-wraps one hard line into display rows of at most `width` columns
/// (a character wider than `width` gets a row of its own), each with the
/// char index where it begins. Always at least one, possibly empty, row.
pub fn wrap_display_row(line: &str, width: usize) -> (r: Vec<(String, usize)>)
    ensures
        pairs_view(r@) == wrap_rows(line@, width as nat),
        r@.len() >= 1,
        r@[0].1 == 0,
{
    proof {
        lemma_wrap_from(line@, 0, Seq::empty(), Seq::empty(), 0, 0, width as nat);
    }
    let cs = chars_of(line);
    let mut rows: Vec<(String, usize)> = Vec::new();
    let mut cur = String::new();
    let mut cur_w: usize = 0;
    let mut cur_start: usize = 0;
    let mut i: usize = 0;
    assert(pairs_view(rows@) =~= Seq::<(Seq<char>, int)>::empty());
    while i < cs.len()
        invariant
            i <= cs@.len(),
            cs@ == line@,
            cur_w <= width || cur_w <= 4,
            wrap_from(cs@, i as int, pairs_view(rows@), cur@, cur_w as nat, cur_start as int, width as nat)
                == wrap_rows(line@, width as nat),
        decreases cs.len() - i,
    {
        let ch = cs[i];
        let w = editor_char_width(ch);
        if (w as u128) + (cur_w as u128) > width as u128 && cur_w > 0 {
            let mut done = String::new();
            core::mem::swap(&mut done, &mut cur);
            let ghost before = pairs_view(rows@);
            rows.push((done, cur_start));
            assert(pairs_view(rows@) =~= before.push((done@, cur_start as int)));
            cur_w = 0;
            cur_start = i;
        }
        let ghost cur_before = cur@;
        push_shown(&mut cur, ch);
        cur_w = cur_w + w;
        i = i + 1;
    }
    let ghost before = pairs_view(rows@);
    rows.push((cur, cur_start));
    assert(pairs_view(rows@) =~= before.push((cur@, cur_start as int)));
    rows
}

// ---------------------------------------------------------------------------
// The editor's layout.
// ---------------------------------------------------------------------------

/// Scanning the rows from `i`, the last whose start is at or before char
/// `cc`, stopping at the first that starts after it (`r` so far).
pub open spec fn caret_row_from(wrapped: Seq<(Seq<char>, int)>, i: int, r: int, cc: int) -> int
    decreases wrapped.len() - i,
{
    if i >= wrapped.len() {
        r
    } else if wrapped[i].1 <= cc {
        caret_row_from(wrapped, i + 1, i, cc)
    } else {
        r
    }
}

proof fn lemma_caret_row_from(wrapped: Seq<(Seq<char>, int)>, i: int, r: int, cc: int)
    requires
        0 <= r < wrapped.len(),
        r <= i,
        wrapped[r].1 <= cc,
    ensures
        0 <= caret_row_from(wrapped, i, r, cc) < wrapped.len(),
        wrapped[caret_row_from(wrapped, i, r, cc)].1 <= cc,
    decreases wrapped.len() - i,
{
    if i < wrapped.len() && wrapped[i].1 <= cc {
        lemma_caret_row_from(wrapped, i + 1, i, cc);
    }
}

/// The texts of display rows.
pub open spec fn row_texts(w: Seq<(Seq<char>, int)>) -> Seq<Seq<char>> {
    w.map_values(|p: (Seq<char>, int)| p.0)
}

/// Lays out hard lines from `li` on, given the rows so far and the caret's
/// place found so far: each line's display rows follow; on the caret's line
/// the caret lands on the last row starting at or before it, at the width
/// of the characters before it on that row, and a caret at the very end of
/// a full row rolls to a fresh empty row so it has a cell to draw in.
pub open spec fn view_from(
    lines: Seq<Seq<char>>,
    li: int,
    rows: Seq<Seq<char>>,
    crow: int,
    ccol: int,
    cursor: (int, int),
    width: nat,
) -> (Seq<Seq<char>>, int, int)
    decreases lines.len() - li,
{
    if li < 0 || li >= lines.len() {
        (rows, crow, ccol)
    } else {
        let hard = lines[li];
        let base = rows.len() as int;
        let wrapped = wrap_rows(hard, width);
        if li == cursor.0 {
            let cc = if cursor.1 < hard.len() {
                cursor.1
            } else {
                hard.len() as int
            };
            let r = caret_row_from(wrapped, 0, 0, cc);
            let start = wrapped[r].1;
            let col = capped(cols(hard.subrange(start, cc)));
            if col >= width && cc == hard.len() {
                view_from(
                    lines,
                    li + 1,
                    rows + row_texts(wrapped) + seq![Seq::<char>::empty()],
                    base + wrapped.len(),
                    0,
                    cursor,
                    width,
                )
            } else {
                view_from(lines, li + 1, rows + row_texts(wrapped), base + r, col as int, cursor, width)
            }
        } else {
            view_from(lines, li + 1, rows + row_texts(wrapped), crow, ccol, cursor, width)
        }
    }
}

/// The editor's body rows at `width` columns (at least 1) and the caret's
/// row and column among them.
pub open spec fn editor_layout(buffer: Seq<char>, cursor: (int, int), width: nat) -> (Seq<Seq<char>>, int, int) {
    let w = if width == 0 {
        1
    } else {
        width
    };
    view_from(pieces(buffer, '\n'), 0, Seq::empty(), 0, 0, cursor, w)
}

/// The editor buffer laid out for its box: the wrapped body rows and the
/// caret's row and display column among them.
pub struct EditorView {
    pub rows: Vec<String>,
    pub caret_row: usize,
    pub caret_col: usize,
}

/// Lays the editor `buffer` out for a body of `width` display columns and
/// locates the caret `(hard line, char)`.
pub fn editor_view(buffer: &str, cursor: (usize, usize), width: usize) -> (v: EditorView)
    ensures
        ({
            let l = editor_layout(buffer@, (cursor.0 as int, cursor.1 as int), width as nat);
            &&& v.rows@.map_values(|s: String| s@) == l.0
            &&& v.caret_row as int == l.1
            &&& v.caret_col as int == l.2
        }),
{
    let width: usize = if width == 0 {
        1
    } else {
        width
    };
    let lines = split_pieces(buffer, '\n');
    let ghost lv = pieces(buffer@, '\n');
    let ghost cur = (cursor.0 as int, cursor.1 as int);
    let (cline, ccol) = cursor;
    let mut rows: Vec<String> = Vec::new();
    let mut caret_row: usize = 0;
    let mut caret_col: usize = 0;
    let mut li: usize = 0;
    assert(rows@.map_values(|s: String| s@) =~= Seq::<Seq<char>>::empty());
    while li < lines.len()
        invariant
            li <= lines@.len() == lv.len(),
            lv == pieces(buffer@, '\n'),
            cur == (cline as int, ccol as int),
            width >= 1,
            forall|k: int| 0 <= k < lines@.len() ==> (#[trigger] lines@[k])@ == lv[k],
            view_from(lv, li as int, rows@.map_values(|s: String| s@), caret_row as int, caret_col as int, cur, width as nat)
                == view_from(lv, 0, Seq::empty(), 0, 0, cur, width as nat),
        decreases lines.len() - li,
    {
        let hard = &lines[li];
        let wrapped = wrap_display_row(hard.as_str(), width);
        let ghost wv = pairs_view(wrapped@);
        let ghost before = rows@.map_values(|s: String| s@);
        proof {
            lemma_wrap_from(hard@, 0, Seq::empty(), Seq::empty(), 0, 0, width as nat);
        }
        let mut new_row: usize = caret_row;
        let mut new_col: usize = caret_col;
        let mut roll = false;
        let mut r: usize = 0;
        if li == cline {
            let cs = chars_of(hard.as_str());
            let cc: usize = if ccol < cs.len() {
                ccol
            } else {
                cs.len()
            };
            let mut i: usize = 0;
            proof {
                lemma_caret_row_from(wv, 0, 0, cc as int);
            }
            while i < wrapped.len() && wrapped[i].1 <= cc
                invariant
                    wv == pairs_view(wrapped@),
                    i <= wrapped@.len(),
                    wrapped@.len() >= 1,
                    r < wrapped@.len(),
                    r <= i,
                    wv[r as int].1 <= cc,
                    caret_row_from(wv, i as int, r as int, cc as int) == caret_row_from(wv, 0, 0, cc as int),
                decreases wrapped.len() - i,
            {
                r = i;
                i = i + 1;
            }
            let start = wrapped[r].1;
            assert(wv[r as int].1 == start as int);
            let col = display_col_in(cs.as_slice(), start, cc, cc - start);
            proof {
                let sub = cs@.subrange(start as int, cc as int);
                assert(sub.take(sub.len() as int) =~= sub);
            }
            if col >= width && cc == cs.len() {
                roll = true;
                new_col = 0;
            } else {
                new_col = col;
            }
        }
        let mut j: usize = 0;
        while j < wrapped.len()
            invariant
                wv == pairs_view(wrapped@),
                j <= wrapped@.len(),
                rows@.map_values(|s: String| s@) == before + row_texts(wv).take(j as int),
            decreases wrapped.len() - j,
        {
            let ghost prev = rows@.map_values(|s: String| s@);
            rows.push(wrapped[j].0.clone());
            assert(rows@.map_values(|s: String| s@) =~= prev.push(wv[j as int].0));
            assert(row_texts(wv).take(j + 1) =~= row_texts(wv).take(j as int).push(wv[j as int].0));
            j = j + 1;
        }
        assert(row_texts(wv).take(j as int) =~= row_texts(wv));
        if li == cline {
            if roll {
                new_row = rows.len();
                let ghost prev = rows@.map_values(|s: String| s@);
                rows.push(String::new());
                assert(rows@.map_values(|s: String| s@) =~= prev + seq![Seq::<char>::empty()]);
            } else {
                new_row = rows.len() - wrapped.len() + r;
            }
        }
        caret_row = new_row;
        caret_col = new_col;
        li = li + 1;
    }
    EditorView { rows, caret_row, caret_col }
}

// ---------------------------------------------------------------------------
// Word-wrapping note bodies.
// ---------------------------------------------------------------------------

/// Places one word on the lines being filled: after a space on the current
/// line when it fits in `width`; else on a fresh line once the current one
/// is flushed; else, on an empty line, split at the width until the rest
/// fits.
pub open spec fn place_word(
    out: Seq<Seq<char>>,
    line: Seq<char>,
    line_w: nat,
    word: Seq<char>,
    width: nat,
) -> (Seq<Seq<char>>, Seq<char>, nat)
    decreases word.len(), (if line_w > 0 {
        1nat
    } else {
        0nat
    }),
{
    let word_w = str_cols(word);
    let sep: nat = if line_w > 0 {
        1
    } else {
        0
    };
    if line_w + sep + word_w <= width {
        (out, (if sep == 1 {
            line.push(' ')
        } else {
            line
        }) + word, line_w + sep + word_w)
    } else if line_w > 0 {
        place_word(out.push(line), Seq::empty(), 0, word, width)
    } else {
        let k = cut_from(word, 0, 0, width);
        proof {
            lemma_cut_from(word, 0, 0, width);
        }
        if k < 1 {
            (out, line, line_w)
        } else {
            place_word(out.push(word.take(k)), line, line_w, word.skip(k), width)
        }
    }
}

/// The state after placing `words` in order.
pub open spec fn place_words(words: Seq<Seq<char>>, width: nat) -> (Seq<Seq<char>>, Seq<char>, nat)
    decreases words.len(),
{
    if words.len() == 0 {
        (Seq::empty(), Seq::empty(), 0)
    } else {
        let s = place_words(words.drop_last(), width);
        place_word(s.0, s.1, s.2, words.last(), width)
    }
}

/// The lines one paragraph wraps into: its space-separated words placed
/// greedily, then the last line.
pub open spec fn paragraph_lines(text: Seq<char>, width: nat) -> Seq<Seq<char>> {
    let s = place_words(pieces(text, ' '), width);
    s.0.push(s.1)
}

proof fn lemma_str_cols_step(s: Seq<char>, i: int)
    requires
        0 <= i < s.len(),
    ensures
        str_cols(s.take(i + 1)) == str_cols(s.take(i)) + char_cols(s[i]),
{
    assert(s.take(i + 1).drop_last() =~= s.take(i));
}

/// The terminal width of `cs`.
fn cols_of(cs: &Vec<char>) -> (w: u128)
    ensures
        w == str_cols(cs@),
        w <= 3 * cs@.len(),
{
    let mut w: u128 = 0;
    let mut i: usize = 0;
    while i < cs.len()
        invariant
            i <= cs@.len(),
            w == str_cols(cs@.take(i as int)),
            w <= 3 * i,
        decreases cs.len() - i,
    {
        proof {
            lemma_str_cols_step(cs@, i as int);
        }
        w = w + char_width(cs[i]) as u128;
        i = i + 1;
    }
    assert(cs@.take(i as int) =~= cs@);
    w
}

/// The strings' characters.
pub open spec fn strings_chars(v: Seq<String>) -> Seq<Seq<char>> {
    v.map_values(|s: String| s@)
}

/// Places one word (see [`place_word`]).
fn place_one(out: &mut Vec<String>, line: &mut String, line_w: &mut usize, word: &str, width: usize)
    requires
        *old(line_w) <= width,
    ensures
        *final(line_w) <= width,
        (strings_chars(final(out)@), final(line)@, *final(line_w) as nat) == place_word(
            strings_chars(old(out)@),
            old(line)@,
            *old(line_w) as nat,
            word@,
            width as nat,
        ),
{
    let ghost target = place_word(strings_chars(out@), line@, *line_w as nat, word@, width as nat);
    let mut rest = chars_of(word);
    let mut done = false;
    while !done
        invariant
            *line_w <= width,
            !done ==> place_word(strings_chars(out@), line@, *line_w as nat, rest@, width as nat) == target,
            done ==> (strings_chars(out@), line@, *line_w as nat) == target,
        decreases rest@.len(), (if done {
            0nat
        } else if *line_w > 0 {
            2nat
        } else {
            1nat
        }),
    {
        let word_w = cols_of(&rest);
        let _ = rest.len();
        let sep: usize = if *line_w > 0 {
            1
        } else {
            0
        };
        if (*line_w as u128) + (sep as u128) + word_w <= width as u128 {
            if sep == 1 {
                crate::text::push_char(line, ' ');
            }
            push_chars(line, rest.as_slice());
            *line_w = *line_w + sep + word_w as usize;
            done = true;
        } else if *line_w > 0 {
            let mut flushed = String::new();
            core::mem::swap(&mut flushed, line);
            let ghost prev = strings_chars(out@);
            out.push(flushed);
            assert(strings_chars(out@) =~= prev.push(flushed@));
            *line_w = 0;
        } else {
            let s = string_of_range(rest.as_slice(), 0, rest.len());
            assert(rest@.subrange(0, rest@.len() as int) =~= rest@);
            let (head, tail) = split_at_width(s.as_str(), width);
            proof {
                lemma_cut_from(rest@, 0, 0, width as nat);
            }
            let ghost prev = strings_chars(out@);
            out.push(head);
            assert(strings_chars(out@) =~= prev.push(rest@.take(cut_from(rest@, 0, 0, width as nat))));
            rest = chars_of(tail.as_str());
        }
    }
}

/// Greedily wraps one paragraph (no newlines) at `width`, appending its
/// lines to `out`: words break at spaces, and a word longer than the width
/// is hard-split.
pub fn wrap_paragraph(text: &str, width: usize, out: &mut Vec<String>)
    ensures
        strings_chars(final(out)@) == strings_chars(old(out)@) + paragraph_lines(text@, width as nat),
{
    let words = split_pieces(text, ' ');
    let ghost ws = pieces(text@, ' ');
    let ghost start = strings_chars(out@);
    let mut lines: Vec<String> = Vec::new();
    let mut line = String::new();
    let mut line_w: usize = 0;
    let mut i: usize = 0;
    assert(strings_chars(lines@) =~= Seq::<Seq<char>>::empty());
    while i < words.len()
        invariant
            i <= words@.len() == ws.len(),
            ws == pieces(text@, ' '),
            forall|k: int| 0 <= k < words@.len() ==> (#[trigger] words@[k])@ == ws[k],
            line_w <= width,
            (strings_chars(lines@), line@, line_w as nat) == place_words(ws.take(i as int), width as nat),
        decreases words.len() - i,
    {
        assert(ws.take(i + 1).drop_last() =~= ws.take(i as int));
        assert(ws.take(i + 1).last() == ws[i as int]);
        place_one(&mut lines, &mut line, &mut line_w, words[i].as_str(), width);
        i = i + 1;
    }
    assert(ws.take(i as int) =~= ws);
    let ghost placed = strings_chars(lines@);
    lines.push(line);
    assert(strings_chars(lines@) =~= paragraph_lines(text@, width as nat));
    let mut j: usize = 0;
    let ghost all = strings_chars(lines@);
    while j < lines.len()
        invariant
            j <= lines@.len(),
            all == strings_chars(lines@),
            strings_chars(out@) == start + all.take(j as int),
        decreases lines.len() - j,
    {
        let ghost prev = strings_chars(out@);
        out.push(lines[j].clone());
        assert(strings_chars(out@) =~= prev.push(all[j as int]));
        assert(all.take(j + 1) =~= all.take(j as int).push(all[j as int]));
        j = j + 1;
    }
    assert(all.take(j as int) =~= all);
}

/// `s` with each `\r\n`, and then each remaining `\r`, made a `\n`.
pub open spec fn unix_newlines(s: Seq<char>) -> Seq<char>
    decreases s.len(),
{
    if s.len() == 0 {
        Seq::empty()
    } else if s[0] == '\r' && s.len() >= 2 && s[1] == '\n' {
        seq!['\n'] + unix_newlines(s.skip(2))
    } else if s[0] == '\r' {
        seq!['\n'] + unix_newlines(s.skip(1))
    } else {
        seq![s[0]] + unix_newlines(s.skip(1))
    }
}

fn normalize_newlines(text: &str) -> (r: String)
    ensures
        r@ == unix_newlines(text@),
{
    let cs = chars_of(text);
    let mut out = String::new();
    let mut i: usize = 0;
    assert(cs@.skip(0) =~= cs@);
    while i < cs.len()
        invariant
            i <= cs@.len(),
            cs@ == text@,
            out@ + unix_newlines(cs@.skip(i as int)) == unix_newlines(text@),
        decreases cs.len() - i,
    {
        let ghost rest = cs@.skip(i as int);
        assert(rest[0] == cs@[i as int]);
        if cs[i] == '\r' && i + 1 < cs.len() && cs[i + 1] == '\n' {
            assert(rest[1] == cs@[i + 1]);
            assert(rest.skip(2) =~= cs@.skip(i + 2));
            crate::text::push_char(&mut out, '\n');
            assert(out@ + unix_newlines(cs@.skip(i + 2)) =~= unix_newlines(text@));
            i = i + 2;
        } else {
            assert(rest.skip(1) =~= cs@.skip(i + 1));
            if cs[i] == '\r' {
                crate::text::push_char(&mut out, '\n');
            } else {
                crate::text::push_char(&mut out, cs[i]);
            }
            assert(out@ + unix_newlines(cs@.skip(i + 1)) =~= unix_newlines(text@));
            i = i + 1;
        }
    }
    assert(cs@.skip(i as int) =~= Seq::<char>::empty());
    assert(out@ + Seq::<char>::empty() =~= out@);
    out
}

/// The lines of each paragraph in order.
pub open spec fn paragraphs_lines(ps: Seq<Seq<char>>, width: nat) -> Seq<Seq<char>>
    decreases ps.len(),
{
    if ps.len() == 0 {
        Seq::empty()
    } else {
        paragraphs_lines(ps.drop_last(), width) + paragraph_lines(sanitized(ps.last()), width)
    }
}

/// The body lines of a comment box: the note's lines (line endings
/// normalised, each sanitized and word-wrapped as a paragraph) at `width`
/// columns, at least 1; never no line, so an empty note still draws a row.
pub open spec fn body_lines(text: Seq<char>, width: nat) -> Seq<Seq<char>> {
    let w = if width == 0 {
        1
    } else {
        width
    };
    let ls = paragraphs_lines(pieces(unix_newlines(text), '\n'), w);
    if ls.len() == 0 {
        seq![Seq::empty()]
    } else {
        ls
    }
}

/// Word-wraps comment `text` for a box body of `width` columns.
pub fn wrap_comment_body(text: &str, width: usize) -> (r: Vec<String>)
    ensures
        strings_chars(r@) == body_lines(text@, width as nat),
{
    let width: usize = if width == 0 {
        1
    } else {
        width
    };
    let normalized = normalize_newlines(text);
    let paragraphs = split_pieces(normalized.as_str(), '\n');
    let ghost ps = pieces(normalized@, '\n');
    let mut out: Vec<String> = Vec::new();
    let mut i: usize = 0;
    assert(strings_chars(out@) =~= Seq::<Seq<char>>::empty());
    while i < paragraphs.len()
        invariant
            i <= paragraphs@.len() == ps.len(),
            ps == pieces(normalized@, '\n'),
            forall|k: int| 0 <= k < paragraphs@.len() ==> (#[trigger] paragraphs@[k])@ == ps[k],
            strings_chars(out@) == paragraphs_lines(ps.take(i as int), width as nat),
        decreases paragraphs.len() - i,
    {
        assert(ps.take(i + 1).drop_last() =~= ps.take(i as int));
        assert(ps.take(i + 1).last() == ps[i as int]);
        let clean = sanitize_wrap(paragraphs[i].as_str());
        wrap_paragraph(clean.as_str(), width, &mut out);
        i = i + 1;
    }
    assert(ps.take(i as int) =~= ps);
    if out.len() == 0 {
        out.push(String::new());
        assert(strings_chars(out@) =~= seq![Seq::<char>::empty()]);
    }
    out
}

proof fn lemma_view_from(
    lines: Seq<Seq<char>>,
    li: int,
    rows: Seq<Seq<char>>,
    crow: int,
    ccol: int,
    cursor: (int, int),
    width: nat,
)
    requires
        0 <= li,
        0 <= cursor.0 < lines.len(),
        cursor.0 < li ==> 0 <= crow < rows.len(),
    ensures
        0 <= view_from(lines, li, rows, crow, ccol, cursor, width).1 < view_from(
            lines,
            li,
            rows,
            crow,
            ccol,
            cursor,
            width,
        ).0.len(),
    decreases lines.len() - li,
{
    if li < lines.len() {
        let hard = lines[li];
        let wrapped = wrap_rows(hard, width);
        lemma_wrap_from(hard, 0, Seq::empty(), Seq::empty(), 0, 0, width);
        let base = rows.len() as int;
        if li == cursor.0 {
            let cc = if cursor.1 < hard.len() {
                cursor.1
            } else {
                hard.len() as int
            };
            if cc >= 0 {
                lemma_caret_row_from(wrapped, 0, 0, cc);
            }
            let r = caret_row_from(wrapped, 0, 0, cc);
            let start = wrapped[r].1;
            let col = capped(cols(hard.subrange(start, cc)));
            if col >= width && cc == hard.len() {
                lemma_view_from(
                    lines,
                    li + 1,
                    rows + row_texts(wrapped) + seq![Seq::<char>::empty()],
                    base + wrapped.len(),
                    0,
                    cursor,
                    width,
                );
            } else {
                if cc < 0 {
                    assert(caret_row_from(wrapped, 0, 0, cc) == 0);
                }
                lemma_view_from(lines, li + 1, rows + row_texts(wrapped), base + r, col as int, cursor, width);
            }
        } else {
            lemma_view_from(lines, li + 1, rows + row_texts(wrapped), crow, ccol, cursor, width);
        }
    }
}

/// The caret always lands on a body row: for a caret on one of the buffer's
/// hard lines, its row is one of the rows laid out.
pub proof fn lemma_caret_has_row(buffer: Seq<char>, cursor: (int, int), width: nat)
    requires
        0 <= cursor.0 < pieces(buffer, '\n').len(),
    ensures
        0 <= editor_layout(buffer, cursor, width).1 < editor_layout(buffer, cursor, width).0.len(),
{
    let w = if width == 0 {
        1
    } else {
        width
    };
    lemma_view_from(pieces(buffer, '\n'), 0, Seq::empty(), 0, 0, cursor, w);
}

} // verus!
