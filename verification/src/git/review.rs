//! Branch-to-branch review: the range grammar.
//!
//! A range splits on the first `...`, else on the first `..`; an empty side
//! means `HEAD`; a bare rev `BASE` means `merge-base(BASE, HEAD)..HEAD`
//! (three-dot / GitHub-PR semantics). Resolving the operands to commits is
//! the repository's business; this module decides which operands there are,
//! how the base is derived from them, and the label shown in the header.

use vstd::prelude::*;
use crate::text::{chars_of, string_of_range, push_chars};
use crate::git::history::Oid;

verus! {

/// Whether a char is Unicode `White_Space` (what `char::is_whitespace` and
/// `str::trim` test).
pub open spec fn is_ws(c: char) -> bool {
    ('\u{9}' <= c <= '\u{d}') || c == ' ' || c == '\u{85}' || c == '\u{a0}' || c == '\u{1680}' || (
    '\u{2000}' <= c <= '\u{200a}') || c == '\u{2028}' || c == '\u{2029}' || c == '\u{202f}' || c
        == '\u{205f}' || c == '\u{3000}'
}

pub fn is_ws_exec(c: char) -> (b: bool)
    ensures
        b == is_ws(c),
{
    ('\u{9}' <= c && c <= '\u{d}') || c == ' ' || c == '\u{85}' || c == '\u{a0}' || c == '\u{1680}'
        || ('\u{2000}' <= c && c <= '\u{200a}') || c == '\u{2028}' || c == '\u{2029}' || c
        == '\u{202f}' || c == '\u{205f}' || c == '\u{3000}'
}

/// The index of the first non-whitespace char at or after `i`.
pub open spec fn skip_ws(cs: Seq<char>, i: int) -> int
    decreases cs.len() - i,
{
    if i >= cs.len() || !is_ws(cs[i]) {
        i
    } else {
        skip_ws(cs, i + 1)
    }
}

/// The index just past the last non-whitespace char before `j` (at least `lo`).
pub open spec fn trim_end_at(cs: Seq<char>, lo: int, j: int) -> int
    decreases j - lo,
{
    if j <= lo || !is_ws(cs[j - 1]) {
        j
    } else {
        trim_end_at(cs, lo, j - 1)
    }
}

/// `cs` with leading and trailing whitespace removed.
pub open spec fn trim(cs: Seq<char>) -> Seq<char> {
    let a = skip_ws(cs, 0);
    cs.subrange(a, trim_end_at(cs, a, cs.len() as int))
}

proof fn lemma_skip_ws(cs: Seq<char>, i: int)
    requires
        0 <= i <= cs.len(),
    ensures
        i <= skip_ws(cs, i) <= cs.len(),
    decreases cs.len() - i,
{
    if i < cs.len() && is_ws(cs[i]) {
        lemma_skip_ws(cs, i + 1);
    }
}

proof fn lemma_trim_end(cs: Seq<char>, lo: int, j: int)
    requires
        0 <= lo <= j <= cs.len(),
    ensures
        lo <= trim_end_at(cs, lo, j) <= j,
    decreases j - lo,
{
    if j > lo && is_ws(cs[j - 1]) {
        lemma_trim_end(cs, lo, j - 1);
    }
}

/// The bounds `[a, b)` of `cs` once trimmed.
pub fn trim_bounds(cs: &Vec<char>) -> (r: (usize, usize))
    ensures
        r.0 as int == skip_ws(cs@, 0),
        r.1 as int == trim_end_at(cs@, r.0 as int, cs@.len() as int),
        r.0 <= r.1 <= cs@.len(),
{
    let mut a: usize = 0;
    while a < cs.len() && is_ws_exec(cs[a])
        invariant
            a <= cs@.len(),
            skip_ws(cs@, a as int) == skip_ws(cs@, 0),
        decreases cs.len() - a,
    {
        a = a + 1;
    }
    let mut b: usize = cs.len();
    while b > a && is_ws_exec(cs[b - 1])
        invariant
            a <= b <= cs@.len(),
            trim_end_at(cs@, a as int, b as int) == trim_end_at(cs@, a as int, cs@.len() as int),
        decreases b,
    {
        b = b - 1;
    }
    (a, b)
}

/// The index of the first occurrence of `n` dots in a row, if any.
pub open spec fn find_dots(cs: Seq<char>, n: int, from: int) -> Option<int>
    decreases cs.len() - from,
{
    if from + n > cs.len() {
        None
    } else if forall|j: int| from <= j < from + n ==> cs[j] == '.' {
        Some(from)
    } else {
        find_dots(cs, n, from + 1)
    }
}

fn find_dots_exec(cs: &Vec<char>, n: usize) -> (r: Option<usize>)
    requires
        1 <= n <= 3,
    ensures
        match find_dots(cs@, n as int, 0) {
            Some(i) => r == Some(i as usize),
            None => r is None,
        },
{
    let mut i: usize = 0;
    while i < cs.len() && cs.len() - i >= n
        invariant
            i <= cs@.len(),
            1 <= n <= 3,
            find_dots(cs@, n as int, i as int) == find_dots(cs@, n as int, 0),
        decreases cs.len() - i,
    {
        let mut k: usize = 0;
        let mut all = true;
        while k < n
            invariant
                k <= n,
                i + n <= cs@.len(),
                cs@.len() <= usize::MAX,
                all == forall|j: int| i <= j < i + k ==> cs@[j] == '.',
            decreases n - k,
        {
            if cs[i + k] != '.' {
                all = false;
            }
            k = k + 1;
        }
        if all {
            return Some(i);
        }
        i = i + 1;
    }
    proof {
        lemma_find_dots_none(cs@, n as int, i as int);
    }
    None
}

proof fn lemma_find_dots_none(cs: Seq<char>, n: int, from: int)
    requires
        from + n > cs.len(),
        1 <= n,
    ensures
        find_dots(cs, n, from) is None,
{
}

/// The operand a range side names: an empty side means `HEAD`.
pub open spec fn operand(side: Seq<char>) -> Seq<char> {
    if side.len() == 0 {
        seq!['H', 'E', 'A', 'D']
    } else {
        side
    }
}

/// The parsed shape of a review range.
#[derive(Debug, PartialEq, Eq)]
pub enum RangeForm {
    /// `A...B`: review `merge-base(A, B)..B`.
    ThreeDot { a: String, b: String },
    /// `A..B`: review `A..B` directly.
    TwoDot { a: String, b: String },
    /// `BASE`: review `merge-base(BASE, HEAD)..HEAD`.
    Single { rev: String },
}

/// The abstract value of a [`RangeForm`].
pub enum RangeFormView {
    ThreeDot { a: Seq<char>, b: Seq<char> },
    TwoDot { a: Seq<char>, b: Seq<char> },
    Single { rev: Seq<char> },
}

impl View for RangeForm {
    type V = RangeFormView;

    open spec fn view(&self) -> RangeFormView {
        match self {
            RangeForm::ThreeDot { a, b } => RangeFormView::ThreeDot { a: a@, b: b@ },
            RangeForm::TwoDot { a, b } => RangeFormView::TwoDot { a: a@, b: b@ },
            RangeForm::Single { rev } => RangeFormView::Single { rev: rev@ },
        }
    }
}

/// Why a range was refused before any revision was looked up.
#[derive(Clone, Copy, Debug, PartialEq, Eq, Structural)]
pub enum RangeError {
    /// The input is empty or whitespace only.
    Empty,
}

/// The shape of a range input: `...` is looked for before `..` so `A...B`
/// never parses as `A.`/`.B`; sides are taken verbatim; a bare rev is trimmed.
pub open spec fn range_form_of(cs: Seq<char>) -> Option<RangeFormView> {
    if trim(cs).len() == 0 {
        None
    } else {
        match find_dots(cs, 3, 0) {
            Some(i) => Some(
                RangeFormView::ThreeDot {
                    a: operand(cs.subrange(0, i)),
                    b: operand(cs.subrange(i + 3, cs.len() as int)),
                },
            ),
            None => match find_dots(cs, 2, 0) {
                Some(i) => Some(
                    RangeFormView::TwoDot {
                        a: operand(cs.subrange(0, i)),
                        b: operand(cs.subrange(i + 2, cs.len() as int)),
                    },
                ),
                None => Some(RangeFormView::Single { rev: trim(cs) }),
            },
        }
    }
}

fn operand_exec(cs: &Vec<char>, from: usize, to: usize) -> (s: String)
    requires
        from <= to <= cs@.len(),
    ensures
        s@ == operand(cs@.subrange(from as int, to as int)),
{
    if from == to {
        let h: [char; 4] = ['H', 'E', 'A', 'D'];
        let mut s = String::new();
        push_chars(&mut s, h.as_slice());
        assert(s@ =~= seq!['H', 'E', 'A', 'D']);
        s
    } else {
        string_of_range(cs.as_slice(), from, to)
    }
}

proof fn lemma_find_dots_bound(cs: Seq<char>, n: int, from: int)
    requires
        0 <= from,
        0 <= n,
    ensures
        find_dots(cs, n, from) matches Some(i) ==> from <= i && i + n <= cs.len(),
    decreases cs.len() - from,
{
    if from + n <= cs.len() && !(forall|j: int| from <= j < from + n ==> cs[j] == '.') {
        lemma_find_dots_bound(cs, n, from + 1);
    }
}

/// Where `find_dots` lands: at a run of `n` dots, the first at or after
/// `from`; and when it finds none, no such run starts at or after `from`.
proof fn lemma_find_dots_first(cs: Seq<char>, n: int, from: int)
    requires
        0 <= from,
        1 <= n,
    ensures
        find_dots(cs, n, from) matches Some(i) ==> {
            &&& dots_at(cs, i, n)
            &&& forall|p: int| from <= p < i ==> !dots_at(cs, p, n)
        },
        find_dots(cs, n, from) is None ==> forall|p: int| from <= p ==> !dots_at(cs, p, n),
    decreases cs.len() - from,
{
    if from + n <= cs.len() && !(forall|j: int| from <= j < from + n ==> cs[j] == '.') {
        lemma_find_dots_first(cs, n, from + 1);
    }
}

/// The `HEAD` that an empty side of a range stands for.
pub open spec fn head_rev() -> Seq<char> {
    seq!['H', 'E', 'A', 'D']
}

/// Whether `op` is the operand written as the side `side` of a range: the
/// side's own text, or `HEAD` exactly when the side is empty.
pub open spec fn names_side(op: Seq<char>, side: Seq<char>) -> bool {
    &&& side.len() == 0 ==> op == head_rev()
    &&& side.len() > 0 ==> op == side
}

/// Whether `cs` holds `n` dots in a row starting at `i`.
pub open spec fn dots_at(cs: Seq<char>, i: int, n: int) -> bool {
    0 <= i && i + n <= cs.len() && forall|j: int| i <= j < i + n ==> cs[j] == '.'
}

/// A parsed range splits its input at the first `...` (three dots), or,
/// when there is none, at the first `..`; each operand is non-empty, and is
/// the text of its side, or `HEAD` exactly when that side is empty. A bare
/// rev has no `..` in it and is the input trimmed, never empty.
pub proof fn lemma_range_operands(cs: Seq<char>)
    ensures
        range_form_of(cs) matches Some(RangeFormView::ThreeDot { a, b }) ==> {
            &&& a.len() > 0 && b.len() > 0
            &&& exists|i: int|
                #![trigger dots_at(cs, i, 3)]
                dots_at(cs, i, 3) && (forall|p: int| 0 <= p < i ==> !dots_at(cs, p, 3)) && names_side(
                    a,
                    cs.subrange(0, i),
                ) && names_side(b, cs.subrange(i + 3, cs.len() as int))
        },
        range_form_of(cs) matches Some(RangeFormView::TwoDot { a, b }) ==> {
            &&& a.len() > 0 && b.len() > 0
            &&& forall|p: int| !dots_at(cs, p, 3)
            &&& exists|i: int|
                #![trigger dots_at(cs, i, 2)]
                dots_at(cs, i, 2) && (forall|p: int| 0 <= p < i ==> !dots_at(cs, p, 2)) && names_side(
                    a,
                    cs.subrange(0, i),
                ) && names_side(b, cs.subrange(i + 2, cs.len() as int))
        },
        range_form_of(cs) matches Some(RangeFormView::Single { rev }) ==> {
            &&& rev == trim(cs) && rev.len() > 0
            &&& forall|p: int| !dots_at(cs, p, 2)
        },
{
    lemma_find_dots_first(cs, 3, 0);
    lemma_find_dots_first(cs, 2, 0);
    if trim(cs).len() > 0 {
        if let Some(i) = find_dots(cs, 3, 0) {
            assert(dots_at(cs, i, 3));
        } else if let Some(i) = find_dots(cs, 2, 0) {
            assert(dots_at(cs, i, 2));
            assert forall|p: int| !dots_at(cs, p, 3) by {
                if p < 0 {
                }
            }
        } else {
            assert forall|p: int| !dots_at(cs, p, 2) by {
                if p < 0 {
                }
            }
        }
    }
}

/// Parse a range input per the grammar above.
pub fn parse_range(input: &str) -> (r: Result<RangeForm, RangeError>)
    ensures
        match range_form_of(input@) {
            None => r == Err::<RangeForm, RangeError>(RangeError::Empty),
            Some(f) => r matches Ok(g) && g@ == f,
        },
{
    let cs = chars_of(input);
    let (a, b) = trim_bounds(&cs);
    proof {
        lemma_find_dots_bound(cs@, 3, 0);
        lemma_find_dots_bound(cs@, 2, 0);
    }
    if a == b {
        return Err(RangeError::Empty);
    }
    if let Some(i) = find_dots_exec(&cs, 3) {
        let x = operand_exec(&cs, 0, i);
        let y = operand_exec(&cs, i + 3, cs.len());
        return Ok(RangeForm::ThreeDot { a: x, b: y });
    }
    if let Some(i) = find_dots_exec(&cs, 2) {
        let x = operand_exec(&cs, 0, i);
        let y = operand_exec(&cs, i + 2, cs.len());
        return Ok(RangeForm::TwoDot { a: x, b: y });
    }
    let rev = string_of_range(cs.as_slice(), a, b);
    Ok(RangeForm::Single { rev })
}

/// The header label of a range: `A…B` for three dots, `A..B` for two, and
/// `BASE…HEAD` for a bare rev.
pub open spec fn range_display(f: RangeFormView) -> Seq<char> {
    match f {
        RangeFormView::ThreeDot { a, b } => a + seq!['…'] + b,
        RangeFormView::TwoDot { a, b } => a + seq!['.', '.'] + b,
        RangeFormView::Single { rev } => rev + seq!['…', 'H', 'E', 'A', 'D'],
    }
}

impl RangeForm {
    /// The normalized header label of the range.
    pub fn display(&self) -> (s: String)
        ensures
            s@ == range_display(self@),
    {
        match self {
            RangeForm::ThreeDot { a, b } => {
                let mut s = a.clone();
                let sep: [char; 1] = ['…'];
                push_chars(&mut s, sep.as_slice());
                let bc = chars_of(b.as_str());
                push_chars(&mut s, bc.as_slice());
                assert(s@ =~= range_display(self@));
                s
            },
            RangeForm::TwoDot { a, b } => {
                let mut s = a.clone();
                let sep: [char; 2] = ['.', '.'];
                push_chars(&mut s, sep.as_slice());
                let bc = chars_of(b.as_str());
                push_chars(&mut s, bc.as_slice());
                assert(s@ =~= range_display(self@));
                s
            },
            RangeForm::Single { rev } => {
                let mut s = rev.clone();
                let sep: [char; 5] = ['…', 'H', 'E', 'A', 'D'];
                push_chars(&mut s, sep.as_slice());
                assert(s@ =~= range_display(self@));
                s
            },
        }
    }

    /// Whether the review base is a merge base of the two operands (three
    /// dots and a bare rev) rather than the first operand itself (two dots).
    pub fn uses_merge_base(&self) -> (b: bool)
        ensures
            b == !(self@ is TwoDot),
    {
        match self {
            RangeForm::TwoDot { .. } => false,
            _ => true,
        }
    }
}

/// A resolved review range: two concrete commits plus the strings used to
/// build and label it.
#[derive(Clone, Debug, PartialEq, Eq)]
pub struct ReviewSpec {
    /// The exact user input, re-used verbatim on refresh.
    pub input: String,
    /// The normalized header label (e.g. `main…HEAD`).
    pub display: String,
    pub base: Oid,
    pub head: Oid,
}

} // verus!
