//! Configurable keybindings: a [`Keymap`] resolves a key (with modifiers) to
//! an [`Action`], which the app interprets in context. Defaults are
//! overridable from the config file.

use vstd::prelude::*;
use crate::text::{chars_of, str_eq, string_of_range};

verus! {

/// A semantic action a key triggers; the focused pane decides its effect.
#[derive(Clone, Copy, Debug, PartialEq, Eq, Structural)]
pub enum Action {
    Quit,
    Help,
    Refresh,
    SwitchPane,
    ToggleDiffMode,
    ToggleChanges,
    ToggleHistory,
    ShowStatus,
    ShowHistory,
    Down,
    Up,
    Top,
    Bottom,
    HalfPageDown,
    HalfPageUp,
    FocusStaging,
    FocusDiff,
    ToggleStage,
    Stage,
    Unstage,
    Discard,
}

/// A key as the terminal reports it; `Other` stands for every key no chord
/// can name.
#[derive(Clone, Copy, Debug, PartialEq, Eq, Structural)]
pub enum Key {
    Char(char),
    Enter,
    Tab,
    BackTab,
    Esc,
    Up,
    Down,
    Left,
    Right,
    Home,
    End,
    PageUp,
    PageDown,
    Backspace,
    Delete,
    Other,
}

/// The modifier keys held with a key.
#[derive(Clone, Copy, Debug, PartialEq, Eq, Structural)]
pub struct KeyMods {
    pub shift: bool,
    pub control: bool,
    pub alt: bool,
    pub super_key: bool,
    pub hyper: bool,
    pub meta: bool,
}

impl KeyMods {
    /// No modifier held.
    pub fn none() -> (m: KeyMods)
        ensures
            m == no_mods(),
    {
        KeyMods { shift: false, control: false, alt: false, super_key: false, hyper: false, meta: false }
    }
}

/// No modifier held.
pub open spec fn no_mods() -> KeyMods {
    KeyMods { shift: false, control: false, alt: false, super_key: false, hyper: false, meta: false }
}

/// A key plus modifiers, with Shift folded into a character key (its case
/// already encodes it).
#[derive(Clone, Copy, Debug, PartialEq, Eq, Structural)]
pub struct Chord {
    pub code: Key,
    pub mods: KeyMods,
}

/// The chord of `code` held with `mods`: Shift dropped for a character key.
pub open spec fn chord(code: Key, mods: KeyMods) -> Chord {
    match code {
        Key::Char(_) => Chord { code, mods: KeyMods { shift: false, ..mods } },
        _ => Chord { code, mods },
    }
}

impl Chord {
    /// The chord of `code` held with `mods`.
    pub fn new(code: Key, mods: KeyMods) -> (c: Chord)
        ensures
            c == chord(code, mods),
    {
        match code {
            Key::Char(_) => Chord { code, mods: KeyMods { shift: false, ..mods } },
            _ => Chord { code, mods },
        }
    }
}

// ---------------------------------------------------------------------------
// Parsing chords.
// ---------------------------------------------------------------------------

/// What `str::to_lowercase` gives for `s`.
pub uninterp spec fn lowercase(s: Seq<char>) -> Seq<char>;

/// The ASCII lowercase of `c`: `A`..`Z` to `a`..`z`, anything else kept.
pub open spec fn ascii_lower(c: char) -> char {
    if 'A' <= c <= 'Z' {
        ((c as u32) + 32) as char
    } else {
        c
    }
}

/// `str::to_lowercase`: the lowercase form of `s` by Unicode's Lowercase
/// mapping, named here rather than restated. For ASCII text that mapping is
/// the ASCII one (`A`..`Z` to `a`..`z`, char for char), as std documents
/// and shows; beyond ASCII nothing more is stated.
#[verifier::external_body]
fn to_lower(s: &str) -> (r: String)
    ensures
        r@ == lowercase(s@),
        (forall|i: int| 0 <= i < s@.len() ==> (s@[i] as u32) < 0x80) ==> r@ == s@.map_values(
            |c: char| ascii_lower(c),
        ),
{
    s.to_lowercase()
}

/// `s` cut at every `sep`, empty pieces kept.
pub open spec fn pieces(s: Seq<char>, sep: char) -> Seq<Seq<char>>
    decreases s.len(),
{
    if s.len() == 0 {
        seq![Seq::empty()]
    } else {
        let p = pieces(s.drop_last(), sep);
        if s.last() == sep {
            p.push(Seq::empty())
        } else {
            p.update(p.len() - 1, p.last().push(s.last()))
        }
    }
}

proof fn lemma_pieces_len(s: Seq<char>, sep: char)
    ensures
        pieces(s, sep).len() >= 1,
    decreases s.len(),
{
    if s.len() > 0 {
        lemma_pieces_len(s.drop_last(), sep);
    }
}

/// The pieces of `s` between `sep`s.
pub fn split_pieces(s: &str, sep: char) -> (r: Vec<String>)
    ensures
        r@.len() == pieces(s@, sep).len(),
        forall|i: int| 0 <= i < r@.len() ==> (#[trigger] r@[i])@ == pieces(s@, sep)[i],
{
    let cs = chars_of(s);
    let mut r: Vec<String> = Vec::new();
    let mut start: usize = 0;
    let mut i: usize = 0;
    while i < cs.len()
        invariant
            cs@ == s@,
            start <= i <= cs@.len(),
            pieces(cs@.take(i as int), sep).len() == r@.len() + 1,
            forall|k: int| 0 <= k < r@.len() ==> (#[trigger] r@[k])@ == pieces(cs@.take(i as int), sep)[k],
            pieces(cs@.take(i as int), sep).last() == cs@.subrange(start as int, i as int),
        decreases cs.len() - i,
    {
        let ghost before = pieces(cs@.take(i as int), sep);
        assert(cs@.take(i + 1).drop_last() =~= cs@.take(i as int));
        assert(cs@.take(i + 1).last() == cs@[i as int]);
        if cs[i] == sep {
            let piece = string_of_range(cs.as_slice(), start, i);
            r.push(piece);
            start = i + 1;
            proof {
                let after = pieces(cs@.take(i + 1), sep);
                assert(after == before.push(Seq::empty()));
                assert(forall|k: int| 0 <= k < before.len() ==> after[k] == before[k]);
                assert(after.last() =~= cs@.subrange(start as int, i + 1));
            }
        } else {
            proof {
                let after = pieces(cs@.take(i + 1), sep);
                assert(after == before.update(before.len() - 1, before.last().push(cs@[i as int])));
                assert(after.last() =~= cs@.subrange(start as int, i + 1));
            }
        }
        i = i + 1;
    }
    let last = string_of_range(cs.as_slice(), start, i);
    r.push(last);
    assert(cs@.take(i as int) =~= cs@);
    r
}

/// The key a (lowercased) key name names.
pub open spec fn key_named(lower: Seq<char>) -> Option<Key> {
    if lower == "space"@ {
        Some(Key::Char(' '))
    } else if lower == "enter"@ || lower == "return"@ {
        Some(Key::Enter)
    } else if lower == "tab"@ {
        Some(Key::Tab)
    } else if lower == "backtab"@ {
        Some(Key::BackTab)
    } else if lower == "esc"@ || lower == "escape"@ {
        Some(Key::Esc)
    } else if lower == "up"@ {
        Some(Key::Up)
    } else if lower == "down"@ {
        Some(Key::Down)
    } else if lower == "left"@ {
        Some(Key::Left)
    } else if lower == "right"@ {
        Some(Key::Right)
    } else if lower == "home"@ {
        Some(Key::Home)
    } else if lower == "end"@ {
        Some(Key::End)
    } else if lower == "pageup"@ {
        Some(Key::PageUp)
    } else if lower == "pagedown"@ {
        Some(Key::PageDown)
    } else if lower == "backspace"@ {
        Some(Key::Backspace)
    } else if lower == "delete"@ || lower == "del"@ {
        Some(Key::Delete)
    } else {
        None
    }
}

/// The key `text` names: a key name in any case, or else a single
/// character, kept in its case so `g` and `G` differ.
pub open spec fn key_of(text: Seq<char>) -> Option<Key> {
    match key_named(lowercase(text)) {
        Some(k) => Some(k),
        None => if text.len() == 1 {
            Some(Key::Char(text[0]))
        } else {
            None
        },
    }
}

fn key_by_name(lower: &str) -> (r: Option<Key>)
    ensures
        r == key_named(lower@),
{
    if str_eq(lower, "space") {
        Some(Key::Char(' '))
    } else if str_eq(lower, "enter") || str_eq(lower, "return") {
        Some(Key::Enter)
    } else if str_eq(lower, "tab") {
        Some(Key::Tab)
    } else if str_eq(lower, "backtab") {
        Some(Key::BackTab)
    } else if str_eq(lower, "esc") || str_eq(lower, "escape") {
        Some(Key::Esc)
    } else if str_eq(lower, "up") {
        Some(Key::Up)
    } else if str_eq(lower, "down") {
        Some(Key::Down)
    } else if str_eq(lower, "left") {
        Some(Key::Left)
    } else if str_eq(lower, "right") {
        Some(Key::Right)
    } else if str_eq(lower, "home") {
        Some(Key::Home)
    } else if str_eq(lower, "end") {
        Some(Key::End)
    } else if str_eq(lower, "pageup") {
        Some(Key::PageUp)
    } else if str_eq(lower, "pagedown") {
        Some(Key::PageDown)
    } else if str_eq(lower, "backspace") {
        Some(Key::Backspace)
    } else if str_eq(lower, "delete") || str_eq(lower, "del") {
        Some(Key::Delete)
    } else {
        None
    }
}

/// The name a key is written by in lowercase, for each key that has one:
/// `space`, `enter`, `tab`, `backtab`, `esc`, the four arrows, `home`,
/// `end`, `pageup`, `pagedown`, `backspace` and `delete`.
pub open spec fn key_name(k: Key) -> Option<Seq<char>> {
    match k {
        Key::Char(c) => if c == ' ' {
            Some(seq!['s', 'p', 'a', 'c', 'e'])
        } else {
            None
        },
        Key::Enter => Some(seq!['e', 'n', 't', 'e', 'r']),
        Key::Tab => Some(seq!['t', 'a', 'b']),
        Key::BackTab => Some(seq!['b', 'a', 'c', 'k', 't', 'a', 'b']),
        Key::Esc => Some(seq!['e', 's', 'c']),
        Key::Up => Some(seq!['u', 'p']),
        Key::Down => Some(seq!['d', 'o', 'w', 'n']),
        Key::Left => Some(seq!['l', 'e', 'f', 't']),
        Key::Right => Some(seq!['r', 'i', 'g', 'h', 't']),
        Key::Home => Some(seq!['h', 'o', 'm', 'e']),
        Key::End => Some(seq!['e', 'n', 'd']),
        Key::PageUp => Some(seq!['p', 'a', 'g', 'e', 'u', 'p']),
        Key::PageDown => Some(seq!['p', 'a', 'g', 'e', 'd', 'o', 'w', 'n']),
        Key::Backspace => Some(seq!['b', 'a', 'c', 'k', 's', 'p', 'a', 'c', 'e']),
        Key::Delete => Some(seq!['d', 'e', 'l', 'e', 't', 'e']),
        Key::Other => None,
    }
}

/// Each key's name names that key, and is written in lowercase ASCII
/// letters, so the name parses back to its key whatever its case.
pub proof fn lemma_key_names_round_trip(k: Key)
    ensures
        key_name(k) matches Some(n) ==> {
            &&& key_named(n) == Some(k)
            &&& forall|i: int| 0 <= i < n.len() ==> 'a' <= #[trigger] n[i] <= 'z'
        },
{
    reveal_strlit("space");
    reveal_strlit("enter");
    reveal_strlit("return");
    reveal_strlit("tab");
    reveal_strlit("backtab");
    reveal_strlit("esc");
    reveal_strlit("escape");
    reveal_strlit("up");
    reveal_strlit("down");
    reveal_strlit("left");
    reveal_strlit("right");
    reveal_strlit("home");
    reveal_strlit("end");
    reveal_strlit("pageup");
    reveal_strlit("pagedown");
    reveal_strlit("backspace");
    reveal_strlit("delete");
    reveal_strlit("del");
    match k {
        Key::Char(c) => {
            if c == ' ' {
                assert(key_name(k)->0 =~= "space"@);
            }
        },
        Key::Enter => {
            assert(key_name(k)->0 =~= "enter"@);
        },
        Key::Tab => {
            assert(key_name(k)->0 =~= "tab"@);
        },
        Key::BackTab => {
            assert(key_name(k)->0 =~= "backtab"@);
        },
        Key::Esc => {
            assert(key_name(k)->0 =~= "esc"@);
        },
        Key::Up => {
            assert(key_name(k)->0 =~= "up"@);
        },
        Key::Down => {
            assert(key_name(k)->0 =~= "down"@);
        },
        Key::Left => {
            assert(key_name(k)->0 =~= "left"@);
        },
        Key::Right => {
            assert(key_name(k)->0 =~= "right"@);
        },
        Key::Home => {
            assert(key_name(k)->0 =~= "home"@);
        },
        Key::End => {
            assert(key_name(k)->0 =~= "end"@);
        },
        Key::PageUp => {
            assert(key_name(k)->0 =~= "pageup"@);
        },
        Key::PageDown => {
            assert(key_name(k)->0 =~= "pagedown"@);
        },
        Key::Backspace => {
            assert(key_name(k)->0 =~= "backspace"@);
        },
        Key::Delete => {
            assert(key_name(k)->0 =~= "delete"@);
        },
        Key::Other => {},
    }
}

/// Parses a key name like `space`, `PageUp` or `G`.
pub fn parse_key(key: &str) -> (r: Option<Key>)
    ensures
        r == key_of(key@),
        forall|k: Key|
            #[trigger] key_name(k) == Some(key@.map_values(|c: char| ascii_lower(c))) ==> r == Some(k),
{
    let lower = to_lower(key);
    proof {
        assert forall|k: Key| #[trigger] key_name(k) == Some(key@.map_values(|c: char| ascii_lower(c))) implies lower@
            == key@.map_values(|c: char| ascii_lower(c)) by {
            lemma_key_names_round_trip(k);
            let n = key@.map_values(|c: char| ascii_lower(c));
            assert forall|i: int| 0 <= i < key@.len() implies (key@[i] as u32) < 0x80 by {
                assert(n[i] == ascii_lower(key@[i]));
                assert('a' <= n[i] <= 'z');
            }
        }
        assert forall|k: Key| #[trigger] key_name(k) == Some(lower@) implies key_named(lower@) == Some(k) by {
            lemma_key_names_round_trip(k);
        }
    }
    match key_by_name(lower.as_str()) {
        Some(k) => Some(k),
        None => {
            let cs = chars_of(key);
            if cs.len() == 1 {
                Some(Key::Char(cs[0]))
            } else {
                None
            }
        },
    }
}

/// The modifier a (lowercased) modifier name adds, or `None` for an unknown
/// name: 0 for Control, 1 for Alt, 2 for Shift.
pub open spec fn modifier_named(lower: Seq<char>) -> Option<nat> {
    if lower == "ctrl"@ || lower == "control"@ {
        Some(0)
    } else if lower == "alt"@ || lower == "meta"@ || lower == "option"@ {
        Some(1)
    } else if lower == "shift"@ {
        Some(2)
    } else {
        None
    }
}

/// `mods` with modifier `m` (0 Control, 1 Alt, 2 Shift) added.
pub open spec fn with_modifier(mods: KeyMods, m: nat) -> KeyMods {
    if m == 0 {
        KeyMods { control: true, ..mods }
    } else if m == 1 {
        KeyMods { alt: true, ..mods }
    } else {
        KeyMods { shift: true, ..mods }
    }
}

/// The modifiers named by `names`, or `None` when one is unknown.
pub open spec fn mods_of(names: Seq<Seq<char>>) -> Option<KeyMods>
    decreases names.len(),
{
    if names.len() == 0 {
        Some(no_mods())
    } else {
        match mods_of(names.drop_last()) {
            None => None,
            Some(m) => match modifier_named(lowercase(names.last())) {
                Some(k) => Some(with_modifier(m, k)),
                None => None,
            },
        }
    }
}

/// The chord `text` names: modifiers and a key joined by `-`, such as
/// `ctrl-d`, `space`, `G` or `alt-shift-x`.
pub open spec fn chord_of(text: Seq<char>) -> Option<Chord> {
    let ps = pieces(text, '-');
    let key = ps.last();
    if key.len() == 0 {
        None
    } else {
        match mods_of(ps.drop_last()) {
            None => None,
            Some(m) => match key_of(key) {
                Some(k) => Some(chord(k, m)),
                None => None,
            },
        }
    }
}

fn modifier_by_name(lower: &str) -> (r: Option<u8>)
    ensures
        match r {
            Some(k) => modifier_named(lower@) == Some(k as nat),
            None => modifier_named(lower@) is None,
        },
{
    if str_eq(lower, "ctrl") || str_eq(lower, "control") {
        Some(0)
    } else if str_eq(lower, "alt") || str_eq(lower, "meta") || str_eq(lower, "option") {
        Some(1)
    } else if str_eq(lower, "shift") {
        Some(2)
    } else {
        None
    }
}

/// Parses a chord like `ctrl-d`, `space`, `G` or `pageup`.
pub fn parse_chord(text: &str) -> (r: Option<Chord>)
    ensures
        r == chord_of(text@),
{
    let parts = split_pieces(text, '-');
    proof {
        lemma_pieces_len(text@, '-');
    }
    let ghost ps = pieces(text@, '-');
    let n = parts.len();
    let key = &parts[n - 1];
    if crate::editor::char_count(key.as_str()) == 0 {
        return None;
    }
    let mut mods = KeyMods::none();
    let mut i: usize = 0;
    while i < n - 1
        invariant
            n == parts@.len() == ps.len() >= 1,
            ps == pieces(text@, '-'),
            forall|k: int| 0 <= k < parts@.len() ==> (#[trigger] parts@[k])@ == ps[k],
            i <= n - 1,
            mods_of(ps.take(i as int)) == Some(mods),
        decreases n - 1 - i,
    {
        assert(ps.take(i + 1).drop_last() =~= ps.take(i as int));
        assert(ps.take(i + 1).last() == ps[i as int]);
        let lower = to_lower(parts[i].as_str());
        match modifier_by_name(lower.as_str()) {
            Some(0) => {
                mods = KeyMods { control: true, ..mods };
            },
            Some(1) => {
                mods = KeyMods { alt: true, ..mods };
            },
            Some(_) => {
                mods = KeyMods { shift: true, ..mods };
            },
            None => {
                proof {
                    lemma_mods_of_none(ps.drop_last(), (i + 1) as nat);
                    assert(ps.drop_last().take(i + 1) =~= ps.take(i + 1));
                }
                return None;
            },
        }
        i = i + 1;
    }
    assert(ps.take(n - 1) =~= ps.drop_last());
    match parse_key(key.as_str()) {
        Some(k) => Some(Chord::new(k, mods)),
        None => None,
    }
}

/// Once a prefix of the names holds an unknown one, so do all the names.
proof fn lemma_mods_of_none(names: Seq<Seq<char>>, k: nat)
    requires
        k <= names.len(),
        mods_of(names.take(k as int)) is None,
    ensures
        mods_of(names) is None,
    decreases names.len() - k,
{
    if k < names.len() {
        assert(names.take(k + 1int).drop_last() =~= names.take(k as int));
        lemma_mods_of_none(names, k + 1);
    } else {
        assert(names.take(k as int) =~= names);
    }
}

// ---------------------------------------------------------------------------
// The keymap.
// ---------------------------------------------------------------------------

/// The bindings `s` lists, a later entry for a chord overriding an earlier.
pub open spec fn map_of(s: Seq<(Chord, Action)>) -> Map<Chord, Action>
    decreases s.len(),
{
    if s.len() == 0 {
        Map::empty()
    } else {
        map_of(s.drop_last()).insert(s.last().0, s.last().1)
    }
}

/// Whether no chord is listed twice.
pub open spec fn distinct_chords(s: Seq<(Chord, Action)>) -> bool {
    forall|i: int, j: int| 0 <= i < j < s.len() ==> s[i].0 != s[j].0
}

/// The entries of `s` whose chord is not `c`.
pub open spec fn without_chord(s: Seq<(Chord, Action)>, c: Chord) -> Seq<(Chord, Action)>
    decreases s.len(),
{
    if s.len() == 0 {
        s
    } else if s.last().0 == c {
        without_chord(s.drop_last(), c)
    } else {
        without_chord(s.drop_last(), c).push(s.last())
    }
}

/// The entries of `s` whose action is not `a`.
pub open spec fn without_action(s: Seq<(Chord, Action)>, a: Action) -> Seq<(Chord, Action)>
    decreases s.len(),
{
    if s.len() == 0 {
        s
    } else if s.last().1 == a {
        without_action(s.drop_last(), a)
    } else {
        without_action(s.drop_last(), a).push(s.last())
    }
}

/// `m` without the bindings to `a`.
pub open spec fn unbound(m: Map<Chord, Action>, a: Action) -> Map<Chord, Action> {
    Map::new(|c: Chord| m.contains_key(c) && m[c] != a, |c: Chord| m[c])
}

proof fn lemma_without_chord(s: Seq<(Chord, Action)>, c: Chord)
    ensures
        map_of(without_chord(s, c)) =~= map_of(s).remove(c),
        forall|x: (Chord, Action)| #[trigger] without_chord(s, c).contains(x) ==> s.contains(x) && x.0 != c,
        distinct_chords(s) ==> distinct_chords(without_chord(s, c)),
    decreases s.len(),
{
    if s.len() > 0 {
        let init = s.drop_last();
        lemma_without_chord(init, c);
        let w = without_chord(init, c);
        if s.last().0 == c {
            assert(map_of(s) == map_of(init).insert(c, s.last().1));
            assert(map_of(without_chord(s, c)) =~= map_of(s).remove(c));
        } else {
            assert(w.push(s.last()).drop_last() =~= w);
            assert(map_of(without_chord(s, c)) == map_of(w).insert(s.last().0, s.last().1));
            assert(map_of(without_chord(s, c)) =~= map_of(s).remove(c));
        }
        assert forall|x: (Chord, Action)| without_chord(s, c).contains(x) implies s.contains(x) && x.0 != c by {
            let ws = without_chord(s, c);
            let j = choose|j: int| 0 <= j < ws.len() && ws[j] == x;
            if j < w.len() {
                assert(w[j] == x);
                assert(w.contains(x));
                let k = choose|k: int| 0 <= k < init.len() && init[k] == x;
                assert(s[k] == x);
            } else {
                assert(x == s.last());
                assert(s[s.len() - 1] == x);
            }
        }
        if distinct_chords(s) {
            assert(distinct_chords(init)) by {
                assert forall|i: int, j: int| 0 <= i < j < init.len() implies init[i].0 != init[j].0 by {
                    assert(s[i] == init[i] && s[j] == init[j]);
                }
            }
            if s.last().0 != c {
                let w = without_chord(init, c);
                assert forall|i: int, j: int| 0 <= i < j < w.push(s.last()).len() implies w.push(
                    s.last(),
                )[i].0 != w.push(s.last())[j].0 by {
                    if j == w.len() {
                        assert(w.contains(w[i]));
                        let k = choose|k: int| 0 <= k < init.len() && init[k] == w[i];
                        assert(s[k] == w[i]);
                    }
                }
            }
        }
    }
}

proof fn lemma_without_action(s: Seq<(Chord, Action)>, a: Action)
    requires
        distinct_chords(s),
    ensures
        map_of(without_action(s, a)) =~= unbound(map_of(s), a),
        forall|x: (Chord, Action)| #[trigger] without_action(s, a).contains(x) ==> s.contains(x),
        distinct_chords(without_action(s, a)),
    decreases s.len(),
{
    if s.len() > 0 {
        let init = s.drop_last();
        assert(distinct_chords(init)) by {
            assert forall|i: int, j: int| 0 <= i < j < init.len() implies init[i].0 != init[j].0 by {
                assert(s[i] == init[i] && s[j] == init[j]);
            }
        }
        lemma_without_action(init, a);
        lemma_map_of_keys(init);
        let last = s.last();
        assert(!map_of(init).contains_key(last.0)) by {
            if map_of(init).contains_key(last.0) {
                let k = choose|k: int| 0 <= k < init.len() && init[k].0 == last.0;
                assert(s[k].0 == s[s.len() - 1].0);
            }
        }
        let wa = without_action(init, a);
        if last.1 == a {
            assert(map_of(without_action(s, a)) =~= unbound(map_of(s), a));
        } else {
            assert(wa.push(last).drop_last() =~= wa);
            assert(map_of(without_action(s, a)) == map_of(wa).insert(last.0, last.1));
            assert(map_of(without_action(s, a)) =~= unbound(map_of(s), a));
        }
        assert forall|x: (Chord, Action)| without_action(s, a).contains(x) implies s.contains(x) by {
            let ws = without_action(s, a);
            let j = choose|j: int| 0 <= j < ws.len() && ws[j] == x;
            if j < wa.len() {
                assert(wa[j] == x);
                assert(wa.contains(x));
                let k = choose|k: int| 0 <= k < init.len() && init[k] == x;
                assert(s[k] == x);
            } else {
                assert(s[s.len() - 1] == x);
            }
        }
        if last.1 != a {
            let w = without_action(init, a);
            assert forall|i: int, j: int| 0 <= i < j < w.push(last).len() implies w.push(last)[i].0
                != w.push(last)[j].0 by {
                if j == w.len() {
                    assert(w.contains(w[i]));
                    let k = choose|k: int| 0 <= k < init.len() && init[k] == w[i];
                    assert(s[k] == w[i]);
                    assert(s[s.len() - 1] == last);
                }
            }
        }
    }
}

/// A chord is bound exactly when some entry lists it.
proof fn lemma_map_of_keys(s: Seq<(Chord, Action)>)
    ensures
        forall|c: Chord| map_of(s).contains_key(c) <==> exists|k: int| 0 <= k < s.len() && s[k].0 == c,
    decreases s.len(),
{
    if s.len() > 0 {
        let init = s.drop_last();
        lemma_map_of_keys(init);
        assert forall|c: Chord| map_of(s).contains_key(c) <==> exists|k: int| 0 <= k < s.len() && s[k].0 == c by {
            if exists|k: int| 0 <= k < s.len() && s[k].0 == c {
                let k = choose|k: int| 0 <= k < s.len() && s[k].0 == c;
                if k < init.len() {
                    assert(init[k].0 == c);
                }
            }
            if map_of(init).contains_key(c) {
                let k = choose|k: int| 0 <= k < init.len() && init[k].0 == c;
                assert(s[k].0 == c);
            }
        }
    }
}

/// With distinct chords, a listed chord is bound to its entry's action.
proof fn lemma_map_of_entry(s: Seq<(Chord, Action)>, k: int)
    requires
        distinct_chords(s),
        0 <= k < s.len(),
    ensures
        map_of(s).contains_key(s[k].0),
        map_of(s)[s[k].0] == s[k].1,
    decreases s.len(),
{
    let init = s.drop_last();
    if k < s.len() - 1 {
        assert(distinct_chords(init)) by {
            assert forall|i: int, j: int| 0 <= i < j < init.len() implies init[i].0 != init[j].0 by {
                assert(s[i] == init[i] && s[j] == init[j]);
            }
        }
        assert(init[k] == s[k]);
        lemma_map_of_entry(init, k);
        assert(s[k].0 != s.last().0);
    }
}

/// The resolved keybindings.
pub struct Keymap {
    bindings: Vec<(Chord, Action)>,
}

impl View for Keymap {
    type V = Map<Chord, Action>;

    closed spec fn view(&self) -> Map<Chord, Action> {
        map_of(self.bindings@)
    }
}

impl Keymap {
    #[verifier::type_invariant]
    closed spec fn wf(&self) -> bool {
        distinct_chords(self.bindings@)
    }

    /// The action bound to `code` held with `mods`, if any.
    pub fn action(&self, code: Key, mods: KeyMods) -> (r: Option<Action>)
        ensures
            r == if self@.contains_key(chord(code, mods)) {
                Some(self@[chord(code, mods)])
            } else {
                None
            },
    {
        proof {
            use_type_invariant(self);
            lemma_map_of_keys(self.bindings@);
        }
        let c = Chord::new(code, mods);
        let mut i: usize = 0;
        while i < self.bindings.len()
            invariant
                i <= self.bindings@.len(),
                distinct_chords(self.bindings@),
                c == chord(code, mods),
                forall|k: int| 0 <= k < i ==> self.bindings@[k].0 != c,
            decreases self.bindings.len() - i,
        {
            if self.bindings[i].0 == c {
                proof {
                    lemma_map_of_entry(self.bindings@, i as int);
                    assert(self.bindings@[i as int].0 == c);
                    assert(c == chord(code, mods));
                }
                return Some(self.bindings[i].1);
            }
            i = i + 1;
        }
        None
    }
}

/// Binds `c` to `a`, replacing any binding of `c`.
fn bind(v: &mut Vec<(Chord, Action)>, c: Chord, a: Action)
    requires
        distinct_chords(old(v)@),
    ensures
        distinct_chords(final(v)@),
        map_of(final(v)@) =~= map_of(old(v)@).insert(c, a),
{
    let mut w: Vec<(Chord, Action)> = Vec::new();
    let mut i: usize = 0;
    while i < v.len()
        invariant
            i <= v@.len(),
            w@ == without_chord(v@.take(i as int), c),
        decreases v.len() - i,
    {
        assert(v@.take(i + 1).drop_last() =~= v@.take(i as int));
        if v[i].0 != c {
            w.push(v[i]);
        }
        i = i + 1;
    }
    assert(v@.take(i as int) =~= v@);
    proof {
        lemma_without_chord(v@, c);
    }
    let ghost kept = w@;
    assert(kept == without_chord(v@, c));
    w.push((c, a));
    proof {
        assert(w@.drop_last() =~= kept);
        assert forall|i: int, j: int| 0 <= i < j < w@.len() implies w@[i].0 != w@[j].0 by {
            if j == kept.len() {
                assert(kept.contains(kept[i]));
            }
        }
    }
    *v = w;
}

/// Drops every binding to `a`.
fn unbind(v: &mut Vec<(Chord, Action)>, a: Action)
    requires
        distinct_chords(old(v)@),
    ensures
        distinct_chords(final(v)@),
        map_of(final(v)@) =~= unbound(map_of(old(v)@), a),
{
    let mut w: Vec<(Chord, Action)> = Vec::new();
    let mut i: usize = 0;
    while i < v.len()
        invariant
            i <= v@.len(),
            w@ == without_action(v@.take(i as int), a),
        decreases v.len() - i,
    {
        assert(v@.take(i + 1).drop_last() =~= v@.take(i as int));
        if v[i].1 != a {
            w.push(v[i]);
        }
        i = i + 1;
    }
    assert(v@.take(i as int) =~= v@);
    proof {
        lemma_without_action(v@, a);
    }
    *v = w;
}

// ---------------------------------------------------------------------------
// Building the keymap from defaults and config overrides.
// ---------------------------------------------------------------------------

/// The default bindings, in order.
pub open spec fn default_table() -> Seq<(Seq<char>, Action)> {
    seq![
        ("q"@, Action::Quit),
        ("ctrl-c"@, Action::Quit),
        ("?"@, Action::Help),
        ("r"@, Action::Refresh),
        ("tab"@, Action::SwitchPane),
        ("backtab"@, Action::SwitchPane),
        ("d"@, Action::ToggleDiffMode),
        ("b"@, Action::ToggleChanges),
        ("i"@, Action::ToggleHistory),
        ("1"@, Action::ShowStatus),
        ("2"@, Action::ShowHistory),
        ("j"@, Action::Down),
        ("down"@, Action::Down),
        ("k"@, Action::Up),
        ("up"@, Action::Up),
        ("g"@, Action::Top),
        ("home"@, Action::Top),
        ("G"@, Action::Bottom),
        ("end"@, Action::Bottom),
        ("ctrl-d"@, Action::HalfPageDown),
        ("ctrl-u"@, Action::HalfPageUp),
        ("h"@, Action::FocusStaging),
        ("left"@, Action::FocusStaging),
        ("l"@, Action::FocusDiff),
        ("right"@, Action::FocusDiff),
        ("space"@, Action::ToggleStage),
        ("enter"@, Action::ToggleStage),
        ("s"@, Action::Stage),
        ("u"@, Action::Unstage),
        ("x"@, Action::Discard),
    ]
}

fn defaults() -> (t: Vec<(&'static str, Action)>)
    ensures
        t@.len() == default_table().len(),
        forall|i: int| 0 <= i < t@.len() ==> (#[trigger] t@[i]).0@ == default_table()[i].0 && t@[i].1
            == default_table()[i].1,
{
    let t = vec![
        ("q", Action::Quit),
        ("ctrl-c", Action::Quit),
        ("?", Action::Help),
        ("r", Action::Refresh),
        ("tab", Action::SwitchPane),
        ("backtab", Action::SwitchPane),
        ("d", Action::ToggleDiffMode),
        ("b", Action::ToggleChanges),
        ("i", Action::ToggleHistory),
        ("1", Action::ShowStatus),
        ("2", Action::ShowHistory),
        ("j", Action::Down),
        ("down", Action::Down),
        ("k", Action::Up),
        ("up", Action::Up),
        ("g", Action::Top),
        ("home", Action::Top),
        ("G", Action::Bottom),
        ("end", Action::Bottom),
        ("ctrl-d", Action::HalfPageDown),
        ("ctrl-u", Action::HalfPageUp),
        ("h", Action::FocusStaging),
        ("left", Action::FocusStaging),
        ("l", Action::FocusDiff),
        ("right", Action::FocusDiff),
        ("space", Action::ToggleStage),
        ("enter", Action::ToggleStage),
        ("s", Action::Stage),
        ("u", Action::Unstage),
        ("x", Action::Discard),
    ];
    assert(t@.map_values(|p: (&str, Action)| (p.0@, p.1)) =~= default_table());
    proof {
        assert forall|i: int| 0 <= i < t@.len() implies (#[trigger] t@[i]).0@ == default_table()[i].0
            && t@[i].1 == default_table()[i].1 by {
            assert(t@.map_values(|p: (&str, Action)| (p.0@, p.1))[i] == (t@[i].0@, t@[i].1));
        }
    }
    t
}

/// The name each action goes by in the config file's `[keys]` table.
pub open spec fn action_config_name(a: Action) -> Seq<char> {
    match a {
        Action::Quit => seq!['q', 'u', 'i', 't'],
        Action::Help => seq!['h', 'e', 'l', 'p'],
        Action::Refresh => seq!['r', 'e', 'f', 'r', 'e', 's', 'h'],
        Action::SwitchPane => seq!['s', 'w', 'i', 't', 'c', 'h', '-', 'p', 'a', 'n', 'e'],
        Action::ToggleDiffMode => seq!['t', 'o', 'g', 'g', 'l', 'e', '-', 'd', 'i', 'f', 'f', '-', 'm', 'o', 'd', 'e'],
        Action::ToggleChanges => seq!['t', 'o', 'g', 'g', 'l', 'e', '-', 'c', 'h', 'a', 'n', 'g', 'e', 's'],
        Action::ToggleHistory => seq!['t', 'o', 'g', 'g', 'l', 'e', '-', 'h', 'i', 's', 't', 'o', 'r', 'y'],
        Action::ShowStatus => seq!['s', 't', 'a', 't', 'u', 's', '-', 'v', 'i', 'e', 'w'],
        Action::ShowHistory => seq!['h', 'i', 's', 't', 'o', 'r', 'y', '-', 'v', 'i', 'e', 'w'],
        Action::Down => seq!['d', 'o', 'w', 'n'],
        Action::Up => seq!['u', 'p'],
        Action::Top => seq!['t', 'o', 'p'],
        Action::Bottom => seq!['b', 'o', 't', 't', 'o', 'm'],
        Action::HalfPageDown => seq!['h', 'a', 'l', 'f', '-', 'p', 'a', 'g', 'e', '-', 'd', 'o', 'w', 'n'],
        Action::HalfPageUp => seq!['h', 'a', 'l', 'f', '-', 'p', 'a', 'g', 'e', '-', 'u', 'p'],
        Action::FocusStaging => seq!['f', 'o', 'c', 'u', 's', '-', 's', 't', 'a', 'g', 'i', 'n', 'g'],
        Action::FocusDiff => seq!['f', 'o', 'c', 'u', 's', '-', 'd', 'i', 'f', 'f'],
        Action::ToggleStage => seq!['t', 'o', 'g', 'g', 'l', 'e', '-', 's', 't', 'a', 'g', 'e'],
        Action::Stage => seq!['s', 't', 'a', 'g', 'e'],
        Action::Unstage => seq!['u', 'n', 's', 't', 'a', 'g', 'e'],
        Action::Discard => seq!['d', 'i', 's', 'c', 'a', 'r', 'd'],
    }
}

/// Every action's config name names that action, so each action can be
/// rebound from the config file.
pub proof fn lemma_action_names_round_trip(a: Action)
    ensures
        action_named(action_config_name(a)) == Some(a),
{
    reveal_strlit("quit");
    reveal_strlit("help");
    reveal_strlit("refresh");
    reveal_strlit("switch-pane");
    reveal_strlit("toggle-diff-mode");
    reveal_strlit("diff-mode");
    reveal_strlit("split");
    reveal_strlit("toggle-changes");
    reveal_strlit("toggle-history");
    reveal_strlit("history");
    reveal_strlit("status-view");
    reveal_strlit("history-view");
    reveal_strlit("down");
    reveal_strlit("next-file");
    reveal_strlit("scroll-down");
    reveal_strlit("up");
    reveal_strlit("prev-file");
    reveal_strlit("scroll-up");
    reveal_strlit("top");
    reveal_strlit("bottom");
    reveal_strlit("half-page-down");
    reveal_strlit("half-page-up");
    reveal_strlit("focus-staging");
    reveal_strlit("focus-diff");
    reveal_strlit("toggle-stage");
    reveal_strlit("stage");
    reveal_strlit("unstage");
    reveal_strlit("discard");
    match a {
        Action::Quit => {
            assert(action_config_name(a) =~= "quit"@);
        },
        Action::Help => {
            assert(action_config_name(a) =~= "help"@);
        },
        Action::Refresh => {
            assert(action_config_name(a) =~= "refresh"@);
        },
        Action::SwitchPane => {
            assert(action_config_name(a) =~= "switch-pane"@);
        },
        Action::ToggleDiffMode => {
            assert(action_config_name(a) =~= "toggle-diff-mode"@);
        },
        Action::ToggleChanges => {
            assert(action_config_name(a) =~= "toggle-changes"@);
        },
        Action::ToggleHistory => {
            assert(action_config_name(a) =~= "toggle-history"@);
        },
        Action::ShowStatus => {
            assert(action_config_name(a) =~= "status-view"@);
        },
        Action::ShowHistory => {
            assert(action_config_name(a) =~= "history-view"@);
        },
        Action::Down => {
            assert(action_config_name(a) =~= "down"@);
        },
        Action::Up => {
            assert(action_config_name(a) =~= "up"@);
        },
        Action::Top => {
            assert(action_config_name(a) =~= "top"@);
        },
        Action::Bottom => {
            assert(action_config_name(a) =~= "bottom"@);
        },
        Action::HalfPageDown => {
            assert(action_config_name(a) =~= "half-page-down"@);
        },
        Action::HalfPageUp => {
            assert(action_config_name(a) =~= "half-page-up"@);
        },
        Action::FocusStaging => {
            assert(action_config_name(a) =~= "focus-staging"@);
        },
        Action::FocusDiff => {
            assert(action_config_name(a) =~= "focus-diff"@);
        },
        Action::ToggleStage => {
            assert(action_config_name(a) =~= "toggle-stage"@);
        },
        Action::Stage => {
            assert(action_config_name(a) =~= "stage"@);
        },
        Action::Unstage => {
            assert(action_config_name(a) =~= "unstage"@);
        },
        Action::Discard => {
            assert(action_config_name(a) =~= "discard"@);
        },
    }
}

/// The action a config name names.
pub open spec fn action_named(name: Seq<char>) -> Option<Action> {
    if name == "quit"@ {
        Some(Action::Quit)
    } else if name == "help"@ {
        Some(Action::Help)
    } else if name == "refresh"@ {
        Some(Action::Refresh)
    } else if name == "switch-pane"@ {
        Some(Action::SwitchPane)
    } else if name == "toggle-diff-mode"@ || name == "diff-mode"@ || name == "split"@ {
        Some(Action::ToggleDiffMode)
    } else if name == "toggle-changes"@ {
        Some(Action::ToggleChanges)
    } else if name == "toggle-history"@ || name == "history"@ {
        Some(Action::ToggleHistory)
    } else if name == "status-view"@ {
        Some(Action::ShowStatus)
    } else if name == "history-view"@ {
        Some(Action::ShowHistory)
    } else if name == "down"@ || name == "next-file"@ || name == "scroll-down"@ {
        Some(Action::Down)
    } else if name == "up"@ || name == "prev-file"@ || name == "scroll-up"@ {
        Some(Action::Up)
    } else if name == "top"@ {
        Some(Action::Top)
    } else if name == "bottom"@ {
        Some(Action::Bottom)
    } else if name == "half-page-down"@ {
        Some(Action::HalfPageDown)
    } else if name == "half-page-up"@ {
        Some(Action::HalfPageUp)
    } else if name == "focus-staging"@ {
        Some(Action::FocusStaging)
    } else if name == "focus-diff"@ {
        Some(Action::FocusDiff)
    } else if name == "toggle-stage"@ {
        Some(Action::ToggleStage)
    } else if name == "stage"@ {
        Some(Action::Stage)
    } else if name == "unstage"@ {
        Some(Action::Unstage)
    } else if name == "discard"@ {
        Some(Action::Discard)
    } else {
        None
    }
}

/// Parses an action's config name.
pub fn parse_action(name: &str) -> (r: Option<Action>)
    ensures
        r == action_named(name@),
{
    if str_eq(name, "quit") {
        Some(Action::Quit)
    } else if str_eq(name, "help") {
        Some(Action::Help)
    } else if str_eq(name, "refresh") {
        Some(Action::Refresh)
    } else if str_eq(name, "switch-pane") {
        Some(Action::SwitchPane)
    } else if str_eq(name, "toggle-diff-mode") || str_eq(name, "diff-mode") || str_eq(name, "split") {
        Some(Action::ToggleDiffMode)
    } else if str_eq(name, "toggle-changes") {
        Some(Action::ToggleChanges)
    } else if str_eq(name, "toggle-history") || str_eq(name, "history") {
        Some(Action::ToggleHistory)
    } else if str_eq(name, "status-view") {
        Some(Action::ShowStatus)
    } else if str_eq(name, "history-view") {
        Some(Action::ShowHistory)
    } else if str_eq(name, "down") || str_eq(name, "next-file") || str_eq(name, "scroll-down") {
        Some(Action::Down)
    } else if str_eq(name, "up") || str_eq(name, "prev-file") || str_eq(name, "scroll-up") {
        Some(Action::Up)
    } else if str_eq(name, "top") {
        Some(Action::Top)
    } else if str_eq(name, "bottom") {
        Some(Action::Bottom)
    } else if str_eq(name, "half-page-down") {
        Some(Action::HalfPageDown)
    } else if str_eq(name, "half-page-up") {
        Some(Action::HalfPageUp)
    } else if str_eq(name, "focus-staging") {
        Some(Action::FocusStaging)
    } else if str_eq(name, "focus-diff") {
        Some(Action::FocusDiff)
    } else if str_eq(name, "toggle-stage") {
        Some(Action::ToggleStage)
    } else if str_eq(name, "stage") {
        Some(Action::Stage)
    } else if str_eq(name, "unstage") {
        Some(Action::Unstage)
    } else if str_eq(name, "discard") {
        Some(Action::Discard)
    } else {
        None
    }
}

/// `m` with each entry of `t` whose chord parses bound to its action, in
/// order.
pub open spec fn bind_table(m: Map<Chord, Action>, t: Seq<(Seq<char>, Action)>) -> Map<Chord, Action>
    decreases t.len(),
{
    if t.len() == 0 {
        m
    } else {
        let prev = bind_table(m, t.drop_last());
        match chord_of(t.last().0) {
            Some(c) => prev.insert(c, t.last().1),
            None => prev,
        }
    }
}

/// `m` with each of `chords` that parses bound to `a`, in order.
pub open spec fn bind_chords(m: Map<Chord, Action>, chords: Seq<Seq<char>>, a: Action) -> Map<Chord, Action>
    decreases chords.len(),
{
    if chords.len() == 0 {
        m
    } else {
        let prev = bind_chords(m, chords.drop_last(), a);
        match chord_of(chords.last()) {
            Some(c) => prev.insert(c, a),
            None => prev,
        }
    }
}

/// One config override: a known action's chords replace all of its
/// bindings; an unknown action name is ignored.
pub open spec fn apply_override(m: Map<Chord, Action>, name: Seq<char>, chords: Seq<Seq<char>>) -> Map<Chord, Action> {
    match action_named(name) {
        Some(a) => bind_chords(unbound(m, a), chords, a),
        None => m,
    }
}

/// `m` with the overrides applied in order.
pub open spec fn apply_overrides(m: Map<Chord, Action>, ovs: Seq<(Seq<char>, Seq<Seq<char>>)>) -> Map<Chord, Action>
    decreases ovs.len(),
{
    if ovs.len() == 0 {
        m
    } else {
        let prev = apply_overrides(m, ovs.drop_last());
        apply_override(prev, ovs.last().0, ovs.last().1)
    }
}

/// The default keymap.
pub open spec fn default_map() -> Map<Chord, Action> {
    bind_table(Map::empty(), default_table())
}

/// The config overrides as names and chord texts.
pub open spec fn overrides_view(o: Seq<(String, Vec<String>)>) -> Seq<(Seq<char>, Seq<Seq<char>>)> {
    o.map_values(|p: (String, Vec<String>)| (p.0@, p.1@.map_values(|s: String| s@)))
}

/// The keymap for the given overrides: the defaults, then each override.
pub open spec fn configured(ovs: Option<Seq<(Seq<char>, Seq<Seq<char>>)>>) -> Map<Chord, Action> {
    match ovs {
        Some(o) => apply_overrides(default_map(), o),
        None => default_map(),
    }
}

impl Keymap {
    /// Builds the keymap from the defaults and the config's overrides, in
    /// the order given: an action listed there has its default chords
    /// replaced; actions not listed keep theirs. Unknown actions and chords
    /// that do not parse are skipped.
    pub fn from_config(overrides: Option<&Vec<(String, Vec<String>)>>) -> (km: Keymap)
        ensures
            km@ == configured(match overrides {
                Some(o) => Some(overrides_view(o@)),
                None => None::<Seq<(Seq<char>, Seq<Seq<char>>)>>,
            }),
    {
        let mut v: Vec<(Chord, Action)> = Vec::new();
        let t = defaults();
        let mut i: usize = 0;
        while i < t.len()
            invariant
                i <= t@.len() == default_table().len(),
                forall|k: int| 0 <= k < t@.len() ==> (#[trigger] t@[k]).0@ == default_table()[k].0 && t@[k].1
                    == default_table()[k].1,
                distinct_chords(v@),
                map_of(v@) == bind_table(Map::empty(), default_table().take(i as int)),
            decreases t.len() - i,
        {
            assert(default_table().take(i + 1).drop_last() =~= default_table().take(i as int));
            assert(default_table().take(i + 1).last() == default_table()[i as int]);
            let (text, action) = t[i];
            match parse_chord(text) {
                Some(c) => bind(&mut v, c, action),
                None => {},
            }
            i = i + 1;
        }
        assert(default_table().take(i as int) =~= default_table());
        match overrides {
            Some(o) => {
                let ghost ov = overrides_view(o@);
                let mut j: usize = 0;
                while j < o.len()
                    invariant
                        j <= o@.len(),
                        ov == overrides_view(o@),
                        distinct_chords(v@),
                        map_of(v@) == apply_overrides(default_map(), ov.take(j as int)),
                    decreases o.len() - j,
                {
                    assert(ov.take(j + 1).drop_last() =~= ov.take(j as int));
                    assert(ov.take(j + 1).last() == ov[j as int]);
                    let name = &o[j].0;
                    let chords = &o[j].1;
                    let ghost cv = chords@.map_values(|s: String| s@);
                    assert(ov[j as int] == (name@, cv));
                    match parse_action(name.as_str()) {
                        Some(a) => {
                            let ghost start = map_of(v@);
                            unbind(&mut v, a);
                            let mut k: usize = 0;
                            while k < chords.len()
                                invariant
                                    k <= chords@.len(),
                                    cv == chords@.map_values(|s: String| s@),
                                    distinct_chords(v@),
                                    map_of(v@) == bind_chords(unbound(start, a), cv.take(k as int), a),
                                decreases chords.len() - k,
                            {
                                assert(cv.take(k + 1).drop_last() =~= cv.take(k as int));
                                assert(cv.take(k + 1).last() == chords@[k as int]@);
                                match parse_chord(chords[k].as_str()) {
                                    Some(c) => bind(&mut v, c, a),
                                    None => {},
                                }
                                k = k + 1;
                            }
                            assert(cv.take(k as int) =~= cv);
                        },
                        None => {},
                    }
                    j = j + 1;
                }
                assert(ov.take(j as int) =~= ov);
            },
            None => {},
        }
        Keymap { bindings: v }
    }
}

impl Default for Keymap {
    fn default() -> (km: Keymap)
        ensures
            km@ == default_map(),
    {
        Keymap::from_config(None)
    }
}

// ---------------------------------------------------------------------------
// Laws of the overrides.
// ---------------------------------------------------------------------------

/// Binding chords to `a` only adds bindings to `a`: a chord keeps its
/// binding unless one of the chords parses to it.
proof fn lemma_bind_chords(m: Map<Chord, Action>, chords: Seq<Seq<char>>, a: Action, c: Chord)
    ensures
        bind_chords(m, chords, a).contains_key(c) ==> (m.contains_key(c) || exists|k: int|
            0 <= k < chords.len() && chord_of(#[trigger] chords[k]) == Some(c)),
        bind_chords(m, chords, a).contains_key(c) && bind_chords(m, chords, a)[c] != a ==> m.contains_key(c)
            && m[c] == bind_chords(m, chords, a)[c],
        (forall|k: int| 0 <= k < chords.len() ==> chord_of(#[trigger] chords[k]) != Some(c)) ==> (
        bind_chords(m, chords, a).contains_key(c) == m.contains_key(c) && (m.contains_key(c)
            ==> bind_chords(m, chords, a)[c] == m[c])),
        (exists|k: int| 0 <= k < chords.len() && chord_of(#[trigger] chords[k]) == Some(c)) ==> (
        bind_chords(m, chords, a).contains_key(c) && bind_chords(m, chords, a)[c] == a),
    decreases chords.len(),
{
    if chords.len() > 0 {
        let init = chords.drop_last();
        lemma_bind_chords(m, init, a, c);
        if exists|k: int| 0 <= k < chords.len() && chord_of(#[trigger] chords[k]) == Some(c) {
            let k = choose|k: int| 0 <= k < chords.len() && chord_of(#[trigger] chords[k]) == Some(c);
            if k < init.len() {
                assert(chord_of(init[k]) == Some(c));
            }
        }
        if forall|k: int| 0 <= k < chords.len() ==> chord_of(#[trigger] chords[k]) != Some(c) {
            assert forall|k: int| 0 <= k < init.len() implies chord_of(#[trigger] init[k]) != Some(c) by {
                assert(init[k] == chords[k]);
            }
        }
        if bind_chords(m, init, a).contains_key(c) && exists|k: int|
            0 <= k < init.len() && chord_of(#[trigger] init[k]) == Some(c) {
            let k = choose|k: int| 0 <= k < init.len() && chord_of(#[trigger] init[k]) == Some(c);
            assert(chords[k] == init[k]);
        }
    }
}

/// An override replaces its action's chords: afterwards a chord is bound to
/// that action exactly when one of the override's chords parses to it,
/// while a chord bound to another action keeps that binding unless the
/// override takes it over.
pub proof fn lemma_override_replaces(m: Map<Chord, Action>, name: Seq<char>, chords: Seq<Seq<char>>, c: Chord)
    requires
        action_named(name) is Some,
    ensures
        ({
            let a = action_named(name)->0;
            let after = apply_override(m, name, chords);
            &&& (after.contains_key(c) && after[c] == a) <==> exists|k: int|
                0 <= k < chords.len() && chord_of(#[trigger] chords[k]) == Some(c)
            &&& (m.contains_key(c) && m[c] != a && forall|k: int|
                0 <= k < chords.len() ==> chord_of(#[trigger] chords[k]) != Some(c)) ==> after.contains_key(c)
                && after[c] == m[c]
        }),
{
    let a = action_named(name)->0;
    lemma_bind_chords(unbound(m, a), chords, a, c);
}

/// An unknown action's override changes nothing.
pub proof fn lemma_unknown_override(m: Map<Chord, Action>, name: Seq<char>, chords: Seq<Seq<char>>)
    requires
        action_named(name) is None,
    ensures
        apply_override(m, name, chords) == m,
{
}

} // verus!
