//! Parsing of `git status --porcelain=v2 --branch -z`.
//!
//! The v2 porcelain format is line-oriented with a leading type byte per
//! record; `-z` makes records NUL-terminated (so paths need no quoting) and
//! turns the rename `<path>\t<orig>` separator into a NUL — meaning a rename
//! record consumes *two* NUL-delimited fields.
//!
//! The parser walks the raw bytes. Every separator it looks for (NUL, space,
//! the `# branch.*` prefixes) is ASCII, so cutting the bytes first and decoding
//! each piece lossily gives the same text as decoding the whole field first.

use vstd::prelude::*;
use crate::text::{decoded, lossy_range, chars_of, push_chars};
use vstd::string::StringSliceAdditionalSpecFns;

verus! {

/// The kind of change to a file, taken from a porcelain v2 XY status code.
#[derive(Clone, Copy, Debug, PartialEq, Eq, Structural)]
pub enum Change {
    Added,
    Modified,
    Deleted,
    Renamed,
    Copied,
    TypeChange,
    Untracked,
    Conflicted,
}

impl Change {
    /// The marker character of each change kind.
    pub open spec fn marker_of(self) -> char {
        match self {
            Change::Added => 'A',
            Change::Modified => 'M',
            Change::Deleted => 'D',
            Change::Renamed => 'R',
            Change::Copied => 'C',
            Change::TypeChange => 'T',
            Change::Untracked => '?',
            Change::Conflicted => 'U',
        }
    }

    /// The single-character marker shown next to the file.
    pub fn marker(self) -> (c: char)
        ensures
            c == self.marker_of(),
    {
        match self {
            Change::Added => 'A',
            Change::Modified => 'M',
            Change::Deleted => 'D',
            Change::Renamed => 'R',
            Change::Copied => 'C',
            Change::TypeChange => 'T',
            Change::Untracked => '?',
            Change::Conflicted => 'U',
        }
    }
}

/// Which section a file is shown under.
#[derive(Clone, Copy, Debug, PartialEq, Eq, Structural)]
pub enum Section {
    Staged,
    Unstaged,
}

/// A single changed file in one section.
#[derive(Clone, Debug, PartialEq, Eq)]
pub struct FileEntry {
    pub path: String,
    pub orig_path: Option<String>,
    pub change: Change,
}

/// The abstract value of a [`FileEntry`]: its texts as character sequences.
pub struct FileEntryView {
    pub path: Seq<char>,
    pub orig_path: Option<Seq<char>>,
    pub change: Change,
}

/// The characters of an optional string.
pub open spec fn opt_view(s: Option<String>) -> Option<Seq<char>> {
    match s {
        Some(t) => Some(t@),
        None => None,
    }
}

impl View for FileEntry {
    type V = FileEntryView;

    open spec fn view(&self) -> FileEntryView {
        FileEntryView { path: self.path@, orig_path: opt_view(self.orig_path), change: self.change }
    }
}

/// A clone of an optional string, with the same characters.
pub fn clone_opt(s: &Option<String>) -> (r: Option<String>)
    ensures
        opt_view(r) == opt_view(*s),
{
    match s {
        Some(t) => Some(t.clone()),
        None => None,
    }
}

/// `orig → path`: how a renamed file is labelled in the lists.
pub open spec fn arrow_label(orig: Seq<char>, path: Seq<char>) -> Seq<char> {
    orig + seq![' ', '→', ' '] + path
}

/// The label of a path, with `orig → path` when there is an original path.
pub open spec fn label_of(path: Seq<char>, orig: Option<Seq<char>>) -> Seq<char> {
    match orig {
        Some(o) => arrow_label(o, path),
        None => path,
    }
}

/// Builds `orig → path`.
pub fn arrow_string(orig: &String, path: &String) -> (s: String)
    ensures
        s@ == arrow_label(orig@, path@),
{
    let mut s = orig.clone();
    let sep: [char; 3] = [' ', '→', ' '];
    push_chars(&mut s, sep.as_slice());
    let pc = chars_of(path.as_str());
    push_chars(&mut s, pc.as_slice());
    assert(s@ =~= arrow_label(orig@, path@));
    s
}

impl FileEntry {
    /// How the file is labelled in the list (rename shows `orig → path`).
    pub fn display_path(&self) -> (s: String)
        ensures
            s@ == label_of(self.path@, opt_view(self.orig_path)),
    {
        match &self.orig_path {
            Some(orig) => arrow_string(orig, &self.path),
            None => self.path.clone(),
        }
    }
}

/// The repository status: the current branch plus the staged and unstaged
/// (including untracked) file lists.
#[derive(Clone, Debug)]
pub struct Status {
    pub branch: Option<String>,
    pub detached: bool,
    pub head_oid: Option<String>,
    pub staged: Vec<FileEntry>,
    pub unstaged: Vec<FileEntry>,
}

/// The abstract value of a [`Status`].
pub struct StatusView {
    pub branch: Option<Seq<char>>,
    pub detached: bool,
    pub head_oid: Option<Seq<char>>,
    pub staged: Seq<FileEntryView>,
    pub unstaged: Seq<FileEntryView>,
}

/// The abstract values of a list of entries.
pub open spec fn entries_view(v: Seq<FileEntry>) -> Seq<FileEntryView> {
    v.map_values(|e: FileEntry| e@)
}

impl View for Status {
    type V = StatusView;

    open spec fn view(&self) -> StatusView {
        StatusView {
            branch: opt_view(self.branch),
            detached: self.detached,
            head_oid: opt_view(self.head_oid),
            staged: entries_view(self.staged@),
            unstaged: entries_view(self.unstaged@),
        }
    }
}

/// The status of a repository with no branch information and no changes.
pub open spec fn empty_status() -> StatusView {
    StatusView { branch: None, detached: false, head_oid: None, staged: seq![], unstaged: seq![] }
}

impl Default for Status {
    fn default() -> (s: Status)
        ensures
            s@ == empty_status(),
    {
        let s = Status {
            branch: None,
            detached: false,
            head_oid: None,
            staged: Vec::new(),
            unstaged: Vec::new(),
        };
        assert(s@.staged =~= Seq::<FileEntryView>::empty());
        assert(s@.unstaged =~= Seq::<FileEntryView>::empty());
        s
    }
}

/// The characters of `detached @ <prefix>` for a detached HEAD.
pub open spec fn detached_prefix() -> Seq<char> {
    seq!['d', 'e', 't', 'a', 'c', 'h', 'e', 'd', ' ', '@', ' ']
}

/// The characters of `detached`.
pub open spec fn detached_word() -> Seq<char> {
    seq!['d', 'e', 't', 'a', 'c', 'h', 'e', 'd']
}

/// The byte count `head_label` keeps of a detached HEAD's oid.
pub open spec fn short_len(bytes: Seq<u8>) -> int {
    if bytes.len() < 8 {
        bytes.len() as int
    } else {
        8
    }
}

impl Status {
    /// Whether nothing is staged and nothing is changed.
    pub fn is_clean(&self) -> (b: bool)
        ensures
            b == (self.staged@.len() == 0 && self.unstaged@.len() == 0),
    {
        self.staged.len() == 0 && self.unstaged.len() == 0
    }

    /// The number of entries in both sections.
    pub fn total(&self) -> (n: usize)
        requires
            self.staged@.len() + self.unstaged@.len() <= usize::MAX,
        ensures
            n == self.staged@.len() + self.unstaged@.len(),
    {
        self.staged.len() + self.unstaged.len()
    }

    /// A short label for HEAD: the branch name, or `detached @ <short-oid>`
    /// (the oid's first eight bytes).
    pub fn head_label(&self) -> (r: Option<String>)
        requires
            self.branch is None && self.detached && self.head_oid is Some ==> {
                let b = vstd::utf8::encode_utf8(self.head_oid->0@);
                b.len() <= usize::MAX && vstd::utf8::is_char_boundary(b, short_len(b))
            },
        ensures
            match self.branch {
                Some(b) => r == Some(b),
                None => if self.detached {
                    r is Some && match self.head_oid {
                        Some(oid) => {
                            let b = vstd::utf8::encode_utf8(oid@);
                            r->0@ == detached_prefix() + vstd::utf8::decode_utf8(
                                b.subrange(0, short_len(b)),
                            )
                        },
                        None => r->0@ == detached_word(),
                    }
                } else {
                    r is None
                },
            },
    {
        if let Some(branch) = &self.branch {
            Some(branch.clone())
        } else if self.detached {
            match &self.head_oid {
                Some(oid) => {
                    let s = oid.as_str();
                    let k: usize = if s.len() < 8 {
                        s.len()
                    } else {
                        8
                    };
                    assert(s.spec_bytes() == vstd::utf8::encode_utf8(oid@));
                    assert(k == short_len(s.spec_bytes()));
                    let (head, _tail) = s.split_at(k);
                    let head_chars = chars_of(head);
                    proof {
                        vstd::utf8::encode_utf8_decode_utf8(head@);
                        assert(head.spec_bytes() == vstd::utf8::encode_utf8(head@));
                    }
                    let pre: [char; 11] = ['d', 'e', 't', 'a', 'c', 'h', 'e', 'd', ' ', '@', ' '];
                    let mut out = String::new();
                    push_chars(&mut out, pre.as_slice());
                    push_chars(&mut out, head_chars.as_slice());
                    assert(out@ =~= detached_prefix() + vstd::utf8::decode_utf8(
                        s.spec_bytes().subrange(0, short_len(s.spec_bytes())),
                    ));
                    Some(out)
                },
                None => {
                    let w: [char; 8] = ['d', 'e', 't', 'a', 'c', 'h', 'e', 'd'];
                    let mut out = String::new();
                    push_chars(&mut out, w.as_slice());
                    assert(out@ =~= detached_word());
                    Some(out)
                },
            }
        } else {
            None
        }
    }
}

// ---------------------------------------------------------------------------
// The byte-level model of the porcelain stream.
// ---------------------------------------------------------------------------

/// The index of the first `c` at or after `from`, or the length when none.
pub open spec fn next_of(b: Seq<u8>, from: int, c: u8) -> int
    decreases b.len() - from,
{
    if from >= b.len() {
        b.len() as int
    } else if b[from] == c {
        from
    } else {
        next_of(b, from + 1, c)
    }
}

/// `next_of` lands between its start and the end.
pub proof fn lemma_next_of_bounds(b: Seq<u8>, from: int, c: u8)
    requires
        0 <= from,
    ensures
        from <= b.len() ==> from <= next_of(b, from, c) <= b.len(),
        from > b.len() ==> next_of(b, from, c) == b.len(),
        next_of(b, from, c) < b.len() ==> b[next_of(b, from, c)] == c,
        forall|i: int| from <= i < next_of(b, from, c) ==> b[i] != c,
    decreases b.len() - from,
{
    if from < b.len() && b[from] != c {
        lemma_next_of_bounds(b, from + 1, c);
    }
}

/// Finds the first `c` at or after `from` (the length when there is none).
pub fn find_byte(b: &[u8], from: usize, c: u8) -> (e: usize)
    requires
        from <= b@.len(),
    ensures
        e as int == next_of(b@, from as int, c),
        from <= e <= b@.len(),
{
    let mut i: usize = from;
    while i < b.len() && b[i] != c
        invariant
            from <= i <= b@.len(),
            next_of(b@, i as int, c) == next_of(b@, from as int, c),
        decreases b.len() - i,
    {
        i = i + 1;
    }
    proof {
        lemma_next_of_bounds(b@, from as int, c);
    }
    i
}

/// The position just after the `n`-th space counted from `from`, if there
/// are that many spaces.
pub open spec fn after_spaces(b: Seq<u8>, from: int, n: nat) -> Option<int>
    decreases n,
{
    if n == 0 {
        Some(from)
    } else {
        let s = next_of(b, from, 0x20);
        if s >= b.len() {
            None
        } else {
            after_spaces(b, s + 1, (n - 1) as nat)
        }
    }
}

/// The text after `leading` space-separated tokens — the file path, which
/// may itself contain spaces — or the empty text when there are fewer.
pub open spec fn path_after(raw: Seq<u8>, leading: nat) -> Seq<char> {
    match after_spaces(raw, 0, leading) {
        Some(p) => decoded(raw.subrange(p, raw.len() as int)),
        None => seq![],
    }
}

fn path_after_exec(raw: &[u8], leading: usize) -> (s: String)
    ensures
        s@ == path_after(raw@, leading as nat),
{
    let mut p: usize = 0;
    let mut k: usize = 0;
    while k < leading
        invariant
            k <= leading,
            p <= raw@.len(),
            after_spaces(raw@, 0, leading as nat) == after_spaces(raw@, p as int, (leading - k) as nat),
        decreases leading - k,
    {
        let s = find_byte(raw, p, 0x20);
        if s >= raw.len() {
            return String::new();
        }
        p = s + 1;
        k = k + 1;
    }
    lossy_range(raw, p, raw.len())
}

/// The second space-separated token of a record (the XY code), if any.
pub open spec fn xy_token(raw: Seq<u8>) -> Option<Seq<u8>> {
    let s1 = next_of(raw, 0, 0x20);
    if s1 >= raw.len() {
        None
    } else {
        Some(raw.subrange(s1 + 1, next_of(raw, s1 + 1, 0x20)))
    }
}

/// The `i`-th character of a text, or `.` when it is shorter.
pub open spec fn char_or_dot(cs: Seq<char>, i: int) -> char {
    if i < cs.len() {
        cs[i]
    } else {
        '.'
    }
}

/// The X and Y status codes of a record: the first two characters of its
/// second token, `.` where missing.
pub open spec fn xy_codes(raw: Seq<u8>) -> (char, char) {
    match xy_token(raw) {
        Some(t) => (char_or_dot(decoded(t), 0), char_or_dot(decoded(t), 1)),
        None => ('.', '.'),
    }
}

fn xy_codes_exec(raw: &[u8]) -> (r: (char, char))
    ensures
        r == xy_codes(raw@),
{
    let s1 = find_byte(raw, 0, 0x20);
    if s1 >= raw.len() {
        return ('.', '.');
    }
    let s2 = find_byte(raw, s1 + 1, 0x20);
    let token = lossy_range(raw, s1 + 1, s2);
    let cs = chars_of(token.as_str());
    let x = if cs.len() > 0 {
        cs[0]
    } else {
        '.'
    };
    let y = if cs.len() > 1 {
        cs[1]
    } else {
        '.'
    };
    (x, y)
}

/// The change an X or Y status code stands for, if any.
pub open spec fn change_from_code(code: char) -> Option<Change> {
    if code == 'M' {
        Some(Change::Modified)
    } else if code == 'A' {
        Some(Change::Added)
    } else if code == 'D' {
        Some(Change::Deleted)
    } else if code == 'R' {
        Some(Change::Renamed)
    } else if code == 'C' {
        Some(Change::Copied)
    } else if code == 'T' {
        Some(Change::TypeChange)
    } else if code == 'U' {
        Some(Change::Conflicted)
    } else {
        None
    }
}

fn change_from_code_exec(code: char) -> (r: Option<Change>)
    ensures
        r == change_from_code(code),
{
    match code {
        'M' => Some(Change::Modified),
        'A' => Some(Change::Added),
        'D' => Some(Change::Deleted),
        'R' => Some(Change::Renamed),
        'C' => Some(Change::Copied),
        'T' => Some(Change::TypeChange),
        'U' => Some(Change::Conflicted),
        _ => None,
    }
}

/// The letters an XY status code uses for a change: Modified, Added,
/// Deleted, Renamed, Copied, Type changed and Unmerged. Any other letter
/// (`.` for "unchanged" above all) names no change.
pub open spec fn is_change_code(c: char) -> bool {
    c == 'M' || c == 'A' || c == 'D' || c == 'R' || c == 'C' || c == 'T' || c == 'U'
}

/// Each change letter of an XY code names the change shown with that same
/// letter as its marker, so `D` names a deletion and `U` a conflict; every
/// other letter names none.
pub proof fn lemma_codes_name_their_changes(c: char)
    ensures
        is_change_code(c) ==> (change_from_code(c) matches Some(ch) && ch.marker_of() == c),
        !is_change_code(c) ==> change_from_code(c) is None,
{
}

/// One entry's abstract value.
pub open spec fn entry_view(path: Seq<char>, orig: Option<Seq<char>>, change: Change) -> FileEntryView {
    FileEntryView { path, orig_path: orig, change }
}

/// An ordinary or rename record: the X code stages the path, the Y code lists
/// it as changed in the worktree.
pub open spec fn push_entry(
    st: StatusView,
    x: char,
    y: char,
    path: Seq<char>,
    orig: Option<Seq<char>>,
) -> StatusView {
    let st1 = match change_from_code(x) {
        Some(c) => StatusView { staged: st.staged.push(entry_view(path, orig, c)), ..st },
        None => st,
    };
    match change_from_code(y) {
        Some(c) => StatusView { unstaged: st1.unstaged.push(entry_view(path, orig, c)), ..st1 },
        None => st1,
    }
}

/// The bytes of `# branch.head `.
pub open spec fn head_prefix() -> Seq<u8> {
    seq![35u8, 32, 98, 114, 97, 110, 99, 104, 46, 104, 101, 97, 100, 32]
}

/// The bytes of `# branch.oid `.
pub open spec fn oid_prefix() -> Seq<u8> {
    seq![35u8, 32, 98, 114, 97, 110, 99, 104, 46, 111, 105, 100, 32]
}

/// The bytes of `(detached)`.
pub open spec fn detached_marker() -> Seq<u8> {
    seq![40u8, 100, 101, 116, 97, 99, 104, 101, 100, 41]
}

/// Whether `raw` starts with `pat`.
pub open spec fn has_prefix(raw: Seq<u8>, pat: Seq<u8>) -> bool {
    pat.len() <= raw.len() && raw.subrange(0, pat.len() as int) == pat
}

/// A `# branch.*` header line: the branch name, the detached marker, or the
/// HEAD oid. Other headers are ignored.
pub open spec fn branch_header(raw: Seq<u8>, st: StatusView) -> StatusView {
    if has_prefix(raw, head_prefix()) {
        let rest = raw.subrange(14, raw.len() as int);
        if rest == detached_marker() {
            StatusView { detached: true, ..st }
        } else {
            StatusView { branch: Some(decoded(rest)), ..st }
        }
    } else if has_prefix(raw, oid_prefix()) {
        StatusView { head_oid: Some(decoded(raw.subrange(13, raw.len() as int))), ..st }
    } else {
        st
    }
}

/// One non-empty record that is not a rename.
pub open spec fn record_step(raw: Seq<u8>, st: StatusView) -> StatusView {
    if raw[0] == 0x23 {
        branch_header(raw, st)
    } else if raw[0] == 0x31 {
        push_entry(st, xy_codes(raw).0, xy_codes(raw).1, path_after(raw, 8), None)
    } else if raw[0] == 0x3f {
        StatusView {
            unstaged: st.unstaged.push(
                entry_view(decoded(raw.subrange(2, raw.len() as int)), None, Change::Untracked),
            ),
            ..st
        }
    } else if raw[0] == 0x75 {
        StatusView {
            unstaged: st.unstaged.push(entry_view(path_after(raw, 10), None, Change::Conflicted)),
            ..st
        }
    } else {
        st
    }
}

/// A rename/copy record (`2`), whose original path is the next NUL field.
pub open spec fn rename_step(raw: Seq<u8>, orig: Option<Seq<char>>, st: StatusView) -> StatusView {
    push_entry(st, xy_codes(raw).0, xy_codes(raw).1, path_after(raw, 9), orig)
}

/// The status after parsing the NUL-separated fields that start at `p`
/// (`p` past the end means the fields are exhausted).
pub open spec fn parse_at(b: Seq<u8>, p: int, st: StatusView) -> StatusView
    decreases b.len() + 1 - p,
{
    if p < 0 || p > b.len() {
        st
    } else {
        let e = next_of(b, p, 0);
        proof {
            lemma_next_of_bounds(b, p, 0);
        }
        let raw = b.subrange(p, e);
        if raw.len() == 0 {
            parse_at(b, e + 1, st)
        } else if raw[0] == 0x32 {
            let q = e + 1;
            if q <= b.len() {
                let e2 = next_of(b, q, 0);
                proof {
                    lemma_next_of_bounds(b, q, 0);
                }
                parse_at(b, e2 + 1, rename_step(raw, Some(decoded(b.subrange(q, e2))), st))
            } else {
                parse_at(b, q, rename_step(raw, None, st))
            }
        } else {
            parse_at(b, e + 1, record_step(raw, st))
        }
    }
}

/// The status described by a whole porcelain stream.
pub open spec fn spec_parse(b: Seq<u8>) -> StatusView {
    parse_at(b, 0, empty_status())
}

/// Every untracked record (`?`) reached from `p` carries a path after its
/// `? ` lead-in: at least two bytes, the second of them ASCII, so that the
/// path starts on a character boundary.
pub open spec fn well_formed_at(b: Seq<u8>, p: int) -> bool
    decreases b.len() + 1 - p,
{
    if p < 0 || p > b.len() {
        true
    } else {
        let e = next_of(b, p, 0);
        proof {
            lemma_next_of_bounds(b, p, 0);
        }
        let raw = b.subrange(p, e);
        if raw.len() == 0 {
            well_formed_at(b, e + 1)
        } else if raw[0] == 0x32 {
            let q = e + 1;
            if q <= b.len() {
                let e2 = next_of(b, q, 0);
                proof {
                    lemma_next_of_bounds(b, q, 0);
                }
                well_formed_at(b, e2 + 1)
            } else {
                true
            }
        } else if raw[0] == 0x3f {
            raw.len() >= 2 && raw[1] < 0x80 && well_formed_at(b, e + 1)
        } else {
            well_formed_at(b, e + 1)
        }
    }
}

/// Whether a porcelain stream can be parsed: every untracked record has its path.
pub open spec fn parse_input_ok(b: Seq<u8>) -> bool {
    well_formed_at(b, 0)
}

fn matches_at(raw: &[u8], from: usize, pat: &[u8]) -> (r: bool)
    requires
        from <= raw@.len(),
    ensures
        r == (from + pat@.len() <= raw@.len() && raw@.subrange(
            from as int,
            from + pat@.len(),
        ) == pat@),
{
    if pat.len() > raw.len() - from {
        return false;
    }
    let mut i: usize = 0;
    while i < pat.len()
        invariant
            i <= pat@.len(),
            from + pat@.len() <= raw@.len(),
            raw@.len() <= usize::MAX,
            forall|j: int| 0 <= j < i ==> raw@[from + j] == pat@[j],
        decreases pat.len() - i,
    {
        let at: usize = from + i;
        if raw[at] != pat[i] {
            assert(raw@.subrange(from as int, from + pat@.len())[i as int] != pat@[i as int]);
            return false;
        }
        i = i + 1;
    }
    assert(raw@.subrange(from as int, from + pat@.len()) =~= pat@);
    true
}

fn push_entry_exec(
    st: &mut Status,
    x: char,
    y: char,
    path: &String,
    orig: Option<String>,
)
    ensures
        final(st)@ == push_entry(old(st)@, x, y, path@, opt_view(orig)),
{
    if let Some(change) = change_from_code_exec(x) {
        let e = FileEntry { path: path.clone(), orig_path: clone_opt(&orig), change };
        let ghost before = st.staged@;
        st.staged.push(e);
        assert(entries_view(st.staged@) =~= entries_view(before).push(e@));
    }
    let ghost mid = st@;
    if let Some(change) = change_from_code_exec(y) {
        let e = FileEntry { path: path.clone(), orig_path: orig, change };
        let ghost before = st.unstaged@;
        st.unstaged.push(e);
        assert(entries_view(st.unstaged@) =~= entries_view(before).push(e@));
    }
}

fn branch_header_exec(raw: &[u8], st: &mut Status)
    ensures
        final(st)@ == branch_header(raw@, old(st)@),
{
    let head: Vec<u8> = vec![35u8, 32, 98, 114, 97, 110, 99, 104, 46, 104, 101, 97, 100, 32];
    let oid: Vec<u8> = vec![35u8, 32, 98, 114, 97, 110, 99, 104, 46, 111, 105, 100, 32];
    let det: Vec<u8> = vec![40u8, 100, 101, 116, 97, 99, 104, 101, 100, 41];
    assert(head@ =~= head_prefix());
    assert(oid@ =~= oid_prefix());
    assert(det@ =~= detached_marker());
    if matches_at(raw, 0, head.as_slice()) {
        let is_det = raw.len() - 14 == det.len() && matches_at(raw, 14, det.as_slice());
        proof {
            if raw@.len() - 14 == 10 {
                assert(raw@.subrange(14, 24) =~= raw@.subrange(14, raw@.len() as int));
            }
        }
        if is_det {
            st.detached = true;
        } else {
            st.branch = Some(lossy_range(raw, 14, raw.len()));
        }
    } else if matches_at(raw, 0, oid.as_slice()) {
        st.head_oid = Some(lossy_range(raw, 13, raw.len()));
    }
}

fn record_step_exec(raw: &[u8], st: &mut Status)
    requires
        raw@.len() > 0,
        raw@[0] == 0x3f ==> raw@.len() >= 2,
    ensures
        final(st)@ == record_step(raw@, old(st)@),
{
    let lead = raw[0];
    if lead == 0x23 {
        branch_header_exec(raw, st);
    } else if lead == 0x31 {
        let (x, y) = xy_codes_exec(raw);
        let path = path_after_exec(raw, 8);
        push_entry_exec(st, x, y, &path, None);
    } else if lead == 0x3f {
        let e = FileEntry { path: lossy_range(raw, 2, raw.len()), orig_path: None, change: Change::Untracked };
        let ghost before = st.unstaged@;
        st.unstaged.push(e);
        assert(entries_view(st.unstaged@) =~= entries_view(before).push(e@));
    } else if lead == 0x75 {
        let e = FileEntry { path: path_after_exec(raw, 10), orig_path: None, change: Change::Conflicted };
        let ghost before = st.unstaged@;
        st.unstaged.push(e);
        assert(entries_view(st.unstaged@) =~= entries_view(before).push(e@));
    }
}

/// Parse the raw bytes of `git status --porcelain=v2 --branch -z`.
pub fn parse(bytes: &[u8]) -> (status: Status)
    requires
        parse_input_ok(bytes@),
    ensures
        status@ == spec_parse(bytes@),
{
    let mut status = Status::default();
    let mut p: usize = 0;
    loop
        invariant_except_break
            p <= bytes@.len(),
            parse_at(bytes@, p as int, status@) == spec_parse(bytes@),
            well_formed_at(bytes@, p as int),
        ensures
            status@ == spec_parse(bytes@),
        decreases bytes@.len() - p,
    {
        let e = find_byte(bytes, p, 0);
        let ghost st0 = status@;
        proof {
            lemma_next_of_bounds(bytes@, p as int, 0);
        }
        let next: usize;
        if e == p {
            next = e;
            assert(bytes@.subrange(p as int, e as int).len() == 0);
        } else {
            let raw = crate::text::bytes_range(bytes, p, e);
            if raw[0] == 0x32 {
                let (x, y) = xy_codes_exec(raw.as_slice());
                let path = path_after_exec(raw.as_slice(), 9);
                if e < bytes.len() {
                    let q = e + 1;
                    let e2 = find_byte(bytes, q, 0);
                    let orig = lossy_range(bytes, q, e2);
                    push_entry_exec(&mut status, x, y, &path, Some(orig));
                    next = e2;
                } else {
                    push_entry_exec(&mut status, x, y, &path, None);
                    next = e;
                }
            } else {
                record_step_exec(raw.as_slice(), &mut status);
                next = e;
            }
        }
        assert(parse_at(bytes@, p as int, st0) == parse_at(bytes@, next + 1, status@));
        if next >= bytes.len() {
            assert(parse_at(bytes@, next + 1, status@) == status@);
            break;
        }
        p = next + 1;
    }
    status
}

/// Whether `bytes` meets [`parse`]'s precondition: every untracked record
/// carries a path after its `? ` lead-in.
pub fn parse_input_checked(bytes: &[u8]) -> (ok: bool)
    ensures
        ok == parse_input_ok(bytes@),
{
    let mut p: usize = 0;
    loop
        invariant_except_break
            p <= bytes@.len(),
            well_formed_at(bytes@, p as int) == parse_input_ok(bytes@),
        ensures
            parse_input_ok(bytes@),
        decreases bytes@.len() - p,
    {
        let e = find_byte(bytes, p, 0);
        proof {
            lemma_next_of_bounds(bytes@, p as int, 0);
        }
        let next: usize;
        if e == p {
            next = e;
            assert(bytes@.subrange(p as int, e as int).len() == 0);
        } else if bytes[p] == 0x32 {
            assert(bytes@.subrange(p as int, e as int)[0] == bytes@[p as int]);
            if e < bytes.len() {
                let e2 = find_byte(bytes, e + 1, 0);
                proof {
                    lemma_next_of_bounds(bytes@, e + 1, 0);
                }
                next = e2;
            } else {
                next = e;
            }
        } else if bytes[p] == 0x3f {
            assert(bytes@.subrange(p as int, e as int)[0] == bytes@[p as int]);
            if e - p < 2 || bytes[p + 1] >= 0x80 {
                assert(e - p >= 2 ==> bytes@.subrange(p as int, e as int)[1] == bytes@[p + 1]);
                return false;
            }
            assert(bytes@.subrange(p as int, e as int)[1] == bytes@[p + 1]);
            next = e;
        } else {
            assert(bytes@.subrange(p as int, e as int)[0] == bytes@[p as int]);
            next = e;
        }
        if next >= bytes.len() {
            assert(well_formed_at(bytes@, next + 1));
            break;
        }
        p = next + 1;
    }
    true
}

/// Listing a path under an XY code keeps the branch information and adds at
/// most one staged and one unstaged entry for the path: a staged one exactly
/// when X is a change letter, with the change that letter marks, and an
/// unstaged one exactly when Y is, likewise. Entries already listed stay as
/// they were, in front.
pub proof fn lemma_push_entry(st: StatusView, x: char, y: char, path: Seq<char>, orig: Option<Seq<char>>)
    ensures
        ({
            let r = push_entry(st, x, y, path, orig);
            &&& r.branch == st.branch
            &&& r.detached == st.detached
            &&& r.head_oid == st.head_oid
            &&& is_change_code(x) ==> {
                &&& r.staged.len() == st.staged.len() + 1
                &&& r.staged.drop_last() == st.staged
                &&& r.staged.last().path == path
                &&& r.staged.last().orig_path == orig
                &&& r.staged.last().change.marker_of() == x
            }
            &&& !is_change_code(x) ==> r.staged == st.staged
            &&& is_change_code(y) ==> {
                &&& r.unstaged.len() == st.unstaged.len() + 1
                &&& r.unstaged.drop_last() == st.unstaged
                &&& r.unstaged.last().path == path
                &&& r.unstaged.last().orig_path == orig
                &&& r.unstaged.last().change.marker_of() == y
            }
            &&& !is_change_code(y) ==> r.unstaged == st.unstaged
        }),
{
    lemma_codes_name_their_changes(x);
    lemma_codes_name_their_changes(y);
    let r = push_entry(st, x, y, path, orig);
    if is_change_code(x) {
        assert(r.staged.drop_last() =~= st.staged);
    }
    if is_change_code(y) {
        assert(r.unstaged.drop_last() =~= st.unstaged);
    }
}

/// An ordinary record (`1 XY ... <path>`) lists the text after its eighth
/// space as the path, with no original path, under its X and Y codes as
/// [`lemma_push_entry`] says.
pub proof fn lemma_ordinary_record(raw: Seq<u8>, st: StatusView)
    requires
        raw.len() > 0,
        raw[0] == 0x31,
    ensures
        record_step(raw, st) == push_entry(st, xy_codes(raw).0, xy_codes(raw).1, path_after(raw, 8), None),
        ({
            let r = record_step(raw, st);
            let (x, y) = xy_codes(raw);
            let path = path_after(raw, 8);
            &&& r.branch == st.branch
            &&& r.detached == st.detached
            &&& r.head_oid == st.head_oid
            &&& is_change_code(x) ==> {
                &&& r.staged.len() == st.staged.len() + 1
                &&& r.staged.drop_last() == st.staged
                &&& r.staged.last().path == path
                &&& r.staged.last().orig_path is None
                &&& r.staged.last().change.marker_of() == x
            }
            &&& !is_change_code(x) ==> r.staged == st.staged
            &&& is_change_code(y) ==> {
                &&& r.unstaged.len() == st.unstaged.len() + 1
                &&& r.unstaged.drop_last() == st.unstaged
                &&& r.unstaged.last().path == path
                &&& r.unstaged.last().orig_path is None
                &&& r.unstaged.last().change.marker_of() == y
            }
            &&& !is_change_code(y) ==> r.unstaged == st.unstaged
        }),
{
    lemma_push_entry(st, xy_codes(raw).0, xy_codes(raw).1, path_after(raw, 8), None);
}

/// A stream of one record that is not a rename, with or without its NUL
/// terminator, parses as that record applied to the empty status.
pub proof fn lemma_single_record_stream(raw: Seq<u8>)
    requires
        raw.len() > 0,
        raw[0] != 0x32,
        forall|i: int| 0 <= i < raw.len() ==> raw[i] != 0,
    ensures
        spec_parse(raw) == record_step(raw, empty_status()),
        spec_parse(raw.push(0)) == record_step(raw, empty_status()),
{
    lemma_next_of_bounds(raw, 0, 0);
    let e = next_of(raw, 0, 0);
    if e < raw.len() {
        assert(raw[e] == 0);
    }
    assert(e == raw.len());
    assert(raw.subrange(0, raw.len() as int) =~= raw);
    assert(parse_at(raw, 0, empty_status()) == parse_at(raw, raw.len() + 1int, record_step(raw, empty_status())));
    let b = raw.push(0);
    lemma_next_of_bounds(b, 0, 0);
    let eb = next_of(b, 0, 0);
    if eb < raw.len() {
        assert(b[eb] == raw[eb]);
    }
    if eb > raw.len() {
        assert(b[raw.len() as int] == 0);
    }
    assert(eb == raw.len());
    assert(b.subrange(0, raw.len() as int) =~= raw);
    let st = record_step(raw, empty_status());
    lemma_next_of_bounds(b, b.len() as int, 0);
    assert(b.subrange(b.len() as int, b.len() as int).len() == 0);
    assert(parse_at(b, b.len() as int, st) == parse_at(b, b.len() + 1int, st));
}

} // verus!
