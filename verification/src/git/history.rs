//! Commit history model and the parsers for `git diff-tree -z` output: the
//! `--name-status` change list joined by path with the `--numstat` line counts.

use vstd::prelude::*;
use crate::text::{decoded, lossy_range, key_lt, key_less, lemma_key_lt_total, lemma_key_lt_trans};
use crate::git::status::{next_of, lemma_next_of_bounds, find_byte, label_of, opt_view, arrow_string};

verus! {

/// How a file changed in a commit, relative to its first parent.
#[derive(Clone, Copy, Debug, PartialEq, Eq, Structural)]
pub enum ChangeKind {
    Added,
    Deleted,
    Modified,
    Renamed,
    Copied,
    TypeChange,
}

impl ChangeKind {
    /// The marker character of each change kind.
    pub open spec fn marker_of(self) -> char {
        match self {
            ChangeKind::Added => 'A',
            ChangeKind::Deleted => 'D',
            ChangeKind::Modified => 'M',
            ChangeKind::Renamed => 'R',
            ChangeKind::Copied => 'C',
            ChangeKind::TypeChange => 'T',
        }
    }

    /// The single-character marker shown next to the file (matches `Change`).
    pub fn marker(self) -> (c: char)
        ensures
            c == self.marker_of(),
    {
        match self {
            ChangeKind::Added => 'A',
            ChangeKind::Deleted => 'D',
            ChangeKind::Modified => 'M',
            ChangeKind::Renamed => 'R',
            ChangeKind::Copied => 'C',
            ChangeKind::TypeChange => 'T',
        }
    }
}

/// The change kind a diff-tree status token stands for, by its first byte
/// (the status letters are ASCII, so the first byte decides the first char).
pub open spec fn kind_from_status(token: Seq<u8>) -> Option<ChangeKind> {
    if token.len() == 0 {
        None
    } else if token[0] == 0x41 {
        Some(ChangeKind::Added)
    } else if token[0] == 0x44 {
        Some(ChangeKind::Deleted)
    } else if token[0] == 0x4d {
        Some(ChangeKind::Modified)
    } else if token[0] == 0x52 {
        Some(ChangeKind::Renamed)
    } else if token[0] == 0x43 {
        Some(ChangeKind::Copied)
    } else if token[0] == 0x54 {
        Some(ChangeKind::TypeChange)
    } else {
        None
    }
}

fn kind_from_status_exec(b: &[u8], from: usize, to: usize) -> (r: Option<ChangeKind>)
    requires
        from <= to <= b@.len(),
    ensures
        r == kind_from_status(b@.subrange(from as int, to as int)),
{
    if from == to {
        return None;
    }
    let c = b[from];
    if c == 0x41 {
        Some(ChangeKind::Added)
    } else if c == 0x44 {
        Some(ChangeKind::Deleted)
    } else if c == 0x4d {
        Some(ChangeKind::Modified)
    } else if c == 0x52 {
        Some(ChangeKind::Renamed)
    } else if c == 0x43 {
        Some(ChangeKind::Copied)
    } else if c == 0x54 {
        Some(ChangeKind::TypeChange)
    } else {
        None
    }
}

/// A git object id: the twenty bytes split into two big-endian 64-bit words
/// and one 32-bit word, so equality and order are those of the bytes.
#[derive(Clone, Copy, Debug, PartialEq, Eq, Hash, Structural)]
pub struct Oid {
    pub hi: u64,
    pub mid: u64,
    pub lo: u32,
}

/// One commit in the log, with the metadata the history view needs.
#[derive(Clone, Debug, PartialEq, Eq)]
pub struct CommitInfo {
    pub id: Oid,
    pub short: String,
    pub summary: String,
    pub message: String,
    pub author_name: String,
    pub author_email: String,
    pub author_seconds: i64,
    pub author_offset: i32,
    pub committer_name: String,
    pub committer_email: String,
    pub committer_seconds: i64,
    pub committer_offset: i32,
    /// Parent oids; `parents[0]` is the first parent (the merge "mainline").
    pub parents: Vec<Oid>,
    pub tree: Oid,
}

impl CommitInfo {
    /// The first parent, if the commit has one.
    pub fn first_parent(&self) -> (r: Option<&Oid>)
        ensures
            self.parents@.len() == 0 ==> r is None,
            self.parents@.len() > 0 ==> r == Some(&self.parents@[0]),
    {
        if self.parents.len() == 0 {
            None
        } else {
            Some(&self.parents[0])
        }
    }
}

/// Line counts for a single file's change in a commit.
#[derive(Clone, Copy, Debug, Default, PartialEq, Eq, Structural)]
pub struct CommitStat {
    pub added: usize,
    pub deleted: usize,
    pub binary: bool,
}

/// The counts of a file that numstat did not mention.
pub open spec fn zero_stat() -> CommitStat {
    CommitStat { added: 0, deleted: 0, binary: false }
}

/// A file changed in a commit, relative to its first parent.
#[derive(Clone, Debug, PartialEq, Eq)]
pub struct CommitFile {
    pub path: String,
    /// Rename/copy source path (for `R`/`C`), else `None`.
    pub orig_path: Option<String>,
    pub change: ChangeKind,
    pub stat: CommitStat,
}

/// The abstract value of a [`CommitFile`].
pub struct CommitFileView {
    pub path: Seq<char>,
    pub orig_path: Option<Seq<char>>,
    pub change: ChangeKind,
    pub stat: CommitStat,
}

impl View for CommitFile {
    type V = CommitFileView;

    open spec fn view(&self) -> CommitFileView {
        CommitFileView {
            path: self.path@,
            orig_path: opt_view(self.orig_path),
            change: self.change,
            stat: self.stat,
        }
    }
}

impl CommitFile {
    /// How the file is labelled in the list (rename shows `orig → path`).
    pub fn display_path(&self) -> (s: String)
        ensures
            s@ == label_of(self.path@, opt_view(self.orig_path)),
    {
        match &self.orig_path {
            Some(orig) => arrow_string(orig, &self.path),
            None => self.path.clone(),
        }
    }
}

/// The kind of ref pointing at a commit, for graph labels. The declared order
/// is also the badge order, so named refs read before the `HEAD` marker.
#[derive(Clone, Copy, Debug, PartialEq, Eq, PartialOrd, Ord, Structural)]
pub enum RefKind {
    LocalBranch,
    RemoteBranch,
    Tag,
    Head,
}

/// A ref pointing at a commit (used to badge graph rows).
#[derive(Clone, Debug, PartialEq, Eq)]
pub struct RefLabel {
    pub name: String,
    pub target: Oid,
    pub kind: RefKind,
}

// ---------------------------------------------------------------------------
// NUL-separated fields with the empty ones dropped.
// ---------------------------------------------------------------------------

/// The non-empty NUL-separated fields of `b` that start at or after `p`.
pub open spec fn fields_from(b: Seq<u8>, p: int) -> Seq<Seq<u8>>
    decreases b.len() + 1 - p,
{
    if p < 0 || p > b.len() {
        seq![]
    } else {
        let e = next_of(b, p, 0);
        proof {
            lemma_next_of_bounds(b, p, 0);
        }
        if e == p {
            fields_from(b, e + 1)
        } else {
            seq![b.subrange(p, e)] + fields_from(b, e + 1)
        }
    }
}

/// The non-empty NUL-separated fields of `b`, in order.
pub open spec fn fields(b: Seq<u8>) -> Seq<Seq<u8>> {
    fields_from(b, 0)
}

/// The byte ranges `[from, to)` of `b` that a list of ranges names.
pub open spec fn ranges_bytes(b: Seq<u8>, rs: Seq<(usize, usize)>) -> Seq<Seq<u8>> {
    rs.map_values(|r: (usize, usize)| b.subrange(r.0 as int, r.1 as int))
}

/// The byte ranges of the non-empty NUL-separated fields of `b`.
pub fn field_ranges(b: &[u8]) -> (rs: Vec<(usize, usize)>)
    ensures
        forall|i: int| #![trigger rs@[i]] 0 <= i < rs@.len() ==> rs@[i].0 <= rs@[i].1 <= b@.len(),
        ranges_bytes(b@, rs@) == fields(b@),
{
    let mut rs: Vec<(usize, usize)> = Vec::new();
    let mut p: usize = 0;
    loop
        invariant_except_break
            p <= b@.len(),
            ranges_bytes(b@, rs@) + fields_from(b@, p as int) == fields(b@),
        invariant
            forall|i: int| #![trigger rs@[i]] 0 <= i < rs@.len() ==> rs@[i].0 <= rs@[i].1 <= b@.len(),
        ensures
            ranges_bytes(b@, rs@) == fields(b@),
        decreases b@.len() - p,
    {
        let e = find_byte(b, p, 0);
        proof {
            lemma_next_of_bounds(b@, p as int, 0);
        }
        let ghost before = rs@;
        if e > p {
            rs.push((p, e));
            assert(rs@[rs@.len() - 1] == (p, e));
            assert(ranges_bytes(b@, rs@) =~= ranges_bytes(b@, before).push(b@.subrange(p as int, e as int)));
        }
        assert(ranges_bytes(b@, rs@) + fields_from(b@, e + 1) =~= ranges_bytes(b@, before) + fields_from(b@, p as int));
        if e >= b.len() {
            assert(fields_from(b@, e + 1) =~= Seq::<Seq<u8>>::empty());
            assert(ranges_bytes(b@, rs@) =~= ranges_bytes(b@, rs@) + fields_from(b@, e + 1));
            break;
        }
        p = e + 1;
    }
    rs
}

// ---------------------------------------------------------------------------
// `--name-status`
// ---------------------------------------------------------------------------

/// One `--name-status` entry: the change, the (new) path, and the source path
/// of a rename or copy.
pub struct NameStatusView {
    pub change: ChangeKind,
    pub path: Seq<char>,
    pub orig: Option<Seq<char>>,
}

/// Whether a change kind carries two paths (source, then destination).
pub open spec fn two_paths(c: ChangeKind) -> bool {
    c == ChangeKind::Renamed || c == ChangeKind::Copied
}

/// The entries of a sequence of non-empty fields: a status token followed by
/// one path, or by two (`orig` then `new`) for a rename or copy. An unknown
/// token still consumes one path so the fields stay aligned; a record cut short
/// ends the list.
pub open spec fn name_status_of(fs: Seq<Seq<u8>>) -> Seq<NameStatusView>
    decreases fs.len(),
{
    if fs.len() == 0 {
        seq![]
    } else {
        match kind_from_status(fs[0]) {
            None => if fs.len() >= 2 {
                name_status_of(fs.subrange(2, fs.len() as int))
            } else {
                seq![]
            },
            Some(c) => if two_paths(c) {
                if fs.len() >= 3 {
                    seq![NameStatusView { change: c, path: decoded(fs[2]), orig: Some(decoded(fs[1])) }]
                        + name_status_of(fs.subrange(3, fs.len() as int))
                } else {
                    seq![]
                }
            } else {
                if fs.len() >= 2 {
                    seq![NameStatusView { change: c, path: decoded(fs[1]), orig: None }]
                        + name_status_of(fs.subrange(2, fs.len() as int))
                } else {
                    seq![]
                }
            },
        }
    }
}

/// One parsed `--name-status` entry.
pub struct NameStatus {
    pub change: ChangeKind,
    pub path: String,
    pub orig: Option<String>,
}

impl View for NameStatus {
    type V = NameStatusView;

    open spec fn view(&self) -> NameStatusView {
        NameStatusView { change: self.change, path: self.path@, orig: opt_view(self.orig) }
    }
}

/// Parse `git diff-tree -z --name-status` output.
pub fn parse_name_status(bytes: &[u8]) -> (out: Vec<NameStatus>)
    ensures
        out@.map_values(|e: NameStatus| e@) == name_status_of(fields(bytes@)),
{
    let rs = field_ranges(bytes);
    let ghost fs = fields(bytes@);
    let mut out: Vec<NameStatus> = Vec::new();
    let mut i: usize = 0;
    assert(fs.subrange(0, fs.len() as int) =~= fs);
    assert(out@.map_values(|e: NameStatus| e@) =~= Seq::<NameStatusView>::empty());
    assert(Seq::<NameStatusView>::empty() + name_status_of(fs) =~= name_status_of(fs));
    while i < rs.len()
        invariant
            i <= rs@.len(),
            fs == ranges_bytes(bytes@, rs@),
            forall|k: int| #![trigger rs@[k]] 0 <= k < rs@.len() ==> rs@[k].0 <= rs@[k].1 <= bytes@.len(),
            out@.map_values(|e: NameStatus| e@) + name_status_of(fs.subrange(i as int, fs.len() as int))
                == name_status_of(fs),
        decreases rs.len() - i,
    {
        let ghost rest = fs.subrange(i as int, fs.len() as int);
        let ghost before = out@.map_values(|e: NameStatus| e@);
        assert(rest[0] == bytes@.subrange(rs@[i as int].0 as int, rs@[i as int].1 as int));
        let (a, z) = rs[i];
        let kind = kind_from_status_exec(bytes, a, z);
        match kind {
            None => {
                if rs.len() - i >= 2 {
                    assert(rest.subrange(2, rest.len() as int) =~= fs.subrange(i + 2, fs.len() as int));
                    i = i + 2;
                } else {
                    assert(name_status_of(rest) =~= Seq::<NameStatusView>::empty());
                    assert(before + name_status_of(rest) =~= before);
                    assert(fs.subrange(rs@.len() as int, fs.len() as int) =~= Seq::<Seq<u8>>::empty());
                    i = rs.len();
                }
            },
            Some(c) => {
                let two = match c {
                    ChangeKind::Renamed => true,
                    ChangeKind::Copied => true,
                    _ => false,
                };
                let need: usize = if two {
                    3
                } else {
                    2
                };
                if rs.len() - i >= need {
                    let e = if two {
                        let (oa, oz) = rs[i + 1];
                        let (na, nz) = rs[i + 2];
                        assert(rest[1] == bytes@.subrange(oa as int, oz as int));
                        assert(rest[2] == bytes@.subrange(na as int, nz as int));
                        NameStatus {
                            change: c,
                            path: lossy_range(bytes, na, nz),
                            orig: Some(lossy_range(bytes, oa, oz)),
                        }
                    } else {
                        let (pa, pz) = rs[i + 1];
                        assert(rest[1] == bytes@.subrange(pa as int, pz as int));
                        NameStatus { change: c, path: lossy_range(bytes, pa, pz), orig: None }
                    };
                    out.push(e);
                    assert(rest.subrange(need as int, rest.len() as int) =~= fs.subrange(i + need, fs.len() as int));
                    assert(out@.map_values(|e: NameStatus| e@) =~= before.push(e@));
                    assert(before.push(e@) + name_status_of(fs.subrange(i + need, fs.len() as int))
                        =~= before + name_status_of(rest));
                    i = i + need;
                } else {
                    assert(name_status_of(rest) =~= Seq::<NameStatusView>::empty());
                    assert(before + name_status_of(rest) =~= before);
                    assert(fs.subrange(rs@.len() as int, fs.len() as int) =~= Seq::<Seq<u8>>::empty());
                    i = rs.len();
                }
            },
        }
    }
    assert(fs.subrange(rs@.len() as int, fs.len() as int) =~= Seq::<Seq<u8>>::empty());
    assert(out@.map_values(|e: NameStatus| e@) =~= out@.map_values(|e: NameStatus| e@) + Seq::<NameStatusView>::empty());
    out
}

// ---------------------------------------------------------------------------
// `--numstat`
// ---------------------------------------------------------------------------

/// Whether every byte is an ASCII decimal digit.
pub open spec fn all_digits(s: Seq<u8>) -> bool {
    forall|i: int| 0 <= i < s.len() ==> 0x30 <= #[trigger] s[i] <= 0x39
}

/// The decimal value of a run of ASCII digits.
pub open spec fn digits_value(s: Seq<u8>) -> nat
    decreases s.len(),
{
    if s.len() == 0 {
        0
    } else {
        digits_value(s.drop_last()) * 10 + (s.last() - 0x30) as nat
    }
}

/// What `str::parse::<usize>` yields for ASCII text: an optional `+` and at
/// least one decimal digit, no larger than `usize::MAX`.
pub open spec fn parse_usize(s: Seq<u8>) -> Option<nat> {
    let d = if s.len() > 0 && s[0] == 0x2b {
        s.subrange(1, s.len() as int)
    } else {
        s
    };
    if d.len() == 0 || !all_digits(d) || digits_value(d) > usize::MAX {
        None
    } else {
        Some(digits_value(d))
    }
}

proof fn lemma_digits_value_grows(s: Seq<u8>, i: int)
    requires
        0 <= i <= s.len(),
        all_digits(s),
    ensures
        digits_value(s.subrange(0, i)) <= digits_value(s),
    decreases s.len() - i,
{
    if i < s.len() {
        lemma_digits_value_grows(s, i + 1);
        assert(s.subrange(0, i + 1).drop_last() =~= s.subrange(0, i));
        assert(0x30 <= s[i]);
        assert(digits_value(s.subrange(0, i + 1)) == digits_value(s.subrange(0, i)) * 10 + (s[i] - 0x30) as nat);
    } else {
        assert(s.subrange(0, i) =~= s);
    }
}

/// `str::parse::<usize>` of `b[from..to]`, read as ASCII text.
fn parse_usize_exec(b: &[u8], from: usize, to: usize) -> (r: Option<usize>)
    requires
        from <= to <= b@.len(),
    ensures
        match parse_usize(b@.subrange(from as int, to as int)) {
            Some(v) => r == Some(v as usize),
            None => r is None,
        },
{
    let ghost s = b@.subrange(from as int, to as int);
    let start: usize = if from < to && b[from] == 0x2b {
        from + 1
    } else {
        from
    };
    let ghost d = b@.subrange(start as int, to as int);
    assert(d =~= (if s.len() > 0 && s[0] == 0x2b {
        s.subrange(1, s.len() as int)
    } else {
        s
    }));
    if start == to {
        return None;
    }
    let mut v: usize = 0;
    let mut i: usize = start;
    while i < to
        invariant
            start <= i <= to <= b@.len(),
            start < to,
            d == b@.subrange(start as int, to as int),
            s == b@.subrange(from as int, to as int),
            d == (if s.len() > 0 && s[0] == 0x2b {
                s.subrange(1, s.len() as int)
            } else {
                s
            }),
            all_digits(b@.subrange(start as int, i as int)),
            v as nat == digits_value(b@.subrange(start as int, i as int)),
        decreases to - i,
    {
        let c = b[i];
        if c < 0x30 || c > 0x39 {
            assert(d[i - start] == c);
            assert(!all_digits(d));
            assert(parse_usize(s) is None);
            return None;
        }
        let dv: usize = (c - 0x30) as usize;
        assert(b@.subrange(start as int, i + 1).drop_last() =~= b@.subrange(start as int, i as int));
        assert(all_digits(b@.subrange(start as int, i + 1)));
        if v > (usize::MAX - dv) / 10 {
            proof {
                assert(digits_value(b@.subrange(start as int, i + 1)) == v * 10 + dv);
                assert(v * 10 + dv > usize::MAX) by (nonlinear_arith)
                    requires
                        v > (usize::MAX - dv) / 10,
                        dv <= 9,
                ;
                // every later digit only grows the value
                let rest_ok = all_digits(d);
                if rest_ok {
                    assert(d.subrange(0, i + 1 - start) =~= b@.subrange(start as int, i + 1));
                    lemma_digits_value_grows(d, i + 1 - start);
                    assert(digits_value(d) > usize::MAX);
                }
                assert(parse_usize(s) is None);
            }
            return None;
        }
        v = v * 10 + dv;
        i = i + 1;
    }
    assert(b@.subrange(start as int, to as int) =~= d);
    Some(v)
}

/// The three tab-separated parts of a numstat record (`added`, `deleted`, and
/// the rest), the missing ones empty.
pub open spec fn numstat_parts(f: Seq<u8>) -> (Seq<u8>, Seq<u8>, Seq<u8>) {
    let t1 = next_of(f, 0, 9);
    if t1 >= f.len() {
        (f, seq![], seq![])
    } else {
        let t2 = next_of(f, t1 + 1, 9);
        if t2 >= f.len() {
            (f.subrange(0, t1), f.subrange(t1 + 1, f.len() as int), seq![])
        } else {
            (f.subrange(0, t1), f.subrange(t1 + 1, t2), f.subrange(t2 + 1, f.len() as int))
        }
    }
}

/// A count, zero where it does not parse.
pub open spec fn count_or_zero(s: Seq<u8>) -> usize {
    match parse_usize(s) {
        Some(v) => v as usize,
        None => 0,
    }
}

/// The counts a numstat record gives; a `-` count marks a binary change.
pub open spec fn record_stat(f: Seq<u8>) -> CommitStat {
    let (a, d, _rest) = numstat_parts(f);
    CommitStat {
        added: count_or_zero(a),
        deleted: count_or_zero(d),
        binary: a == seq![0x2du8] || d == seq![0x2du8],
    }
}

/// The `(path, counts)` records of a sequence of non-empty numstat fields, in
/// order. A rename or copy has an empty path part and names its old then new
/// path in the next two fields; the record is keyed by the new path. A record
/// cut short ends the list.
pub open spec fn numstat_of(fs: Seq<Seq<u8>>) -> Seq<(Seq<char>, CommitStat)>
    decreases fs.len(),
{
    if fs.len() == 0 {
        seq![]
    } else {
        let f = fs[0];
        let stat = record_stat(f);
        let rest = numstat_parts(f).2;
        if rest.len() == 0 {
            if fs.len() >= 3 {
                seq![(decoded(fs[2]), stat)] + numstat_of(fs.subrange(3, fs.len() as int))
            } else {
                seq![]
            }
        } else {
            seq![(decoded(rest), stat)] + numstat_of(fs.subrange(1, fs.len() as int))
        }
    }
}

/// The counts recorded for `path`: the last record naming it wins (a later
/// record replaces an earlier one, as a map insert does); none gives zeros.
pub open spec fn stat_for(records: Seq<(Seq<char>, CommitStat)>, path: Seq<char>) -> CommitStat
    decreases records.len(),
{
    if records.len() == 0 {
        zero_stat()
    } else if records.last().0 == path {
        records.last().1
    } else {
        stat_for(records.drop_last(), path)
    }
}

/// One parsed numstat record.
pub struct NumStat {
    pub path: String,
    pub stat: CommitStat,
}

/// The abstract values of numstat records.
pub open spec fn numstat_view(v: Seq<NumStat>) -> Seq<(Seq<char>, CommitStat)> {
    v.map_values(|r: NumStat| (r.path@, r.stat))
}

fn record_stat_exec(f: &[u8]) -> (r: (CommitStat, usize))
    ensures
        r.0 == record_stat(f@),
        r.1 <= f@.len(),
        f@.subrange(r.1 as int, f@.len() as int) == numstat_parts(f@).2,
{
    let n = f.len();
    let t1 = find_byte(f, 0, 9);
    let (a_end, d_from, d_end, rest_from) = if t1 >= n {
        (n, n, n, n)
    } else {
        let t2 = find_byte(f, t1 + 1, 9);
        if t2 >= n {
            (t1, t1 + 1, n, n)
        } else {
            (t1, t1 + 1, t2, t2 + 1)
        }
    };
    let added = parse_usize_exec(f, 0, a_end);
    let deleted = parse_usize_exec(f, d_from, d_end);
    let a_dash = a_end == 1 && f[0] == 0x2d;
    let d_dash = d_end >= d_from && d_end - d_from == 1 && f[d_from] == 0x2d;
    proof {
        let parts = numstat_parts(f@);
        assert(parts.0 =~= f@.subrange(0, a_end as int));
        assert(parts.1 =~= f@.subrange(d_from as int, d_end as int));
        assert(parts.2 =~= f@.subrange(rest_from as int, n as int));
        if parts.0 == seq![0x2du8] {
            assert(parts.0[0] == 0x2du8);
        }
        if a_dash {
            assert(parts.0 =~= seq![0x2du8]);
        }
        if parts.1 == seq![0x2du8] {
            assert(parts.1[0] == 0x2du8);
        }
        if d_dash {
            assert(parts.1 =~= seq![0x2du8]);
        }
    }
    let stat = CommitStat {
        added: match added {
            Some(v) => v,
            None => 0,
        },
        deleted: match deleted {
            Some(v) => v,
            None => 0,
        },
        binary: a_dash || d_dash,
    };
    (stat, rest_from)
}

/// Parse `git diff-tree -z --numstat` into `(new path, counts)` records.
pub fn parse_numstat(bytes: &[u8]) -> (out: Vec<NumStat>)
    ensures
        numstat_view(out@) == numstat_of(fields(bytes@)),
{
    let rs = field_ranges(bytes);
    let ghost fs = fields(bytes@);
    let mut out: Vec<NumStat> = Vec::new();
    let mut i: usize = 0;
    assert(fs.subrange(0, fs.len() as int) =~= fs);
    assert(numstat_view(out@) =~= Seq::<(Seq<char>, CommitStat)>::empty());
    assert(Seq::<(Seq<char>, CommitStat)>::empty() + numstat_of(fs) =~= numstat_of(fs));
    while i < rs.len()
        invariant
            i <= rs@.len(),
            fs == ranges_bytes(bytes@, rs@),
            forall|k: int| #![trigger rs@[k]] 0 <= k < rs@.len() ==> rs@[k].0 <= rs@[k].1 <= bytes@.len(),
            numstat_view(out@) + numstat_of(fs.subrange(i as int, fs.len() as int)) == numstat_of(fs),
        decreases rs.len() - i,
    {
        let ghost rest = fs.subrange(i as int, fs.len() as int);
        let ghost before = numstat_view(out@);
        assert(rest[0] == bytes@.subrange(rs@[i as int].0 as int, rs@[i as int].1 as int));
        let (a, z) = rs[i];
        let f = crate::text::bytes_range(bytes, a, z);
        let (stat, rest_from) = record_stat_exec(f.as_slice());
        if rest_from == f.len() {
            assert(numstat_parts(rest[0]).2.len() == 0);
            if rs.len() - i >= 3 {
                let (na, nz) = rs[i + 2];
                assert(rest[2] == bytes@.subrange(na as int, nz as int));
                let r = NumStat { path: lossy_range(bytes, na, nz), stat };
                out.push(r);
                assert(rest.subrange(3, rest.len() as int) =~= fs.subrange(i + 3, fs.len() as int));
                assert(numstat_view(out@) =~= before.push((r.path@, r.stat)));
                assert(before.push((r.path@, r.stat)) + numstat_of(fs.subrange(i + 3, fs.len() as int))
                    =~= before + numstat_of(rest));
                i = i + 3;
            } else {
                assert(numstat_of(rest) =~= Seq::<(Seq<char>, CommitStat)>::empty());
                assert(before + numstat_of(rest) =~= before);
                assert(fs.subrange(rs@.len() as int, fs.len() as int) =~= Seq::<Seq<u8>>::empty());
                i = rs.len();
            }
        } else {
            assert(numstat_parts(rest[0]).2.len() != 0);
            let r = NumStat { path: lossy_range(f.as_slice(), rest_from, f.len()), stat };
            out.push(r);
            assert(rest.subrange(1, rest.len() as int) =~= fs.subrange(i + 1, fs.len() as int));
            assert(numstat_view(out@) =~= before.push((r.path@, r.stat)));
            assert(before.push((r.path@, r.stat)) + numstat_of(fs.subrange(i + 1, fs.len() as int))
                =~= before + numstat_of(rest));
            i = i + 1;
        }
    }
    assert(fs.subrange(rs@.len() as int, fs.len() as int) =~= Seq::<Seq<u8>>::empty());
    assert(numstat_view(out@) =~= numstat_view(out@) + Seq::<(Seq<char>, CommitStat)>::empty());
    out
}

/// The counts recorded for `path` (the last record naming it), zeros if none.
pub fn lookup_stat(records: &Vec<NumStat>, path: &String) -> (r: CommitStat)
    ensures
        r == stat_for(numstat_view(records@), path@),
{
    let mut j: usize = records.len();
    assert(records@.subrange(0, j as int) =~= records@);
    while j > 0
        invariant
            j <= records@.len(),
            stat_for(numstat_view(records@), path@) == stat_for(numstat_view(records@.subrange(0, j as int)), path@),
        decreases j,
    {
        let ghost v = numstat_view(records@.subrange(0, j as int));
        assert(v.last() == (records@[j - 1].path@, records@[j - 1].stat));
        if records[j - 1].path == *path {
            return records[j - 1].stat;
        }
        assert(v.drop_last() =~= numstat_view(records@.subrange(0, j - 1)));
        j = j - 1;
    }
    assert(numstat_view(records@.subrange(0, 0)) =~= Seq::<(Seq<char>, CommitStat)>::empty());
    CommitStat { added: 0, deleted: 0, binary: false }
}

/// The changed files: each `--name-status` entry with the counts numstat
/// recorded for its (new) path.
pub open spec fn join_files(
    ns: Seq<NameStatusView>,
    stats: Seq<(Seq<char>, CommitStat)>,
) -> Seq<CommitFileView> {
    ns.map_values(
        |e: NameStatusView|
            CommitFileView { path: e.path, orig_path: e.orig, change: e.change, stat: stat_for(stats, e.path) },
    )
}

/// The abstract values of a list of commit files.
pub open spec fn files_view(v: Seq<CommitFile>) -> Seq<CommitFileView> {
    v.map_values(|f: CommitFile| f@)
}

/// The files that differ between two trees, joined by path from the two
/// `git diff-tree -z` passes: `--name-status` for the change kind (rename
/// source included) and `--numstat` for the line counts.
pub fn commit_files(name_status: &[u8], numstat: &[u8]) -> (files: Vec<CommitFile>)
    ensures
        files_view(files@) == join_files(
            name_status_of(fields(name_status@)),
            numstat_of(fields(numstat@)),
        ),
{
    let stats = parse_numstat(numstat);
    let entries = parse_name_status(name_status);
    let ghost ns = entries@.map_values(|e: NameStatus| e@);
    let mut files: Vec<CommitFile> = Vec::new();
    let mut i: usize = 0;
    while i < entries.len()
        invariant
            i <= entries@.len(),
            ns == entries@.map_values(|e: NameStatus| e@),
            ns == name_status_of(fields(name_status@)),
            numstat_view(stats@) == numstat_of(fields(numstat@)),
            files_view(files@) == join_files(ns.subrange(0, i as int), numstat_view(stats@)),
        decreases entries.len() - i,
    {
        let e = &entries[i];
        let stat = lookup_stat(&stats, &e.path);
        let orig = crate::git::status::clone_opt(&e.orig);
        let f = CommitFile { path: e.path.clone(), orig_path: orig, change: e.change, stat };
        let ghost before = files_view(files@);
        files.push(f);
        assert(ns.subrange(0, i + 1) =~= ns.subrange(0, i as int).push(ns[i as int]));
        assert(files_view(files@) =~= before.push(f@));
        assert(files_view(files@) =~= join_files(ns.subrange(0, i + 1), numstat_view(stats@)));
        i = i + 1;
    }
    assert(ns.subrange(0, ns.len() as int) =~= ns);
    files
}

// ---------------------------------------------------------------------------
// Ordering ref labels.
// ---------------------------------------------------------------------------

/// A ref kind's place in the badge order.
pub open spec fn kind_rank(k: RefKind) -> nat {
    match k {
        RefKind::LocalBranch => 0,
        RefKind::RemoteBranch => 1,
        RefKind::Tag => 2,
        RefKind::Head => 3,
    }
}

/// Whether oid `a` sorts before `b` (by its bytes).
pub open spec fn oid_lt(a: Oid, b: Oid) -> bool {
    a.hi < b.hi || (a.hi == b.hi && (a.mid < b.mid || (a.mid == b.mid && a.lo < b.lo)))
}

/// Whether label `a` sorts before `b`: by kind, then name, then target.
pub open spec fn ref_lt(a: RefLabel, b: RefLabel) -> bool {
    kind_rank(a.kind) < kind_rank(b.kind) || (kind_rank(a.kind) == kind_rank(b.kind) && (key_lt(
        a.name@,
        b.name@,
    ) || (a.name@ == b.name@ && oid_lt(a.target, b.target))))
}

/// Whether labels are in ascending order.
pub open spec fn refs_sorted(s: Seq<RefLabel>) -> bool {
    forall|i: int, j: int| 0 <= i < j < s.len() ==> !ref_lt(s[j], s[i])
}

fn kind_rank_exec(k: RefKind) -> (r: u8)
    ensures
        r as nat == kind_rank(k),
{
    match k {
        RefKind::LocalBranch => 0,
        RefKind::RemoteBranch => 1,
        RefKind::Tag => 2,
        RefKind::Head => 3,
    }
}

/// Whether label `a` sorts before `b`.
fn ref_less(a: &RefLabel, b: &RefLabel) -> (r: bool)
    ensures
        r == ref_lt(*a, *b),
{
    let ka = kind_rank_exec(a.kind);
    let kb = kind_rank_exec(b.kind);
    if ka != kb {
        return ka < kb;
    }
    if key_less(a.name.as_str(), b.name.as_str()) {
        return true;
    }
    if !crate::text::str_eq(a.name.as_str(), b.name.as_str()) {
        return false;
    }
    let (x, y) = (a.target, b.target);
    x.hi < y.hi || (x.hi == y.hi && (x.mid < y.mid || (x.mid == y.mid && x.lo < y.lo)))
}

proof fn lemma_ref_order(a: RefLabel, b: RefLabel, c: RefLabel)
    ensures
        !ref_lt(a, a),
        ref_lt(a, b) ==> !ref_lt(b, a),
        !ref_lt(a, b) && !ref_lt(b, a) ==> kind_rank(a.kind) == kind_rank(b.kind) && a.name@ == b.name@
            && a.target == b.target,
        ref_lt(a, b) && ref_lt(b, c) ==> ref_lt(a, c),
        !ref_lt(b, a) && !ref_lt(c, b) ==> !ref_lt(c, a),
{
    lemma_key_lt_total(a.name@, b.name@);
    lemma_key_lt_total(b.name@, c.name@);
    lemma_key_lt_total(a.name@, c.name@);
    lemma_key_lt_total(a.name@, a.name@);
    if key_lt(a.name@, b.name@) && key_lt(b.name@, c.name@) {
        lemma_key_lt_trans(a.name@, b.name@, c.name@);
    }
    if key_lt(c.name@, b.name@) && key_lt(b.name@, a.name@) {
        lemma_key_lt_trans(c.name@, b.name@, a.name@);
    }
}

/// A copy of a ref label.
fn copy_label(r: &RefLabel) -> (c: RefLabel)
    ensures
        c == *r,
{
    RefLabel { name: r.name.clone(), target: r.target, kind: r.kind }
}

/// Sorts labels by kind, name, then target, so named refs read before the
/// `HEAD` marker on a graph row and two reads of the same refs compare equal
/// element by element whatever order they were listed in.
pub fn sort_ref_labels(refs: &mut Vec<RefLabel>)
    ensures
        refs_sorted(final(refs)@),
        final(refs)@.to_multiset() == old(refs)@.to_multiset(),
{
    let mut r: Vec<RefLabel> = Vec::new();
    let mut i: usize = 0;
    assert(refs@.take(0) =~= r@);
    while i < refs.len()
        invariant
            i <= refs@.len(),
            refs_sorted(r@),
            r@.to_multiset() == refs@.take(i as int).to_multiset(),
        decreases refs.len() - i,
    {
        let x = copy_label(&refs[i]);
        let mut pos: usize = 0;
        while pos < r.len() && !ref_less(&x, &r[pos])
            invariant
                pos <= r@.len(),
                forall|k: int| 0 <= k < pos ==> !ref_lt(x, r@[k]),
            decreases r.len() - pos,
        {
            pos = pos + 1;
        }
        let ghost before = r@;
        r.insert(pos, x);
        proof {
            assert(refs@.take(i + 1) =~= refs@.take(i as int).push(x));
            vstd::seq_lib::to_multiset_insert(before, pos as int, x);
            vstd::seq_lib::to_multiset_build(refs@.take(i as int), x);
            assert forall|a: int, b: int| 0 <= a < b < r@.len() implies !ref_lt(r@[b], r@[a]) by {
                if a < pos && b == pos {
                    lemma_ref_order(r@[a], x, x);
                } else if a == pos && b > pos {
                    assert(r@[b] == before[b - 1]);
                    if pos < before.len() {
                        assert(ref_lt(x, before[pos as int]));
                        lemma_ref_order(x, before[pos as int], before[b - 1]);
                        lemma_ref_order(before[b - 1], x, before[pos as int]);
                    }
                } else if a < pos && b > pos {
                    assert(r@[b] == before[b - 1]);
                    assert(r@[a] == before[a]);
                } else if a > pos {
                    assert(r@[a] == before[a - 1]);
                    assert(r@[b] == before[b - 1]);
                } else {
                    assert(r@[a] == before[a]);
                    assert(r@[b] == before[b]);
                }
            }
        }
        i = i + 1;
    }
    assert(refs@.take(i as int) =~= refs@);
    *refs = r;
}

} // verus!
