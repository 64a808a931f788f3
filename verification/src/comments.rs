//! Review comments: the store model, id minting, garbage collection of dead
//! inboxes, and the re-anchor engine that follows a comment through a changed
//! diff.
//!
//! The store lives on disk as JSON (`<common_dir>/strix/comments.json`); the
//! reading and writing of that file, and the serde shapes, belong to the
//! program around this library. Branch inboxes are kept as `(key, inbox)`
//! pairs in key order, exactly as the file's map lists them.

use vstd::prelude::*;
use crate::git::diff::{DiffLine, FileDiff};
use crate::git::history::CommitFile;
use crate::text::chars_of;

verus! {

/// The store schema version this build reads and writes.
pub const STORE_VERSION: u32 = 1;

/// Content-match re-anchoring only relocates a comment within this many lines
/// of its stored position; a farther match orphans instead.
pub const REANCHOR_WINDOW: usize = 10;

/// A detached-HEAD branch key is a full SHA-1 commit hex of this many chars.
pub const COMMIT_HEX_LEN: usize = 40;

/// Who authored a comment.
#[derive(Clone, Copy, Debug, PartialEq, Eq, Structural)]
pub enum Source {
    Human,
    Agent,
}

/// Which side of the diff a comment anchors to.
#[derive(Clone, Copy, Debug, PartialEq, Eq, Structural)]
pub enum Side {
    Old,
    New,
}

/// A single review comment anchored to a line of a file's diff.
#[derive(Clone, Debug, PartialEq, Eq)]
pub struct Comment {
    pub id: u64,
    pub source: Source,
    /// The file's new-side path; a later rename orphans it.
    pub file: String,
    pub side: Side,
    /// 1-based line number on `side`.
    pub line: usize,
    pub text: String,
    /// The anchored line's text at authoring time. `None` means "context
    /// unavailable" and always orphans on drift — it never content-matches.
    pub context: Option<String>,
    pub orphaned: bool,
    /// Unix epoch seconds.
    pub created_at: u64,
}

/// One branch's inbox: the last reviewed range and its comments.
#[derive(Clone, Debug, PartialEq, Eq)]
pub struct Branch {
    pub range: Option<String>,
    pub comments: Vec<Comment>,
}

/// The whole comments store: a global id counter plus per-branch inboxes, in
/// key order.
#[derive(Clone, Debug, PartialEq, Eq)]
pub struct Store {
    pub version: u32,
    pub next_id: u64,
    pub branches: Vec<(String, Branch)>,
}

impl Default for Store {
    fn default() -> (s: Store)
        ensures
            s.version == STORE_VERSION,
            s.next_id == 1,
            s.branches@.len() == 0,
    {
        Store { version: STORE_VERSION, next_id: 1, branches: Vec::new() }
    }
}

/// Whether a store read from disk has a schema this build understands (a
/// newer one is refused for reading and, by extension, writing).
pub fn version_supported(version: u32) -> (b: bool)
    ensures
        b == (version <= STORE_VERSION),
{
    version <= STORE_VERSION
}

/// The ids of a list of comments.
pub open spec fn comment_ids(cs: Seq<Comment>) -> Seq<u64> {
    cs.map_values(|c: Comment| c.id)
}

/// The ids of every comment in every inbox, inbox by inbox.
pub open spec fn store_ids(bs: Seq<(String, Branch)>) -> Seq<u64>
    decreases bs.len(),
{
    if bs.len() == 0 {
        seq![]
    } else {
        store_ids(bs.drop_last()) + comment_ids(bs.last().1.comments@)
    }
}

/// The largest of a list of ids, 0 for none.
pub open spec fn max_id(ids: Seq<u64>) -> nat
    decreases ids.len(),
{
    if ids.len() == 0 {
        0
    } else if max_id(ids.drop_last()) >= ids.last() {
        max_id(ids.drop_last())
    } else {
        ids.last() as nat
    }
}

proof fn lemma_max_id_bounds(ids: Seq<u64>)
    ensures
        forall|i: int| 0 <= i < ids.len() ==> ids[i] <= max_id(ids),
    decreases ids.len(),
{
    if ids.len() > 0 {
        lemma_max_id_bounds(ids.drop_last());
        assert forall|i: int| 0 <= i < ids.len() implies ids[i] <= max_id(ids) by {
            if i < ids.len() - 1 {
                assert(ids[i] == ids.drop_last()[i]);
            }
        }
    }
}

proof fn lemma_max_id_append(a: Seq<u64>, b: Seq<u64>)
    ensures
        max_id(a + b) == if max_id(a) >= max_id(b) {
            max_id(a)
        } else {
            max_id(b)
        },
    decreases b.len(),
{
    if b.len() == 0 {
        assert(a + b =~= a);
    } else {
        assert((a + b).drop_last() =~= a + b.drop_last());
        lemma_max_id_append(a, b.drop_last());
    }
}

/// The id [`Store::take_id`] mints: past both the counter and every id in use.
pub open spec fn minted_id(next_id: u64, bs: Seq<(String, Branch)>) -> nat {
    if next_id >= max_id(store_ids(bs)) + 1 {
        next_id as nat
    } else {
        max_id(store_ids(bs)) + 1
    }
}

/// The largest id among `cs`, computed.
fn max_comment_id(cs: &Vec<Comment>) -> (m: u64)
    ensures
        m as nat == max_id(comment_ids(cs@)),
{
    let mut m: u64 = 0;
    let mut i: usize = 0;
    while i < cs.len()
        invariant
            i <= cs@.len(),
            m as nat == max_id(comment_ids(cs@.subrange(0, i as int))),
        decreases cs.len() - i,
    {
        assert(comment_ids(cs@.subrange(0, i + 1)).drop_last() =~= comment_ids(cs@.subrange(0, i as int)));
        if cs[i].id > m {
            m = cs[i].id;
        }
        i = i + 1;
    }
    assert(cs@.subrange(0, cs@.len() as int) =~= cs@);
    m
}

impl Store {
    /// Mint the next comment id, advancing the global counter.
    ///
    /// `next_id` is a hint, not a source of truth: a hand-edited store can
    /// carry a counter at or below an existing id. Minting
    /// `max(next_id, max_id + 1)` keeps ids unique regardless.
    pub fn take_id(&mut self) -> (id: u64)
        requires
            old(self).next_id < u64::MAX,
            max_id(store_ids(old(self).branches@)) + 2 <= u64::MAX,
        ensures
            id as nat == minted_id(old(self).next_id, old(self).branches@),
            final(self).next_id == id + 1,
            final(self).branches == old(self).branches,
            final(self).version == old(self).version,
            id >= old(self).next_id,
            forall|i: int|
                0 <= i < store_ids(old(self).branches@).len() ==> #[trigger] store_ids(
                    old(self).branches@,
                )[i] < id,
    {
        let mut max_existing: u64 = 0;
        let mut b: usize = 0;
        while b < self.branches.len()
            invariant
                b <= self.branches@.len(),
                max_existing as nat == max_id(store_ids(self.branches@.subrange(0, b as int))),
            decreases self.branches.len() - b,
        {
            let m = max_comment_id(&self.branches[b].1.comments);
            proof {
                let pre = self.branches@.subrange(0, b as int);
                let cur = self.branches@.subrange(0, b + 1);
                assert(cur.drop_last() =~= pre);
                lemma_max_id_append(store_ids(pre), comment_ids(cur.last().1.comments@));
            }
            if m > max_existing {
                max_existing = m;
            }
            b = b + 1;
        }
        assert(self.branches@.subrange(0, self.branches@.len() as int) =~= self.branches@);
        proof {
            lemma_max_id_bounds(store_ids(self.branches@));
        }
        let id = if self.next_id > max_existing {
            self.next_id
        } else {
            max_existing + 1
        };
        self.next_id = id + 1;
        id
    }
}

/// What a GC pass removed.
#[derive(Clone, Debug, Default, PartialEq, Eq)]
pub struct GcResult {
    /// The branch keys whose inbox was dropped.
    pub removed_branches: Vec<String>,
    /// Total comments dropped across those keys.
    pub removed_comments: usize,
}

impl GcResult {
    /// Whether the pass dropped nothing.
    pub fn is_empty(&self) -> (b: bool)
        ensures
            b == (self.removed_branches@.len() == 0),
    {
        self.removed_branches.len() == 0
    }
}

/// Whether a char is an ASCII hexadecimal digit.
pub open spec fn is_hex_char(c: char) -> bool {
    ('0' <= c <= '9') || ('a' <= c <= 'f') || ('A' <= c <= 'F')
}

/// Whether a key has the shape of a full commit hex (40 ASCII hex digits).
pub open spec fn is_commit_hex(key: Seq<char>) -> bool {
    key.len() == COMMIT_HEX_LEN && forall|i: int| 0 <= i < key.len() ==> is_hex_char(#[trigger] key[i])
}

/// Whether `key` has the shape of a detached-HEAD commit key.
pub fn is_commit_hex_exec(key: &String) -> (b: bool)
    ensures
        b == is_commit_hex(key@),
{
    let cs = chars_of(key.as_str());
    if cs.len() != COMMIT_HEX_LEN {
        return false;
    }
    let mut i: usize = 0;
    while i < cs.len()
        invariant
            i <= cs@.len(),
            cs@ == key@,
            forall|j: int| 0 <= j < i ==> is_hex_char(#[trigger] cs@[j]),
        decreases cs.len() - i,
    {
        let c = cs[i];
        if !(('0' <= c && c <= '9') || ('a' <= c && c <= 'f') || ('A' <= c && c <= 'F')) {
            return false;
        }
        i = i + 1;
    }
    true
}

/// The characters of each string of a list.
pub open spec fn strings_view(v: Seq<String>) -> Seq<Seq<char>> {
    v.map_values(|s: String| s@)
}

/// Whether `key` occurs among `v`.
pub fn contains_string(v: &[String], key: &String) -> (b: bool)
    ensures
        b == strings_view(v@).contains(key@),
{
    let mut i: usize = 0;
    while i < v.len()
        invariant
            i <= v@.len(),
            forall|j: int| 0 <= j < i ==> (#[trigger] v@[j])@ != key@,
        decreases v.len() - i,
    {
        if v[i] == *key {
            assert(strings_view(v@)[i as int] == key@);
            return true;
        }
        i = i + 1;
    }
    assert(!strings_view(v@).contains(key@)) by {
        if strings_view(v@).contains(key@) {
            let j = choose|j: int| 0 <= j < strings_view(v@).len() && strings_view(v@)[j] == key@;
            assert(v@[j]@ == key@);
        }
    }
    false
}

/// Whether an inbox survives GC: its key is a live branch, or it has the
/// commit-hex shape and that commit still resolves. Live-branch membership is
/// checked first, so a live branch named like a commit hex is always kept.
pub open spec fn inbox_kept(key: Seq<char>, live: Seq<Seq<char>>, existing: Seq<Seq<char>>) -> bool {
    live.contains(key) || (is_commit_hex(key) && existing.contains(key))
}

/// The inboxes GC keeps, in order.
pub open spec fn kept_inboxes(
    bs: Seq<(String, Branch)>,
    live: Seq<Seq<char>>,
    existing: Seq<Seq<char>>,
) -> Seq<(String, Branch)>
    decreases bs.len(),
{
    if bs.len() == 0 {
        seq![]
    } else if inbox_kept(bs.last().0@, live, existing) {
        kept_inboxes(bs.drop_last(), live, existing).push(bs.last())
    } else {
        kept_inboxes(bs.drop_last(), live, existing)
    }
}

/// The keys of the inboxes GC drops, in order.
pub open spec fn dropped_keys(
    bs: Seq<(String, Branch)>,
    live: Seq<Seq<char>>,
    existing: Seq<Seq<char>>,
) -> Seq<Seq<char>>
    decreases bs.len(),
{
    if bs.len() == 0 {
        seq![]
    } else if inbox_kept(bs.last().0@, live, existing) {
        dropped_keys(bs.drop_last(), live, existing)
    } else {
        dropped_keys(bs.drop_last(), live, existing).push(bs.last().0@)
    }
}

/// How many comments the dropped inboxes held.
pub open spec fn dropped_count(
    bs: Seq<(String, Branch)>,
    live: Seq<Seq<char>>,
    existing: Seq<Seq<char>>,
) -> nat
    decreases bs.len(),
{
    if bs.len() == 0 {
        0
    } else if inbox_kept(bs.last().0@, live, existing) {
        dropped_count(bs.drop_last(), live, existing)
    } else {
        dropped_count(bs.drop_last(), live, existing) + bs.last().1.comments@.len()
    }
}

/// How many comments all inboxes hold.
pub open spec fn total_comments(bs: Seq<(String, Branch)>) -> nat
    decreases bs.len(),
{
    if bs.len() == 0 {
        0
    } else {
        total_comments(bs.drop_last()) + bs.last().1.comments@.len()
    }
}

proof fn lemma_dropped_le_total(bs: Seq<(String, Branch)>, live: Seq<Seq<char>>, existing: Seq<Seq<char>>)
    ensures
        dropped_count(bs, live, existing) <= total_comments(bs),
    decreases bs.len(),
{
    if bs.len() > 0 {
        lemma_dropped_le_total(bs.drop_last(), live, existing);
    }
}

/// Drop dead inboxes: keys that are neither a live local branch nor a
/// commit-hex key whose commit still resolves. `live_branches` is the set of
/// local branch short names; `existing_commits` lists the commit-hex keys that
/// still resolve in the repository. Returns what was removed.
pub fn gc(store: &mut Store, live_branches: &[String], existing_commits: &[String]) -> (result: GcResult)
    requires
        total_comments(old(store).branches@) <= usize::MAX,
    ensures
        final(store).branches@ == kept_inboxes(
            old(store).branches@,
            strings_view(live_branches@),
            strings_view(existing_commits@),
        ),
        strings_view(result.removed_branches@) == dropped_keys(
            old(store).branches@,
            strings_view(live_branches@),
            strings_view(existing_commits@),
        ),
        result.removed_comments == dropped_count(
            old(store).branches@,
            strings_view(live_branches@),
            strings_view(existing_commits@),
        ),
        final(store).version == old(store).version,
        final(store).next_id == old(store).next_id,
        crate::comment_cli::keys_sorted(old(store).branches@) ==> crate::comment_cli::keys_sorted(
            final(store).branches@,
        ) && keys_ascending(strings_view(result.removed_branches@)),
{
    proof {
        lemma_gc_keeps_order(old(store).branches@, strings_view(live_branches@), strings_view(existing_commits@));
    }
    let ghost live = strings_view(live_branches@);
    let ghost ex = strings_view(existing_commits@);
    let mut taken: Vec<(String, Branch)> = Vec::new();
    core::mem::swap(&mut taken, &mut store.branches);
    let ghost all = taken@;
    let mut removed: Vec<String> = Vec::new();
    let mut count: usize = 0;
    let mut kept: Vec<(String, Branch)> = Vec::new();
    for item in it: taken.into_iter()
        invariant
            it.seq() == all,
            live == strings_view(live_branches@),
            ex == strings_view(existing_commits@),
            total_comments(all) <= usize::MAX,
            kept@ == kept_inboxes(all.subrange(0, it.index() as int), live, ex),
            strings_view(removed@) == dropped_keys(all.subrange(0, it.index() as int), live, ex),
            count as nat == dropped_count(all.subrange(0, it.index() as int), live, ex),
    {
        let ghost i = it.index();
        let ghost pre = all.subrange(0, i as int);
        let ghost cur = all.subrange(0, i + 1);
        assert(cur.drop_last() =~= pre);
        assert(cur.last() == item);
        proof {
            lemma_dropped_le_total(cur, live, ex);
            lemma_total_prefix(all, i + 1);
        }
        let in_live = contains_string(live_branches, &item.0);
        let hex = is_commit_hex_exec(&item.0);
        let in_existing = contains_string(existing_commits, &item.0);
        let keep = in_live || (hex && in_existing);
        assert(keep == inbox_kept(cur.last().0@, live, ex));
        if keep {
            let ghost before = kept@;
            kept.push(item);
            assert(kept@ =~= before.push(cur.last()));
            assert(kept_inboxes(cur, live, ex) == kept_inboxes(pre, live, ex).push(cur.last()));
        } else {
            assert(dropped_count(cur, live, ex) == dropped_count(pre, live, ex) + cur.last().1.comments@.len());
            assert(dropped_keys(cur, live, ex) == dropped_keys(pre, live, ex).push(cur.last().0@));
            assert(kept_inboxes(cur, live, ex) == kept_inboxes(pre, live, ex));
            let n = item.1.comments.len();
            count = count + n;
            let ghost before = strings_view(removed@);
            removed.push(item.0);
            assert(strings_view(removed@) =~= before.push(cur.last().0@));
        }
    }
    assert(all.subrange(0, all.len() as int) =~= all);
    store.branches = kept;
    GcResult { removed_branches: removed, removed_comments: count }
}

/// Whether keys are in strictly ascending order.
pub open spec fn keys_ascending(ks: Seq<Seq<char>>) -> bool {
    forall|i: int, j: int| 0 <= i < j < ks.len() ==> crate::text::key_lt(ks[i], ks[j])
}

proof fn lemma_gc_parts_from(bs: Seq<(String, Branch)>, live: Seq<Seq<char>>, existing: Seq<Seq<char>>)
    ensures
        forall|k: int| 0 <= k < kept_inboxes(bs, live, existing).len() ==> exists|j: int|
            0 <= j < bs.len() && #[trigger] kept_inboxes(bs, live, existing)[k] == bs[j],
        forall|k: int| 0 <= k < dropped_keys(bs, live, existing).len() ==> exists|j: int|
            0 <= j < bs.len() && #[trigger] dropped_keys(bs, live, existing)[k] == bs[j].0@,
    decreases bs.len(),
{
    if bs.len() > 0 {
        let init = bs.drop_last();
        lemma_gc_parts_from(init, live, existing);
        assert forall|k: int| 0 <= k < kept_inboxes(bs, live, existing).len() implies exists|j: int|
            0 <= j < bs.len() && #[trigger] kept_inboxes(bs, live, existing)[k] == bs[j] by {
            if k < kept_inboxes(init, live, existing).len() {
                let j = choose|j: int| 0 <= j < init.len() && kept_inboxes(init, live, existing)[k] == init[j];
                assert(bs[j] == init[j]);
            } else {
                assert(kept_inboxes(bs, live, existing)[k] == bs[bs.len() - 1]);
            }
        }
        assert forall|k: int| 0 <= k < dropped_keys(bs, live, existing).len() implies exists|j: int|
            0 <= j < bs.len() && #[trigger] dropped_keys(bs, live, existing)[k] == bs[j].0@ by {
            if k < dropped_keys(init, live, existing).len() {
                let j = choose|j: int| 0 <= j < init.len() && dropped_keys(init, live, existing)[k] == init[j].0@;
                assert(bs[j] == init[j]);
            } else {
                assert(dropped_keys(bs, live, existing)[k] == bs[bs.len() - 1].0@);
            }
        }
    }
}

/// GC keeps the inboxes' key order, and so reports the dropped keys in
/// ascending order, when the store holds its inboxes in key order.
pub proof fn lemma_gc_keeps_order(bs: Seq<(String, Branch)>, live: Seq<Seq<char>>, existing: Seq<Seq<char>>)
    ensures
        crate::comment_cli::keys_sorted(bs) ==> crate::comment_cli::keys_sorted(kept_inboxes(bs, live, existing))
            && keys_ascending(dropped_keys(bs, live, existing)),
    decreases bs.len(),
{
    if bs.len() > 0 && crate::comment_cli::keys_sorted(bs) {
        let init = bs.drop_last();
        let last = bs.last();
        assert(crate::comment_cli::keys_sorted(init)) by {
            assert forall|i: int, j: int| 0 <= i < j < init.len() implies crate::text::key_lt(init[i].0@, init[j].0@) by {
                assert(init[i] == bs[i] && init[j] == bs[j]);
            }
        }
        lemma_gc_keeps_order(init, live, existing);
        lemma_gc_parts_from(init, live, existing);
        let ki = kept_inboxes(init, live, existing);
        let di = dropped_keys(init, live, existing);
        if inbox_kept(last.0@, live, existing) {
            let k = kept_inboxes(bs, live, existing);
            assert(k == ki.push(last));
            assert forall|i: int, j: int| 0 <= i < j < k.len() implies crate::text::key_lt(k[i].0@, k[j].0@) by {
                if j == k.len() - 1 {
                    let w = choose|w: int| 0 <= w < init.len() && ki[i] == init[w];
                    assert(init[w] == bs[w]);
                    assert(k[i] == ki[i]);
                } else {
                    assert(k[i] == ki[i] && k[j] == ki[j]);
                }
            }
        } else {
            let d = dropped_keys(bs, live, existing);
            assert(d == di.push(last.0@));
            assert forall|i: int, j: int| 0 <= i < j < d.len() implies crate::text::key_lt(d[i], d[j]) by {
                if j == d.len() - 1 {
                    let w = choose|w: int| 0 <= w < init.len() && di[i] == init[w].0@;
                    assert(init[w] == bs[w]);
                    assert(d[i] == di[i]);
                } else {
                    assert(d[i] == di[i] && d[j] == di[j]);
                }
            }
        }
    }
}

/// A GC pass reports nothing dropped exactly when it kept every inbox, so
/// an empty result may skip the write.
pub proof fn lemma_gc_empty_iff_unchanged(bs: Seq<(String, Branch)>, live: Seq<Seq<char>>, existing: Seq<Seq<char>>)
    ensures
        (dropped_keys(bs, live, existing).len() == 0) == (kept_inboxes(bs, live, existing) == bs),
    decreases bs.len(),
{
    if bs.len() == 0 {
        assert(kept_inboxes(bs, live, existing) =~= bs);
    } else {
        let init = bs.drop_last();
        lemma_gc_empty_iff_unchanged(init, live, existing);
        lemma_kept_len(init, live, existing);
        let ki = kept_inboxes(init, live, existing);
        let kb = kept_inboxes(bs, live, existing);
        if inbox_kept(bs.last().0@, live, existing) {
            assert(kb == ki.push(bs.last()));
            assert(dropped_keys(bs, live, existing) == dropped_keys(init, live, existing));
            if ki == init {
                assert(init.push(bs.last()) =~= bs);
            } else {
                if kb =~= bs {
                    assert(kb.drop_last() =~= ki);
                    assert(bs.drop_last() =~= init);
                    assert(false);
                }
            }
        } else {
            assert(kb == ki);
            assert(dropped_keys(bs, live, existing).len() > 0);
            assert(kb.len() < bs.len());
        }
    }
}

proof fn lemma_kept_len(bs: Seq<(String, Branch)>, live: Seq<Seq<char>>, existing: Seq<Seq<char>>)
    ensures
        kept_inboxes(bs, live, existing).len() <= bs.len(),
    decreases bs.len(),
{
    if bs.len() > 0 {
        lemma_kept_len(bs.drop_last(), live, existing);
    }
}

proof fn lemma_total_prefix(bs: Seq<(String, Branch)>, k: int)
    requires
        0 <= k <= bs.len(),
    ensures
        total_comments(bs.subrange(0, k)) <= total_comments(bs),
    decreases bs.len() - k,
{
    if k < bs.len() {
        lemma_total_prefix(bs, k + 1);
        assert(bs.subrange(0, k + 1).drop_last() =~= bs.subrange(0, k));
    } else {
        assert(bs.subrange(0, k) =~= bs);
    }
}

// ---------------------------------------------------------------------------
// Re-anchoring
// ---------------------------------------------------------------------------

/// The line number a diff line carries on `side`.
pub open spec fn side_no(l: DiffLine, side: Side) -> Option<usize> {
    match side {
        Side::Old => l.old_no,
        Side::New => l.new_no,
    }
}

/// The line number a diff line carries on `side`.
pub fn side_no_exec(l: &DiffLine, side: Side) -> (r: Option<usize>)
    ensures
        r == side_no(*l, side),
{
    match side {
        Side::Old => l.old_no,
        Side::New => l.new_no,
    }
}

/// An exact hit: a line on the comment's side with the comment's number whose
/// text equals the stored context. A comment without context never hits.
pub open spec fn exact_hit(lines: Seq<DiffLine>, c: Comment) -> bool {
    match c.context {
        Some(ctx) => exists|i: int|
            0 <= i < lines.len() && side_no(#[trigger] lines[i], c.side) == Some(c.line)
                && lines[i].text@ == ctx@,
        None => false,
    }
}

/// The distance between two line numbers.
pub open spec fn dist(a: usize, b: usize) -> nat {
    if a >= b {
        (a - b) as nat
    } else {
        (b - a) as nat
    }
}

/// A content match among the first `k` lines: a line on `side` whose text
/// equals `ctx`, numbered `n`, within the re-anchor window of `line`.
pub open spec fn candidate_upto(
    lines: Seq<DiffLine>,
    side: Side,
    ctx: Seq<char>,
    line: usize,
    n: usize,
    k: int,
) -> bool {
    dist(n, line) <= REANCHOR_WINDOW && exists|i: int|
        0 <= i < k && i < lines.len() && (#[trigger] lines[i]).text@ == ctx && side_no(lines[i], side) == Some(n)
}

/// A content match anywhere in the diff.
pub open spec fn candidate(lines: Seq<DiffLine>, side: Side, ctx: Seq<char>, line: usize, n: usize) -> bool {
    candidate_upto(lines, side, ctx, line, n, lines.len() as int)
}

/// `n` is at least as good a match as `m`: closer to `line`, the smaller
/// number on a tie.
pub open spec fn closer(n: usize, m: usize, line: usize) -> bool {
    dist(n, line) < dist(m, line) || (dist(n, line) == dist(m, line) && n <= m)
}

/// The best content match: a candidate at least as good as every other.
pub open spec fn is_best(lines: Seq<DiffLine>, side: Side, ctx: Seq<char>, line: usize, n: usize) -> bool {
    candidate(lines, side, ctx, line, n) && forall|m: usize|
        #[trigger] candidate(lines, side, ctx, line, m) ==> closer(n, m, line)
}

/// The best match is unique.
pub proof fn lemma_best_unique(lines: Seq<DiffLine>, side: Side, ctx: Seq<char>, line: usize, n: usize, m: usize)
    requires
        is_best(lines, side, ctx, line, n),
        is_best(lines, side, ctx, line, m),
    ensures
        n == m,
{
    assert(closer(n, m, line));
    assert(closer(m, n, line));
}

/// A comment re-anchored against one file's diff: binary content orphans; an
/// exact hit keeps the line; otherwise the best content match (only when
/// context is stored) moves the comment there; otherwise it orphans, keeping
/// its stored line for display.
pub open spec fn reanchor_one_spec(c: Comment, diff: FileDiff) -> Comment {
    match diff {
        FileDiff::Binary => Comment { orphaned: true, ..c },
        FileDiff::Text(v) => {
            let lines = v@;
            if exact_hit(lines, c) {
                Comment { orphaned: false, ..c }
            } else {
                match c.context {
                    Some(ctx) => if exists|n: usize| is_best(lines, c.side, ctx@, c.line, n) {
                        let n = choose|n: usize| is_best(lines, c.side, ctx@, c.line, n);
                        Comment { line: n, orphaned: false, ..c }
                    } else {
                        Comment { orphaned: true, ..c }
                    },
                    None => Comment { orphaned: true, ..c },
                }
            }
        },
    }
}

fn closer_exec(n: usize, m: usize, line: usize) -> (b: bool)
    ensures
        b == closer(n, m, line),
{
    let dn = if n >= line {
        n - line
    } else {
        line - n
    };
    let dm = if m >= line {
        m - line
    } else {
        line - m
    };
    dn < dm || (dn == dm && n <= m)
}

/// Re-anchor one comment against its file's diff.
pub fn reanchor_one(comment: &mut Comment, diff: &FileDiff)
    ensures
        *final(comment) == reanchor_one_spec(*old(comment), *diff),
{
    let lines = match diff {
        FileDiff::Binary => {
            comment.orphaned = true;
            return;
        },
        FileDiff::Text(lines) => lines,
    };
    let ghost c0 = *comment;
    // Exact hit.
    if let Some(ctx) = &comment.context {
        let mut i: usize = 0;
        while i < lines.len()
            invariant
                i <= lines@.len(),
                c0 == *comment,
                c0 == *old(comment),
                *diff == FileDiff::Text(*lines),
                comment.context == Some(*ctx),
                forall|j: int|
                    0 <= j < i ==> !(side_no(#[trigger] lines@[j], c0.side) == Some(c0.line) && lines@[j].text@ == ctx@),
            decreases lines.len() - i,
        {
            if side_no_exec(&lines[i], comment.side) == Some(comment.line) && lines[i].text == *ctx {
                assert(side_no(lines@[i as int], c0.side) == Some(c0.line) && lines@[i as int].text@ == ctx@);
                assert(exact_hit(lines@, c0));
                comment.orphaned = false;
                return;
            }
            i = i + 1;
        }
        assert(!exact_hit(lines@, c0));
        // Content match within the window: closest wins, ties to the smaller line.
        let mut best: Option<usize> = None;
        let mut i: usize = 0;
        while i < lines.len()
            invariant
                i <= lines@.len(),
                c0 == *comment,
                comment.context == Some(*ctx),
                match best {
                    Some(b) => candidate_upto(lines@, c0.side, ctx@, c0.line, b, i as int)
                        && forall|m: usize| #[trigger] candidate_upto(lines@, c0.side, ctx@, c0.line, m, i as int)
                            ==> closer(b, m, c0.line),
                    None => forall|m: usize| !#[trigger] candidate_upto(lines@, c0.side, ctx@, c0.line, m, i as int),
                },
            decreases lines.len() - i,
        {
            let l = &lines[i];
            if l.text == *ctx {
                if let Some(n) = side_no_exec(l, comment.side) {
                    let d = if n >= comment.line {
                        n - comment.line
                    } else {
                        comment.line - n
                    };
                    if d <= REANCHOR_WINDOW {
                        let take = match best {
                            Some(b) => closer_exec(n, b, comment.line) && n != b,
                            None => true,
                        };
                        if take {
                            best = Some(n);
                        }
                    }
                }
            }
            proof {
                assert forall|m: usize| #[trigger] candidate_upto(lines@, c0.side, ctx@, c0.line, m, i + 1)
                    implies (candidate_upto(lines@, c0.side, ctx@, c0.line, m, i as int)
                    || (lines@[i as int].text@ == ctx@ && side_no(lines@[i as int], c0.side) == Some(m)
                        && dist(m, c0.line) <= REANCHOR_WINDOW)) by {
                    let j = choose|j: int|
                        0 <= j < i + 1 && j < lines@.len() && (#[trigger] lines@[j]).text@ == ctx@
                            && side_no(lines@[j], c0.side) == Some(m);
                    if j < i {
                        assert(candidate_upto(lines@, c0.side, ctx@, c0.line, m, i as int));
                    }
                }
                if let Some(b) = best {
                    assert(candidate_upto(lines@, c0.side, ctx@, c0.line, b, i + 1));
                }
            }
            i = i + 1;
        }
        match best {
            Some(n) => {
                proof {
                    assert(is_best(lines@, c0.side, ctx@, c0.line, n));
                    let k = choose|k: usize| is_best(lines@, c0.side, ctx@, c0.line, k);
                    lemma_best_unique(lines@, c0.side, ctx@, c0.line, n, k);
                }
                comment.line = n;
                comment.orphaned = false;
            },
            None => {
                assert(!exists|n: usize| is_best(lines@, c0.side, ctx@, c0.line, n));
                comment.orphaned = true;
            },
        }
    } else {
        comment.orphaned = true;
    }
}

/// The index of the first file listed under `path`.
pub open spec fn first_file(files: Seq<CommitFile>, path: Seq<char>) -> Option<int>
    decreases files.len(),
{
    if files.len() == 0 {
        None
    } else if files[0].path@ == path {
        Some(0)
    } else {
        match first_file(files.subrange(1, files.len() as int), path) {
            Some(i) => Some(i + 1),
            None => None,
        }
    }
}

proof fn lemma_first_file(files: Seq<CommitFile>, path: Seq<char>)
    ensures
        match first_file(files, path) {
            Some(i) => 0 <= i < files.len() && files[i].path@ == path && forall|j: int|
                0 <= j < i ==> (#[trigger] files[j]).path@ != path,
            None => forall|j: int| 0 <= j < files.len() ==> (#[trigger] files[j]).path@ != path,
        },
    decreases files.len(),
{
    if files.len() > 0 {
        let rest = files.subrange(1, files.len() as int);
        lemma_first_file(rest, path);
        assert forall|j: int| 1 <= j < files.len() implies files[j] == rest[j - 1] by {}
    }
}

/// The first file listed under `path` is the one at `i` when no earlier
/// file has that path.
pub proof fn lemma_first_file_at(files: Seq<CommitFile>, path: Seq<char>, i: int)
    requires
        0 <= i < files.len(),
        files[i].path@ == path,
        forall|j: int| 0 <= j < i ==> (#[trigger] files[j]).path@ != path,
    ensures
        first_file(files, path) == Some(i),
{
    lemma_first_file(files, path);
}

/// No file is listed under `path` when none has it.
pub proof fn lemma_first_file_none(files: Seq<CommitFile>, path: Seq<char>)
    requires
        forall|j: int| 0 <= j < files.len() ==> (#[trigger] files[j]).path@ != path,
    ensures
        first_file(files, path) is None,
{
    lemma_first_file(files, path);
}

/// Finds the first file listed under `path`.
pub fn first_file_exec(files: &[CommitFile], path: &String) -> (r: Option<usize>)
    ensures
        match first_file(files@, path@) {
            Some(i) => r == Some(i as usize),
            None => r is None,
        },
{
    let mut j: usize = 0;
    while j < files.len()
        invariant
            j <= files@.len(),
            forall|k: int| 0 <= k < j ==> (#[trigger] files@[k]).path@ != path@,
        decreases files.len() - j,
    {
        if files[j].path == *path {
            proof {
                lemma_first_file(files@, path@);
                match first_file(files@, path@) {
                    Some(i) => {
                        if i < j {
                            assert(files@[i].path@ == path@);
                        }
                        if i > j {
                            assert(files@[j as int].path@ != path@);
                        }
                    },
                    None => {
                        assert(files@[j as int].path@ != path@);
                    },
                }
            }
            return Some(j);
        }
        j = j + 1;
    }
    proof {
        lemma_first_file(files@, path@);
        if let Some(i) = first_file(files@, path@) {
            assert(files@[i].path@ == path@);
        }
    }
    None
}

/// A comment re-anchored against the review's files: a comment whose file
/// left the list orphans; otherwise it re-anchors against that file's diff.
pub open spec fn reanchor_comment(c: Comment, files: Seq<CommitFile>, diffs: Seq<Option<FileDiff>>) -> Comment {
    match first_file(files, c.file@) {
        None => Comment { orphaned: true, ..c },
        Some(i) => reanchor_one_spec(c, diffs[i]->0),
    }
}

/// Whether a comment's line or orphan flag differs between two versions.
pub open spec fn moved(a: Comment, b: Comment) -> bool {
    a.line != b.line || a.orphaned != b.orphaned
}

/// Which files' diffs a re-anchor pass needs: exactly the files some comment
/// resolves to (a file's diff is computed at most once, and only when a
/// comment lives on it).
pub open spec fn diff_needed(comments: Seq<Comment>, files: Seq<CommitFile>, i: int) -> bool {
    exists|k: int| 0 <= k < comments.len() && first_file(files, (#[trigger] comments[k]).file@) == Some(i)
}

/// For each file, whether a re-anchor pass over `comments` needs its diff.
pub fn diffs_needed(comments: &[Comment], files: &[CommitFile]) -> (need: Vec<bool>)
    ensures
        need@.len() == files@.len(),
        forall|i: int| 0 <= i < files@.len() ==> need@[i] == diff_needed(comments@, files@, i),
{
    let mut need: Vec<bool> = Vec::new();
    let mut i: usize = 0;
    while i < files.len()
        invariant
            i <= files@.len(),
            need@.len() == i,
            forall|j: int| 0 <= j < i ==> need@[j] == false,
        decreases files.len() - i,
    {
        need.push(false);
        i = i + 1;
    }
    let mut k: usize = 0;
    while k < comments.len()
        invariant
            k <= comments@.len(),
            need@.len() == files@.len(),
            forall|i: int|
                0 <= i < files@.len() ==> need@[i] == exists|q: int|
                    0 <= q < k && first_file(files@, (#[trigger] comments@[q]).file@) == Some(i),
        decreases comments.len() - k,
    {
        let f = first_file_exec(files, &comments[k].file);
        proof {
            lemma_first_file(files@, comments@[k as int].file@);
        }
        let ghost prev = need@;
        if let Some(i) = f {
            need.set(i, true);
        }
        proof {
            let fk = first_file(files@, comments@[k as int].file@);
            if let Some(fi) = fk {
                assert(f == Some(fi as usize));
                assert(need@ == prev.update(fi, true));
            } else {
                assert(f is None);
                assert(need@ == prev);
            }
            assert forall|i: int| 0 <= i < files@.len() implies need@[i] == exists|q: int|
                0 <= q < k + 1 && first_file(files@, (#[trigger] comments@[q]).file@) == Some(i) by {
                if fk == Some(i) {
                    assert(need@[i]);
                    assert(0 <= k < k + 1 && first_file(files@, comments@[k as int].file@) == Some(i));
                } else {
                    assert(need@[i] == prev[i]);
                    if exists|q: int| 0 <= q < k + 1 && first_file(files@, (#[trigger] comments@[q]).file@) == Some(i) {
                        let q = choose|q: int| 0 <= q < k + 1 && first_file(files@, (#[trigger] comments@[q]).file@) == Some(i);
                        assert(q < k);
                        assert(exists|q: int| 0 <= q < k && first_file(files@, (#[trigger] comments@[q]).file@) == Some(i));
                    }
                }
            }
        }
        k = k + 1;
    }
    need
}

/// Re-anchor every comment against the review's current diff, in place, and
/// report whether anything moved (so the caller can skip a no-op write).
/// `diffs[i]` is the diff of `files[i]`, present for every file a comment
/// resolves to (see [`diffs_needed`]).
pub fn reanchor(comments: &mut Vec<Comment>, files: &[CommitFile], diffs: &[Option<FileDiff>]) -> (changed: bool)
    requires
        files@.len() == diffs@.len(),
        forall|k: int| 0 <= k < old(comments)@.len() ==> match first_file(files@, (#[trigger] old(comments)@[k]).file@) {
            Some(i) => diffs@[i] is Some,
            None => true,
        },
    ensures
        final(comments)@.len() == old(comments)@.len(),
        forall|k: int| 0 <= k < old(comments)@.len() ==> #[trigger] final(comments)@[k] == reanchor_comment(
            old(comments)@[k],
            files@,
            diffs@,
        ),
        changed == exists|k: int| 0 <= k < old(comments)@.len() && moved(old(comments)@[k], #[trigger] final(comments)@[k]),
{
    let mut taken: Vec<Comment> = Vec::new();
    core::mem::swap(&mut taken, comments);
    let ghost all = taken@;
    let mut out: Vec<Comment> = Vec::new();
    let mut changed = false;
    for item in it: taken.into_iter()
        invariant
            it.seq() == all,
            files@.len() == diffs@.len(),
            forall|k: int| 0 <= k < all.len() ==> match first_file(files@, (#[trigger] all[k]).file@) {
                Some(i) => diffs@[i] is Some,
                None => true,
            },
            out@.len() == it.index(),
            forall|k: int| 0 <= k < it.index() ==> #[trigger] out@[k] == reanchor_comment(all[k], files@, diffs@),
            changed == exists|k: int| 0 <= k < it.index() && moved(all[k], #[trigger] out@[k]),
    {
        let ghost idx = it.index();
        assert(item == all[idx as int]);
        let mut c = item;
        let before_line = c.line;
        let before_orphaned = c.orphaned;
        proof {
            lemma_first_file(files@, c.file@);
        }
        match first_file_exec(files, &c.file) {
            None => {
                c.orphaned = true;
            },
            Some(i) => {
                match &diffs[i] {
                    Some(d) => reanchor_one(&mut c, d),
                    None => {
                        assert(false);
                    },
                }
            },
        }
        let m = c.line != before_line || c.orphaned != before_orphaned;
        let ghost prev = out@;
        out.push(c);
        assert(out@ == prev.push(c));
        proof {
            if m {
                assert(moved(all[idx as int], out@[idx as int]));
            }
            if changed {
                let k = choose|k: int| 0 <= k < idx && moved(all[k], #[trigger] prev[k]);
                assert(out@[k] == prev[k]);
            }
        }
        changed = changed || m;
    }
    *comments = out;
    changed
}

/// Re-anchoring settles in one pass: re-anchoring a re-anchored comment
/// against the same files and diffs gives it back unchanged.
pub proof fn lemma_reanchor_idempotent(c: Comment, files: Seq<CommitFile>, diffs: Seq<Option<FileDiff>>)
    ensures
        reanchor_comment(reanchor_comment(c, files, diffs), files, diffs) == reanchor_comment(c, files, diffs),
{
    let once = reanchor_comment(c, files, diffs);
    assert(once.file == c.file);
    match first_file(files, c.file@) {
        None => {},
        Some(i) => {
            let diff = diffs[i]->0;
            match diff {
                FileDiff::Binary => {},
                FileDiff::Text(v) => {
                    let lines = v@;
                    if exact_hit(lines, c) {
                        assert(exact_hit(lines, once));
                    } else {
                        match c.context {
                            Some(ctx) => {
                                if exists|n: usize| is_best(lines, c.side, ctx@, c.line, n) {
                                    let n = choose|n: usize| is_best(lines, c.side, ctx@, c.line, n);
                                    assert(candidate(lines, c.side, ctx@, c.line, n));
                                    let i = choose|i: int|
                                        0 <= i < lines.len() && (#[trigger] lines[i]).text@ == ctx@
                                            && side_no(lines[i], c.side) == Some(n);
                                    assert(exact_hit(lines, once));
                                }
                            },
                            None => {},
                        }
                    }
                },
            }
        },
    }
}

} // verus!
