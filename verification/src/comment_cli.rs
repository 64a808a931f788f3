//! The decisions behind `strix comment <list|add|rm|clear|gc>`: validating an
//! added comment's anchor, finding or opening a branch inbox in key order,
//! removing and clearing comments, and the plain-text listing. Reading and
//! writing the store file and printing stay with the caller.

use vstd::prelude::*;
use crate::comments::{Branch, Comment, Side, Source, Store, comment_ids, max_id, minted_id, store_ids};
use crate::git::review::{trim, trim_bounds};
use crate::text::{chars_of, push_chars, push_decimal, decimal, str_eq, key_lt, key_less, lemma_key_lt_total, lemma_key_lt_trans};

verus! {

/// Why `comment add` refuses its arguments.
#[derive(Clone, Copy, Debug, PartialEq, Eq, Structural)]
pub enum AddError {
    /// Both `--old-line` and `--new-line` were given.
    BothSides,
    /// Neither `--old-line` nor `--new-line` was given.
    NoSide,
    /// Line numbers are 1-based.
    ZeroLine,
    /// `--text` is empty after trimming.
    EmptyText,
}

impl AddError {
    /// The message printed for the refusal.
    pub fn message(self) -> (s: &'static str)
        ensures
            s@ == match self {
                AddError::BothSides => "provide exactly one of --old-line or --new-line, not both"@,
                AddError::NoSide => "provide one of --old-line or --new-line to anchor the comment"@,
                AddError::ZeroLine => "line numbers are 1-based; --old-line/--new-line must be >= 1"@,
                AddError::EmptyText => "--text must not be empty"@,
            },
    {
        match self {
            AddError::BothSides => "provide exactly one of --old-line or --new-line, not both",
            AddError::NoSide => "provide one of --old-line or --new-line to anchor the comment",
            AddError::ZeroLine => "line numbers are 1-based; --old-line/--new-line must be >= 1",
            AddError::EmptyText => "--text must not be empty",
        }
    }
}

/// The anchor side and line an `add` names, or why it is refused: exactly
/// one of the two line flags, a line of at least 1, and a text that is not
/// blank, checked in that order.
pub open spec fn anchor_of(old_line: Option<usize>, new_line: Option<usize>, text: Seq<char>) -> Result<
    (Side, usize),
    AddError,
> {
    match (old_line, new_line) {
        (Some(_), Some(_)) => Err(AddError::BothSides),
        (None, None) => Err(AddError::NoSide),
        _ => {
            let (side, line) = match old_line {
                Some(l) => (Side::Old, l),
                None => (Side::New, new_line->0),
            };
            if line < 1 {
                Err(AddError::ZeroLine)
            } else if trim(text).len() == 0 {
                Err(AddError::EmptyText)
            } else {
                Ok((side, line))
            }
        },
    }
}

/// Validates `add`'s anchor arguments.
pub fn add_anchor(old_line: Option<usize>, new_line: Option<usize>, text: &str) -> (r: Result<
    (Side, usize),
    AddError,
>)
    ensures
        r == anchor_of(old_line, new_line, text@),
{
    let (side, line) = match (old_line, new_line) {
        (Some(l), None) => (Side::Old, l),
        (None, Some(l)) => (Side::New, l),
        (Some(_), Some(_)) => {
            return Err(AddError::BothSides);
        },
        (None, None) => {
            return Err(AddError::NoSide);
        },
    };
    if line < 1 {
        return Err(AddError::ZeroLine);
    }
    let cs = chars_of(text);
    let (a, b) = trim_bounds(&cs);
    if a == b {
        return Err(AddError::EmptyText);
    }
    Ok((side, line))
}

// ---------------------------------------------------------------------------
// Branch inboxes in key order.
// ---------------------------------------------------------------------------

/// Whether the inboxes are in strictly ascending key order.
pub open spec fn keys_sorted(bs: Seq<(String, Branch)>) -> bool {
    forall|i: int, j: int| 0 <= i < j < bs.len() ==> key_lt(bs[i].0@, bs[j].0@)
}

/// The index of the inbox keyed `key`, if there is one.
pub fn find_branch(store: &Store, key: &str) -> (r: Option<usize>)
    ensures
        match r {
            Some(i) => i < store.branches@.len() && store.branches@[i as int].0@ == key@ && forall|k: int|
                0 <= k < i ==> store.branches@[k].0@ != key@,
            None => forall|k: int| 0 <= k < store.branches@.len() ==> store.branches@[k].0@ != key@,
        },
{
    let mut i: usize = 0;
    while i < store.branches.len()
        invariant
            i <= store.branches@.len(),
            forall|k: int| 0 <= k < i ==> store.branches@[k].0@ != key@,
        decreases store.branches.len() - i,
    {
        if str_eq(store.branches[i].0.as_str(), key) {
            return Some(i);
        }
        i = i + 1;
    }
    None
}

/// The index of the inbox keyed `key`, opening an empty one in key order
/// when there is none.
pub fn branch_entry(store: &mut Store, key: &str) -> (r: usize)
    ensures
        r < final(store).branches@.len(),
        final(store).branches@[r as int].0@ == key@,
        forall|k: int| 0 <= k < r ==> final(store).branches@[k].0@ != key@,
        final(store).version == old(store).version,
        final(store).next_id == old(store).next_id,
        (exists|k: int| 0 <= k < old(store).branches@.len() && old(store).branches@[k].0@ == key@)
            ==> final(store).branches == old(store).branches,
        !(exists|k: int| 0 <= k < old(store).branches@.len() && old(store).branches@[k].0@ == key@)
            ==> {
            &&& final(store).branches@.len() == old(store).branches@.len() + 1
            &&& final(store).branches@[r as int].1.comments@.len() == 0
            &&& final(store).branches@[r as int].1.range is None
            &&& forall|k: int| 0 <= k < r ==> final(store).branches@[k] == old(store).branches@[k]
            &&& forall|k: int|
                r < k < final(store).branches@.len() ==> final(store).branches@[k] == old(
                    store,
                ).branches@[k - 1]
        },
        keys_sorted(old(store).branches@) ==> keys_sorted(final(store).branches@),
{
    match find_branch(store, key) {
        Some(i) => i,
        None => {
            let ghost old_bs = store.branches@;
            let mut p: usize = 0;
            while p < store.branches.len() && key_less(store.branches[p].0.as_str(), key)
                invariant
                    p <= store.branches@.len(),
                    store.branches@ == old_bs,
                    forall|k: int| 0 <= k < p ==> key_lt(store.branches@[k].0@, key@),
                decreases store.branches.len() - p,
            {
                p = p + 1;
            }
            let fresh = Branch { range: None, comments: Vec::new() };
            let mut owned = String::new();
            let kc = chars_of(key);
            push_chars(&mut owned, kc.as_slice());
            assert(owned@ =~= key@);
            store.branches.insert(p, (owned, fresh));
            proof {
                let nb = store.branches@;
                assert(forall|k: int| 0 <= k < old_bs.len() ==> old_bs[k].0@ != key@);
                if keys_sorted(old_bs) {
                    assert forall|i: int, j: int| 0 <= i < j < nb.len() implies key_lt(
                        nb[i].0@,
                        nb[j].0@,
                    ) by {
                        if p < old_bs.len() {
                            lemma_key_lt_total(old_bs[p as int].0@, key@);
                        }
                        if i < p && j == p {
                        } else if i == p && j > p {
                            lemma_key_lt_total(old_bs[j - 1].0@, key@);
                            if j - 1 > p {
                                lemma_key_lt_trans(key@, old_bs[p as int].0@, old_bs[j - 1].0@);
                            }
                        } else if i < p && j > p {
                            assert(nb[i] == old_bs[i]);
                            assert(nb[j] == old_bs[j - 1]);
                        } else if i > p {
                            assert(nb[i] == old_bs[i - 1]);
                            assert(nb[j] == old_bs[j - 1]);
                        } else {
                            assert(nb[i] == old_bs[i]);
                            assert(nb[j] == old_bs[j]);
                        }
                    }
                }
            }
            p
        },
    }
}

// ---------------------------------------------------------------------------
// Adding, removing and clearing comments.
// ---------------------------------------------------------------------------

/// Whether `new` is `old` with comment `c` appended to the inbox keyed
/// `key`: the first such inbox when there is one (its key and range kept,
/// every other inbox untouched), else a fresh inbox holding just `c`
/// opened at some position, the others keeping their order.
pub open spec fn appended(old: Seq<(String, Branch)>, new: Seq<(String, Branch)>, key: Seq<char>, c: Comment) -> bool {
    match find_first(old, key) {
        Some(k) => {
            &&& new.len() == old.len()
            &&& new[k].0 == old[k].0
            &&& new[k].1.range == old[k].1.range
            &&& new[k].1.comments@ == old[k].1.comments@.push(c)
            &&& forall|o: int| 0 <= o < old.len() && o != k ==> new[o] == old[o]
        },
        None => exists|p: int|
            {
                &&& 0 <= p < new.len()
                &&& new.len() == old.len() + 1
                &&& new[p].0@ == key
                &&& new[p].1.range is None
                &&& new[p].1.comments@ == seq![c]
                &&& forall|o: int| 0 <= o < p ==> new[o] == old[o]
                &&& forall|o: int| p < o < new.len() ==> new[o] == old[o - 1]
            },
    }
}

/// The inbox `b` that [`branch_entry`] gives for `key` in `mid` (from
/// `old`), with `c` pushed onto it, makes `new` the append of `c`.
pub(crate) proof fn lemma_appended(
    old: Seq<(String, Branch)>,
    mid: Seq<(String, Branch)>,
    new: Seq<(String, Branch)>,
    key: Seq<char>,
    b: int,
    c: Comment,
)
    requires
        0 <= b < mid.len(),
        mid[b].0@ == key,
        forall|k: int| 0 <= k < b ==> mid[k].0@ != key,
        (exists|k: int| 0 <= k < old.len() && old[k].0@ == key) ==> mid == old,
        !(exists|k: int| 0 <= k < old.len() && old[k].0@ == key) ==> {
            &&& mid.len() == old.len() + 1
            &&& mid[b].1.comments@.len() == 0
            &&& mid[b].1.range is None
            &&& forall|k: int| 0 <= k < b ==> mid[k] == old[k]
            &&& forall|k: int| b < k < mid.len() ==> mid[k] == old[k - 1]
        },
        new.len() == mid.len(),
        new[b].0 == mid[b].0,
        new[b].1.range == mid[b].1.range,
        new[b].1.comments@ == mid[b].1.comments@.push(c),
        forall|o: int| 0 <= o < mid.len() && o != b ==> new[o] == mid[o],
    ensures
        appended(old, new, key, c),
{
    if exists|k: int| 0 <= k < old.len() && old[k].0@ == key {
        lemma_find_first(old, key, b);
    } else {
        lemma_find_first_none(old, key);
        assert(mid[b].1.comments@.push(c) =~= seq![c]);
        assert(new[b].1.comments@ == seq![c]);
        assert forall|o: int| 0 <= o < b implies new[o] == old[o] by {
            assert(new[o] == mid[o]);
        }
        assert forall|o: int| b < o < new.len() implies new[o] == old[o - 1] by {
            assert(new[o] == mid[o]);
        }
    }
}

/// Adds an agent-authored comment to the inbox keyed `branch` (opening it if
/// needed) under a freshly minted id, which it returns.
pub fn add_comment(
    store: &mut Store,
    branch: &str,
    file: String,
    side: Side,
    line: usize,
    text: String,
    context: Option<String>,
    created_at: u64,
) -> (id: u64)
    requires
        old(store).next_id < u64::MAX,
        max_id(store_ids(old(store).branches@)) + 2 <= u64::MAX,
    ensures
        id as nat == minted_id(old(store).next_id, old(store).branches@),
        final(store).next_id == id + 1,
        appended(
            old(store).branches@,
            final(store).branches@,
            branch@,
            Comment {
                id,
                source: Source::Agent,
                file,
                side,
                line,
                text,
                orphaned: context is None,
                context,
                created_at,
            },
        ),
        keys_sorted(old(store).branches@) ==> keys_sorted(final(store).branches@),
{
    let id = store.take_id();
    let b = branch_entry(store, branch);
    let orphaned = context.is_none();
    let comment = Comment { id, source: Source::Agent, file, side, line, text, context, orphaned, created_at };
    let ghost before = store.branches@;
    let ghost c = comment;
    let mut entry = store.branches.remove(b);
    entry.1.comments.push(comment);
    store.branches.insert(b, entry);
    proof {
        lemma_appended(old(store).branches@, before, store.branches@, branch@, b as int, c);
        assert(store.branches@[b as int].0@ == branch@);
        if keys_sorted(before) {
            assert forall|i: int, j: int| 0 <= i < j < store.branches@.len() implies key_lt(
                store.branches@[i].0@,
                store.branches@[j].0@,
            ) by {
                assert(store.branches@[i].0 == before[i].0);
                assert(store.branches@[j].0 == before[j].0);
            }
        }
    }
    id
}

/// The position of the first comment of `cs` with id `id`.
pub open spec fn first_with_id(cs: Seq<Comment>, id: u64) -> Option<int>
    decreases cs.len(),
{
    if cs.len() == 0 {
        None
    } else {
        match first_with_id(cs.drop_last(), id) {
            Some(m) => Some(m),
            None => if cs.last().id == id {
                Some(cs.len() - 1)
            } else {
                None
            },
        }
    }
}

/// The first comment with `id` is at `m` when none before it has that id and
/// it does (`None` when `m` is the end).
pub proof fn lemma_first_with_id(cs: Seq<Comment>, id: u64, m: int)
    requires
        0 <= m <= cs.len(),
        forall|j: int| 0 <= j < m ==> cs[j].id != id,
        m < cs.len() ==> cs[m].id == id,
    ensures
        first_with_id(cs, id) == if m < cs.len() {
            Some(m)
        } else {
            None::<int>
        },
    decreases cs.len(),
{
    if cs.len() > 0 {
        if m < cs.len() - 1 {
            lemma_first_with_id(cs.drop_last(), id, m);
        } else {
            lemma_first_with_id(cs.drop_last(), id, cs.len() - 1);
        }
    }
}

/// What [`find_first`] finds: the first inbox with the key, or none at all.
proof fn lemma_find_first_ok(bs: Seq<(String, Branch)>, key: Seq<char>)
    ensures
        match find_first(bs, key) {
            Some(k) => 0 <= k < bs.len() && bs[k].0@ == key && forall|j: int| 0 <= j < k ==> bs[j].0@ != key,
            None => forall|j: int| 0 <= j < bs.len() ==> bs[j].0@ != key,
        },
    decreases bs.len(),
{
    if bs.len() > 0 {
        let init = bs.drop_last();
        lemma_find_first_ok(init, key);
        assert forall|j: int| 0 <= j < init.len() implies init[j] == bs[j] by {}
    }
}

/// Every comment's id is among the store's ids.
proof fn lemma_inbox_id_in_store(bs: Seq<(String, Branch)>, k: int, j: int)
    requires
        0 <= k < bs.len(),
        0 <= j < bs[k].1.comments@.len(),
    ensures
        exists|i: int| 0 <= i < store_ids(bs).len() && store_ids(bs)[i] == bs[k].1.comments@[j].id,
    decreases bs.len(),
{
    let rest = bs.drop_last();
    let ids = store_ids(bs);
    assert(ids == store_ids(rest) + comment_ids(bs.last().1.comments@));
    if k == bs.len() - 1 {
        let i = store_ids(rest).len() + j;
        assert(ids[i] == comment_ids(bs.last().1.comments@)[j]);
    } else {
        assert(rest[k] == bs[k]);
        lemma_inbox_id_in_store(rest, k, j);
        let i = choose|i: int| 0 <= i < store_ids(rest).len() && store_ids(rest)[i] == rest[k].1.comments@[j].id;
        assert(ids[i] == store_ids(rest)[i]);
    }
}

/// A note added under a fresh id (every id in the store below it, as
/// [`Store::take_id`] mints) is the first note with that id in its inbox, at
/// the end; removing it there gives back the inbox as it was, so adding a
/// note and removing it by its id leaves every inbox as it was (a branch
/// that had none keeps a new, empty one).
pub proof fn lemma_add_then_remove(old: Seq<(String, Branch)>, new: Seq<(String, Branch)>, key: Seq<char>, c: Comment)
    requires
        appended(old, new, key, c),
        forall|i: int| 0 <= i < store_ids(old).len() ==> #[trigger] store_ids(old)[i] < c.id,
    ensures
        find_first(new, key) matches Some(k) && {
            let cs = new[k].1.comments@;
            &&& first_with_id(cs, c.id) == Some(cs.len() - 1)
            &&& cs.remove(cs.len() - 1) == crate::session::inbox_of(old, key)
        },
{
    match find_first(old, key) {
        Some(k) => {
            lemma_find_first_ok(old, key);
            let before = old[k].1.comments@;
            let cs = new[k].1.comments@;
            assert forall|j: int| 0 <= j < cs.len() - 1 implies cs[j].id != c.id by {
                assert(cs[j] == before[j]);
                lemma_inbox_id_in_store(old, k, j);
            }
            lemma_first_with_id(cs, c.id, cs.len() - 1);
            assert(cs.remove(cs.len() - 1) =~= before);
            assert forall|o: int| 0 <= o < k implies new[o].0@ != key by {
                assert(new[o] == old[o]);
            }
            lemma_find_first(new, key, k);
        },
        None => {
            let p = choose|p: int|
                {
                    &&& 0 <= p < new.len()
                    &&& new.len() == old.len() + 1
                    &&& new[p].0@ == key
                    &&& new[p].1.range is None
                    &&& new[p].1.comments@ == seq![c]
                    &&& forall|o: int| 0 <= o < p ==> new[o] == old[o]
                    &&& forall|o: int| p < o < new.len() ==> new[o] == old[o - 1]
                };
            lemma_find_first_ok(old, key);
            assert forall|o: int| 0 <= o < p implies new[o].0@ != key by {
                assert(new[o] == old[o]);
            }
            lemma_find_first(new, key, p);
            let cs = new[p].1.comments@;
            lemma_first_with_id(cs, c.id, 0);
            assert(cs.remove(0) =~= Seq::<Comment>::empty());
        },
    }
}

/// Removes the first comment `id` from the inbox keyed `branch`, returning
/// it and how many comments that inbox still holds; `None`, with the store
/// unchanged, when the inbox or the comment is not there.
pub fn remove_comment(store: &mut Store, branch: &str, id: u64) -> (r: Option<(Comment, usize)>)
    ensures
        final(store).next_id == old(store).next_id,
        final(store).version == old(store).version,
        final(store).branches@.len() == old(store).branches@.len(),
        match find_first(old(store).branches@, branch@) {
            None => r is None && final(store).branches == old(store).branches,
            Some(k) => {
                let cs = old(store).branches@[k].1.comments@;
                match first_with_id(cs, id) {
                    None => r is None && final(store).branches == old(store).branches,
                    Some(m) => {
                        &&& r matches Some((c, remaining)) && c == cs[m] && remaining == cs.len() - 1
                        &&& final(store).branches@[k].0 == old(store).branches@[k].0
                        &&& final(store).branches@[k].1.range == old(store).branches@[k].1.range
                        &&& final(store).branches@[k].1.comments@ == cs.remove(m)
                        &&& forall|o: int|
                            0 <= o < old(store).branches@.len() && o != k ==> final(store).branches@[o]
                                == old(store).branches@[o]
                    },
                }
            },
        },
{
    let b = match find_branch(store, branch) {
        Some(b) => b,
        None => {
            proof {
                lemma_find_first_none(store.branches@, branch@);
            }
            return None;
        },
    };
    proof {
        lemma_find_first(store.branches@, branch@, b as int);
    }
    let mut pos: usize = 0;
    while pos < store.branches[b].1.comments.len() && store.branches[b].1.comments[pos].id != id
        invariant
            b < store.branches@.len(),
            pos <= store.branches@[b as int].1.comments@.len(),
            forall|m: int| 0 <= m < pos ==> store.branches@[b as int].1.comments@[m].id != id,
        decreases store.branches@[b as int].1.comments@.len() - pos,
    {
        pos = pos + 1;
    }
    proof {
        lemma_first_with_id(store.branches@[b as int].1.comments@, id, pos as int);
    }
    if pos == store.branches[b].1.comments.len() {
        return None;
    }
    let ghost before = store.branches@;
    let mut entry = store.branches.remove(b);
    let comment = entry.1.comments.remove(pos);
    let remaining = entry.1.comments.len();
    store.branches.insert(b, entry);
    proof {
        assert forall|o: int| 0 <= o < before.len() && o != b implies store.branches@[o] == before[o] by {
        }
    }
    Some((comment, remaining))
}

/// Empties the inbox keyed `branch`, returning how many comments it held (0
/// when there is no such inbox).
pub fn clear_branch(store: &mut Store, branch: &str) -> (n: usize)
    ensures
        final(store).next_id == old(store).next_id,
        final(store).version == old(store).version,
        final(store).branches@.len() == old(store).branches@.len(),
        match find_first(old(store).branches@, branch@) {
            Some(k) => {
                &&& n == old(store).branches@[k].1.comments@.len()
                &&& final(store).branches@[k].0 == old(store).branches@[k].0
                &&& final(store).branches@[k].1.range == old(store).branches@[k].1.range
                &&& final(store).branches@[k].1.comments@.len() == 0
                &&& forall|o: int| 0 <= o < old(store).branches@.len() && o != k ==> final(store).branches@[o]
                    == old(store).branches@[o]
            },
            None => n == 0 && final(store).branches == old(store).branches,
        },
{
    match find_branch(store, branch) {
        Some(b) => {
            let ghost before = store.branches@;
            let mut entry = store.branches.remove(b);
            let n = entry.1.comments.len();
            entry.1.comments = Vec::new();
            store.branches.insert(b, entry);
            proof {
                lemma_find_first(before, branch@, b as int);
                assert forall|o: int| 0 <= o < before.len() && o != b implies store.branches@[o] == before[o] by {
                }
            }
            n
        },
        None => {
            proof {
                lemma_find_first_none(store.branches@, branch@);
            }
            0
        },
    }
}

/// The first inbox keyed `key`.
pub open spec fn find_first(bs: Seq<(String, Branch)>, key: Seq<char>) -> Option<int>
    decreases bs.len(),
{
    if bs.len() == 0 {
        None
    } else {
        match find_first(bs.drop_last(), key) {
            Some(k) => Some(k),
            None => if bs.last().0@ == key {
                Some(bs.len() - 1)
            } else {
                None
            },
        }
    }
}

/// The first inbox keyed `key` is the one at `b` when no earlier inbox has
/// that key.
pub proof fn lemma_find_first(bs: Seq<(String, Branch)>, key: Seq<char>, b: int)
    requires
        0 <= b < bs.len(),
        bs[b].0@ == key,
        forall|k: int| 0 <= k < b ==> bs[k].0@ != key,
    ensures
        find_first(bs, key) == Some(b),
    decreases bs.len(),
{
    if b < bs.len() - 1 {
        let init = bs.drop_last();
        lemma_find_first(init, key, b);
    } else {
        lemma_find_first_none(bs.drop_last(), key);
    }
}

/// No inbox is keyed `key` when none has it.
pub proof fn lemma_find_first_none(bs: Seq<(String, Branch)>, key: Seq<char>)
    requires
        forall|k: int| 0 <= k < bs.len() ==> bs[k].0@ != key,
    ensures
        find_first(bs, key) is None,
    decreases bs.len(),
{
    if bs.len() > 0 {
        lemma_find_first_none(bs.drop_last(), key);
    }
}

// ---------------------------------------------------------------------------
// The plain-text listing.
// ---------------------------------------------------------------------------

/// `old` or `new`.
pub open spec fn side_word(side: Side) -> Seq<char> {
    match side {
        Side::Old => seq!['o', 'l', 'd'],
        Side::New => seq!['n', 'e', 'w'],
    }
}

/// `<file>:<side>:<line>`.
pub open spec fn location_of(c: Comment) -> Seq<char> {
    c.file@ + seq![':'] + side_word(c.side) + seq![':'] + decimal(c.line as nat)
}

/// Where a comment is anchored: `<file>:<old|new>:<line>`.
pub fn location(comment: &Comment) -> (s: String)
    ensures
        s@ == location_of(*comment),
{
    let mut s = String::new();
    let fc = chars_of(comment.file.as_str());
    push_chars(&mut s, fc.as_slice());
    let side: [char; 4] = match comment.side {
        Side::Old => [':', 'o', 'l', 'd'],
        Side::New => [':', 'n', 'e', 'w'],
    };
    push_chars(&mut s, side.as_slice());
    let colon: [char; 1] = [':'];
    push_chars(&mut s, colon.as_slice());
    push_decimal(&mut s, comment.line as u128);
    assert(s@ =~= location_of(*comment));
    s
}

/// The context a new note records: the text of the first diff line
/// numbered `line` on `side`; none for a binary diff or a line it does not
/// show.
pub fn line_context(diff: &crate::git::diff::FileDiff, side: Side, line: usize) -> (r: Option<String>)
    ensures
        r == match diff {
            crate::git::diff::FileDiff::Text(ls) => match crate::layout::line_at(ls@, side, line) {
                Some(i) => Some(ls@[i].text),
                None => None,
            },
            crate::git::diff::FileDiff::Binary => None,
        },
{
    let lines = match diff {
        crate::git::diff::FileDiff::Text(ls) => ls,
        crate::git::diff::FileDiff::Binary => {
            return None;
        },
    };
    let mut i: usize = 0;
    while i < lines.len()
        invariant
            i <= lines@.len(),
            *diff == crate::git::diff::FileDiff::Text(*lines),
            forall|k: int| 0 <= k < i ==> crate::view::number_on(#[trigger] lines@[k], side) != Some(line),
        decreases lines.len() - i,
    {
        if crate::view::line_no(&lines[i], side) == Some(line) {
            proof {
                crate::layout::lemma_line_at(lines@, side, line, i as int);
            }
            return Some(lines[i].text.clone());
        }
        i = i + 1;
    }
    proof {
        crate::layout::lemma_line_at(lines@, side, line, i as int);
    }
    None
}

} // verus!
