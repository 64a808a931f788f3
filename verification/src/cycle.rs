//! Cycling through review comments with `]` and `[`: the listed files'
//! paths, the order comments are visited in (file-list order, then by line,
//! old side before new, then id), and which comment a step lands on.

use vstd::prelude::*;
use vstd::relations::{sorted_by, total_ordering};
use crate::comments::{Comment, Side};
use crate::git::status::Status;
use crate::text::str_eq;

verus! {

/// A comment's place within its file: line, side (old first), id.
pub open spec fn comment_key(c: Comment) -> (usize, u8, u64) {
    (c.line, match c.side {
        Side::Old => 0u8,
        Side::New => 1u8,
    }, c.id)
}

/// The order on comment places: by line, then side, then id.
pub open spec fn key_leq(a: (usize, u8, u64), b: (usize, u8, u64)) -> bool {
    a.0 < b.0 || (a.0 == b.0 && (a.1 < b.1 || (a.1 == b.1 && a.2 <= b.2)))
}

/// The places of the comments on file `path`, in store order.
pub open spec fn keys_on(cs: Seq<Comment>, path: Seq<char>) -> Seq<(usize, u8, u64)>
    decreases cs.len(),
{
    if cs.len() == 0 {
        Seq::empty()
    } else {
        keys_on(cs.drop_last(), path) + if cs.last().file@ == path {
            seq![comment_key(cs.last())]
        } else {
            Seq::empty()
        }
    }
}

/// The ids of the comments on `path`, in visiting order.
pub open spec fn path_block(cs: Seq<Comment>, path: Seq<char>) -> Seq<u64> {
    keys_on(cs, path).sort_by(|a: (usize, u8, u64), b: (usize, u8, u64)| key_leq(a, b)).map_values(
        |k: (usize, u8, u64)| k.2,
    )
}

/// Every comment on the listed `paths`, file by file in list order, each
/// file's in visiting order.
pub open spec fn cycle_order(cs: Seq<Comment>, paths: Seq<Seq<char>>) -> Seq<u64>
    decreases paths.len(),
{
    if paths.len() == 0 {
        Seq::empty()
    } else {
        cycle_order(cs, paths.drop_last()) + path_block(cs, paths.last())
    }
}

proof fn lemma_key_order()
    ensures
        total_ordering(|a: (usize, u8, u64), b: (usize, u8, u64)| key_leq(a, b)),
{
}

/// The places of the comments on `path`, in visiting order.
fn sorted_keys_on(comments: &[Comment], path: &str) -> (r: Vec<(usize, u8, u64)>)
    ensures
        r@ == keys_on(comments@, path@).sort_by(|a: (usize, u8, u64), b: (usize, u8, u64)| key_leq(a, b)),
{
    let ghost leq = |a: (usize, u8, u64), b: (usize, u8, u64)| key_leq(a, b);
    let mut r: Vec<(usize, u8, u64)> = Vec::new();
    let mut i: usize = 0;
    while i < comments.len()
        invariant
            i <= comments@.len(),
            leq == |a: (usize, u8, u64), b: (usize, u8, u64)| key_leq(a, b),
            sorted_by(r@, leq),
            r@.to_multiset() == keys_on(comments@.take(i as int), path@).to_multiset(),
        decreases comments.len() - i,
    {
        let c = &comments[i];
        let ghost taken = comments@.take(i as int + 1);
        proof {
            assert(taken.drop_last() =~= comments@.take(i as int));
            assert(taken.last() == comments@[i as int]);
        }
        if str_eq(c.file.as_str(), path) {
            let rank: u8 = match c.side {
                Side::Old => 0,
                Side::New => 1,
            };
            let x: (usize, u8, u64) = (c.line, rank, c.id);
            assert(x == comment_key(*c));
            let mut pos: usize = 0;
            while pos < r.len() && key_leq_exec(r[pos], x)
                invariant
                    pos <= r@.len(),
                    forall|k: int| 0 <= k < pos ==> key_leq(r@[k], x),
                decreases r.len() - pos,
            {
                pos = pos + 1;
            }
            let ghost before = r@;
            r.insert(pos, x);
            proof {
                vstd::seq_lib::to_multiset_insert(before, pos as int, x);
                vstd::seq_lib::to_multiset_build(keys_on(comments@.take(i as int), path@), x);
                assert(keys_on(taken, path@) == keys_on(comments@.take(i as int), path@) + seq![x]);
                assert(keys_on(comments@.take(i as int), path@) + seq![x] =~= keys_on(
                    comments@.take(i as int),
                    path@,
                ).push(x));
                assert forall|a: int, b: int| 0 <= a < b < r@.len() implies #[trigger] leq(r@[a], r@[b]) by {
                    if a < pos && b == pos {
                    } else if a == pos && b > pos {
                        assert(r@[b] == before[b - 1]);
                        if pos < before.len() {
                            assert(!key_leq(before[pos as int], x));
                            assert(leq(before[pos as int], before[b - 1]));
                        }
                    } else if a < pos && b > pos {
                        assert(r@[b] == before[b - 1]);
                        assert(r@[a] == before[a]);
                        assert(leq(before[a], before[b - 1]));
                    } else if a > pos {
                        assert(r@[a] == before[a - 1]);
                        assert(r@[b] == before[b - 1]);
                        assert(leq(before[a - 1], before[b - 1]));
                    } else {
                        assert(r@[a] == before[a]);
                        assert(r@[b] == before[b]);
                        assert(leq(before[a], before[b]));
                    }
                }
            }
        } else {
            proof {
                assert(keys_on(taken, path@) == keys_on(comments@.take(i as int), path@) + Seq::<
                    (usize, u8, u64),
                >::empty());
                assert(keys_on(comments@.take(i as int), path@) + Seq::<(usize, u8, u64)>::empty() =~= keys_on(
                    comments@.take(i as int),
                    path@,
                ));
            }
        }
        i = i + 1;
    }
    proof {
        assert(comments@.take(i as int) =~= comments@);
        let keys = keys_on(comments@, path@);
        lemma_key_order();
        keys.lemma_sort_by_ensures(leq);
        vstd::seq_lib::lemma_sorted_unique(r@, keys.sort_by(leq), leq);
    }
    r
}

fn key_leq_exec(a: (usize, u8, u64), b: (usize, u8, u64)) -> (r: bool)
    ensures
        r == key_leq(a, b),
{
    a.0 < b.0 || (a.0 == b.0 && (a.1 < b.1 || (a.1 == b.1 && a.2 <= b.2)))
}

/// The characters of each string.
pub open spec fn paths_view(v: Seq<String>) -> Seq<Seq<char>> {
    v.map_values(|s: String| s@)
}

/// Every comment on the listed `paths`, file by file in list order, and
/// within a file by line, old side before new, then id; comments on files
/// no longer listed are left out.
pub fn ordered_comment_ids(comments: &[Comment], paths: &[String]) -> (r: Vec<u64>)
    ensures
        r@ == cycle_order(comments@, paths_view(paths@)),
{
    let mut out: Vec<u64> = Vec::new();
    let mut p: usize = 0;
    while p < paths.len()
        invariant
            p <= paths@.len(),
            out@ == cycle_order(comments@, paths_view(paths@.take(p as int))),
        decreases paths.len() - p,
    {
        let keys = sorted_keys_on(comments, paths[p].as_str());
        let ghost start = out@;
        let mut k: usize = 0;
        while k < keys.len()
            invariant
                k <= keys@.len(),
                out@ == start + keys@.take(k as int).map_values(|x: (usize, u8, u64)| x.2),
            decreases keys.len() - k,
        {
            out.push(keys[k].2);
            proof {
                assert(keys@.take(k as int + 1).map_values(|x: (usize, u8, u64)| x.2) =~= keys@.take(
                    k as int,
                ).map_values(|x: (usize, u8, u64)| x.2).push(keys@[k as int].2));
            }
            k = k + 1;
        }
        proof {
            assert(keys@.take(k as int) =~= keys@);
            let ps = paths_view(paths@.take(p as int + 1));
            assert(ps.drop_last() =~= paths_view(paths@.take(p as int)));
            assert(ps.last() == paths@[p as int]@);
        }
        p = p + 1;
    }
    proof {
        assert(paths@.take(p as int) =~= paths@);
    }
    out
}

/// The comment a `]` (forward) or `[` step lands on in `order`: the one
/// after (or before) the first place `current` holds, wrapping round; from
/// no comment, or one not in the order, the first (or last). Nothing when
/// there are no comments.
pub open spec fn cycle_step(order: Seq<u64>, current: Option<u64>, forward: bool) -> Option<u64> {
    let n = order.len() as int;
    let found = match current {
        Some(id) => order.index_of_first(id),
        None => None,
    };
    if n == 0 {
        None
    } else {
        Some(
            match found {
                Some(pos) => if forward {
                    order[(pos + 1) % n]
                } else {
                    order[(pos + n - 1) % n]
                },
                None => if forward {
                    order[0]
                } else {
                    order[n - 1]
                },
            },
        )
    }
}

/// The comment a `]` (forward) or `[` step lands on (see [`cycle_step`]).
pub fn cycle_target(order: &[u64], current: Option<u64>, forward: bool) -> (r: Option<u64>)
    ensures
        r == cycle_step(order@, current, forward),
{
    let n = order.len();
    if n == 0 {
        return None;
    }
    let mut pos: Option<usize> = None;
    if let Some(id) = current {
        let mut i: usize = 0;
        while i < n && order[i] != id
            invariant
                n == order@.len(),
                i <= n,
                forall|k: int| 0 <= k < i ==> order@[k] != id,
            decreases n - i,
        {
            i = i + 1;
        }
        proof {
            order@.index_of_first_ensures(id);
            if i < n {
                assert(order@.contains(id));
            } else {
                assert(!order@.contains(id));
            }
        }
        if i < n {
            pos = Some(i);
        }
    }
    match pos {
        Some(q) => {
            proof {
                let id = current->0;
                order@.index_of_first_ensures(id);
                let ni = n as int;
                let qi = q as int;
                if qi + 1 == ni {
                    vstd::arithmetic::div_mod::lemma_fundamental_div_mod_converse(qi + 1, ni, 1, 0);
                } else {
                    vstd::arithmetic::div_mod::lemma_fundamental_div_mod_converse(qi + 1, ni, 0, qi + 1);
                }
                if qi == 0 {
                    vstd::arithmetic::div_mod::lemma_fundamental_div_mod_converse(qi + ni - 1, ni, 0, ni - 1);
                } else {
                    vstd::arithmetic::div_mod::lemma_fundamental_div_mod_converse(qi + ni - 1, ni, 1, qi - 1);
                }
            }
            let next = if forward {
                if q + 1 == n {
                    0
                } else {
                    q + 1
                }
            } else {
                if q == 0 {
                    n - 1
                } else {
                    q - 1
                }
            };
            Some(order[next])
        },
        None => {
            if forward {
                Some(order[0])
            } else {
                Some(order[n - 1])
            }
        },
    }
}

/// `paths` with every repeat of an earlier path left out.
pub open spec fn first_occurrences(paths: Seq<Seq<char>>) -> Seq<Seq<char>>
    decreases paths.len(),
{
    if paths.len() == 0 {
        Seq::empty()
    } else {
        let rest = first_occurrences(paths.drop_last());
        if rest.contains(paths.last()) {
            rest
        } else {
            rest.push(paths.last())
        }
    }
}

/// The paths of a status's entries: staged first, then unstaged.
pub open spec fn entry_paths(status: Status) -> Seq<Seq<char>> {
    (status.staged@ + status.unstaged@).map_values(|e: crate::git::status::FileEntry| e.path@)
}

/// The status view's changed files as paths, in list order, each once: a
/// file both staged and modified is listed under its staged row.
pub fn status_paths(status: &Status) -> (r: Vec<String>)
    requires
        status.staged@.len() + status.unstaged@.len() <= usize::MAX,
    ensures
        paths_view(r@) == first_occurrences(entry_paths(*status)),
{
    let ghost all = entry_paths(*status);
    let mut out: Vec<String> = Vec::new();
    let n = status.staged.len();
    let total = status.total();
    let mut i: usize = 0;
    while i < total
        invariant
            n == status.staged@.len(),
            total == status.staged@.len() + status.unstaged@.len(),
            all == entry_paths(*status),
            i <= total,
            paths_view(out@) == first_occurrences(all.take(i as int)),
        decreases total - i,
    {
        let path: &String = if i < n {
            &status.staged[i].path
        } else {
            &status.unstaged[i - n].path
        };
        proof {
            assert(all[i as int] == path@);
            assert(all.take(i as int + 1).drop_last() =~= all.take(i as int));
            assert(all.take(i as int + 1).last() == path@);
        }
        let mut seen = false;
        let mut k: usize = 0;
        while k < out.len()
            invariant
                k <= out@.len(),
                seen == exists|j: int| 0 <= j < k && out@[j]@ == path@,
            decreases out.len() - k,
        {
            if str_eq(out[k].as_str(), path.as_str()) {
                seen = true;
            }
            k = k + 1;
        }
        proof {
            let pv = paths_view(out@);
            if seen {
                let j = choose|j: int| 0 <= j < out@.len() && out@[j]@ == path@;
                assert(pv[j] == path@);
                assert(pv.contains(path@));
            } else {
                assert(!pv.contains(path@));
            }
        }
        if !seen {
            let ghost before = out@;
            out.push(path.clone());
            proof {
                assert(paths_view(out@) =~= paths_view(before).push(path@));
            }
        }
        i = i + 1;
    }
    proof {
        assert(all.take(total as int) =~= all);
    }
    out
}

/// Stepping forward and then back returns to the comment the steps started
/// from, when every comment appears once in the order.
pub proof fn lemma_cycle_back_and_forth(order: Seq<u64>, id: u64)
    requires
        order.no_duplicates(),
        order.contains(id),
    ensures
        cycle_step(order, cycle_step(order, Some(id), true), false) == Some(id),
        cycle_step(order, cycle_step(order, Some(id), false), true) == Some(id),
{
    let n = order.len() as int;
    order.index_of_first_ensures(id);
    let p = order.index_of_first(id)->0;
    let up = if p + 1 == n {
        0
    } else {
        p + 1
    };
    let down = if p == 0 {
        n - 1
    } else {
        p - 1
    };
    if p + 1 == n {
        vstd::arithmetic::div_mod::lemma_fundamental_div_mod_converse(p + 1, n, 1, 0);
    } else {
        vstd::arithmetic::div_mod::lemma_fundamental_div_mod_converse(p + 1, n, 0, p + 1);
    }
    if p == 0 {
        vstd::arithmetic::div_mod::lemma_fundamental_div_mod_converse(p + n - 1, n, 0, n - 1);
    } else {
        vstd::arithmetic::div_mod::lemma_fundamental_div_mod_converse(p + n - 1, n, 1, p - 1);
    }
    let x = order[up];
    order.index_of_first_ensures(x);
    assert(order.index_of_first(x) == Some(up));
    if up == 0 {
        vstd::arithmetic::div_mod::lemma_fundamental_div_mod_converse(up + n - 1, n, 0, n - 1);
    } else {
        vstd::arithmetic::div_mod::lemma_fundamental_div_mod_converse(up + n - 1, n, 1, up - 1);
    }
    let y = order[down];
    order.index_of_first_ensures(y);
    assert(order.index_of_first(y) == Some(down));
    if down + 1 == n {
        vstd::arithmetic::div_mod::lemma_fundamental_div_mod_converse(down + 1, n, 1, 0);
    } else {
        vstd::arithmetic::div_mod::lemma_fundamental_div_mod_converse(down + 1, n, 0, down + 1);
    }
}

} // verus!
