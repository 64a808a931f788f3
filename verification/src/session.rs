//! Opening a review session on a branch: the reviewed range is recorded on
//! the branch's inbox and its comments are re-anchored against the range's
//! diff, in one store transaction that reports whether it changed anything,
//! so a pass that moves nothing writes nothing.

use vstd::prelude::*;
use crate::comment_cli::{branch_entry, find_branch, find_first, keys_sorted};
use crate::comments::{
    Comment, Store, first_file, lemma_reanchor_idempotent, moved, reanchor, reanchor_comment,
};
use crate::submit::copy_comments;
use crate::git::diff::FileDiff;
use crate::git::history::CommitFile;
use crate::git::status::opt_view;
use crate::text::{chars_of, push_chars, str_eq};

verus! {

/// Whether every comment that resolves to one of `files` has that file's
/// diff in `diffs`.
pub open spec fn diffs_cover(comments: Seq<Comment>, files: Seq<CommitFile>, diffs: Seq<Option<FileDiff>>) -> bool {
    forall|k: int|
        0 <= k < comments.len() ==> match first_file(files, (#[trigger] comments[k]).file@) {
            Some(i) => diffs[i] is Some,
            None => true,
        }
}

/// The comments the inbox keyed `branch` holds in `store`, none when there
/// is no such inbox.
pub open spec fn inbox_of(bs: Seq<(String, crate::comments::Branch)>, branch: Seq<char>) -> Seq<Comment> {
    match find_first(bs, branch) {
        Some(b) => bs[b].1.comments@,
        None => Seq::empty(),
    }
}

/// Records `range` as the reviewed range of the inbox keyed `branch`
/// (opening it if needed) and re-anchors its comments against the range's
/// `files` (`diffs[i]` the diff of `files[i]`). Returns the inbox's comments
/// afterwards, and whether the store changed: the recorded range differed
/// or some comment moved.
pub fn record_range_and_reanchor(
    store: &mut Store,
    branch: &str,
    range: &str,
    files: &[CommitFile],
    diffs: &[Option<FileDiff>],
) -> (r: (Vec<Comment>, bool))
    requires
        files@.len() == diffs@.len(),
        diffs_cover(inbox_of(old(store).branches@, branch@), files@, diffs@),
    ensures
        final(store).version == old(store).version,
        final(store).next_id == old(store).next_id,
        keys_sorted(old(store).branches@) ==> keys_sorted(final(store).branches@),
        ({
            let ob = old(store).branches@;
            let nb = final(store).branches@;
            let old_set = inbox_of(ob, branch@);
            &&& find_first(nb, branch@) matches Some(b) && {
                &&& opt_view(nb[b].1.range) == Some(range@)
                &&& nb[b].1.comments@ == r.0@
            }
            &&& r.0@.len() == old_set.len()
            &&& forall|k: int|
                0 <= k < old_set.len() ==> #[trigger] r.0@[k] == reanchor_comment(old_set[k], files@, diffs@)
            &&& r.1 == (match find_first(ob, branch@) {
                Some(b) => opt_view(ob[b].1.range) != Some(range@),
                None => true,
            } || exists|k: int| 0 <= k < old_set.len() && moved(old_set[k], #[trigger] r.0@[k]))
            &&& match find_first(ob, branch@) {
                Some(b) => nb.len() == ob.len() && nb[b].0 == ob[b].0 && forall|o: int|
                    0 <= o < ob.len() && o != b ==> nb[o] == ob[o],
                None => nb.len() == ob.len() + 1,
            }
        }),
{
    let ghost ob = store.branches@;
    let existed = find_branch(store, branch);
    proof {
        match existed {
            Some(b) => crate::comment_cli::lemma_find_first(ob, branch@, b as int),
            None => crate::comment_cli::lemma_find_first_none(ob, branch@),
        }
    }
    let b = branch_entry(store, branch);
    let ghost mid = store.branches@;
    proof {
        crate::comment_cli::lemma_find_first(mid, branch@, b as int);
        if let Some(e) = existed {
            assert(mid == ob);
            assert(b == e);
        }
        assert(mid[b as int].1.comments@ == inbox_of(ob, branch@));
    }
    let mut entry = store.branches.remove(b);
    let range_changed = match &entry.1.range {
        Some(s) => !str_eq(s.as_str(), range),
        None => true,
    };
    let mut recorded = String::new();
    let rc = chars_of(range);
    push_chars(&mut recorded, rc.as_slice());
    entry.1.range = Some(recorded);
    let moved_any = reanchor(&mut entry.1.comments, files, diffs);
    let set = copy_comments(&entry.1.comments);
    store.branches.insert(b, entry);
    proof {
        let nb = store.branches@;
        assert(nb =~= mid.update(b as int, entry));
        crate::comment_cli::lemma_find_first(nb, branch@, b as int);
        if keys_sorted(ob) {
            assert(keys_sorted(mid));
            assert forall|i: int, j: int| 0 <= i < j < nb.len() implies crate::text::key_lt(nb[i].0@, nb[j].0@) by {
                assert(nb[i].0 == mid[i].0);
                assert(nb[j].0 == mid[j].0);
            }
        }
    }
    (set, range_changed || moved_any)
}

/// Records `range` as the inbox's reviewed range when it has none yet (a
/// note authored before the session pass still stamps the range); a
/// recorded range is kept.
pub fn record_range(entry: &mut crate::comments::Branch, range: &str)
    ensures
        final(entry).comments == old(entry).comments,
        old(entry).range is None ==> opt_view(final(entry).range) == Some(range@),
        old(entry).range is Some ==> final(entry).range == old(entry).range,
{
    if entry.range.is_none() {
        let mut recorded = String::new();
        let rc = chars_of(range);
        push_chars(&mut recorded, rc.as_slice());
        entry.range = Some(recorded);
    }
}

/// A session pass leaves the comments settled: a second pass over what the
/// first one returned, against the same files and diffs, moves nothing, so
/// re-opening the session on the same range writes nothing.
pub proof fn lemma_second_pass_moves_nothing(
    before: Seq<Comment>,
    after: Seq<Comment>,
    files: Seq<CommitFile>,
    diffs: Seq<Option<FileDiff>>,
)
    requires
        after.len() == before.len(),
        forall|k: int| 0 <= k < before.len() ==> #[trigger] after[k] == reanchor_comment(before[k], files, diffs),
    ensures
        forall|k: int| 0 <= k < after.len() ==> #[trigger] reanchor_comment(after[k], files, diffs) == after[k],
        !exists|k: int| 0 <= k < after.len() && moved(after[k], #[trigger] reanchor_comment(after[k], files, diffs)),
{
    assert forall|k: int| 0 <= k < after.len() implies #[trigger] reanchor_comment(after[k], files, diffs)
        == after[k] by {
        lemma_reanchor_idempotent(before[k], files, diffs);
    }
}

} // verus!
