//! Saving the in-place editor: whether a save writes at all, and the two
//! store transactions it runs. A new comment mints an id and may open its
//! branch's inbox; an edit touches only the text of a note that still exists
//! and writes nothing when that text already matches.

use vstd::prelude::*;
use crate::comment_cli::{appended, branch_entry, find_branch, find_first, first_with_id, keys_sorted};
use crate::session::inbox_of;
use crate::git::status::opt_view;
use crate::comments::Branch;
use crate::comments::{Comment, Source, Store, max_id, minted_id, store_ids};
use crate::editor::{CommentAnchor, CommentEdit};
use crate::git::review::{trim, trim_bounds};
use crate::text::{chars_of, push_chars};

verus! {

/// What a save of the editor does.
#[derive(Clone, Copy, Debug, PartialEq, Eq, Structural)]
pub enum SaveStep {
    /// A blank buffer cancels: nothing is written (deleting is a separate
    /// action, never an empty save).
    Cancel,
    /// An edit whose text is what it was at open writes nothing.
    Unchanged,
    /// Anything else is written.
    Submit,
}

/// The step a save of `edit` takes.
pub open spec fn save_step_of(edit: CommentEdit) -> SaveStep {
    if trim(edit.buffer@).len() == 0 {
        SaveStep::Cancel
    } else if edit.editing_id is Some && edit.buffer@ == edit.original_text@ {
        SaveStep::Unchanged
    } else {
        SaveStep::Submit
    }
}

/// Decides what saving the editor does.
pub fn save_step(edit: &CommentEdit) -> (s: SaveStep)
    ensures
        s == save_step_of(*edit),
{
    let cs = chars_of(edit.buffer.as_str());
    let (a, b) = trim_bounds(&cs);
    if a == b {
        SaveStep::Cancel
    } else if edit.editing_id.is_some() && edit.buffer == edit.original_text {
        SaveStep::Unchanged
    } else {
        SaveStep::Submit
    }
}

/// What a save transaction found.
pub enum SubmitOutcome {
    /// A new note was stored under `id`; `set` is its inbox afterwards.
    Added { id: u64, set: Vec<Comment> },
    /// Note `id` holds the text now; `set` is its inbox.
    Updated { id: u64, set: Vec<Comment> },
    /// The edited note is gone (its inbox or the note itself was removed
    /// meanwhile); `set` is the inbox as found, empty when it is gone too.
    Vanished { set: Vec<Comment> },
}

/// A copy of an optional string.
fn copy_opt(s: &Option<String>) -> (r: Option<String>)
    ensures
        r == *s,
{
    match s {
        Some(t) => Some(t.clone()),
        None => None,
    }
}

/// A copy of a comment.
fn copy_comment(c: &Comment) -> (r: Comment)
    ensures
        r == *c,
{
    Comment {
        id: c.id,
        source: c.source,
        file: c.file.clone(),
        side: c.side,
        line: c.line,
        text: c.text.clone(),
        context: copy_opt(&c.context),
        orphaned: c.orphaned,
        created_at: c.created_at,
    }
}

/// A copy of a list of comments.
pub(crate) fn copy_comments(v: &Vec<Comment>) -> (r: Vec<Comment>)
    ensures
        r@ == v@,
{
    let mut r: Vec<Comment> = Vec::new();
    let mut i: usize = 0;
    while i < v.len()
        invariant
            i <= v@.len(),
            r@ == v@.take(i as int),
        decreases v.len() - i,
    {
        r.push(copy_comment(&v[i]));
        i = i + 1;
        assert(r@ =~= v@.take(i as int));
    }
    assert(v@.take(i as int) =~= v@);
    r
}

/// Whether `new` is `mid` with the inbox keyed `key` stamped with the
/// reviewed `range`, when one is given and the inbox has none yet.
pub open spec fn range_recorded(
    mid: Seq<(String, Branch)>,
    new: Seq<(String, Branch)>,
    key: Seq<char>,
    range: Option<Seq<char>>,
) -> bool {
    match range {
        None => new == mid,
        Some(r) => match find_first(mid, key) {
            Some(k) => {
                &&& new.len() == mid.len()
                &&& new[k].0 == mid[k].0
                &&& new[k].1.comments == mid[k].1.comments
                &&& mid[k].1.range is None ==> opt_view(new[k].1.range) == Some(r)
                &&& mid[k].1.range is Some ==> new[k].1.range == mid[k].1.range
                &&& forall|o: int| 0 <= o < mid.len() && o != k ==> new[o] == mid[o]
            },
            None => new == mid,
        },
    }
}

/// An optional text's characters.
pub open spec fn opt_str(s: Option<&str>) -> Option<Seq<char>> {
    match s {
        Some(t) => Some(t@),
        None => None,
    }
}

/// Stores a new human note on `anchor` with text `text` in the inbox keyed
/// `branch` (opening it if needed), under a freshly minted id. A note
/// written in a review session (`range`, the session's range) also stamps
/// that range on an inbox that has none yet.
pub fn submit_new(
    store: &mut Store,
    branch: &str,
    anchor: &CommentAnchor,
    text: &str,
    created_at: u64,
    range: Option<&str>,
) -> (out: SubmitOutcome)
    requires
        old(store).next_id < u64::MAX,
        max_id(store_ids(old(store).branches@)) + 2 <= u64::MAX,
    ensures
        out matches SubmitOutcome::Added { id, set } && {
            &&& id as nat == minted_id(old(store).next_id, old(store).branches@)
            &&& final(store).next_id == id + 1
            &&& exists|c: Comment, mid: Seq<(String, Branch)>|
                {
                    &&& #[trigger] appended(old(store).branches@, mid, branch@, c)
                    &&& range_recorded(mid, final(store).branches@, branch@, opt_str(range))
                    &&& c.id == id
                    &&& c.source == Source::Human
                    &&& c.file == anchor.file
                    &&& c.side == anchor.side
                    &&& c.line == anchor.line
                    &&& c.text@ == text@
                    &&& c.context == anchor.context
                    &&& !c.orphaned
                    &&& c.created_at == created_at
                    &&& set@ == inbox_of(final(store).branches@, branch@)
                    &&& set@ == inbox_of(old(store).branches@, branch@).push(c)
                }
        },
        keys_sorted(old(store).branches@) ==> keys_sorted(final(store).branches@),
{
    let id = store.take_id();
    let b = branch_entry(store, branch);
    let mut body = String::new();
    let tc = chars_of(text);
    push_chars(&mut body, tc.as_slice());
    let comment = Comment {
        id,
        source: Source::Human,
        file: anchor.file.clone(),
        side: anchor.side,
        line: anchor.line,
        text: body,
        context: copy_opt(&anchor.context),
        orphaned: false,
        created_at,
    };
    let ghost before = store.branches@;
    let ghost c = comment;
    let mut entry = store.branches.remove(b);
    entry.1.comments.push(comment);
    let ghost pushed = entry;
    if let Some(r) = range {
        crate::session::record_range(&mut entry.1, r);
    }
    let set = copy_comments(&entry.1.comments);
    store.branches.insert(b, entry);
    proof {
        let mid = before.update(b as int, pushed);
        crate::comment_cli::lemma_appended(old(store).branches@, before, mid, branch@, b as int, c);
        crate::comment_cli::lemma_find_first(mid, branch@, b as int);
        crate::comment_cli::lemma_find_first(store.branches@, branch@, b as int);
        assert(range_recorded(mid, store.branches@, branch@, opt_str(range))) by {
            if range is None {
                assert(store.branches@ =~= mid);
            }
        }
        if exists|k: int| 0 <= k < old(store).branches@.len() && old(store).branches@[k].0@ == branch@ {
            crate::comment_cli::lemma_find_first(old(store).branches@, branch@, b as int);
        } else {
            crate::comment_cli::lemma_find_first_none(old(store).branches@, branch@);
            assert(before[b as int].1.comments@.push(c) =~= seq![c]);
        }
        assert(store.branches@[b as int].0@ == branch@);
        assert(set@ == inbox_of(store.branches@, branch@));
        assert(set@ == inbox_of(old(store).branches@, branch@).push(c));
        assert(appended(old(store).branches@, mid, branch@, c));
        if keys_sorted(before) {
            assert forall|i: int, j: int| 0 <= i < j < store.branches@.len() implies crate::text::key_lt(
                store.branches@[i].0@,
                store.branches@[j].0@,
            ) by {
                assert(store.branches@[i].0 == before[i].0);
                assert(store.branches@[j].0 == before[j].0);
            }
        }
    }
    SubmitOutcome::Added { id, set }
}

/// Sets the text of note `id` in the inbox keyed `branch` to `text`. Never
/// opens an inbox; returns whether the store changed, which it does only
/// when the note exists and its text differs.
pub fn submit_edit(store: &mut Store, branch: &str, id: u64, text: &str) -> (r: (SubmitOutcome, bool))
    ensures
        final(store).next_id == old(store).next_id,
        final(store).version == old(store).version,
        match find_first(old(store).branches@, branch@) {
            None => r.0 matches SubmitOutcome::Vanished { set } && set@.len() == 0 && !r.1
                && final(store).branches == old(store).branches,
            Some(k) => {
                let cs = old(store).branches@[k].1.comments@;
                match first_with_id(cs, id) {
                    None => r.0 matches SubmitOutcome::Vanished { set } && set@ == cs && !r.1
                        && final(store).branches == old(store).branches,
                    Some(m) => if cs[m].text@ == text@ {
                        r.0 matches SubmitOutcome::Updated { id: got, set } && got == id && set@ == cs
                            && !r.1 && final(store).branches == old(store).branches
                    } else {
                        &&& r.1
                        &&& final(store).branches@.len() == old(store).branches@.len()
                        &&& final(store).branches@[k].0 == old(store).branches@[k].0
                        &&& final(store).branches@[k].1.range == old(store).branches@[k].1.range
                        &&& final(store).branches@[k].1.comments@.len() == cs.len()
                        &&& final(store).branches@[k].1.comments@[m].text@ == text@
                        &&& final(store).branches@[k].1.comments@[m] == (Comment {
                            text: final(store).branches@[k].1.comments@[m].text,
                            ..cs[m]
                        })
                        &&& forall|j: int|
                            0 <= j < cs.len() && j != m ==> final(store).branches@[k].1.comments@[j]
                                == cs[j]
                        &&& forall|o: int|
                            0 <= o < old(store).branches@.len() && o != k ==> final(store).branches@[o]
                                == old(store).branches@[o]
                        &&& r.0 matches SubmitOutcome::Updated { id: got, set } && got == id && set@
                            == final(store).branches@[k].1.comments@
                    },
                }
            },
        },
{
    let b = match find_branch(store, branch) {
        Some(b) => b,
        None => {
            proof {
                crate::comment_cli::lemma_find_first_none(store.branches@, branch@);
            }
            return (SubmitOutcome::Vanished { set: Vec::new() }, false);
        },
    };
    proof {
        crate::comment_cli::lemma_find_first(store.branches@, branch@, b as int);
    }
    let mut pos: usize = 0;
    while pos < store.branches[b].1.comments.len() && store.branches[b].1.comments[pos].id != id
        invariant
            b < store.branches@.len(),
            pos <= store.branches@[b as int].1.comments@.len(),
            forall|m: int| 0 <= m < pos ==> store.branches@[b as int].1.comments@[m].id != id,
        decreases store.branches@[b as int].1.comments@.len() - pos,
    {
        pos = pos + 1;
    }
    proof {
        crate::comment_cli::lemma_first_with_id(store.branches@[b as int].1.comments@, id, pos as int);
    }
    if pos == store.branches[b].1.comments.len() {
        let set = copy_comments(&store.branches[b].1.comments);
        return (SubmitOutcome::Vanished { set }, false);
    }
    if crate::text::str_eq(store.branches[b].1.comments[pos].text.as_str(), text) {
        let set = copy_comments(&store.branches[b].1.comments);
        return (SubmitOutcome::Updated { id, set }, false);
    }
    let ghost before = store.branches@;
    let mut entry = store.branches.remove(b);
    let mut c = entry.1.comments.remove(pos);
    let mut body = String::new();
    let tc = chars_of(text);
    push_chars(&mut body, tc.as_slice());
    c.text = body;
    entry.1.comments.insert(pos, c);
    let set = copy_comments(&entry.1.comments);
    store.branches.insert(b, entry);
    proof {
        assert forall|o: int| 0 <= o < before.len() && o != b implies store.branches@[o] == before[o] by {
        }
        assert forall|j: int| 0 <= j < before[b as int].1.comments@.len() && j != pos implies store.branches@[b as int].1.comments@[j]
            == before[b as int].1.comments@[j] by {
        }
    }
    (SubmitOutcome::Updated { id, set }, true)
}

} // verus!
