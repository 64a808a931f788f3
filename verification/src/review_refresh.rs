//! Refreshing an open review. On each refresh the range is resolved again
//! and the comment inbox re-read from disk, so notes an agent resolved
//! meanwhile vanish from the review; the file list is rebuilt only when the
//! range's tips moved.
//!
//! The app does the git and disk work and hands each outcome back to
//! [`review_refresh_step`], which decides what the review becomes and what
//! to do next.

use vstd::prelude::*;
use crate::comments::first_file;
use crate::git::history::{CommitFile, Oid};
use crate::panes::{clamp_to, follow_selection};
use crate::text::{chars_of, push_chars};
use crate::view::{Flash, FlashKind};

verus! {

/// What the refresh keeps of an open review.
pub struct ReviewRefreshState {
    /// The range's resolved tips.
    pub base: Oid,
    pub head: Oid,
    /// The branch whose inbox holds the review's notes.
    pub branch_key: String,
    /// Whether the reviewed head is the checked-out one, so notes can be
    /// written.
    pub authoring: bool,
    pub files: Vec<CommitFile>,
    pub selected: usize,
    /// How many times the files were relisted.
    pub relist_count: u64,
    /// The tips a moved range resolved to, while its files are listed.
    pub pending: Option<(Oid, Oid)>,
}

/// What a comment re-read invalidates.
#[derive(Clone, Copy, Debug, PartialEq, Eq, Structural)]
pub enum Invalidation {
    /// Every section of the scroll stream.
    Stream,
    /// Only the anchor's rows; a relist rebuilds the rest.
    AnchorOnly,
}

/// What the app found while refreshing.
pub enum RefreshEvent {
    /// Resolving the range failed, with this message.
    ResolveFailed(String),
    /// The range resolved to `base..head`; `head_oid` is the checked-out
    /// HEAD and `branch_key` its branch (none when it could not be read).
    Resolved { base: Oid, head: Oid, head_oid: Option<Oid>, branch_key: Option<String> },
    /// The moved range's files.
    Listed(Vec<CommitFile>),
    /// Listing the moved range's files failed, with this message.
    ListFailed(String),
}

/// What the app does next.
pub enum RefreshAction {
    /// Show this error; the review stays as it was.
    Flash(Flash),
    /// Re-read the inbox from disk, invalidating `how`. With `list` the range
    /// moved: list its files and report back. Without, the list stays: clear
    /// a review error and clamp the cursor to the rows left.
    Reload { how: Invalidation, list: Option<(Oid, Oid)> },
    /// The files were relisted: clear a review error, re-anchor the notes,
    /// rebuild every section, recompute the open diff, clamp the cursor.
    Relisted,
    /// Listing failed: show this error (rebuilding the sections if the
    /// re-read changed the inbox); the old list and tips stay.
    ListFailed(Flash),
    /// Nothing to do.
    Nothing,
}

/// The error shown for a failed refresh step.
pub open spec fn review_error_text(msg: Seq<char>) -> Seq<char> {
    "review: "@ + msg
}

fn review_error(msg: &str) -> (f: Flash)
    ensures
        f.kind == FlashKind::Error,
        f.text@ == review_error_text(msg@),
{
    let mut text = String::new();
    let prefix = chars_of("review: ");
    push_chars(&mut text, prefix.as_slice());
    let m = chars_of(msg);
    push_chars(&mut text, m.as_slice());
    Flash::error(text)
}

/// The selection after relisting as `files`: the previously selected file,
/// followed by path, else the old row held to the new list.
pub open spec fn followed(old_files: Seq<CommitFile>, selected: usize, files: Seq<CommitFile>) -> usize {
    if selected < old_files.len() {
        match first_file(files, old_files[selected as int].path@) {
            Some(i) => i as usize,
            None => clamp_to(selected, files.len()),
        }
    } else {
        clamp_to(selected, files.len())
    }
}

/// One step of a review refresh.
pub fn review_refresh_step(s: ReviewRefreshState, ev: RefreshEvent) -> (r: (ReviewRefreshState, RefreshAction))
    requires
        ev is Listed && s.pending is Some ==> s.relist_count < u64::MAX,
    ensures
        match ev {
            RefreshEvent::ResolveFailed(msg) => {
                &&& r.0 == s
                &&& r.1 matches RefreshAction::Flash(f) && f.kind == FlashKind::Error && f.text@ == review_error_text(msg@)
            },
            RefreshEvent::Resolved { base, head, head_oid, branch_key } => {
                let moved = base != s.base || head != s.head;
                &&& r.0.authoring == (head_oid == Some(head))
                &&& r.0.branch_key == match branch_key {
                    Some(k) => k,
                    None => s.branch_key,
                }
                &&& r.0.base == s.base && r.0.head == s.head
                &&& r.0.files == s.files && r.0.selected == s.selected
                &&& r.0.relist_count == s.relist_count
                &&& r.0.pending == if moved {
                    Some((base, head))
                } else {
                    None
                }
                &&& r.1 matches RefreshAction::Reload { how, list } && how == (if moved {
                    Invalidation::AnchorOnly
                } else {
                    Invalidation::Stream
                }) && list == r.0.pending
            },
            RefreshEvent::Listed(files) => match s.pending {
                Some((b, h)) => r.0 == (ReviewRefreshState {
                    base: b,
                    head: h,
                    selected: followed(s.files@, s.selected, files@),
                    files,
                    relist_count: (s.relist_count + 1) as u64,
                    pending: None,
                    ..s
                }) && r.1 is Relisted,
                None => r.0 == s && r.1 is Nothing,
            },
            RefreshEvent::ListFailed(msg) => match s.pending {
                Some(_) => {
                    &&& r.0 == (ReviewRefreshState { pending: None, ..s })
                    &&& r.1 matches RefreshAction::ListFailed(f) && f.kind == FlashKind::Error && f.text@
                        == review_error_text(msg@)
                },
                None => r.0 == s && r.1 is Nothing,
            },
        },
{
    match ev {
        RefreshEvent::ResolveFailed(msg) => {
            let f = review_error(msg.as_str());
            (s, RefreshAction::Flash(f))
        },
        RefreshEvent::Resolved { base, head, head_oid, branch_key } => {
            let authoring = match head_oid {
                Some(h) => h == head,
                None => false,
            };
            let key = match branch_key {
                Some(k) => k,
                None => s.branch_key,
            };
            let moved = base != s.base || head != s.head;
            let pending = if moved {
                Some((base, head))
            } else {
                None
            };
            let how = if moved {
                Invalidation::AnchorOnly
            } else {
                Invalidation::Stream
            };
            (
                ReviewRefreshState {
                    base: s.base,
                    head: s.head,
                    branch_key: key,
                    authoring,
                    files: s.files,
                    selected: s.selected,
                    relist_count: s.relist_count,
                    pending,
                },
                RefreshAction::Reload { how, list: pending },
            )
        },
        RefreshEvent::Listed(files) => match s.pending {
            Some((b, h)) => {
                let selected = if s.selected < s.files.len() {
                    follow_selection(files.as_slice(), Some(s.files[s.selected].path.as_str()), s.selected)
                } else {
                    follow_selection(files.as_slice(), None, s.selected)
                };
                (
                    ReviewRefreshState {
                        base: b,
                        head: h,
                        branch_key: s.branch_key,
                        authoring: s.authoring,
                        files,
                        selected,
                        relist_count: s.relist_count + 1,
                        pending: None,
                    },
                    RefreshAction::Relisted,
                )
            },
            None => (s, RefreshAction::Nothing),
        },
        RefreshEvent::ListFailed(msg) => match s.pending {
            Some(_) => {
                let f = review_error(msg.as_str());
                (
                    ReviewRefreshState {
                        base: s.base,
                        head: s.head,
                        branch_key: s.branch_key,
                        authoring: s.authoring,
                        files: s.files,
                        selected: s.selected,
                        relist_count: s.relist_count,
                        pending: None,
                    },
                    RefreshAction::ListFailed(f),
                )
            },
            None => (s, RefreshAction::Nothing),
        },
    }
}

} // verus!
