//! What the comment keys do on the row under the diff cursor: `c` edits
//! the human note there or starts a new one on a code line, `X` deletes the
//! note there. Both act only on a focused, visible cursor: the first press
//! on a cursor scrolled out of view only brings it back.

use vstd::prelude::*;
use crate::comment_cli::first_with_id;
use crate::comments::{Comment, Source};
use crate::view::{RowTarget, ViewMode, target_comment_id};

verus! {

/// Why `c` only tells the user something.
#[derive(Clone, Copy, Debug, PartialEq, Eq, Structural)]
pub enum Notice {
    /// A review whose head is not checked out cannot take notes.
    CheckOutBranch,
    /// The file list has focus.
    FocusDiff,
    /// A conflicted file has no clean diff to anchor on.
    Conflicted,
    /// Agent notes are read-only.
    AgentReadOnly,
    /// No line to anchor on: a hunk header, a file header, or no row at all.
    CantCommentHere,
}

impl Notice {
    /// The message shown.
    pub fn text(self) -> (s: &'static str)
        ensures
            s@ == match self {
                Notice::CheckOutBranch => "check out the reviewed branch to comment"@,
                Notice::FocusDiff => "focus the diff to comment"@,
                Notice::Conflicted => "can't comment on a conflicted file"@,
                Notice::AgentReadOnly => "agent note — read-only"@,
                Notice::CantCommentHere => "can't comment here"@,
            },
    {
        match self {
            Notice::CheckOutBranch => "check out the reviewed branch to comment",
            Notice::FocusDiff => "focus the diff to comment",
            Notice::Conflicted => "can't comment on a conflicted file",
            Notice::AgentReadOnly => "agent note — read-only",
            Notice::CantCommentHere => "can't comment here",
        }
    }
}

/// What a comment key does.
#[derive(Clone, Copy, Debug, PartialEq, Eq, Structural)]
pub enum NoteStep {
    /// Nothing at all.
    Nothing,
    /// Only tell the user why not.
    Notice(Notice),
    /// The cursor is out of view: scroll it back; the next press acts.
    Reveal,
    /// Bring the cursor's file to the anchor, then open the editor on human
    /// note `id`.
    Edit(u64),
    /// Bring the cursor's file to the anchor, then open a new-note editor on
    /// its code line.
    New,
    /// Bring the cursor's file to the anchor, then delete note `id`.
    Delete(u64),
}

/// What the comment keys read of the app.
#[derive(Clone, Copy, Debug, PartialEq, Eq, Structural)]
pub struct NoteContext {
    pub view: ViewMode,
    /// Whether a review session's head is the checked-out one.
    pub authoring: bool,
    /// Whether the active view's diff has focus.
    pub diff_focused: bool,
    /// Whether the cursor's row is on screen.
    pub cursor_visible: bool,
    /// Whether the cursor's file is conflicted (status view).
    pub conflicted: bool,
    /// The cursor's row; none when there is no row to point at.
    pub target: Option<RowTarget>,
    /// Whether the cursor's code line can anchor a note.
    pub anchorable: bool,
}

/// What `c` does on a row the cursor, focused and visible, points at: edit
/// the human note there, refuse an agent's, open a new note on an anchorable
/// code line.
pub open spec fn open_step(cx: NoteContext, notes: Seq<Comment>) -> NoteStep {
    match cx.target {
        None => NoteStep::Notice(Notice::CantCommentHere),
        Some(t) => match t {
            RowTarget::Comment(id) | RowTarget::Orphan(id) => match first_with_id(notes, id) {
                Some(j) => if notes[j].source == Source::Human {
                    NoteStep::Edit(id)
                } else {
                    NoteStep::Notice(Notice::AgentReadOnly)
                },
                None => NoteStep::Nothing,
            },
            _ => if cx.anchorable {
                NoteStep::New
            } else {
                NoteStep::Notice(Notice::CantCommentHere)
            },
        },
    }
}

/// What `c` does: in the status view the diff must have focus, the cursor
/// be visible and its file unconflicted; in a review the head must be
/// checked out, the diff have focus and the cursor be visible; the history
/// view takes no notes.
pub open spec fn comment_step(cx: NoteContext, notes: Seq<Comment>) -> NoteStep {
    match cx.view {
        ViewMode::Status => if !cx.diff_focused {
            NoteStep::Notice(Notice::FocusDiff)
        } else if !cx.cursor_visible {
            NoteStep::Reveal
        } else if cx.conflicted {
            NoteStep::Notice(Notice::Conflicted)
        } else {
            open_step(cx, notes)
        },
        ViewMode::Review => if !cx.authoring {
            NoteStep::Notice(Notice::CheckOutBranch)
        } else if !cx.diff_focused {
            NoteStep::Notice(Notice::FocusDiff)
        } else if !cx.cursor_visible {
            NoteStep::Reveal
        } else {
            open_step(cx, notes)
        },
        ViewMode::History => NoteStep::Nothing,
    }
}

/// The position of the first note with id `id`.
fn find_note(notes: &[Comment], id: u64) -> (r: Option<usize>)
    ensures
        r matches Some(i) ==> i < notes@.len() && first_with_id(notes@, id) == Some(i as int),
        r is None ==> first_with_id(notes@, id) is None,
{
    let mut i: usize = 0;
    while i < notes.len()
        invariant
            i <= notes@.len(),
            forall|k: int| 0 <= k < i ==> notes@[k].id != id,
        decreases notes.len() - i,
    {
        if notes[i].id == id {
            proof {
                crate::comment_cli::lemma_first_with_id(notes@, id, i as int);
            }
            return Some(i);
        }
        i = i + 1;
    }
    proof {
        crate::comment_cli::lemma_first_with_id(notes@, id, i as int);
    }
    None
}

/// What `c` does on the focused, visible cursor's row.
pub fn open_editor_at(cx: NoteContext, notes: &[Comment]) -> (r: NoteStep)
    ensures
        r == open_step(cx, notes@),
{
    let t = match cx.target {
        Some(t) => t,
        None => {
            return NoteStep::Notice(Notice::CantCommentHere);
        },
    };
    match target_comment_id(t) {
        Some(id) => match find_note(notes, id) {
            Some(j) => {
                if notes[j].source == Source::Human {
                    NoteStep::Edit(id)
                } else {
                    NoteStep::Notice(Notice::AgentReadOnly)
                }
            },
            None => NoteStep::Nothing,
        },
        None => {
            if cx.anchorable {
                NoteStep::New
            } else {
                NoteStep::Notice(Notice::CantCommentHere)
            }
        },
    }
}

/// What `c` does; `notes` are the active view's notes.
pub fn comment_action(cx: NoteContext, notes: &[Comment]) -> (r: NoteStep)
    ensures
        r == comment_step(cx, notes@),
{
    match cx.view {
        ViewMode::Status => {
            if !cx.diff_focused {
                NoteStep::Notice(Notice::FocusDiff)
            } else if !cx.cursor_visible {
                NoteStep::Reveal
            } else if cx.conflicted {
                NoteStep::Notice(Notice::Conflicted)
            } else {
                open_editor_at(cx, notes)
            }
        },
        ViewMode::Review => {
            if !cx.authoring {
                NoteStep::Notice(Notice::CheckOutBranch)
            } else if !cx.diff_focused {
                NoteStep::Notice(Notice::FocusDiff)
            } else if !cx.cursor_visible {
                NoteStep::Reveal
            } else {
                open_editor_at(cx, notes)
            }
        },
        ViewMode::History => NoteStep::Nothing,
    }
}

/// What `X` does: with the diff focused and the cursor visible, delete the
/// note under it; a code row, or a view that takes no notes, is a silent
/// no-op.
pub open spec fn delete_step(cx: NoteContext) -> NoteStep {
    if !cx.diff_focused {
        NoteStep::Nothing
    } else if !cx.cursor_visible {
        NoteStep::Reveal
    } else {
        match cx.target {
            Some(RowTarget::Comment(id)) | Some(RowTarget::Orphan(id)) => if cx.view == ViewMode::Status || (cx.view
                == ViewMode::Review && cx.authoring) {
                NoteStep::Delete(id)
            } else {
                NoteStep::Nothing
            },
            _ => NoteStep::Nothing,
        }
    }
}

/// What `X` does.
pub fn delete_cursor_comment(cx: NoteContext) -> (r: NoteStep)
    ensures
        r == delete_step(cx),
{
    if !cx.diff_focused {
        return NoteStep::Nothing;
    }
    if !cx.cursor_visible {
        return NoteStep::Reveal;
    }
    let id = match cx.target {
        Some(t) => match target_comment_id(t) {
            Some(id) => id,
            None => {
                return NoteStep::Nothing;
            },
        },
        None => {
            return NoteStep::Nothing;
        },
    };
    let can_author = match cx.view {
        ViewMode::Status => true,
        ViewMode::Review => cx.authoring,
        ViewMode::History => false,
    };
    if can_author {
        NoteStep::Delete(id)
    } else {
        NoteStep::Nothing
    }
}

/// The comment keys never act on a row the user cannot see, nor from the
/// file list: the editor opens, and a note is deleted, only on a focused,
/// visible cursor; agent notes are never opened for editing.
pub proof fn lemma_acts_only_on_a_visible_cursor(cx: NoteContext, notes: Seq<Comment>)
    ensures
        (comment_step(cx, notes) matches NoteStep::Edit(_) || comment_step(cx, notes) is New || delete_step(cx) is Delete)
            ==> cx.diff_focused && cx.cursor_visible,
        comment_step(cx, notes) matches NoteStep::Edit(id) ==> (first_with_id(notes, id) matches Some(j)
            && notes[j].source == Source::Human),
{
}

} // verus!
