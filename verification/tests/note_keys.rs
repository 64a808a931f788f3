use strix::comments::{Comment, Side, Source};
use strix::note_keys::{comment_action, delete_cursor_comment, open_editor_at, NoteContext, NoteStep, Notice};
use strix::view::{RowTarget, ViewMode};

fn note(id: u64, source: Source) -> Comment {
    Comment {
        id,
        source,
        file: "a.rs".to_string(),
        side: Side::New,
        line: 3,
        text: "t".to_string(),
        context: None,
        orphaned: false,
        created_at: 0,
    }
}

fn cx(view: ViewMode, target: Option<RowTarget>) -> NoteContext {
    NoteContext {
        view,
        authoring: true,
        diff_focused: true,
        cursor_visible: true,
        conflicted: false,
        target,
        anchorable: true,
    }
}

fn notes() -> Vec<Comment> {
    vec![note(1, Source::Human), note(2, Source::Agent)]
}

#[test]
fn c_edits_human_notes_and_refuses_agent_notes() {
    let n = notes();
    assert_eq!(comment_action(cx(ViewMode::Status, Some(RowTarget::Comment(1))), &n), NoteStep::Edit(1));
    assert_eq!(comment_action(cx(ViewMode::Review, Some(RowTarget::Orphan(1))), &n), NoteStep::Edit(1));
    assert_eq!(
        comment_action(cx(ViewMode::Status, Some(RowTarget::Comment(2))), &n),
        NoteStep::Notice(Notice::AgentReadOnly)
    );
    assert_eq!(comment_action(cx(ViewMode::Status, Some(RowTarget::Comment(7))), &n), NoteStep::Nothing);
}

#[test]
fn c_opens_a_new_note_on_an_anchorable_code_line() {
    let n = notes();
    assert_eq!(comment_action(cx(ViewMode::Status, Some(RowTarget::Code(4))), &n), NoteStep::New);
    let hunk = NoteContext { anchorable: false, ..cx(ViewMode::Status, Some(RowTarget::Code(0))) };
    assert_eq!(comment_action(hunk, &n), NoteStep::Notice(Notice::CantCommentHere));
    assert_eq!(comment_action(cx(ViewMode::Review, None), &n), NoteStep::Notice(Notice::CantCommentHere));
    assert_eq!(
        open_editor_at(NoteContext { anchorable: false, ..cx(ViewMode::Status, Some(RowTarget::FileHeader)) }, &n),
        NoteStep::Notice(Notice::CantCommentHere)
    );
}

#[test]
fn c_checks_its_gates_in_order() {
    let n = notes();
    let t = Some(RowTarget::Code(4));
    let unfocused = NoteContext { diff_focused: false, cursor_visible: false, ..cx(ViewMode::Status, t) };
    assert_eq!(comment_action(unfocused, &n), NoteStep::Notice(Notice::FocusDiff));
    let hidden = NoteContext { cursor_visible: false, conflicted: true, ..cx(ViewMode::Status, t) };
    assert_eq!(comment_action(hidden, &n), NoteStep::Reveal);
    let conflicted = NoteContext { conflicted: true, ..cx(ViewMode::Status, t) };
    assert_eq!(comment_action(conflicted, &n), NoteStep::Notice(Notice::Conflicted));
    let foreign = NoteContext { authoring: false, diff_focused: false, ..cx(ViewMode::Review, t) };
    assert_eq!(comment_action(foreign, &n), NoteStep::Notice(Notice::CheckOutBranch));
    assert_eq!(comment_action(cx(ViewMode::History, t), &n), NoteStep::Nothing);
}

#[test]
fn x_deletes_only_a_visible_note() {
    assert_eq!(delete_cursor_comment(cx(ViewMode::Status, Some(RowTarget::Orphan(5)))), NoteStep::Delete(5));
    assert_eq!(delete_cursor_comment(cx(ViewMode::Status, Some(RowTarget::Code(5)))), NoteStep::Nothing);
    let hidden = NoteContext { cursor_visible: false, ..cx(ViewMode::Status, Some(RowTarget::Comment(5))) };
    assert_eq!(delete_cursor_comment(hidden), NoteStep::Reveal);
    let unfocused = NoteContext { diff_focused: false, ..cx(ViewMode::Status, Some(RowTarget::Comment(5))) };
    assert_eq!(delete_cursor_comment(unfocused), NoteStep::Nothing);
    let foreign = NoteContext { authoring: false, ..cx(ViewMode::Review, Some(RowTarget::Comment(5))) };
    assert_eq!(delete_cursor_comment(foreign), NoteStep::Nothing);
}

#[test]
fn notices_read_as_the_app_shows_them() {
    assert_eq!(Notice::CantCommentHere.text(), "can't comment here");
    assert_eq!(Notice::AgentReadOnly.text(), "agent note — read-only");
    assert_eq!(Notice::FocusDiff.text(), "focus the diff to comment");
}
