//! What a keymap action does. The panes on screen and which of them has
//! the keyboard are plain state, changed here; everything else an action
//! asks for (moving a cursor, staging, reloading) is handed back as an
//! effect for the app to carry out.
//!
//! The state keeps one rule: when the left panel is hidden, the keyboard is
//! on the diff, the only pane left to see.

use vstd::prelude::*;
use crate::keys::Action;
use crate::menu::{MenuCommand, ViewSettings, home_of};
use crate::panes::{cycle_history_focus, history_focus_left, history_focus_right};
use crate::text::str_eq;
use crate::view::{DiffMode, Focus, HistoryFocus, ReviewFocus, ViewMode};

verus! {

/// The panes on screen and which of them has the keyboard.
#[derive(Clone, Copy, Debug, PartialEq, Eq, Structural)]
pub struct PaneState {
    pub view: ViewMode,
    /// Whether the session reviews a branch (its home is the review view).
    pub in_review: bool,
    /// Whether the left panel (file list, or graph and commit files) shows.
    pub show_changes: bool,
    /// The status view's focus.
    pub focus: Focus,
    pub history_focus: HistoryFocus,
    /// The review view's focus; it exists only in a review session.
    pub review_focus: ReviewFocus,
}

impl PaneState {
    /// The view is the session's home or the history on top of it.
    pub open spec fn wf(self) -> bool {
        self.view == ViewMode::History || self.view == home_of(self.in_review)
    }

    /// The panes a session opens with: its home view, the left panel shown
    /// and its list focused.
    pub fn initial(in_review: bool) -> (s: Self)
        ensures
            s.wf(),
            s.focus_visible(),
            s.view == home_of(in_review),
            s.in_review == in_review,
            s.show_changes,
            s.focus == Focus::Staging,
            s.history_focus == HistoryFocus::Graph,
            s.review_focus == ReviewFocus::List,
    {
        PaneState {
            view: if in_review {
                ViewMode::Review
            } else {
                ViewMode::Status
            },
            in_review,
            show_changes: true,
            focus: Focus::Staging,
            history_focus: HistoryFocus::Graph,
            review_focus: ReviewFocus::List,
        }
    }

    /// With the left panel hidden, the active view's focus is its diff.
    pub open spec fn focus_visible(self) -> bool {
        !self.show_changes ==> match self.view {
            ViewMode::Status => self.focus == Focus::Diff,
            ViewMode::History => self.history_focus == HistoryFocus::Diff,
            ViewMode::Review => self.review_focus == ReviewFocus::Diff,
        }
    }
}

/// What is left for the app to do after an action changed the panes.
#[derive(Clone, Copy, Debug, PartialEq, Eq, Structural)]
pub enum Effect {
    /// Nothing more.
    Done,
    Quit,
    ShowHelp,
    /// Flip the diff mode and persist it.
    ToggleDiffMode,
    Refresh,
    /// The history view opened: load the commits and the selected commit.
    EnteredHistory,
    /// The history view closed: resync the home view.
    LeftHistory,
    /// The left panel was shown or hidden: re-window the diff.
    PanelToggled,
    /// Move the file selection one down (up), or to the first (last) file.
    SelectNext,
    SelectPrev,
    SelectFirst,
    SelectLast,
    /// Move the diff cursor one row, or half a page, down or up.
    MoveCursor { down: bool, half_page: bool },
    /// Move the diff cursor to the top or bottom.
    CursorToEdge { bottom: bool },
    /// Scroll the diff half a page, leaving the cursor.
    ScrollHalfPage { down: bool },
    ToggleStage,
    Stage,
    Unstage,
    /// Ask before discarding the selected file's changes.
    RequestDiscard,
    /// Move in whichever history pane has focus.
    HistoryMove { down: bool },
    HistoryToEdge { bottom: bool },
    HistoryHalfPage { down: bool },
    /// Move in whichever review pane has focus.
    ReviewMove { down: bool },
    ReviewToEdge { bottom: bool },
    ReviewHalfPage { down: bool },
}

/// `s` with the review focus set, where the session has one.
pub open spec fn with_review_focus(s: PaneState, f: ReviewFocus) -> PaneState {
    if s.in_review {
        PaneState { review_focus: f, ..s }
    } else {
        s
    }
}

/// Showing the left panel focuses the active view's list pane.
pub open spec fn revealed(s: PaneState) -> PaneState {
    match s.view {
        ViewMode::Status => PaneState { show_changes: true, focus: Focus::Staging, ..s },
        ViewMode::History => PaneState { show_changes: true, history_focus: HistoryFocus::Graph, ..s },
        ViewMode::Review => with_review_focus(PaneState { show_changes: true, ..s }, ReviewFocus::List),
    }
}

/// Hiding the left panel focuses the active view's diff.
pub open spec fn hidden(s: PaneState) -> PaneState {
    match s.view {
        ViewMode::Status => PaneState { show_changes: false, focus: Focus::Diff, ..s },
        ViewMode::History => PaneState { show_changes: false, history_focus: HistoryFocus::Diff, ..s },
        ViewMode::Review => with_review_focus(PaneState { show_changes: false, ..s }, ReviewFocus::Diff),
    }
}

/// The changes-panel toggle of the active view.
pub open spec fn panel_toggled(s: PaneState) -> PaneState {
    if s.show_changes {
        hidden(s)
    } else {
        revealed(s)
    }
}

/// Opening the history: its focus starts on the graph, or on the diff when
/// the panel is hidden.
pub open spec fn history_entered(s: PaneState) -> PaneState {
    PaneState {
        view: ViewMode::History,
        history_focus: if s.show_changes {
            HistoryFocus::Graph
        } else {
            HistoryFocus::Diff
        },
        ..s
    }
}

/// Leaving the history for the home view, whose focus starts on its list,
/// or on its diff when the panel is hidden.
pub open spec fn history_left(s: PaneState) -> PaneState {
    let home = PaneState {
        view: home_of(s.in_review),
        focus: if s.show_changes {
            Focus::Staging
        } else {
            Focus::Diff
        },
        ..s
    };
    if s.show_changes {
        home
    } else {
        with_review_focus(home, ReviewFocus::Diff)
    }
}

/// Whether an action is handled the same in every view.
pub open spec fn is_global(a: Action) -> bool {
    matches!(a, Action::Quit | Action::Help | Action::ToggleDiffMode | Action::Refresh | Action::ToggleHistory | Action::ShowStatus | Action::ShowHistory)
}

/// Whether an action changes the working tree.
pub open spec fn is_staging(a: Action) -> bool {
    matches!(a, Action::ToggleStage | Action::Stage | Action::Unstage | Action::Discard)
}

/// What an action handled the same in every view does.
pub open spec fn global_outcome(s: PaneState, a: Action) -> (PaneState, Effect) {
    match a {
        Action::Quit => (s, Effect::Quit),
        Action::Help => (s, Effect::ShowHelp),
        Action::ToggleDiffMode => (s, Effect::ToggleDiffMode),
        Action::Refresh => (s, Effect::Refresh),
        Action::ToggleHistory => if s.view == ViewMode::History {
            (history_left(s), Effect::LeftHistory)
        } else {
            (history_entered(s), Effect::EnteredHistory)
        },
        Action::ShowStatus => if s.view == ViewMode::History {
            (history_left(s), Effect::LeftHistory)
        } else {
            (s, Effect::Done)
        },
        _ => if s.view != ViewMode::History {
            (history_entered(s), Effect::EnteredHistory)
        } else {
            (s, Effect::Done)
        },
    }
}

/// What an action does in the status view. Navigation moves the file
/// selection when the list has focus and the diff cursor otherwise; the
/// staging actions act on the selected file whatever has focus, but a
/// discard is refused while the focused diff cursor rests on a comment.
pub open spec fn status_outcome(s: PaneState, a: Action, cursor_on_comment: bool) -> (PaneState, Effect) {
    let list = s.focus == Focus::Staging;
    match a {
        Action::SwitchPane => if s.show_changes {
            (PaneState { focus: if list { Focus::Diff } else { Focus::Staging }, ..s }, Effect::Done)
        } else {
            (revealed(s), Effect::PanelToggled)
        },
        Action::ToggleChanges => (panel_toggled(s), Effect::PanelToggled),
        Action::FocusStaging => (revealed(s), Effect::PanelToggled),
        Action::FocusDiff => (PaneState { focus: Focus::Diff, ..s }, Effect::Done),
        Action::Down => (s, if list { Effect::SelectNext } else { Effect::MoveCursor { down: true, half_page: false } }),
        Action::Up => (s, if list { Effect::SelectPrev } else { Effect::MoveCursor { down: false, half_page: false } }),
        Action::Top => (s, if list { Effect::SelectFirst } else { Effect::CursorToEdge { bottom: false } }),
        Action::Bottom => (s, if list { Effect::SelectLast } else { Effect::CursorToEdge { bottom: true } }),
        Action::HalfPageDown => (s, if list { Effect::ScrollHalfPage { down: true } } else { Effect::MoveCursor { down: true, half_page: true } }),
        Action::HalfPageUp => (s, if list { Effect::ScrollHalfPage { down: false } } else { Effect::MoveCursor { down: false, half_page: true } }),
        Action::ToggleStage => (s, Effect::ToggleStage),
        Action::Stage => (s, Effect::Stage),
        Action::Unstage => (s, Effect::Unstage),
        Action::Discard => (s, if list || !cursor_on_comment { Effect::RequestDiscard } else { Effect::Done }),
        _ => (s, Effect::Done),
    }
}

/// What an action does in the history view, which is read-only.
pub open spec fn history_outcome(s: PaneState, a: Action) -> (PaneState, Effect) {
    match a {
        Action::SwitchPane => if s.show_changes {
            (PaneState { history_focus: cycle_history_spec(s.history_focus), ..s }, Effect::Done)
        } else {
            (revealed(s), Effect::PanelToggled)
        },
        Action::ToggleChanges => (panel_toggled(s), Effect::PanelToggled),
        Action::FocusStaging => if s.show_changes {
            (PaneState { history_focus: left_of(s.history_focus), ..s }, Effect::Done)
        } else {
            (revealed(s), Effect::PanelToggled)
        },
        Action::FocusDiff => (PaneState { history_focus: right_of(s.history_focus), ..s }, Effect::Done),
        Action::Down => (s, Effect::HistoryMove { down: true }),
        Action::Up => (s, Effect::HistoryMove { down: false }),
        Action::Top => (s, Effect::HistoryToEdge { bottom: false }),
        Action::Bottom => (s, Effect::HistoryToEdge { bottom: true }),
        Action::HalfPageDown => (s, Effect::HistoryHalfPage { down: true }),
        Action::HalfPageUp => (s, Effect::HistoryHalfPage { down: false }),
        _ => (s, Effect::Done),
    }
}

/// What an action does in the review view, which is read-only.
pub open spec fn review_outcome(s: PaneState, a: Action) -> (PaneState, Effect) {
    match a {
        Action::SwitchPane => if s.show_changes {
            (
                with_review_focus(
                    s,
                    if s.in_review && s.review_focus == ReviewFocus::Diff {
                        ReviewFocus::List
                    } else {
                        ReviewFocus::Diff
                    },
                ),
                Effect::Done,
            )
        } else {
            (revealed(s), Effect::PanelToggled)
        },
        Action::ToggleChanges => (panel_toggled(s), Effect::PanelToggled),
        Action::FocusStaging => if s.show_changes {
            (with_review_focus(s, ReviewFocus::List), Effect::Done)
        } else {
            (revealed(s), Effect::PanelToggled)
        },
        Action::FocusDiff => (with_review_focus(s, ReviewFocus::Diff), Effect::Done),
        Action::Down => (s, Effect::ReviewMove { down: true }),
        Action::Up => (s, Effect::ReviewMove { down: false }),
        Action::Top => (s, Effect::ReviewToEdge { bottom: false }),
        Action::Bottom => (s, Effect::ReviewToEdge { bottom: true }),
        Action::HalfPageDown => (s, Effect::ReviewHalfPage { down: true }),
        Action::HalfPageUp => (s, Effect::ReviewHalfPage { down: false }),
        _ => (s, Effect::Done),
    }
}

/// The Tab order of the history panes.
pub open spec fn cycle_history_spec(f: HistoryFocus) -> HistoryFocus {
    match f {
        HistoryFocus::Graph => HistoryFocus::CommittedChanges,
        HistoryFocus::CommittedChanges => HistoryFocus::Diff,
        HistoryFocus::Diff => HistoryFocus::Graph,
    }
}

/// The history pane to the left, held at the graph.
pub open spec fn left_of(f: HistoryFocus) -> HistoryFocus {
    match f {
        HistoryFocus::Diff => HistoryFocus::CommittedChanges,
        _ => HistoryFocus::Graph,
    }
}

/// The history pane to the right, held at the diff.
pub open spec fn right_of(f: HistoryFocus) -> HistoryFocus {
    match f {
        HistoryFocus::Graph => HistoryFocus::CommittedChanges,
        _ => HistoryFocus::Diff,
    }
}

/// What an action does: the global actions first, then the active view's.
pub open spec fn outcome(s: PaneState, a: Action, cursor_on_comment: bool) -> (PaneState, Effect) {
    if is_global(a) {
        global_outcome(s, a)
    } else {
        match s.view {
            ViewMode::Status => status_outcome(s, a, cursor_on_comment),
            ViewMode::History => history_outcome(s, a),
            ViewMode::Review => review_outcome(s, a),
        }
    }
}


/// Sets the review focus, where the session has one.
pub fn set_review_focus(s: PaneState, f: ReviewFocus) -> (r: PaneState)
    ensures
        r == with_review_focus(s, f),
{
    if s.in_review {
        PaneState { review_focus: f, ..s }
    } else {
        s
    }
}

/// Shows the left panel and focuses the active view's list pane.
pub fn reveal_changes(s: PaneState) -> (r: PaneState)
    ensures
        r == revealed(s),
{
    match s.view {
        ViewMode::Status => PaneState { show_changes: true, focus: Focus::Staging, ..s },
        ViewMode::History => PaneState { show_changes: true, history_focus: HistoryFocus::Graph, ..s },
        ViewMode::Review => set_review_focus(PaneState { show_changes: true, ..s }, ReviewFocus::List),
    }
}

/// Shows or hides the active view's left panel; hiding moves the focus to
/// the diff.
pub fn toggle_changes_panel(s: PaneState) -> (r: PaneState)
    ensures
        r == panel_toggled(s),
{
    if !s.show_changes {
        return reveal_changes(s);
    }
    match s.view {
        ViewMode::Status => PaneState { show_changes: false, focus: Focus::Diff, ..s },
        ViewMode::History => PaneState { show_changes: false, history_focus: HistoryFocus::Diff, ..s },
        ViewMode::Review => set_review_focus(PaneState { show_changes: false, ..s }, ReviewFocus::Diff),
    }
}

/// Opens the history view.
pub fn enter_history(s: PaneState) -> (r: PaneState)
    ensures
        r == history_entered(s),
{
    let history_focus = if s.show_changes {
        HistoryFocus::Graph
    } else {
        HistoryFocus::Diff
    };
    PaneState { view: ViewMode::History, history_focus, ..s }
}

/// Returns from the history view to the session's home view.
pub fn exit_history(s: PaneState) -> (r: PaneState)
    ensures
        r == history_left(s),
{
    let view = if s.in_review {
        ViewMode::Review
    } else {
        ViewMode::Status
    };
    let focus = if s.show_changes {
        Focus::Staging
    } else {
        Focus::Diff
    };
    let home = PaneState { view, focus, ..s };
    if s.show_changes {
        home
    } else {
        set_review_focus(home, ReviewFocus::Diff)
    }
}

/// Handles an action the same in every view.
fn dispatch_global(s: PaneState, action: Action) -> (r: (PaneState, Effect))
    requires
        is_global(action),
    ensures
        r == global_outcome(s, action),
{
    let in_history = s.view == ViewMode::History;
    match action {
        Action::Quit => (s, Effect::Quit),
        Action::Help => (s, Effect::ShowHelp),
        Action::ToggleDiffMode => (s, Effect::ToggleDiffMode),
        Action::Refresh => (s, Effect::Refresh),
        Action::ToggleHistory => {
            if in_history {
                (exit_history(s), Effect::LeftHistory)
            } else {
                (enter_history(s), Effect::EnteredHistory)
            }
        },
        Action::ShowStatus => {
            if in_history {
                (exit_history(s), Effect::LeftHistory)
            } else {
                (s, Effect::Done)
            }
        },
        _ => {
            if !in_history {
                (enter_history(s), Effect::EnteredHistory)
            } else {
                (s, Effect::Done)
            }
        },
    }
}

/// Handles an action in the status view.
pub fn dispatch_status(s: PaneState, action: Action, cursor_on_comment: bool) -> (r: (PaneState, Effect))
    ensures
        r == status_outcome(s, action, cursor_on_comment),
{
    let list = s.focus == Focus::Staging;
    match action {
        Action::SwitchPane => {
            if s.show_changes {
                let focus = if list {
                    Focus::Diff
                } else {
                    Focus::Staging
                };
                (PaneState { focus, ..s }, Effect::Done)
            } else {
                (reveal_changes(s), Effect::PanelToggled)
            }
        },
        Action::ToggleChanges => (toggle_changes_panel(s), Effect::PanelToggled),
        Action::FocusStaging => (reveal_changes(s), Effect::PanelToggled),
        Action::FocusDiff => (PaneState { focus: Focus::Diff, ..s }, Effect::Done),
        Action::Down => (s, if list { Effect::SelectNext } else { Effect::MoveCursor { down: true, half_page: false } }),
        Action::Up => (s, if list { Effect::SelectPrev } else { Effect::MoveCursor { down: false, half_page: false } }),
        Action::Top => (s, if list { Effect::SelectFirst } else { Effect::CursorToEdge { bottom: false } }),
        Action::Bottom => (s, if list { Effect::SelectLast } else { Effect::CursorToEdge { bottom: true } }),
        Action::HalfPageDown => (s, if list { Effect::ScrollHalfPage { down: true } } else { Effect::MoveCursor { down: true, half_page: true } }),
        Action::HalfPageUp => (s, if list { Effect::ScrollHalfPage { down: false } } else { Effect::MoveCursor { down: false, half_page: true } }),
        Action::ToggleStage => (s, Effect::ToggleStage),
        Action::Stage => (s, Effect::Stage),
        Action::Unstage => (s, Effect::Unstage),
        Action::Discard => {
            if list || !cursor_on_comment {
                (s, Effect::RequestDiscard)
            } else {
                (s, Effect::Done)
            }
        },
        _ => (s, Effect::Done),
    }
}

/// Handles an action in the history view.
pub fn dispatch_history(s: PaneState, action: Action) -> (r: (PaneState, Effect))
    ensures
        r == history_outcome(s, action),
{
    match action {
        Action::SwitchPane => {
            if s.show_changes {
                (PaneState { history_focus: cycle_history_focus(s.history_focus), ..s }, Effect::Done)
            } else {
                (reveal_changes(s), Effect::PanelToggled)
            }
        },
        Action::ToggleChanges => (toggle_changes_panel(s), Effect::PanelToggled),
        Action::FocusStaging => {
            if s.show_changes {
                (PaneState { history_focus: history_focus_left(s.history_focus), ..s }, Effect::Done)
            } else {
                (reveal_changes(s), Effect::PanelToggled)
            }
        },
        Action::FocusDiff => (PaneState { history_focus: history_focus_right(s.history_focus), ..s }, Effect::Done),
        Action::Down => (s, Effect::HistoryMove { down: true }),
        Action::Up => (s, Effect::HistoryMove { down: false }),
        Action::Top => (s, Effect::HistoryToEdge { bottom: false }),
        Action::Bottom => (s, Effect::HistoryToEdge { bottom: true }),
        Action::HalfPageDown => (s, Effect::HistoryHalfPage { down: true }),
        Action::HalfPageUp => (s, Effect::HistoryHalfPage { down: false }),
        _ => (s, Effect::Done),
    }
}

/// Handles an action in the review view.
pub fn dispatch_review(s: PaneState, action: Action) -> (r: (PaneState, Effect))
    ensures
        r == review_outcome(s, action),
{
    match action {
        Action::SwitchPane => {
            if s.show_changes {
                let next = if s.in_review && s.review_focus == ReviewFocus::Diff {
                    ReviewFocus::List
                } else {
                    ReviewFocus::Diff
                };
                (set_review_focus(s, next), Effect::Done)
            } else {
                (reveal_changes(s), Effect::PanelToggled)
            }
        },
        Action::ToggleChanges => (toggle_changes_panel(s), Effect::PanelToggled),
        Action::FocusStaging => {
            if s.show_changes {
                (set_review_focus(s, ReviewFocus::List), Effect::Done)
            } else {
                (reveal_changes(s), Effect::PanelToggled)
            }
        },
        Action::FocusDiff => (set_review_focus(s, ReviewFocus::Diff), Effect::Done),
        Action::Down => (s, Effect::ReviewMove { down: true }),
        Action::Up => (s, Effect::ReviewMove { down: false }),
        Action::Top => (s, Effect::ReviewToEdge { bottom: false }),
        Action::Bottom => (s, Effect::ReviewToEdge { bottom: true }),
        Action::HalfPageDown => (s, Effect::ReviewHalfPage { down: true }),
        Action::HalfPageUp => (s, Effect::ReviewHalfPage { down: false }),
        _ => (s, Effect::Done),
    }
}

/// Handles a keymap action: the panes after it, and what is left to do.
/// `cursor_on_comment` says whether the status diff cursor rests on a
/// comment or orphan row.
pub fn dispatch(s: PaneState, action: Action, cursor_on_comment: bool) -> (r: (PaneState, Effect))
    ensures
        r == outcome(s, action, cursor_on_comment),
{
    let global = match action {
        Action::Quit | Action::Help | Action::ToggleDiffMode | Action::Refresh | Action::ToggleHistory
        | Action::ShowStatus | Action::ShowHistory => true,
        _ => false,
    };
    if global {
        return dispatch_global(s, action);
    }
    match s.view {
        ViewMode::Status => dispatch_status(s, action, cursor_on_comment),
        ViewMode::History => dispatch_history(s, action),
        ViewMode::Review => dispatch_review(s, action),
    }
}

/// Every action keeps the panes well formed and keeps the keyboard on a
/// visible pane: with the left panel hidden, the active view's diff has
/// focus.
pub proof fn lemma_dispatch_keeps_focus_visible(s: PaneState, a: Action, cursor_on_comment: bool)
    requires
        s.wf(),
        s.focus_visible(),
    ensures
        outcome(s, a, cursor_on_comment).0.wf(),
        outcome(s, a, cursor_on_comment).0.focus_visible(),
{
}

/// The history and review views are read-only: the staging actions do
/// nothing there.
pub proof fn lemma_read_only_views(s: PaneState, a: Action, cursor_on_comment: bool)
    requires
        s.view != ViewMode::Status,
        is_staging(a),
    ensures
        outcome(s, a, cursor_on_comment) == (s, Effect::Done),
{
}

/// Toggling the history twice from the home view comes back to it, with
/// the left panel as it was.
pub proof fn lemma_toggle_history_twice(s: PaneState, c1: bool, c2: bool)
    requires
        s.wf(),
        s.view != ViewMode::History,
    ensures
        ({
            let first = outcome(s, Action::ToggleHistory, c1);
            let second = outcome(first.0, Action::ToggleHistory, c2);
            &&& first.0.view == ViewMode::History
            &&& first.1 == Effect::EnteredHistory
            &&& second.0.view == s.view
            &&& second.0.show_changes == s.show_changes
            &&& second.1 == Effect::LeftHistory
        }),
{
}

/// Toggling the changes panel twice shows it as before, in the same view.
pub proof fn lemma_toggle_panel_twice(s: PaneState, c1: bool, c2: bool)
    ensures
        ({
            let second = outcome(outcome(s, Action::ToggleChanges, c1).0, Action::ToggleChanges, c2);
            second.0.show_changes == s.show_changes && second.0.view == s.view
        }),
{
}

/// What activating a View menu command leaves to the app.
#[derive(Clone, Copy, Debug, PartialEq, Eq, Structural)]
pub enum MenuOutcome {
    /// The setting already has the command's value: nothing happens.
    Unchanged,
    /// Flip the diff mode, and persist it.
    ToggleDiffMode,
    /// Flip the line numbers, and persist them.
    ToggleLineNumbers,
    /// Flip line wrapping, and persist it.
    ToggleWrap,
    /// Turn cross-file scrolling on or off, and persist it.
    SetCrossFileScroll(bool),
    /// Install the command's theme, and persist it.
    InstallTheme,
    /// The panes change to these, with this left to do.
    Panes(PaneState, Effect),
}

/// What activating `command` does: a setting command acts only when it
/// changes the setting; the navigation rows act as their keys do.
pub open spec fn menu_outcome(command: MenuCommand, settings: ViewSettings, theme: Seq<char>, panes: PaneState) -> MenuOutcome {
    match command {
        MenuCommand::SetDiffMode(m) => if settings.diff_mode == m {
            MenuOutcome::Unchanged
        } else {
            MenuOutcome::ToggleDiffMode
        },
        MenuCommand::SetLineNumbers(on) => if settings.line_numbers == on {
            MenuOutcome::Unchanged
        } else {
            MenuOutcome::ToggleLineNumbers
        },
        MenuCommand::SetWrap(on) => if settings.wrap_lines == on {
            MenuOutcome::Unchanged
        } else {
            MenuOutcome::ToggleWrap
        },
        MenuCommand::SetCrossFileScroll(on) => if settings.cross_file_scroll == on {
            MenuOutcome::Unchanged
        } else {
            MenuOutcome::SetCrossFileScroll(on)
        },
        MenuCommand::SetTheme(name) => if name@ == theme {
            MenuOutcome::Unchanged
        } else {
            MenuOutcome::InstallTheme
        },
        MenuCommand::GoHome => {
            let r = outcome(panes, Action::ShowStatus, false);
            MenuOutcome::Panes(r.0, r.1)
        },
        MenuCommand::EnterHistory => {
            let r = outcome(panes, Action::ShowHistory, false);
            MenuOutcome::Panes(r.0, r.1)
        },
        MenuCommand::ToggleChangesPanel => MenuOutcome::Panes(panel_toggled(panes), Effect::PanelToggled),
    }
}

/// Activates a View menu command under the current display `settings`,
/// `theme` and panes.
pub fn activate_command(command: &MenuCommand, settings: ViewSettings, theme: &str, panes: PaneState) -> (r: MenuOutcome)
    ensures
        r == menu_outcome(*command, settings, theme@, panes),
{
    match command {
        MenuCommand::SetDiffMode(m) => {
            if settings.diff_mode == *m {
                MenuOutcome::Unchanged
            } else {
                MenuOutcome::ToggleDiffMode
            }
        },
        MenuCommand::SetLineNumbers(on) => {
            if settings.line_numbers == *on {
                MenuOutcome::Unchanged
            } else {
                MenuOutcome::ToggleLineNumbers
            }
        },
        MenuCommand::SetWrap(on) => {
            if settings.wrap_lines == *on {
                MenuOutcome::Unchanged
            } else {
                MenuOutcome::ToggleWrap
            }
        },
        MenuCommand::SetCrossFileScroll(on) => {
            if settings.cross_file_scroll == *on {
                MenuOutcome::Unchanged
            } else {
                MenuOutcome::SetCrossFileScroll(*on)
            }
        },
        MenuCommand::SetTheme(name) => {
            if str_eq(name.as_str(), theme) {
                MenuOutcome::Unchanged
            } else {
                MenuOutcome::InstallTheme
            }
        },
        MenuCommand::GoHome => {
            let r = dispatch(panes, Action::ShowStatus, false);
            MenuOutcome::Panes(r.0, r.1)
        },
        MenuCommand::EnterHistory => {
            let r = dispatch(panes, Action::ShowHistory, false);
            MenuOutcome::Panes(r.0, r.1)
        },
        MenuCommand::ToggleChangesPanel => MenuOutcome::Panes(toggle_changes_panel(panes), Effect::PanelToggled),
    }
}

} // verus!
