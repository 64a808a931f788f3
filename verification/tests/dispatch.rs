use strix::dispatch::{activate_command, dispatch, Effect, MenuOutcome, PaneState};
use strix::keys::Action;
use strix::menu::{MenuCommand, ViewSettings};
use strix::view::{DiffMode, Focus, HistoryFocus, ReviewFocus, ViewMode};

fn status(show: bool, focus: Focus) -> PaneState {
    PaneState {
        view: ViewMode::Status,
        in_review: false,
        show_changes: show,
        focus,
        history_focus: HistoryFocus::Graph,
        review_focus: ReviewFocus::List,
    }
}

fn review(show: bool, focus: ReviewFocus) -> PaneState {
    PaneState {
        view: ViewMode::Review,
        in_review: true,
        show_changes: show,
        focus: Focus::Staging,
        history_focus: HistoryFocus::Graph,
        review_focus: focus,
    }
}

fn settings() -> ViewSettings {
    ViewSettings {
        diff_mode: DiffMode::Unified,
        line_numbers: true,
        wrap_lines: false,
        cross_file_scroll: false,
        show_changes: true,
        view: ViewMode::Status,
        in_review: false,
    }
}

const ALL: [Action; 21] = [
    Action::Quit,
    Action::Help,
    Action::Refresh,
    Action::SwitchPane,
    Action::ToggleDiffMode,
    Action::ToggleChanges,
    Action::ToggleHistory,
    Action::ShowStatus,
    Action::ShowHistory,
    Action::Down,
    Action::Up,
    Action::Top,
    Action::Bottom,
    Action::HalfPageDown,
    Action::HalfPageUp,
    Action::FocusStaging,
    Action::FocusDiff,
    Action::ToggleStage,
    Action::Stage,
    Action::Unstage,
    Action::Discard,
];

fn focus_visible(s: &PaneState) -> bool {
    s.show_changes
        || match s.view {
            ViewMode::Status => s.focus == Focus::Diff,
            ViewMode::History => s.history_focus == HistoryFocus::Diff,
            ViewMode::Review => s.review_focus == ReviewFocus::Diff,
        }
}

#[test]
fn navigation_follows_the_status_focus() {
    let list = status(true, Focus::Staging);
    assert_eq!(dispatch(list, Action::Down, false), (list, Effect::SelectNext));
    assert_eq!(dispatch(list, Action::Bottom, false), (list, Effect::SelectLast));
    assert_eq!(dispatch(list, Action::HalfPageUp, false), (list, Effect::ScrollHalfPage { down: false }));
    let diff = status(true, Focus::Diff);
    assert_eq!(dispatch(diff, Action::Down, false), (diff, Effect::MoveCursor { down: true, half_page: false }));
    assert_eq!(dispatch(diff, Action::Top, false), (diff, Effect::CursorToEdge { bottom: false }));
    assert_eq!(dispatch(diff, Action::HalfPageDown, false), (diff, Effect::MoveCursor { down: true, half_page: true }));
}

#[test]
fn discard_is_inert_on_a_focused_comment_row() {
    let diff = status(true, Focus::Diff);
    assert_eq!(dispatch(diff, Action::Discard, true), (diff, Effect::Done));
    assert_eq!(dispatch(diff, Action::Discard, false), (diff, Effect::RequestDiscard));
    let list = status(true, Focus::Staging);
    assert_eq!(dispatch(list, Action::Discard, true), (list, Effect::RequestDiscard));
}

#[test]
fn tab_reveals_a_hidden_panel_and_lands_in_it() {
    let hidden = status(false, Focus::Diff);
    let (next, effect) = dispatch(hidden, Action::SwitchPane, false);
    assert!(next.show_changes);
    assert_eq!(next.focus, Focus::Staging);
    assert_eq!(effect, Effect::PanelToggled);
    let (back, _) = dispatch(next, Action::SwitchPane, false);
    assert_eq!(back.focus, Focus::Diff);
    assert!(back.show_changes);
}

#[test]
fn hiding_the_panel_moves_focus_to_the_diff() {
    let (s, _) = dispatch(status(true, Focus::Staging), Action::ToggleChanges, false);
    assert!(!s.show_changes);
    assert_eq!(s.focus, Focus::Diff);
    let (r, _) = dispatch(review(true, ReviewFocus::List), Action::ToggleChanges, false);
    assert_eq!(r.review_focus, ReviewFocus::Diff);
    let (again, _) = dispatch(r, Action::ToggleChanges, false);
    assert!(again.show_changes);
    assert_eq!(again.review_focus, ReviewFocus::List);
}

#[test]
fn history_opens_and_closes_to_the_home_view() {
    let home = review(false, ReviewFocus::Diff);
    let (h, effect) = dispatch(home, Action::ToggleHistory, false);
    assert_eq!(h.view, ViewMode::History);
    assert_eq!(h.history_focus, HistoryFocus::Diff);
    assert_eq!(effect, Effect::EnteredHistory);
    assert_eq!(dispatch(h, Action::ShowHistory, false), (h, Effect::Done));
    let (back, effect) = dispatch(h, Action::ShowStatus, false);
    assert_eq!(back.view, ViewMode::Review);
    assert_eq!(back.review_focus, ReviewFocus::Diff);
    assert_eq!(effect, Effect::LeftHistory);
    assert_eq!(dispatch(back, Action::ShowStatus, false), (back, Effect::Done));
}

#[test]
fn history_focus_moves_between_its_panes() {
    let (h, _) = dispatch(status(true, Focus::Staging), Action::ShowHistory, false);
    assert_eq!(h.history_focus, HistoryFocus::Graph);
    let (h, _) = dispatch(h, Action::SwitchPane, false);
    assert_eq!(h.history_focus, HistoryFocus::CommittedChanges);
    let (h, _) = dispatch(h, Action::FocusDiff, false);
    assert_eq!(h.history_focus, HistoryFocus::Diff);
    let (h, _) = dispatch(h, Action::FocusStaging, false);
    assert_eq!(h.history_focus, HistoryFocus::CommittedChanges);
    assert_eq!(dispatch(h, Action::Down, false).1, Effect::HistoryMove { down: true });
}

#[test]
fn read_only_views_ignore_staging() {
    let (h, _) = dispatch(status(true, Focus::Staging), Action::ShowHistory, false);
    for s in [h, review(true, ReviewFocus::List)] {
        for a in [Action::ToggleStage, Action::Stage, Action::Unstage, Action::Discard] {
            assert_eq!(dispatch(s, a, false), (s, Effect::Done));
        }
    }
}

#[test]
fn every_action_keeps_the_keyboard_on_a_visible_pane() {
    let starts = [
        status(true, Focus::Staging),
        status(true, Focus::Diff),
        status(false, Focus::Diff),
        review(true, ReviewFocus::List),
        review(false, ReviewFocus::Diff),
    ];
    for start in starts {
        let mut s = start;
        for (k, a) in ALL.iter().enumerate() {
            for b in ALL.iter() {
                let (t, _) = dispatch(s, *b, k % 2 == 0);
                assert!(focus_visible(&t));
            }
            s = dispatch(s, *a, false).0;
            assert!(focus_visible(&s));
        }
    }
}

#[test]
fn menu_settings_act_only_when_they_change_something() {
    let panes = status(true, Focus::Staging);
    let set = settings();
    assert_eq!(activate_command(&MenuCommand::SetDiffMode(DiffMode::Unified), set, "dark", panes), MenuOutcome::Unchanged);
    assert_eq!(activate_command(&MenuCommand::SetDiffMode(DiffMode::SideBySide), set, "dark", panes), MenuOutcome::ToggleDiffMode);
    assert_eq!(activate_command(&MenuCommand::SetLineNumbers(true), set, "dark", panes), MenuOutcome::Unchanged);
    assert_eq!(activate_command(&MenuCommand::SetWrap(true), set, "dark", panes), MenuOutcome::ToggleWrap);
    assert_eq!(
        activate_command(&MenuCommand::SetCrossFileScroll(true), set, "dark", panes),
        MenuOutcome::SetCrossFileScroll(true)
    );
    assert_eq!(activate_command(&MenuCommand::SetTheme("dark".to_string()), set, "dark", panes), MenuOutcome::Unchanged);
    assert_eq!(activate_command(&MenuCommand::SetTheme("light".to_string()), set, "dark", panes), MenuOutcome::InstallTheme);
}

#[test]
fn menu_navigation_rows_act_as_their_keys() {
    let panes = status(true, Focus::Staging);
    let set = settings();
    assert_eq!(
        activate_command(&MenuCommand::EnterHistory, set, "dark", panes),
        MenuOutcome::Panes(dispatch(panes, Action::ShowHistory, false).0, Effect::EnteredHistory)
    );
    assert_eq!(activate_command(&MenuCommand::GoHome, set, "dark", panes), MenuOutcome::Panes(panes, Effect::Done));
    match activate_command(&MenuCommand::ToggleChangesPanel, set, "dark", panes) {
        MenuOutcome::Panes(s, Effect::PanelToggled) => {
            assert!(!s.show_changes);
            assert_eq!(s.focus, Focus::Diff);
        }
        other => panic!("unexpected {:?}", other),
    }
}
