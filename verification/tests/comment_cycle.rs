use strix::comments::{Comment, Side, Source};
use strix::cycle::{cycle_target, ordered_comment_ids, status_paths};
use strix::git::status::{Change, FileEntry, Status};
use strix::panes::{
    cycle_history_focus, half_page, history_at_end, history_focus_left, history_focus_right, history_want,
    HISTORY_PAGE,
};
use strix::view::HistoryFocus;

fn note(id: u64, file: &str, side: Side, line: usize) -> Comment {
    Comment {
        id,
        source: Source::Human,
        file: file.to_string(),
        side,
        line,
        text: String::new(),
        context: None,
        orphaned: false,
        created_at: 0,
    }
}

#[test]
fn comments_are_visited_file_by_file_then_by_place() {
    let comments = vec![
        note(1, "b.rs", Side::New, 10),
        note(2, "a.rs", Side::New, 5),
        note(3, "a.rs", Side::Old, 5),
        note(4, "a.rs", Side::New, 2),
        note(5, "gone.rs", Side::New, 1),
        note(6, "b.rs", Side::New, 10),
        note(0, "b.rs", Side::New, 10),
    ];
    let paths = vec!["a.rs".to_string(), "b.rs".to_string()];
    assert_eq!(ordered_comment_ids(&comments, &paths), vec![4, 3, 2, 0, 1, 6]);
    assert_eq!(ordered_comment_ids(&comments, &[]), Vec::<u64>::new());
}

#[test]
fn cycling_wraps_and_starts_at_the_ends() {
    let order = [4, 3, 2, 1];
    assert_eq!(cycle_target(&order, Some(3), true), Some(2));
    assert_eq!(cycle_target(&order, Some(1), true), Some(4));
    assert_eq!(cycle_target(&order, Some(4), false), Some(1));
    assert_eq!(cycle_target(&order, None, true), Some(4));
    assert_eq!(cycle_target(&order, None, false), Some(1));
    assert_eq!(cycle_target(&order, Some(99), true), Some(4));
    assert_eq!(cycle_target(&[], Some(1), true), None);
    // Forward then back is where it started.
    let there = cycle_target(&order, Some(2), true);
    assert_eq!(cycle_target(&order, there, false), Some(2));
}

fn entry(path: &str) -> FileEntry {
    FileEntry { path: path.to_string(), orig_path: None, change: Change::Modified }
}

#[test]
fn status_paths_list_each_file_once() {
    let status = Status {
        branch: None,
        detached: false,
        head_oid: None,
        staged: vec![entry("b.rs"), entry("a.rs")],
        unstaged: vec![entry("a.rs"), entry("c.rs"), entry("b.rs")],
    };
    assert_eq!(status_paths(&status), vec!["b.rs".to_string(), "a.rs".to_string(), "c.rs".to_string()]);
}

#[test]
fn history_focus_moves() {
    assert_eq!(cycle_history_focus(HistoryFocus::Graph), HistoryFocus::CommittedChanges);
    assert_eq!(cycle_history_focus(HistoryFocus::Diff), HistoryFocus::Graph);
    assert_eq!(history_focus_left(HistoryFocus::Diff), HistoryFocus::CommittedChanges);
    assert_eq!(history_focus_left(HistoryFocus::Graph), HistoryFocus::Graph);
    assert_eq!(history_focus_right(HistoryFocus::Graph), HistoryFocus::CommittedChanges);
    assert_eq!(history_focus_right(HistoryFocus::CommittedChanges), HistoryFocus::Diff);
    assert_eq!(half_page(30), 15);
    assert_eq!(half_page(1), 1);
    assert_eq!(half_page(0), 1);
    assert_eq!(history_want(500), 500 + HISTORY_PAGE);
    assert!(history_at_end(499, 500));
    assert!(!history_at_end(3, 500));
    assert!(history_at_end(0, 0));
}
