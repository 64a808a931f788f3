use strix::git::history::{sort_ref_labels, ChangeKind, CommitFile, CommitStat, Oid, RefKind, RefLabel};
use strix::git::status::{Change, FileEntry, Section, Status};
use strix::menu::{
    selectable_rows, theme_menu_items, view_menu_items, Marker, MenuCommand, MenuRow, ViewSettings,
};
use strix::view::{DiffMode, ViewMode};
use strix::panes::{
    anchor_span, changes_pane_width, follow_selection, effective_hscroll, hscroll_tick, clamp_selection, committed_pane_height, file_at_index,
    cursor_visible, index_of, index_of_exact, menu_first_selectable, menu_step, reveal_span_top, reveal_top, select_next,
    select_prev, stream_offset, MIN_CHANGES_WIDTH, MIN_COMMITTED_HEIGHT,
};

fn entry(path: &str) -> FileEntry {
    FileEntry { path: path.to_string(), orig_path: None, change: Change::Modified }
}

fn sample_status() -> Status {
    Status {
        branch: Some("main".to_string()),
        detached: false,
        head_oid: None,
        staged: vec![entry("a.rs"), entry("b.rs")],
        unstaged: vec![entry("b.rs"), entry("c.rs")],
    }
}

#[test]
fn flattened_index_reads_staged_then_unstaged() {
    let status = sample_status();
    let (section, e) = file_at_index(&status, 0).unwrap();
    assert_eq!(section, Section::Staged);
    assert_eq!(e.path, "a.rs");
    let (section, e) = file_at_index(&status, 2).unwrap();
    assert_eq!(section, Section::Unstaged);
    assert_eq!(e.path, "b.rs");
    let (_, e) = file_at_index(&status, 3).unwrap();
    assert_eq!(e.path, "c.rs");
    assert!(file_at_index(&status, 4).is_none());
}

#[test]
fn index_of_prefers_section_and_falls_back() {
    let status = sample_status();
    assert_eq!(index_of(&status, Section::Staged, "b.rs"), Some(1));
    assert_eq!(index_of(&status, Section::Unstaged, "b.rs"), Some(2));
    // Staging moved c.rs? Not here: c.rs is only unstaged, so a staged lookup falls back.
    assert_eq!(index_of(&status, Section::Staged, "c.rs"), Some(3));
    assert_eq!(index_of(&status, Section::Unstaged, "a.rs"), Some(0));
    assert_eq!(index_of(&status, Section::Staged, "zzz"), None);
    assert_eq!(index_of_exact(&status, Section::Unstaged, "a.rs"), None);
}

#[test]
fn index_round_trips_through_file_at_index() {
    let status = sample_status();
    for (section, path) in [
        (Section::Staged, "a.rs"),
        (Section::Staged, "b.rs"),
        (Section::Unstaged, "b.rs"),
        (Section::Unstaged, "c.rs"),
    ] {
        let i = index_of_exact(&status, section, path).unwrap();
        let (s, e) = file_at_index(&status, i).unwrap();
        assert_eq!(s, section);
        assert_eq!(e.path, path);
    }
}

#[test]
fn selection_moves_and_clamps() {
    assert_eq!(select_next(0, 3), 1);
    assert_eq!(select_next(2, 3), 2);
    assert_eq!(select_next(5, 0), 0);
    assert_eq!(select_prev(0), 0);
    assert_eq!(select_prev(4), 3);
    assert_eq!(clamp_selection(7, 3), 2);
    assert_eq!(clamp_selection(1, 3), 1);
    assert_eq!(clamp_selection(1, 0), 0);
}

#[test]
fn menu_steps_skip_separators_and_wrap() {
    // item, separator, item, item
    let rows = [true, false, true, true];
    assert_eq!(menu_first_selectable(&rows), 0);
    assert_eq!(menu_step(&rows, 0, true), 2);
    assert_eq!(menu_step(&rows, 3, true), 0);
    assert_eq!(menu_step(&rows, 2, false), 0);
    assert_eq!(menu_step(&rows, 0, false), 3);
    // An item index past the end is held to the last row first.
    assert_eq!(menu_step(&rows, 9, true), 0);
    assert_eq!(menu_step(&[], 3, true), 0);
    assert_eq!(menu_first_selectable(&[false, false, true]), 2);
    assert_eq!(menu_first_selectable(&[false, false]), 0);
    // No activatable row: a full turn ends where it started.
    assert_eq!(menu_step(&[false, false, false], 1, true), 1);
}

#[test]
fn pane_sizes_keep_their_minimums() {
    assert_eq!(changes_pane_width(40, 120), 40);
    assert_eq!(changes_pane_width(5, 120), MIN_CHANGES_WIDTH);
    assert_eq!(changes_pane_width(200, 120), 96);
    assert_eq!(changes_pane_width(30, 20), MIN_CHANGES_WIDTH);
    assert_eq!(committed_pane_height(10, 30), 10);
    assert_eq!(committed_pane_height(1, 30), MIN_COMMITTED_HEIGHT);
    assert_eq!(committed_pane_height(40, 30), 26);
    assert_eq!(committed_pane_height(40, 6), 4);
}

#[test]
fn scrolling_reveals_the_caret() {
    assert_eq!(reveal_top(2, 5, 10, 100), 2);
    assert_eq!(reveal_top(20, 5, 10, 100), 11);
    assert_eq!(reveal_top(7, 5, 10, 100), 5);
    assert_eq!(reveal_top(7, 5, 10, 12), 2);
    assert_eq!(stream_offset(51, 50, 10), 40);
    assert_eq!(stream_offset(20, 50, 10), 20);
    assert_eq!(stream_offset(9, 5, 10), 0);
    assert_eq!(anchor_span(50, 10, 45), (45, 50));
    assert_eq!(anchor_span(50, 10, 5), (5, 15));
    assert_eq!(anchor_span(50, 10, 70), (50, 50));
}

fn oid(lo: u32) -> Oid {
    Oid { hi: 0, mid: 0, lo }
}

#[test]
fn ref_labels_sort_by_kind_name_then_target() {
    let mut refs = vec![
        RefLabel { name: "HEAD".to_string(), target: oid(1), kind: RefKind::Head },
        RefLabel { name: "v1".to_string(), target: oid(1), kind: RefKind::Tag },
        RefLabel { name: "origin/main".to_string(), target: oid(1), kind: RefKind::RemoteBranch },
        RefLabel { name: "main".to_string(), target: oid(2), kind: RefKind::LocalBranch },
        RefLabel { name: "main".to_string(), target: oid(1), kind: RefKind::LocalBranch },
        RefLabel { name: "dev".to_string(), target: oid(1), kind: RefKind::LocalBranch },
    ];
    sort_ref_labels(&mut refs);
    let names: Vec<(&str, u32)> = refs.iter().map(|r| (r.name.as_str(), r.target.lo)).collect();
    assert_eq!(
        names,
        vec![("dev", 1), ("main", 1), ("main", 2), ("origin/main", 1), ("v1", 1), ("HEAD", 1)]
    );
}

#[test]
fn view_menu_marks_current_settings() {
    let s = ViewSettings {
        diff_mode: DiffMode::SideBySide,
        line_numbers: true,
        wrap_lines: false,
        cross_file_scroll: false,
        show_changes: true,
        view: ViewMode::Review,
        in_review: true,
    };
    let rows = view_menu_items(s);
    assert_eq!(rows.len(), 11);
    match &rows[1] {
        MenuRow::Item { label, marker, hint, command } => {
            assert_eq!(label, "Side by side");
            assert_eq!(*marker, Marker::Radio(true));
            assert_eq!(*hint, None);
            assert_eq!(*command, MenuCommand::SetDiffMode(DiffMode::SideBySide));
        }
        MenuRow::Separator => panic!("expected an item"),
    }
    match &rows[3] {
        MenuRow::Item { marker, command, .. } => {
            assert_eq!(*marker, Marker::Check(true));
            assert_eq!(*command, MenuCommand::SetLineNumbers(false));
        }
        MenuRow::Separator => panic!("expected an item"),
    }
    match &rows[9] {
        MenuRow::Item { label, marker, hint, .. } => {
            assert_eq!(label, "Review");
            assert_eq!(*marker, Marker::Radio(true));
            assert_eq!(*hint, Some("1"));
        }
        MenuRow::Separator => panic!("expected an item"),
    }
    let sel = selectable_rows(&rows);
    assert_eq!(
        sel,
        vec![true, true, false, true, true, true, false, true, false, true, true]
    );
    assert_eq!(menu_step(&sel, 1, true), 3);
    assert_eq!(menu_step(&sel, 10, true), 0);
}

#[test]
fn theme_menu_checks_current_theme() {
    let names = vec!["dark".to_string(), "light".to_string()];
    let rows = theme_menu_items(&names, "light");
    assert_eq!(rows.len(), 2);
    match &rows[1] {
        MenuRow::Item { label, marker, hint, command } => {
            assert_eq!(label, "light");
            assert_eq!(*marker, Marker::Radio(true));
            assert_eq!(*hint, None);
            assert_eq!(*command, MenuCommand::SetTheme("light".to_string()));
        }
        MenuRow::Separator => panic!("expected an item"),
    }
    match &rows[0] {
        MenuRow::Item { marker, .. } => assert_eq!(*marker, Marker::Radio(false)),
        MenuRow::Separator => panic!("expected an item"),
    }
}

#[test]
fn horizontal_scroll_is_held_to_the_longest_line() {
    assert_eq!(hscroll_tick(0, 10, true), 4);
    assert_eq!(hscroll_tick(8, 10, true), 10);
    assert_eq!(hscroll_tick(20, 10, true), 10);
    assert_eq!(hscroll_tick(5, 10, false), 1);
    assert_eq!(hscroll_tick(2, 10, false), 0);
    assert_eq!(hscroll_tick(20, 10, false), 6);
    assert_eq!(hscroll_tick(0, 0, true), 0);
    assert_eq!(effective_hscroll(7, 5, false), 5);
    assert_eq!(effective_hscroll(3, 5, false), 3);
    assert_eq!(effective_hscroll(7, 5, true), 0);
}

fn commit_file(path: &str) -> CommitFile {
    CommitFile {
        path: path.to_string(),
        orig_path: None,
        change: ChangeKind::Modified,
        stat: CommitStat { added: 0, deleted: 0, binary: false },
    }
}

#[test]
fn a_relisted_range_keeps_the_selected_file() {
    let files = vec![commit_file("a.rs"), commit_file("b.rs"), commit_file("c.rs")];
    assert_eq!(follow_selection(&files, Some("c.rs"), 0), 2);
    assert_eq!(follow_selection(&files, Some("gone.rs"), 1), 1);
    assert_eq!(follow_selection(&files, Some("gone.rs"), 7), 2);
    assert_eq!(follow_selection(&files, None, 9), 2);
    assert_eq!(follow_selection(&[], Some("a.rs"), 3), 0);
}

#[test]
fn revealing_a_target_moves_the_view_as_little_as_possible() {
    // In view: unchanged.
    assert_eq!(reveal_span_top(12, 14, 10, 10, 100), 10);
    // Above: its first row goes to the top.
    assert_eq!(reveal_span_top(3, 5, 10, 10, 100), 3);
    // Below and fitting: its last row comes to the bottom.
    assert_eq!(reveal_span_top(25, 28, 10, 10, 100), 18);
    // Taller than the viewport: top-aligned.
    assert_eq!(reveal_span_top(25, 40, 10, 10, 100), 25);
    // Never past the last full page.
    assert_eq!(reveal_span_top(97, 98, 0, 10, 100), 88);
    assert_eq!(reveal_span_top(95, 96, 99, 10, 100), 90);
    assert_eq!(reveal_span_top(2, 3, 0, 10, 5), 0);
}

#[test]
fn a_cursor_is_visible_inside_the_viewport_only() {
    assert!(cursor_visible(10, 10, 5));
    assert!(cursor_visible(14, 10, 5));
    assert!(!cursor_visible(15, 10, 5));
    assert!(!cursor_visible(9, 10, 5));
    assert!(!cursor_visible(10, 10, 0));
}
