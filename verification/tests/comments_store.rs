use strix::comment_cli::line_context;
use strix::comments::{gc, reanchor, version_supported, Branch, Comment, Side, Source, Store, STORE_VERSION};
use strix::git::diff::{DiffLine, FileDiff, LineKind};
use strix::git::history::{ChangeKind, CommitFile, CommitStat};
use strix::session::{record_range, record_range_and_reanchor};

fn note(id: u64, file: &str, side: Side, line: usize, context: Option<&str>) -> Comment {
    Comment {
        id,
        source: Source::Human,
        file: file.to_string(),
        side,
        line,
        text: format!("note {id}"),
        context: context.map(|c| c.to_string()),
        orphaned: false,
        created_at: 1_700_000_000,
    }
}

fn inbox(comments: Vec<Comment>) -> Branch {
    Branch { range: None, comments }
}

fn line(kind: LineKind, old_no: Option<usize>, new_no: Option<usize>, text: &str) -> DiffLine {
    DiffLine { kind, old_no, new_no, text: text.to_string() }
}

fn file(path: &str) -> CommitFile {
    CommitFile {
        path: path.to_string(),
        orig_path: None,
        change: ChangeKind::Modified,
        stat: CommitStat { added: 1, deleted: 0, binary: false },
    }
}

#[test]
fn take_id_is_above_every_existing_id() {
    let mut store = Store::default();
    assert_eq!(store.take_id(), 1);
    assert_eq!(store.next_id, 2);
    store.branches.push(("main".to_string(), inbox(vec![note(9, "a.rs", Side::New, 1, None)])));
    // A hand-edited counter at or below an existing id never reuses it.
    assert_eq!(store.take_id(), 10);
    assert_eq!(store.next_id, 11);
    store.next_id = 50;
    assert_eq!(store.take_id(), 50);
}

#[test]
fn store_version_gate() {
    assert!(version_supported(STORE_VERSION));
    assert!(version_supported(0));
    assert!(!version_supported(STORE_VERSION + 1));
}

#[test]
fn gc_drops_dead_branches_and_missing_commits() {
    let live_hex = "0123456789abcdef0123456789abcdef01234567".to_string();
    let dead_hex = "fedcba9876543210fedcba9876543210fedcba98".to_string();
    let mut store = Store::default();
    store.branches.push((live_hex.clone(), inbox(vec![note(1, "a.rs", Side::New, 1, None)])));
    store.branches.push((dead_hex.clone(), inbox(vec![note(2, "a.rs", Side::New, 1, None), note(3, "b.rs", Side::Old, 2, None)])));
    store.branches.push(("gone".to_string(), inbox(vec![note(4, "c.rs", Side::New, 3, None)])));
    store.branches.push(("main".to_string(), inbox(vec![])));
    let result = gc(&mut store, &["main".to_string()], &[live_hex.clone()]);
    assert_eq!(result.removed_branches, vec![dead_hex, "gone".to_string()]);
    assert_eq!(result.removed_comments, 3);
    assert!(!result.is_empty());
    let keys: Vec<&str> = store.branches.iter().map(|(k, _)| k.as_str()).collect();
    assert_eq!(keys, vec![live_hex.as_str(), "main"]);
    let again = gc(&mut store, &["main".to_string()], &[live_hex]);
    assert!(again.is_empty());
    assert_eq!(again.removed_comments, 0);
}

#[test]
fn gc_keeps_a_live_branch_named_like_a_commit() {
    let hexy = "aaaaaaaaaaaaaaaaaaaaaaaaaaaaaaaaaaaaaaaa".to_string();
    let mut store = Store::default();
    store.branches.push((hexy.clone(), inbox(vec![note(1, "a.rs", Side::New, 1, None)])));
    let result = gc(&mut store, &[hexy], &[]);
    assert!(result.is_empty());
    assert_eq!(store.branches.len(), 1);
}

#[test]
fn reanchor_follows_moved_context_and_orphans_the_rest() {
    let lines = vec![
        line(LineKind::Hunk, None, None, "@@ -1,4 +1,5 @@"),
        line(LineKind::Context, Some(1), Some(1), "fn a() {"),
        line(LineKind::Addition, None, Some(2), "    new();"),
        line(LineKind::Context, Some(2), Some(3), "    keep();"),
        line(LineKind::Context, Some(3), Some(4), "}"),
    ];
    let mut comments = vec![
        note(1, "a.rs", Side::New, 1, Some("fn a() {")),
        note(2, "a.rs", Side::New, 2, Some("    keep();")),
        note(3, "a.rs", Side::New, 4, Some("vanished")),
        note(4, "other.rs", Side::New, 1, Some("x")),
        note(5, "a.rs", Side::Old, 2, None),
    ];
    let files = vec![file("a.rs")];
    let changed = reanchor(&mut comments, &files, &[Some(FileDiff::Text(lines))]);
    assert!(changed);
    assert_eq!((comments[0].line, comments[0].orphaned), (1, false));
    assert_eq!((comments[1].line, comments[1].orphaned), (3, false));
    assert_eq!((comments[2].line, comments[2].orphaned), (4, true));
    assert!(comments[3].orphaned);
    assert!(comments[4].orphaned);
}

#[test]
fn reanchor_reports_no_change_on_a_stable_diff() {
    let lines = vec![line(LineKind::Context, Some(1), Some(1), "x")];
    let mut comments = vec![note(1, "a.rs", Side::New, 1, Some("x"))];
    let changed = reanchor(&mut comments, &[file("a.rs")], &[Some(FileDiff::Text(lines))]);
    assert!(!changed);
    let mut binary = vec![note(2, "a.rs", Side::New, 1, Some("x"))];
    assert!(reanchor(&mut binary, &[file("a.rs")], &[Some(FileDiff::Binary)]));
    assert!(binary[0].orphaned);
}

#[test]
fn session_records_range_and_settles() {
    let lines = vec![
        line(LineKind::Context, Some(1), Some(1), "fn a() {"),
        line(LineKind::Addition, None, Some(2), "    let x = 1;"),
        line(LineKind::Context, Some(2), Some(3), "}"),
    ];
    let mut store = Store::default();
    store.branches.push((
        "feature".to_string(),
        inbox(vec![note(1, "a.rs", Side::New, 5, Some("    let x = 1;")), note(2, "gone.rs", Side::New, 1, None)]),
    ));
    let files = vec![file("a.rs")];
    let diffs = vec![Some(FileDiff::Text(lines))];
    let (set, changed) = record_range_and_reanchor(&mut store, "feature", "main..feature", &files, &diffs);
    assert!(changed);
    assert_eq!(set.len(), 2);
    assert_eq!(set[0].line, 2);
    assert!(!set[0].orphaned);
    assert!(set[1].orphaned);
    assert_eq!(store.branches[0].1.range.as_deref(), Some("main..feature"));
    assert_eq!(store.branches[0].1.comments, set);
    // The same range over the same diff again: nothing moves, nothing to write.
    let (again, changed) = record_range_and_reanchor(&mut store, "feature", "main..feature", &files, &diffs);
    assert!(!changed);
    assert_eq!(again, set);
    // A different range is a change even when no comment moves.
    let (_, changed) = record_range_and_reanchor(&mut store, "feature", "main..other", &files, &diffs);
    assert!(changed);
}

#[test]
fn session_opens_a_missing_inbox_in_key_order() {
    let mut store = Store::default();
    store.branches.push(("a".to_string(), inbox(vec![])));
    store.branches.push(("c".to_string(), inbox(vec![])));
    let (set, changed) = record_range_and_reanchor(&mut store, "b", "x..y", &[], &[]);
    assert!(changed);
    assert!(set.is_empty());
    let keys: Vec<&str> = store.branches.iter().map(|(k, _)| k.as_str()).collect();
    assert_eq!(keys, vec!["a", "b", "c"]);
    assert_eq!(store.branches[1].1.range.as_deref(), Some("x..y"));
}

#[test]
fn record_range_stamps_only_an_unrecorded_inbox() {
    let mut entry = inbox(vec![note(1, "a.rs", Side::New, 1, None)]);
    record_range(&mut entry, "main..topic");
    assert_eq!(entry.range.as_deref(), Some("main..topic"));
    record_range(&mut entry, "other");
    assert_eq!(entry.range.as_deref(), Some("main..topic"));
    assert_eq!(entry.comments.len(), 1);
}

#[test]
fn gc_reports_dropped_inboxes_in_key_order_and_an_empty_pass_changes_nothing() {
    let mut store = Store::default();
    for key in ["alpha", "beta", "delta", "gamma"] {
        store.branches.push((key.to_string(), inbox(vec![note(1, "a.rs", Side::New, 1, None)])));
    }
    let live = vec!["beta".to_string()];
    let result = gc(&mut store, &live, &[]);
    assert_eq!(result.removed_branches, vec!["alpha".to_string(), "delta".to_string(), "gamma".to_string()]);
    assert_eq!(result.removed_comments, 3);
    let before = store.clone();
    let again = gc(&mut store, &live, &[]);
    assert!(again.is_empty());
    assert_eq!(store, before);
}

#[test]
fn a_note_records_the_text_of_its_line() {
    let diff = FileDiff::Text(vec![
        line(LineKind::Hunk, None, None, "@@"),
        line(LineKind::Deletion, Some(3), None, "old three"),
        line(LineKind::Addition, None, Some(3), "new three"),
        line(LineKind::Context, Some(4), Some(3), "later three"),
    ]);
    assert_eq!(line_context(&diff, Side::New, 3).as_deref(), Some("new three"));
    assert_eq!(line_context(&diff, Side::Old, 3).as_deref(), Some("old three"));
    assert_eq!(line_context(&diff, Side::Old, 9), None);
    assert_eq!(line_context(&FileDiff::Binary, Side::New, 3), None);
}
