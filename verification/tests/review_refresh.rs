use strix::git::history::{ChangeKind, CommitFile, CommitStat, Oid};
use strix::review_refresh::{review_refresh_step, Invalidation, RefreshAction, RefreshEvent, ReviewRefreshState};
use strix::view::FlashKind;

fn oid(n: u64) -> Oid {
    Oid { hi: n, mid: 0, lo: 0 }
}

fn file(path: &str) -> CommitFile {
    CommitFile { path: path.to_string(), orig_path: None, change: ChangeKind::Modified, stat: CommitStat::default() }
}

fn state() -> ReviewRefreshState {
    ReviewRefreshState {
        base: oid(1),
        head: oid(2),
        branch_key: "main".to_string(),
        authoring: true,
        files: vec![file("a.rs"), file("b.rs"), file("c.rs")],
        selected: 1,
        relist_count: 0,
        pending: None,
    }
}

#[test]
fn a_failed_resolve_flashes_and_keeps_the_review() {
    let (s, a) = review_refresh_step(state(), RefreshEvent::ResolveFailed("bad revision".to_string()));
    assert_eq!((s.selected, s.files.len(), s.branch_key.as_str()), (1, 3, "main"));
    match a {
        RefreshAction::Flash(f) => {
            assert_eq!(f.text, "review: bad revision");
            assert_eq!(f.kind, FlashKind::Error);
        }
        _ => panic!("expected a flash"),
    }
}

#[test]
fn an_unmoved_range_rereads_the_inbox_and_keeps_the_list() {
    let ev = RefreshEvent::Resolved { base: oid(1), head: oid(2), head_oid: Some(oid(9)), branch_key: Some("topic".to_string()) };
    let (s, a) = review_refresh_step(state(), ev);
    assert!(!s.authoring);
    assert_eq!(s.branch_key, "topic");
    assert_eq!((s.selected, s.files.len(), s.pending), (1, 3, None));
    assert!(matches!(a, RefreshAction::Reload { how: Invalidation::Stream, list: None }));
}

#[test]
fn a_moved_range_is_relisted_following_the_selected_file() {
    let ev = RefreshEvent::Resolved { base: oid(1), head: oid(3), head_oid: Some(oid(3)), branch_key: None };
    let (s, a) = review_refresh_step(state(), ev);
    assert!(s.authoring);
    assert_eq!(s.branch_key, "main");
    assert_eq!(s.head, oid(2));
    assert!(matches!(a, RefreshAction::Reload { how: Invalidation::AnchorOnly, list: Some((b, h)) } if b == oid(1) && h == oid(3)));
    let (s, a) = review_refresh_step(s, RefreshEvent::Listed(vec![file("z.rs"), file("b.rs")]));
    assert!(matches!(a, RefreshAction::Relisted));
    assert_eq!((s.head, s.selected, s.files.len(), s.relist_count, s.pending), (oid(3), 1, 2, 1, None));
    // A late listing with nothing pending is ignored.
    let (s2, a) = review_refresh_step(s, RefreshEvent::Listed(vec![]));
    assert!(matches!(a, RefreshAction::Nothing));
    assert_eq!(s2.files.len(), 2);
}

#[test]
fn a_vanished_file_holds_the_row_and_a_failed_listing_keeps_the_old_tips() {
    let moved = RefreshEvent::Resolved { base: oid(5), head: oid(2), head_oid: None, branch_key: None };
    let (s, _) = review_refresh_step(state(), moved);
    let (s, _) = review_refresh_step(s, RefreshEvent::Listed(vec![file("x.rs")]));
    assert_eq!((s.selected, s.base), (0, oid(5)));
    let moved = RefreshEvent::Resolved { base: oid(6), head: oid(2), head_oid: None, branch_key: None };
    let (s, _) = review_refresh_step(s, moved);
    let (s, a) = review_refresh_step(s, RefreshEvent::ListFailed("gone".to_string()));
    assert_eq!((s.base, s.pending), (oid(5), None));
    match a {
        RefreshAction::ListFailed(f) => assert_eq!(f.text, "review: gone"),
        _ => panic!("expected the listing error"),
    }
}
