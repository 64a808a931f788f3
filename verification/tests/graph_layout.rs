use strix::git::history::{CommitInfo, Oid, RefKind, RefLabel};
use strix::graph::{layout, GraphRow};

fn oid(n: u32) -> Oid {
    Oid { hi: 0, mid: 0, lo: n }
}

fn commit(id: u32, parents: &[u32]) -> CommitInfo {
    CommitInfo {
        id: oid(id),
        short: format!("{id:07}"),
        summary: format!("commit {id}"),
        message: format!("commit {id}\n"),
        author_name: "A".to_string(),
        author_email: "a@example.com".to_string(),
        author_seconds: 0,
        author_offset: 0,
        committer_name: "A".to_string(),
        committer_email: "a@example.com".to_string(),
        committer_seconds: 0,
        committer_offset: 0,
        parents: parents.iter().map(|&p| oid(p)).collect(),
        tree: oid(1000 + id),
    }
}

fn glyphs(row: &GraphRow) -> String {
    row.cells.iter().map(|c| c.glyph).collect()
}

#[test]
fn linear_history_is_one_lane() {
    let commits = vec![commit(3, &[2]), commit(2, &[1]), commit(1, &[])];
    let refs = vec![
        RefLabel { name: "main".to_string(), target: oid(3), kind: RefKind::LocalBranch },
        RefLabel { name: "v1".to_string(), target: oid(1), kind: RefKind::Tag },
        RefLabel { name: "HEAD".to_string(), target: oid(3), kind: RefKind::Head },
    ];
    let rows = layout(&commits, &refs);
    assert_eq!(rows.len(), 3);
    for (i, row) in rows.iter().enumerate() {
        assert_eq!(row.commit, i);
        assert_eq!(row.node_lane, 0);
        assert_eq!(glyphs(row), "●");
    }
    assert_eq!(rows[0].labels, vec!["main".to_string(), "HEAD".to_string()]);
    assert!(rows[1].labels.is_empty());
    assert_eq!(rows[2].labels, vec!["v1".to_string()]);
}

#[test]
fn merge_spawns_and_rejoins_a_lane() {
    // 4 merges 3 (first parent) and 2; both descend from 1.
    let commits = vec![commit(4, &[3, 2]), commit(3, &[1]), commit(2, &[1]), commit(1, &[])];
    let rows = layout(&commits, &[]);
    assert_eq!(rows.len(), 4);
    assert_eq!(rows[0].node_lane, 0);
    assert_eq!(glyphs(&rows[0]), "●╮");
    assert_eq!(rows[1].node_lane, 0);
    assert_eq!(glyphs(&rows[1]), "●│");
    assert_eq!(rows[2].node_lane, 1);
    assert_eq!(glyphs(&rows[2]), "│●");
    assert_eq!(rows[3].node_lane, 0);
    assert_eq!(glyphs(&rows[3]), "●╯");
    for row in &rows {
        for (lane, cell) in row.cells.iter().enumerate() {
            assert_eq!(cell.lane, lane);
        }
    }
}

#[test]
fn unrelated_tips_take_fresh_lanes() {
    let commits = vec![commit(5, &[]), commit(6, &[])];
    let rows = layout(&commits, &[]);
    assert_eq!(rows[0].node_lane, 0);
    assert_eq!(rows[1].node_lane, 0);
    let commits = vec![commit(7, &[9]), commit(8, &[9]), commit(9, &[])];
    let rows = layout(&commits, &[]);
    assert_eq!(rows[1].node_lane, 1);
    assert_eq!(glyphs(&rows[1]), "│●");
    assert_eq!(glyphs(&rows[2]), "●╯");
}

#[test]
fn empty_history_has_no_rows() {
    assert!(layout(&[], &[]).is_empty());
}
