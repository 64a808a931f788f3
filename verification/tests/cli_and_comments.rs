use strix::cli::{Cli, Command, CommentAction, SkillAction};
use strix::comment_cli::{add_anchor, add_comment, branch_entry, clear_branch, find_branch, location, remove_comment, AddError};
use strix::comments::{Branch, Comment, Side, Source, Store};

fn cli(path: Option<&str>, command: Option<Command>) -> Cli {
    Cli { path: path.map(|p| p.to_string()), command, theme: None, dump_frame: false, width: 120, height: 40 }
}

#[test]
fn cli_target_prefers_the_subcommand_path() {
    assert_eq!(cli(Some("repo"), None).target(), (Some("repo".to_string()), None));
    let diff = Command::Diff { range: "main..".to_string(), path: Some("r2".to_string()) };
    assert_eq!(cli(Some("repo"), Some(diff)).target(), (Some("r2".to_string()), Some("main..".to_string())));
    let comment = Command::Comment { action: CommentAction::Gc { json: true }, path: None };
    assert_eq!(cli(Some("repo"), Some(comment)).target(), (None, None));
    let skill = Command::Skill { action: SkillAction::Path { json: false } };
    assert_eq!(cli(Some("repo"), Some(skill)).target(), (None, None));
}

#[test]
fn add_arguments_are_validated_in_order() {
    assert_eq!(add_anchor(Some(3), None, "fix"), Ok((Side::Old, 3)));
    assert_eq!(add_anchor(None, Some(5), " fix "), Ok((Side::New, 5)));
    assert_eq!(add_anchor(Some(1), Some(2), "fix"), Err(AddError::BothSides));
    assert_eq!(add_anchor(None, None, "fix"), Err(AddError::NoSide));
    assert_eq!(add_anchor(None, Some(0), ""), Err(AddError::ZeroLine));
    assert_eq!(add_anchor(None, Some(1), " \n\t"), Err(AddError::EmptyText));
    assert!(AddError::EmptyText.message().contains("--text"));
}

fn empty_branch() -> Branch {
    Branch { range: None, comments: Vec::new() }
}

#[test]
fn inboxes_open_in_key_order() {
    let mut store = Store::default();
    store.branches.push(("b".to_string(), empty_branch()));
    store.branches.push(("d".to_string(), empty_branch()));
    assert_eq!(branch_entry(&mut store, "c"), 1);
    assert_eq!(branch_entry(&mut store, "a"), 0);
    assert_eq!(branch_entry(&mut store, "dd"), 4);
    assert_eq!(branch_entry(&mut store, "b"), 1);
    let keys: Vec<&str> = store.branches.iter().map(|(k, _)| k.as_str()).collect();
    assert_eq!(keys, vec!["a", "b", "c", "d", "dd"]);
    assert_eq!(find_branch(&store, "c"), Some(2));
    assert_eq!(find_branch(&store, "zz"), None);
}

#[test]
fn adding_removing_and_clearing_comments() {
    let mut store = Store::default();
    let first = add_comment(&mut store, "main", "a.rs".to_string(), Side::New, 4, "one".to_string(), Some("ctx".to_string()), 10);
    let second = add_comment(&mut store, "main", "b.rs".to_string(), Side::Old, 2, "two".to_string(), None, 11);
    assert_eq!((first, second), (1, 2));
    let inbox = &store.branches[0].1.comments;
    assert_eq!(inbox.len(), 2);
    assert_eq!(inbox[0].source, Source::Agent);
    assert!(!inbox[0].orphaned);
    assert!(inbox[1].orphaned);
    assert_eq!(location(&inbox[1]), "b.rs:old:2");
    let (removed, remaining): (Comment, usize) = remove_comment(&mut store, "main", 1).unwrap();
    assert_eq!((removed.id, remaining), (1, 1));
    assert!(remove_comment(&mut store, "main", 1).is_none());
    assert!(remove_comment(&mut store, "other", 2).is_none());
    assert_eq!(clear_branch(&mut store, "main"), 1);
    assert_eq!(clear_branch(&mut store, "main"), 0);
    assert_eq!(clear_branch(&mut store, "nope"), 0);
    assert_eq!(store.next_id, 3);
}

#[test]
fn adding_then_removing_a_note_restores_the_inbox() {
    let mut store = Store::default();
    add_comment(&mut store, "main", "a.rs".to_string(), Side::New, 4, "one".to_string(), None, 10);
    store.branches.push(("topic".to_string(), empty_branch()));
    let before = store.branches.clone();
    let id = add_comment(&mut store, "main", "c.rs".to_string(), Side::New, 9, "three".to_string(), None, 12);
    let (removed, remaining) = remove_comment(&mut store, "main", id).unwrap();
    assert_eq!(removed.id, id);
    assert_eq!(remaining, 1);
    assert_eq!(store.branches, before);
}
