use std::rc::Rc;

use strix::cache::{same_file, FileId, LayoutKey, SectionCache, SECTION_BUDGET};
use strix::git::history::Oid;
use strix::git::status::Section;
use strix::view::DiffMode;

fn key(width: u16) -> LayoutKey {
    LayoutKey { width, mode: DiffMode::Unified, wrap: false, line_numbers: true, cross_file: true }
}

fn review(path: &str) -> FileId {
    FileId::Review { path: path.to_string() }
}

#[test]
fn file_ids_compare_by_view_and_path() {
    let staged = FileId::Status { section: Section::Staged, path: "a.rs".to_string() };
    let unstaged = FileId::Status { section: Section::Unstaged, path: "a.rs".to_string() };
    assert!(!same_file(&staged, &unstaged));
    assert!(same_file(&staged, &staged.clone()));
    assert_eq!(unstaged.path(), "a.rs");
    let commit = FileId::History { commit: Oid { hi: 1, mid: 2, lo: 3 }, path: "b.rs".to_string() };
    assert_eq!(commit.path(), "b.rs");
    assert!(!same_file(&commit, &review("b.rs")));
}

#[test]
fn a_section_reads_back_under_its_tags() {
    let mut cache: SectionCache<Rc<String>> = SectionCache::default();
    let section = Rc::new("rows of a.rs".to_string());
    cache.insert(review("a.rs"), key(80), 1, Rc::clone(&section));
    let got = cache.get(&review("a.rs"), key(80), 1).expect("cached");
    assert!(Rc::ptr_eq(&got, &section));
    assert!(cache.holds_path("a.rs"));
    assert!(!cache.holds_path("b.rs"));
    assert!(cache.get(&review("b.rs"), key(80), 1).is_none());
}

#[test]
fn a_stale_section_is_dropped_on_read() {
    let mut cache: SectionCache<u32> = SectionCache::new();
    cache.insert(review("a.rs"), key(80), 1, 7);
    // A resize changes the key: a miss, and the entry is gone.
    assert_eq!(cache.get(&review("a.rs"), key(100), 1), None);
    assert_eq!(cache.cached(&review("a.rs")), None);
    assert_eq!(cache.len(), 0);
    // A generation bump is stale too, but `cached` still sees the old entry.
    cache.insert(review("a.rs"), key(80), 1, 7);
    assert_eq!(cache.cached(&review("a.rs")), Some(7));
    assert_eq!(cache.get(&review("a.rs"), key(80), 2), None);
    assert_eq!(cache.cached(&review("a.rs")), None);
}

#[test]
fn insert_replaces_an_entry() {
    let mut cache: SectionCache<u32> = SectionCache::new();
    cache.insert(review("a.rs"), key(80), 1, 7);
    cache.insert(review("a.rs"), key(80), 2, 8);
    assert_eq!(cache.len(), 1);
    assert_eq!(cache.get(&review("a.rs"), key(80), 2), Some(8));
}

#[test]
fn eviction_drops_least_recent_unpinned_entries() {
    let mut cache: SectionCache<usize> = SectionCache::new();
    let total = SECTION_BUDGET + 3;
    for i in 0..total {
        cache.insert(review(&format!("f{i}.rs")), key(80), 1, i);
    }
    // Touch f0 so it is the most recently used; pin f1.
    assert_eq!(cache.get(&review("f0.rs"), key(80), 1), Some(0));
    cache.evict(&[review("f1.rs")]);
    assert_eq!(cache.len(), SECTION_BUDGET);
    assert_eq!(cache.cached(&review("f0.rs")), Some(0));
    assert_eq!(cache.cached(&review("f1.rs")), Some(1));
    // f2, f3 and f4 were the least recently used unpinned entries.
    assert_eq!(cache.cached(&review("f2.rs")), None);
    assert_eq!(cache.cached(&review("f3.rs")), None);
    assert_eq!(cache.cached(&review("f4.rs")), None);
    assert_eq!(cache.cached(&review("f5.rs")), Some(5));
}

#[test]
fn eviction_never_drops_pinned_entries() {
    let mut cache: SectionCache<usize> = SectionCache::new();
    let total = SECTION_BUDGET + 2;
    let mut pinned = Vec::new();
    for i in 0..total {
        cache.insert(review(&format!("f{i}.rs")), key(80), 1, i);
        pinned.push(review(&format!("f{i}.rs")));
    }
    cache.evict(&pinned);
    assert_eq!(cache.len(), total);
    let mut small: SectionCache<usize> = SectionCache::new();
    small.insert(review("a.rs"), key(80), 1, 0);
    small.evict(&[]);
    assert_eq!(small.len(), 1);
}
