use replay_watch::baseline::Baseline;
use replay_watch::path::{Component, WatchPath};
use replay_watch::snapshot::{DirEntry, DirectorySnapshot, EntryKind};

fn under_root(names: &[&str]) -> WatchPath {
    let mut parts = vec![Component::RootDir];
    for name in names {
        parts.push(Component::Normal(name.to_string()));
    }
    WatchPath::new(parts)
}

fn entry(name: &str, kind: EntryKind) -> DirEntry {
    DirEntry { name: name.to_string(), kind }
}

#[test]
fn baseline_starts_empty() {
    let baseline = Baseline::new();
    assert_eq!(baseline.len(), 0);
    assert!(!baseline.contains(&under_root(&["D", "a.slp"])));
}

#[test]
fn baseline_insert_reports_news_once() {
    let mut baseline = Baseline::new();
    assert!(baseline.insert(under_root(&["D", "a.slp"])));
    assert!(baseline.contains(&under_root(&["D", "a.slp"])));
    assert!(!baseline.insert(under_root(&["D", "a.slp"])));
    assert_eq!(baseline.len(), 1);
    assert!(baseline.insert(under_root(&["D", "b.slp"])));
    assert_eq!(baseline.len(), 2);
    assert!(!baseline.contains(&under_root(&["D", "c.slp"])));
    assert!(!baseline.contains(&under_root(&["D"])));
}

#[test]
fn baseline_holds_paths_of_any_kind() {
    let mut baseline = Baseline::new();
    assert!(baseline.insert(WatchPath::new(vec![])));
    assert!(baseline.insert(under_root(&[])));
    assert!(!baseline.insert(WatchPath::new(vec![])));
    assert_eq!(baseline.len(), 2);
}

#[test]
fn walk_begins_with_the_root() {
    let mut walk = DirectorySnapshot::begin(under_root(&["D"]));
    assert!(!walk.is_complete());
    assert_eq!(walk.next_directory(), Some(under_root(&["D"])));
    assert!(walk.is_complete());
    assert_eq!(walk.next_directory(), None);
    assert_eq!(walk.into_baseline().len(), 0);
}

#[test]
fn walk_keeps_replay_files_and_queues_directories() {
    let mut walk = DirectorySnapshot::begin(under_root(&["D"]));
    assert_eq!(walk.next_directory(), Some(under_root(&["D"])));
    walk.record_listing(Some(vec![
        entry("old.slp", EntryKind::File),
        entry("notes.txt", EntryKind::File),
        entry("2023", EntryKind::Directory),
        entry("UPPER.SLP", EntryKind::File),
        entry("link.slp", EntryKind::Other),
        entry("2024", EntryKind::Directory),
    ]));
    assert!(!walk.is_complete());
    // The directory queued last is read next.
    assert_eq!(walk.next_directory(), Some(under_root(&["D", "2024"])));
    walk.record_listing(Some(vec![entry("new.slp", EntryKind::File)]));
    assert_eq!(walk.next_directory(), Some(under_root(&["D", "2023"])));
    walk.record_listing(Some(vec![]));
    assert!(walk.is_complete());
    let found = walk.into_baseline();
    assert_eq!(found.len(), 3);
    assert!(found.contains(&under_root(&["D", "old.slp"])));
    assert!(found.contains(&under_root(&["D", "UPPER.SLP"])));
    assert!(found.contains(&under_root(&["D", "2024", "new.slp"])));
    assert!(!found.contains(&under_root(&["D", "notes.txt"])));
    assert!(!found.contains(&under_root(&["D", "link.slp"])));
    assert!(!found.contains(&under_root(&["D", "2023"])));
}

#[test]
fn walk_passes_over_unreadable_directories() {
    let mut walk = DirectorySnapshot::begin(under_root(&["D"]));
    assert_eq!(walk.next_directory(), Some(under_root(&["D"])));
    walk.record_listing(Some(vec![
        entry("locked", EntryKind::Directory),
        entry("a.slp", EntryKind::File),
    ]));
    assert_eq!(walk.next_directory(), Some(under_root(&["D", "locked"])));
    walk.record_listing(None);
    assert!(walk.is_complete());
    let found = walk.into_baseline();
    assert_eq!(found.len(), 1);
    assert!(found.contains(&under_root(&["D", "a.slp"])));
}

#[test]
fn walk_drops_a_listing_that_no_directory_awaits() {
    let mut walk = DirectorySnapshot::begin(under_root(&["D"]));
    // Nothing has been handed out yet.
    walk.record_listing(Some(vec![entry("a.slp", EntryKind::File)]));
    assert_eq!(walk.next_directory(), Some(under_root(&["D"])));
    walk.record_listing(Some(vec![entry("b.slp", EntryKind::File)]));
    // The listing of one directory is taken in once.
    walk.record_listing(Some(vec![entry("c.slp", EntryKind::File)]));
    let found = walk.into_baseline();
    assert_eq!(found.len(), 1);
    assert!(found.contains(&under_root(&["D", "b.slp"])));
}

#[test]
fn walk_puts_each_entry_under_the_directory_that_lists_it() {
    let mut walk = DirectorySnapshot::begin(under_root(&["D"]));
    assert_eq!(walk.next_directory(), Some(under_root(&["D"])));
    walk.record_listing(Some(vec![
        entry("x", EntryKind::Directory),
        entry("y", EntryKind::Directory),
    ]));
    assert_eq!(walk.next_directory(), Some(under_root(&["D", "y"])));
    walk.record_listing(Some(vec![entry("a.slp", EntryKind::File)]));
    assert_eq!(walk.next_directory(), Some(under_root(&["D", "x"])));
    walk.record_listing(Some(vec![entry("a.slp", EntryKind::File)]));
    let found = walk.into_baseline();
    assert_eq!(found.len(), 2);
    assert!(found.contains(&under_root(&["D", "x", "a.slp"])));
    assert!(found.contains(&under_root(&["D", "y", "a.slp"])));
    assert!(!found.contains(&under_root(&["D", "a.slp"])));
    assert!(!found.contains(&under_root(&["a.slp"])));
}

#[test]
fn walk_of_a_missing_root_finds_nothing() {
    let mut walk = DirectorySnapshot::begin(under_root(&["does", "not", "exist"]));
    assert_eq!(walk.next_directory(), Some(under_root(&["does", "not", "exist"])));
    walk.record_listing(None);
    assert!(walk.is_complete());
    assert_eq!(walk.into_baseline().len(), 0);
}

#[test]
fn walk_keeps_a_file_listed_twice_once() {
    let mut walk = DirectorySnapshot::begin(under_root(&["D"]));
    assert_eq!(walk.next_directory(), Some(under_root(&["D"])));
    walk.record_listing(Some(vec![
        entry("a.slp", EntryKind::File),
        entry("a.slp", EntryKind::File),
    ]));
    assert_eq!(walk.into_baseline().len(), 1);
}

#[test]
fn directory_named_like_a_replay_is_descended_into_not_kept() {
    let mut walk = DirectorySnapshot::begin(under_root(&["D"]));
    assert_eq!(walk.next_directory(), Some(under_root(&["D"])));
    walk.record_listing(Some(vec![entry("dir.slp", EntryKind::Directory)]));
    assert_eq!(walk.next_directory(), Some(under_root(&["D", "dir.slp"])));
    assert_eq!(walk.into_baseline().len(), 0);
}
