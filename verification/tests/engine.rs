use backup_dog::backup::Backup;
use backup_dog::config::FolderPair;
use backup_dog::engine::{Action, Copier, Entry, EntryKind, Event};
use backup_dog::error::BackupError;
use std::collections::BTreeMap;

#[derive(Clone, Debug, PartialEq)]
enum Item {
    File(Vec<u8>),
    Dir,
    Link,
}

/// A file system in memory: what is at each path, whole paths as keys.
#[derive(Clone, Debug, PartialEq)]
struct Disk {
    items: BTreeMap<String, Item>,
    refuse_writes_to: Option<String>,
    writes: Vec<String>,
}

fn trimmed(path: &str) -> &str {
    if path.len() > 1 {
        path.trim_end_matches('/')
    } else {
        path
    }
}

impl Disk {
    fn new() -> Disk {
        Disk { items: BTreeMap::new(), refuse_writes_to: None, writes: Vec::new() }
    }

    fn dir(mut self, path: &str) -> Disk {
        self.items.insert(path.to_string(), Item::Dir);
        self
    }

    fn file(mut self, path: &str, content: &str) -> Disk {
        self.items.insert(path.to_string(), Item::File(content.as_bytes().to_vec()));
        self
    }

    fn link(mut self, path: &str) -> Disk {
        self.items.insert(path.to_string(), Item::Link);
        self
    }

    fn list(&self, path: &str) -> Option<Vec<Entry>> {
        let dir = trimmed(path);
        if self.items.get(dir) != Some(&Item::Dir) {
            return None;
        }
        let prefix = format!("{}/", dir);
        let mut entries = Vec::new();
        for (key, item) in &self.items {
            if let Some(name) = key.strip_prefix(&prefix) {
                if !name.is_empty() && !name.contains('/') {
                    let kind = match item {
                        Item::File(_) => EntryKind::File,
                        Item::Dir => EntryKind::Directory,
                        Item::Link => EntryKind::Other,
                    };
                    entries.push(Entry { name: name.to_string(), kind });
                }
            }
        }
        Some(entries)
    }

    fn refuses(&self, path: &str) -> bool {
        self.refuse_writes_to.as_deref() == Some(path)
    }

    fn ensure(&mut self, path: &str) -> bool {
        let dir = trimmed(path).to_string();
        if self.refuses(path) || matches!(self.items.get(&dir), Some(Item::File(_))) {
            return false;
        }
        self.writes.push(dir.clone());
        self.items.insert(dir, Item::Dir);
        true
    }

    fn copy(&mut self, from: &str, to: &str) -> bool {
        let content = match self.items.get(from) {
            Some(Item::File(content)) => content.clone(),
            _ => return false,
        };
        if self.refuses(to) || self.items.get(to) == Some(&Item::Dir) {
            return false;
        }
        self.writes.push(to.to_string());
        self.items.insert(to.to_string(), Item::File(content));
        true
    }

    fn answer(&mut self, action: &Action) -> Event {
        match action {
            Action::List { path } => match self.list(path) {
                Some(entries) => Event::Listed(entries),
                None => Event::Failed,
            },
            Action::Ensure { path } => {
                if self.ensure(path) {
                    Event::Completed
                } else {
                    Event::Failed
                }
            }
            Action::Copy { from, to } => {
                if self.copy(from, to) {
                    Event::Completed
                } else {
                    Event::Failed
                }
            }
            _ => Event::Completed,
        }
    }

    fn content(&self, path: &str) -> Option<&[u8]> {
        match self.items.get(path) {
            Some(Item::File(content)) => Some(content.as_slice()),
            _ => None,
        }
    }

    fn is_dir(&self, path: &str) -> bool {
        self.items.get(path) == Some(&Item::Dir)
    }
}

/// Runs the copy engine against the disk; gives every action it named.
fn copy_tree(disk: &mut Disk, source: &str, destination: &str) -> Vec<Action> {
    let (mut copier, mut action) = Copier::start(source, destination);
    let mut named = vec![action.clone()];
    let mut rounds: u32 = 0;
    while !copier.is_over() {
        let event = disk.answer(&action);
        let (next, then) = copier.step(event);
        copier = next;
        action = then;
        named.push(action.clone());
        rounds += 1;
        assert!(rounds < 10_000);
    }
    named
}

/// Runs a whole backup against the disk; gives every action it named.
fn back_up(disk: &mut Disk, pairs: &[(&str, &str)]) -> Vec<Action> {
    let list: Vec<FolderPair> = pairs
        .iter()
        .map(|(source, destination)| FolderPair::new(source, destination).unwrap())
        .collect();
    let (mut backup, mut action) = Backup::start(list);
    let mut named = vec![action.clone()];
    let mut rounds: u32 = 0;
    while !backup.is_over() {
        let event = disk.answer(&action);
        let (next, then) = backup.step(event);
        backup = next;
        action = then;
        named.push(action.clone());
        rounds += 1;
        assert!(rounds < 10_000);
    }
    named
}

fn list(path: &str) -> Action {
    Action::List { path: path.to_string() }
}

fn ensure(path: &str) -> Action {
    Action::Ensure { path: path.to_string() }
}

fn copy(from: &str, to: &str) -> Action {
    Action::Copy { from: from.to_string(), to: to.to_string() }
}

fn report(source: &str, destination: &str) -> Action {
    Action::Report { source: source.to_string(), destination: destination.to_string() }
}

fn unreadable(path: &str) -> Action {
    Action::Abort(BackupError::SourceUnreadable { path: path.to_string() })
}

fn unwritable(path: &str) -> Action {
    Action::Abort(BackupError::DestinationWriteFailed { path: path.to_string() })
}

fn file(name: &str) -> Entry {
    Entry { name: name.to_string(), kind: EntryKind::File }
}

fn folder(name: &str) -> Entry {
    Entry { name: name.to_string(), kind: EntryKind::Directory }
}

fn small_tree() -> Disk {
    Disk::new()
        .dir("A")
        .file("A/x.txt", "hello")
        .dir("A/sub")
        .file("A/sub/y.txt", "world")
        .dir("B")
}

#[test]
fn a_small_tree_is_mirrored() {
    let mut disk = small_tree();
    let named = copy_tree(&mut disk, "A", "B");
    assert_eq!(named.last(), Some(&Action::Finish));
    assert_eq!(disk.content("B/x.txt"), Some("hello".as_bytes()));
    assert_eq!(disk.content("B/sub/y.txt"), Some("world".as_bytes()));
    assert!(disk.is_dir("B/sub"));
    assert!(disk.is_dir("B"));
}

#[test]
fn a_small_tree_is_mirrored_with_trailing_separators() {
    let mut disk = small_tree();
    let named = copy_tree(&mut disk, "A/", "B/");
    assert_eq!(named.last(), Some(&Action::Finish));
    assert_eq!(disk.content("B/x.txt"), Some("hello".as_bytes()));
    assert_eq!(disk.content("B/sub/y.txt"), Some("world".as_bytes()));
    assert!(disk.is_dir("B/sub"));
}

#[test]
fn the_actions_come_in_listing_order_depth_first() {
    let mut disk = small_tree();
    let named = copy_tree(&mut disk, "A", "B");
    assert_eq!(
        named,
        vec![
            list("A"),
            ensure("B"),
            ensure("B/sub"),
            list("A/sub"),
            copy("A/sub/y.txt", "B/sub/y.txt"),
            copy("A/x.txt", "B/x.txt"),
            Action::Finish,
        ]
    );
}

#[test]
fn the_engine_follows_the_listing_it_is_given() {
    let (copier, first) = Copier::start("S", "D");
    assert_eq!(first, list("S"));
    let (copier, second) =
        copier.step(Event::Listed(vec![file("b"), folder("dir"), file("a")]));
    assert_eq!(second, ensure("D"));
    let (copier, third) = copier.step(Event::Completed);
    assert_eq!(third, copy("S/b", "D/b"));
    let (copier, fourth) = copier.step(Event::Completed);
    assert_eq!(fourth, ensure("D/dir"));
    let (copier, fifth) = copier.step(Event::Completed);
    assert_eq!(fifth, list("S/dir"));
    let (copier, sixth) = copier.step(Event::Listed(vec![folder("deep")]));
    assert_eq!(sixth, ensure("D/dir/deep"));
    let (copier, seventh) = copier.step(Event::Completed);
    assert_eq!(seventh, list("S/dir/deep"));
    let (copier, eighth) = copier.step(Event::Listed(Vec::new()));
    assert_eq!(eighth, copy("S/a", "D/a"));
    assert!(!copier.is_over());
    let (copier, ninth) = copier.step(Event::Completed);
    assert_eq!(ninth, Action::Finish);
    assert!(copier.is_over());
    let (copier, tenth) = copier.step(Event::Completed);
    assert_eq!(tenth, Action::Finish);
    assert!(copier.is_over());
}

#[test]
fn a_bigger_tree_is_mirrored_exactly() {
    let mut disk = Disk::new()
        .dir("/src")
        .file("/src/a", "1")
        .file("/src/b", "22")
        .dir("/src/d1")
        .file("/src/d1/c", "333")
        .dir("/src/d1/d2")
        .file("/src/d1/d2/e", "4444")
        .file("/src/d1/d2/f", "")
        .dir("/src/empty")
        .dir("/src/d3")
        .file("/src/d3/a", "same name, other place");
    let before = disk.clone();
    let named = copy_tree(&mut disk, "/src", "/dst");
    assert_eq!(named.last(), Some(&Action::Finish));
    let files: Vec<(&str, &str)> = vec![
        ("a", "1"),
        ("b", "22"),
        ("d1/c", "333"),
        ("d1/d2/e", "4444"),
        ("d1/d2/f", ""),
        ("d3/a", "same name, other place"),
    ];
    let dirs = vec!["d1", "d1/d2", "empty", "d3"];
    for (path, content) in &files {
        assert_eq!(disk.content(&format!("/dst/{}", path)), Some(content.as_bytes()));
    }
    for path in &dirs {
        assert!(disk.is_dir(&format!("/dst/{}", path)));
    }
    assert!(disk.is_dir("/dst"));
    let mirrored: Vec<&String> = disk.items.keys().filter(|key| key.starts_with("/dst")).collect();
    assert_eq!(mirrored.len(), files.len() + dirs.len() + 1);
    for (key, item) in &before.items {
        assert_eq!(disk.items.get(key), Some(item));
    }
    assert_eq!(named.iter().filter(|action| matches!(action, Action::Copy { .. })).count(), 6);
    assert_eq!(named.iter().filter(|action| matches!(action, Action::Ensure { .. })).count(), 5);
}

#[test]
fn a_second_run_changes_nothing() {
    let mut disk = small_tree();
    let first = copy_tree(&mut disk, "A", "B");
    let after_first = disk.items.clone();
    let second = copy_tree(&mut disk, "A", "B");
    assert_eq!(disk.items, after_first);
    assert_eq!(first, second);
}

#[test]
fn files_are_overwritten_and_strays_are_kept() {
    let mut disk = small_tree().file("B/x.txt", "stale").file("B/stray.txt", "kept");
    copy_tree(&mut disk, "A", "B");
    assert_eq!(disk.content("B/x.txt"), Some("hello".as_bytes()));
    assert_eq!(disk.content("B/stray.txt"), Some("kept".as_bytes()));
}

#[test]
fn a_missing_destination_is_created() {
    let mut disk = Disk::new().dir("A").file("A/x.txt", "hello");
    let named = copy_tree(&mut disk, "A", "fresh");
    assert_eq!(named.last(), Some(&Action::Finish));
    assert!(disk.is_dir("fresh"));
    assert_eq!(disk.content("fresh/x.txt"), Some("hello".as_bytes()));
}

#[test]
fn an_empty_source_gives_an_empty_destination() {
    let mut disk = Disk::new().dir("A");
    let named = copy_tree(&mut disk, "A", "B");
    assert_eq!(named, vec![list("A"), ensure("B"), Action::Finish]);
    assert!(disk.is_dir("B"));
}

#[test]
fn a_missing_source_fails_without_a_write() {
    let mut disk = Disk::new().dir("B").file("B/old", "untouched");
    let before = disk.items.clone();
    let named = copy_tree(&mut disk, "gone", "B");
    assert_eq!(named, vec![list("gone"), unreadable("gone")]);
    assert_eq!(disk.items, before);
    assert!(disk.writes.is_empty());
}

#[test]
fn a_source_that_is_a_file_cannot_be_listed() {
    let mut disk = Disk::new().file("A", "not a directory");
    let named = copy_tree(&mut disk, "A", "B");
    assert_eq!(named, vec![list("A"), unreadable("A")]);
    assert!(disk.writes.is_empty());
}

#[test]
fn other_entries_are_skipped() {
    let mut disk = Disk::new().dir("A").link("A/link").file("A/x", "1").link("A/z");
    let named = copy_tree(&mut disk, "A", "B");
    assert_eq!(named, vec![list("A"), ensure("B"), copy("A/x", "B/x"), Action::Finish]);
    assert_eq!(disk.items.get("B/link"), None);
}

#[test]
fn a_destination_that_cannot_be_made_fails_the_run() {
    let mut disk = small_tree();
    disk.refuse_writes_to = Some("B".to_string());
    let named = copy_tree(&mut disk, "A", "B");
    assert_eq!(named, vec![list("A"), ensure("B"), unwritable("B")]);
    assert!(disk.writes.is_empty());
}

#[test]
fn a_file_that_cannot_be_copied_ends_the_run_there() {
    let mut disk = small_tree();
    disk.refuse_writes_to = Some("B/sub/y.txt".to_string());
    let named = copy_tree(&mut disk, "A", "B");
    assert_eq!(
        named,
        vec![
            list("A"),
            ensure("B"),
            ensure("B/sub"),
            list("A/sub"),
            copy("A/sub/y.txt", "B/sub/y.txt"),
            unwritable("B/sub/y.txt"),
        ]
    );
    assert_eq!(disk.content("B/x.txt"), None);
    assert!(disk.is_dir("B/sub"));
}

#[test]
fn a_subdirectory_that_cannot_be_made_ends_the_run() {
    let mut disk = small_tree();
    disk.refuse_writes_to = Some("B/sub".to_string());
    let named = copy_tree(&mut disk, "A", "B");
    assert_eq!(named, vec![list("A"), ensure("B"), ensure("B/sub"), unwritable("B/sub")]);
}

#[test]
fn a_subdirectory_that_cannot_be_listed_ends_the_run() {
    let (copier, _) = Copier::start("A", "B");
    let (copier, _) = copier.step(Event::Listed(vec![folder("sub"), file("x")]));
    let (copier, third) = copier.step(Event::Completed);
    assert_eq!(third, ensure("B/sub"));
    let (copier, fourth) = copier.step(Event::Completed);
    assert_eq!(fourth, list("A/sub"));
    let (copier, fifth) = copier.step(Event::Failed);
    assert_eq!(fifth, unreadable("A/sub"));
    assert!(copier.is_over());
    let (_, sixth) = copier.step(Event::Completed);
    assert_eq!(sixth, unreadable("A/sub"));
}

#[test]
fn an_answer_of_the_wrong_kind_counts_as_failure() {
    let (copier, _) = Copier::start("A", "B");
    let (_, second) = copier.step(Event::Completed);
    assert_eq!(second, unreadable("A"));
    let (copier, _) = Copier::start("A", "B");
    let (copier, _) = copier.step(Event::Listed(vec![file("x")]));
    let (_, third) = copier.step(Event::Listed(Vec::new()));
    assert_eq!(third, unwritable("B"));
    let (copier, _) = Copier::start("A", "B");
    let (copier, _) = copier.step(Event::Listed(vec![file("x")]));
    let (copier, _) = copier.step(Event::Completed);
    let (_, fourth) = copier.step(Event::Listed(Vec::new()));
    assert_eq!(fourth, unwritable("B/x"));
}

#[test]
fn a_backup_takes_the_pairs_in_order() {
    let mut disk = Disk::new()
        .dir("A")
        .file("A/x.txt", "hello")
        .dir("C")
        .file("C/z", "zed")
        .dir("B")
        .dir("D");
    let named = back_up(&mut disk, &[("A", "B"), ("C", "D")]);
    assert_eq!(
        named,
        vec![
            list("A"),
            ensure("B"),
            copy("A/x.txt", "B/x.txt"),
            report("A", "B"),
            list("C"),
            ensure("D"),
            copy("C/z", "D/z"),
            report("C", "D"),
            Action::Finish,
        ]
    );
    assert_eq!(disk.content("B/x.txt"), Some("hello".as_bytes()));
    assert_eq!(disk.content("D/z"), Some("zed".as_bytes()));
}

#[test]
fn a_backup_of_nothing_finishes_at_once() {
    let (backup, action) = Backup::start(Vec::new());
    assert_eq!(action, Action::Finish);
    assert!(backup.is_over());
    let (backup, again) = backup.step(Event::Completed);
    assert_eq!(again, Action::Finish);
    assert!(backup.is_over());
}

#[test]
fn a_backup_stops_at_the_first_failure() {
    let mut disk = Disk::new().dir("A").file("A/x", "1").dir("C").file("C/z", "2");
    let named = back_up(&mut disk, &[("A", "B"), ("gone", "E"), ("C", "D")]);
    assert_eq!(
        named,
        vec![
            list("A"),
            ensure("B"),
            copy("A/x", "B/x"),
            report("A", "B"),
            list("gone"),
            unreadable("gone"),
        ]
    );
    assert_eq!(disk.content("D/z"), None);
    assert!(!disk.is_dir("D"));
    assert!(!disk.is_dir("E"));
}

#[test]
fn a_failed_backup_stays_failed() {
    let (backup, _) = Backup::start(vec![FolderPair::new("gone", "B").unwrap()]);
    let (backup, second) = backup.step(Event::Failed);
    assert_eq!(second, unreadable("gone"));
    assert!(backup.is_over());
    let (_, third) = backup.step(Event::Completed);
    assert_eq!(third, unreadable("gone"));
}

#[test]
fn a_nested_destination_is_refused_before_anything_is_done() {
    let mut disk = Disk::new().dir("A").file("A/x", "1").dir("C").file("C/z", "2");
    let named = back_up(&mut disk, &[("C", "D"), ("A", "A/backup"), ("A", "A")]);
    assert_eq!(
        named,
        vec![Action::Abort(BackupError::ConfigInvalid {
            source: "A".to_string(),
            destination: "A/backup".to_string(),
        })]
    );
    assert!(disk.writes.is_empty());
    assert!(!disk.is_dir("D"));
}

#[test]
fn a_destination_that_leads_back_into_its_source_is_refused() {
    let (backup, action) = Backup::start(vec![FolderPair::new("A", "B/../A/bak").unwrap()]);
    assert_eq!(
        action,
        Action::Abort(BackupError::ConfigInvalid {
            source: "A".to_string(),
            destination: "B/../A/bak".to_string(),
        })
    );
    assert!(backup.is_over());
}

#[test]
fn a_destination_equal_to_its_source_is_refused() {
    let (backup, action) = Backup::start(vec![FolderPair::new("/data", "/data/").unwrap()]);
    assert_eq!(
        action,
        Action::Abort(BackupError::ConfigInvalid {
            source: "/data".to_string(),
            destination: "/data/".to_string(),
        })
    );
    assert!(backup.is_over());
}
