use backup_dog::config::{Config, FolderPair};

#[test]
fn a_pair_needs_two_non_empty_paths() {
    assert!(FolderPair::new("", "B").is_none());
    assert!(FolderPair::new("A", "").is_none());
    assert!(FolderPair::new("", "").is_none());
    let pair = FolderPair::new("A", "B").unwrap();
    assert_eq!(pair.source(), "A");
    assert_eq!(pair.destination(), "B");
}

#[test]
fn a_clone_is_equal() {
    let pair = FolderPair::new("/data", "/backup").unwrap();
    assert_eq!(pair.clone(), pair);
}

#[test]
fn a_new_config_is_empty() {
    let config = Config::new();
    assert_eq!(config.len(), 0);
    assert!(config.get(0).is_none());
}

#[test]
fn append_adds_at_the_end() {
    let mut config = Config::new();
    config.append(FolderPair::new("A", "B").unwrap());
    config.append(FolderPair::new("C", "D").unwrap());
    config.append(FolderPair::new("A", "B").unwrap());
    assert_eq!(config.len(), 3);
    assert_eq!(config.get(0).unwrap().source(), "A");
    assert_eq!(config.get(0).unwrap().destination(), "B");
    assert_eq!(config.get(1).unwrap().source(), "C");
    assert_eq!(config.get(1).unwrap().destination(), "D");
    assert_eq!(config.get(2).unwrap().source(), "A");
    assert!(config.get(3).is_none());
}

#[test]
fn a_snapshot_is_a_copy_in_order() {
    let mut config = Config::new();
    config.append(FolderPair::new("A", "B").unwrap());
    config.append(FolderPair::new("C", "D").unwrap());
    let snapshot = config.snapshot();
    assert_eq!(
        snapshot,
        vec![FolderPair::new("A", "B").unwrap(), FolderPair::new("C", "D").unwrap()]
    );
    config.append(FolderPair::new("E", "F").unwrap());
    assert_eq!(snapshot.len(), 2);
    assert_eq!(config.len(), 3);
}
