use backup_dog::cli::{parse_command, Command};
use backup_dog::error::BackupError;
use backup_dog::path::{chars_of, is_within, join, resolve, split, starts_at_root};
use backup_dog::service::{registration_command, removal_command};

fn words(list: &[&str]) -> Vec<String> {
    list.iter().map(|word| word.to_string()).collect()
}

fn names(path: &str) -> Vec<String> {
    split(path).into_iter().map(|name| name.into_iter().collect::<String>()).collect()
}

#[test]
fn join_puts_one_separator_between() {
    assert_eq!(join("A", "x.txt"), "A/x.txt");
    assert_eq!(join("A/", "x.txt"), "A/x.txt");
    assert_eq!(join("/", "etc"), "/etc");
    assert_eq!(join("", "x.txt"), "x.txt");
    assert_eq!(join("/mnt/backup", "sub"), "/mnt/backup/sub");
    assert_eq!(join(&join("B", "sub"), "y.txt"), "B/sub/y.txt");
    assert_eq!(join("C:/\u{5907}\u{4efd}", "\u{e9}t\u{e9}"), "C:/\u{5907}\u{4efd}/\u{e9}t\u{e9}");
}

#[test]
fn chars_of_gives_every_character() {
    assert_eq!(chars_of("a/\u{e9}"), vec!['a', '/', '\u{e9}']);
    assert_eq!(chars_of(""), Vec::<char>::new());
}

#[test]
fn split_gives_the_names_between_separators() {
    assert_eq!(names("/home/me/docs"), words(&["home", "me", "docs"]));
    assert_eq!(names("a//b/"), words(&["a", "b"]));
    assert_eq!(names("docs"), words(&["docs"]));
    assert_eq!(names("./a/../b"), words(&[".", "a", "..", "b"]));
    assert_eq!(names(""), Vec::<String>::new());
    assert_eq!(names("///"), Vec::<String>::new());
}

#[test]
fn starts_at_root_looks_at_the_first_character() {
    assert!(starts_at_root("/"));
    assert!(starts_at_root("/a"));
    assert!(!starts_at_root("a/"));
    assert!(!starts_at_root(""));
}

#[test]
fn is_within_compares_names() {
    assert!(is_within("/data/backup", "/data"));
    assert!(is_within("/data", "/data"));
    assert!(is_within("/data/", "/data"));
    assert!(is_within("/data", "/data/"));
    assert!(is_within("A/B/C", "A//B"));
    assert!(is_within("/anything", "/"));
    assert!(!is_within("/data2", "/data"));
    assert!(!is_within("/data", "/data/backup"));
    assert!(!is_within("data/backup", "/data"));
    assert!(!is_within("/data/backup", "data"));
    assert!(!is_within("B", "A"));
}

#[test]
fn is_within_resolves_dots_by_name() {
    assert!(is_within("B/../A/bak", "A"));
    assert!(is_within("/data/./backup", "/data"));
    assert!(is_within("/data/backup/..", "/data"));
    assert!(is_within("/x/../data", "/data/."));
    assert!(is_within("/../data/x", "/data"));
    assert!(is_within("../A/bak", "../A"));
    assert!(is_within("b", "a/.."));
    assert!(!is_within("/data/../other", "/data"));
    assert!(!is_within("/data/backup/../..", "/data"));
    assert!(!is_within("A/../B", "A"));
    assert!(!is_within("x", ".."));
}

#[test]
fn resolve_takes_names_back() {
    let way = |path: &str, rooted: bool| -> Vec<String> {
        resolve(&split(path), rooted)
            .into_iter()
            .map(|name| name.into_iter().collect::<String>())
            .collect()
    };
    assert_eq!(way("/a/b/../c/./d", true), words(&["a", "c", "d"]));
    assert_eq!(way("/../..", true), Vec::<String>::new());
    assert_eq!(way("../../a", false), words(&["..", "..", "a"]));
    assert_eq!(way("a/../../b", false), words(&["..", "b"]));
    assert_eq!(way("./.", false), Vec::<String>::new());
    assert_eq!(way("a/.../b", false), words(&["a", "...", "b"]));
}

#[test]
fn no_arguments_mean_backup() {
    assert_eq!(parse_command(&words(&[])), Command::Backup);
    assert_eq!(parse_command(&words(&["--backup"])), Command::Backup);
}

#[test]
fn add_takes_exactly_two_paths() {
    assert_eq!(
        parse_command(&words(&["--add", "A", "B"])),
        Command::Add { source: "A".to_string(), destination: "B".to_string() }
    );
    assert_eq!(parse_command(&words(&["--add"])), Command::Unrecognized);
    assert_eq!(parse_command(&words(&["--add", "A"])), Command::Unrecognized);
    assert_eq!(parse_command(&words(&["--add", "A", "B", "C"])), Command::Unrecognized);
}

#[test]
fn register_and_unregister_stand_alone() {
    assert_eq!(parse_command(&words(&["--register"])), Command::Register);
    assert_eq!(parse_command(&words(&["--unregister"])), Command::Unregister);
    assert_eq!(parse_command(&words(&["--register", "now"])), Command::Unrecognized);
}

#[test]
fn other_shapes_are_unrecognized() {
    assert_eq!(parse_command(&words(&["--help"])), Command::Unrecognized);
    assert_eq!(parse_command(&words(&[""])), Command::Unrecognized);
    assert_eq!(parse_command(&words(&["A", "B"])), Command::Unrecognized);
    assert_eq!(parse_command(&words(&["--backup", "A", "B"])), Command::Unrecognized);
    assert_eq!(parse_command(&words(&["--remove", "A", "B"])), Command::Unrecognized);
}

#[test]
fn service_command_lines() {
    assert_eq!(
        registration_command("C:\\tools\\backup.exe"),
        "sc create BackupDog binPath= \"C:\\tools\\backup.exe\" start= auto obj= LocalSystem"
    );
    assert_eq!(removal_command(), "sc delete BackupDog");
}

#[test]
fn messages_name_the_path() {
    assert_eq!(
        BackupError::ConfigCorrupt.message(),
        "the configuration cannot be read as a JSON list of folder pairs"
    );
    assert_eq!(BackupError::ConfigWriteFailed.message(), "the configuration could not be written");
    assert_eq!(
        BackupError::ConfigInvalid { source: "A".to_string(), destination: "A/B".to_string() }
            .message(),
        "unusable folder pair: A -> A/B"
    );
    assert_eq!(
        BackupError::SourceUnreadable { path: "/gone".to_string() }.message(),
        "cannot read the source directory: /gone"
    );
    assert_eq!(
        BackupError::DestinationWriteFailed { path: "/full/x".to_string() }.message(),
        "cannot write to the destination: /full/x"
    );
}

#[test]
fn a_cloned_error_is_equal() {
    let error = BackupError::SourceUnreadable { path: "/gone".to_string() };
    assert_eq!(error.clone(), error);
}
