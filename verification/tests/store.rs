use backup_dog::config::{Config, FolderPair};
use backup_dog::error::BackupError;
use backup_dog::store::{
    append, config_from_value, decode, encode, load_or_initialize, rendered, value_from_config,
    Found,
};

fn pairs_of(config: &Config) -> Vec<(String, String)> {
    let mut out = Vec::new();
    let mut i: usize = 0;
    while let Some(pair) = config.get(i) {
        out.push((pair.source().to_string(), pair.destination().to_string()));
        i += 1;
    }
    out
}

fn pair(source: &str, destination: &str) -> (String, String) {
    (source.to_string(), destination.to_string())
}

fn present(text: &str) -> Found {
    Found::Present(text.as_bytes().to_vec())
}

fn parse(text: &str) -> serde_json::Value {
    serde_json::from_str::<serde_json::Value>(text).unwrap()
}

#[test]
fn fresh_start_creates_an_empty_collection() {
    let loaded = load_or_initialize(&Found::Missing).unwrap();
    assert_eq!(loaded.config.len(), 0);
    assert_eq!(loaded.to_write, Some("[]".to_string()));
    let again = load_or_initialize(&present("[]")).unwrap();
    assert_eq!(again.config.len(), 0);
    assert_eq!(again.to_write, None);
}

#[test]
fn two_appends_then_load_keep_the_order() {
    let first = append(&Found::Missing, "A", "B").unwrap();
    assert_eq!(pairs_of(&first.config), vec![pair("A", "B")]);
    let second = append(&present(&first.text), "C", "D").unwrap();
    assert_eq!(pairs_of(&second.config), vec![pair("A", "B"), pair("C", "D")]);
    let loaded = load_or_initialize(&present(&second.text)).unwrap();
    assert_eq!(pairs_of(&loaded.config), vec![pair("A", "B"), pair("C", "D")]);
    assert_eq!(loaded.to_write, None);
}

#[test]
fn append_to_an_empty_array_starts_the_list() {
    let saved = append(&present("[]"), "A", "B").unwrap();
    assert_eq!(pairs_of(&saved.config), vec![pair("A", "B")]);
}

#[test]
fn append_round_trips_through_the_text() {
    let before = r#"[
        {"src": "/home/me/docs", "dst": "/mnt/backup/docs"},
        {"src": "music", "dst": "D:/music"}
    ]"#;
    let saved = append(&present(before), "pictures/2024", "/mnt/backup/pictures").unwrap();
    let loaded = load_or_initialize(&present(&saved.text)).unwrap();
    assert_eq!(
        pairs_of(&loaded.config),
        vec![
            pair("/home/me/docs", "/mnt/backup/docs"),
            pair("music", "D:/music"),
            pair("pictures/2024", "/mnt/backup/pictures"),
        ]
    );
    assert_eq!(loaded.config, saved.config);
}

#[test]
fn paths_with_quotes_and_other_scripts_round_trip() {
    let source = "C:\\Users\\me\\\"quoted\" folder";
    let destination = "/mnt/\u{5907}\u{4efd}/\n\ttab";
    let saved = append(&Found::Missing, source, destination).unwrap();
    let loaded = decode(saved.text.as_bytes()).unwrap();
    assert_eq!(pairs_of(&loaded), vec![pair(source, destination)]);
}

#[test]
fn the_text_is_pretty_printed_json() {
    let saved = append(&Found::Missing, "A", "B").unwrap();
    assert_eq!(saved.text, "[\n  {\n    \"dst\": \"B\",\n    \"src\": \"A\"\n  }\n]");
}

#[test]
fn encode_prints_every_pair_in_order() {
    let mut config = Config::new();
    config.append(FolderPair::new("A", "B").unwrap());
    config.append(FolderPair::new("C", "D").unwrap());
    let text = encode(&config).unwrap();
    let first = "  {\n    \"dst\": \"B\",\n    \"src\": \"A\"\n  }";
    let second = "  {\n    \"dst\": \"D\",\n    \"src\": \"C\"\n  }";
    assert_eq!(text, format!("[\n{},\n{}\n]", first, second));
}

#[test]
fn value_from_config_builds_an_array_of_objects() {
    let mut config = Config::new();
    config.append(FolderPair::new("A", "B").unwrap());
    let value = value_from_config(&config);
    assert_eq!(value, parse(r#"[{"src": "A", "dst": "B"}]"#));
    assert_eq!(value_from_config(&Config::new()), parse("[]"));
}

#[test]
fn config_from_value_reads_the_pairs() {
    let value = parse(r#"[{"src": "A", "dst": "B"}, {"dst": "D", "src": "C", "note": 7}]"#);
    let config = config_from_value(&value).unwrap();
    assert_eq!(pairs_of(&config), vec![pair("A", "B"), pair("C", "D")]);
}

#[test]
fn config_from_value_rejects_other_shapes() {
    let wrong = [
        r#"{"src": ["A"], "dst": ["B"]}"#,
        r#""text""#,
        "null",
        "17",
        r#"[{"src": "A"}]"#,
        r#"[{"dst": "B"}]"#,
        r#"[{"src": "A", "dst": 5}]"#,
        r#"[{"src": null, "dst": "B"}]"#,
        r#"[{"src": "A", "dst": "B"}, "C"]"#,
        r#"[["A", "B"]]"#,
        r#"[{"src": "", "dst": "B"}]"#,
        r#"[{"src": "A", "dst": ""}]"#,
    ];
    for text in wrong {
        assert_eq!(config_from_value(&parse(text)), Err(BackupError::ConfigCorrupt), "{}", text);
    }
}

#[test]
fn decode_rejects_what_is_not_json() {
    assert_eq!(decode("".as_bytes()), Err(BackupError::ConfigCorrupt));
    assert_eq!(decode("[".as_bytes()), Err(BackupError::ConfigCorrupt));
    assert_eq!(decode("[] []".as_bytes()), Err(BackupError::ConfigCorrupt));
    assert_eq!(decode(&[0xff, 0xfe, 0x5b, 0x5d]), Err(BackupError::ConfigCorrupt));
    let trailing_comma = r#"[{"src": "A", "dst": "B"},]"#;
    assert_eq!(decode(trailing_comma.as_bytes()), Err(BackupError::ConfigCorrupt));
}

#[test]
fn decode_accepts_any_layout_of_the_same_document() {
    let config = decode(" [ {\"dst\":\"B\",\n\"src\":\"A\"} ]\n".as_bytes()).unwrap();
    assert_eq!(pairs_of(&config), vec![pair("A", "B")]);
}

#[test]
fn load_reports_a_corrupt_file() {
    let found = load_or_initialize(&present("not json"));
    assert_eq!(found.err(), Some(BackupError::ConfigCorrupt));
    let wrong_shape = load_or_initialize(&present(r#"{"src": [], "dst": []}"#));
    assert_eq!(wrong_shape.err(), Some(BackupError::ConfigCorrupt));
}

#[test]
fn append_reports_a_corrupt_file() {
    let out = append(&present("{"), "A", "B");
    assert_eq!(out.err(), Some(BackupError::ConfigCorrupt));
}

#[test]
fn append_rejects_an_empty_path() {
    let no_source = append(&Found::Missing, "", "B");
    assert_eq!(
        no_source.err(),
        Some(BackupError::ConfigInvalid { source: String::new(), destination: "B".to_string() })
    );
    let no_destination = append(&present("[]"), "A", "");
    assert_eq!(
        no_destination.err(),
        Some(BackupError::ConfigInvalid { source: "A".to_string(), destination: String::new() })
    );
}

#[test]
fn a_printer_error_is_a_write_failure() {
    let error = serde_json::from_str::<serde_json::Value>("?").unwrap_err();
    assert_eq!(rendered(Err(error)), Err(BackupError::ConfigWriteFailed));
    assert_eq!(rendered(Ok("[]".to_string())), Ok("[]".to_string()));
}

#[test]
fn a_corrupt_file_is_reported_before_the_pair_is_looked_at() {
    let corrupt = append(&present("{"), "", "");
    assert_eq!(corrupt.err(), Some(BackupError::ConfigCorrupt));
    let wrong_shape = append(&present(r#"{"src": [], "dst": []}"#), "", "B");
    assert_eq!(wrong_shape.err(), Some(BackupError::ConfigCorrupt));
    let unreadable = append(&Found::Unreadable, "A", "");
    assert_eq!(unreadable.err(), Some(BackupError::ConfigCorrupt));
}

#[test]
fn a_file_that_cannot_be_read_is_never_replaced() {
    let loaded = load_or_initialize(&Found::Unreadable);
    assert_eq!(loaded.err(), Some(BackupError::ConfigCorrupt));
    let appended = append(&Found::Unreadable, "A", "B");
    assert_eq!(appended.err(), Some(BackupError::ConfigCorrupt));
}

#[test]
fn appending_a_pair_already_present_adds_a_second_element() {
    let saved = append(&present(r#"[{"src": "A", "dst": "B"}]"#), "A", "B").unwrap();
    assert_eq!(pairs_of(&saved.config), vec![pair("A", "B"), pair("A", "B")]);
    let loaded = decode(saved.text.as_bytes()).unwrap();
    assert_eq!(pairs_of(&loaded), vec![pair("A", "B"), pair("A", "B")]);
}

#[test]
fn appending_paths_that_do_not_exist_succeeds() {
    let saved = append(&Found::Missing, "/no/such/source", "/no/such/destination").unwrap();
    assert_eq!(pairs_of(&saved.config), vec![pair("/no/such/source", "/no/such/destination")]);
}
