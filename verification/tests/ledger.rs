use hold_migrate::ledger::{record_line, LedgerEntry};
use hold_migrate::plan::Classification;

#[test]
fn entry_keeps_what_it_is_given() {
    let e = LedgerEntry::new("safe-repo", 22, &Classification::SafeToClean, "2024-01-01T00:00:00Z");
    assert_eq!(e.repo, "safe-repo");
    assert_eq!(e.bytes_freed, 22);
    assert_eq!(e.classification, Classification::SafeToClean);
    assert_eq!(e.ts, "2024-01-01T00:00:00Z");
}

#[test]
fn timestamp_is_recorded_verbatim() {
    let ts = "2024-06-15T12:00:00Z";
    let e = LedgerEntry::new("test-repo", 500, &Classification::SafeToClean, ts);
    assert_eq!(e.ts, ts);
}

#[test]
fn record_line_ends_in_one_line_break() {
    let json = r#"{"repo":"repo-a","bytes_freed":1000,"classification":"safe-to-clean","ts":"2024-01-01T00:00:00Z"}"#;
    let line = record_line(json).unwrap();
    assert_eq!(line, format!("{json}\n"));
}

#[test]
fn record_line_refuses_a_line_break() {
    assert_eq!(record_line("{\"repo\":\"a\"}\n"), None);
    assert_eq!(record_line("a\nb"), None);
}

#[test]
fn appended_records_stay_in_order() {
    let first = record_line(r#"{"repo":"repo-a"}"#).unwrap();
    let second = record_line(r#"{"repo":"repo-b"}"#).unwrap();
    let mut ledger = String::new();
    ledger.push_str(&first);
    let before = ledger.clone();
    ledger.push_str(&second);
    assert!(ledger.starts_with(&before));
    let lines: Vec<&str> = ledger.lines().collect();
    assert_eq!(lines, vec![r#"{"repo":"repo-a"}"#, r#"{"repo":"repo-b"}"#]);
}

#[test]
fn serialized_entry_with_line_breaks_stays_one_record() {
    let mut object = serde_json::Map::new();
    object.insert("repo".to_string(), serde_json::Value::String("odd\nname \"x\"".to_string()));
    object.insert("bytes_freed".to_string(), serde_json::Value::from(22u64));
    object.insert("classification".to_string(), serde_json::Value::String("safe-to-clean".to_string()));
    object.insert("ts".to_string(), serde_json::Value::String("2024-01-01T00:00:00Z\r\n".to_string()));
    let json = serde_json::to_string(&serde_json::Value::Object(object)).unwrap();
    let line = record_line(&json).expect("serde_json escapes line breaks");
    let mut ledger = String::from("{\"repo\":\"earlier\"}\n");
    ledger.push_str(&line);
    let lines: Vec<&str> = ledger.lines().collect();
    assert_eq!(lines.len(), 2);
    let parsed: serde_json::Value = serde_json::from_str(lines[1]).unwrap();
    assert_eq!(parsed["repo"], "odd\nname \"x\"");
}
