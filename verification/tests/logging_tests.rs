use alfred::json::JsonValue;
use alfred::logging::{
    archive_expired, archive_file_name, is_runtime_ndjson_file, oldest_kept_date,
    parse_archive_date, render_log_record, runtime_log_file_name, writable_probe_name,
};

#[test]
fn runtime_log_files_are_recognized() {
    assert!(is_runtime_ndjson_file("runtime.ndjson"));
    assert!(is_runtime_ndjson_file("alfred-20260101T000000Z.ndjson"));
    assert!(!is_runtime_ndjson_file("alfred-x.ndjson.zip"));
    assert!(!is_runtime_ndjson_file("other.ndjson"));
}

#[test]
fn log_and_archive_names_follow_their_patterns() {
    assert_eq!(runtime_log_file_name("20260101T000000Z", 0), "alfred-20260101T000000Z.ndjson");
    assert_eq!(runtime_log_file_name("20260101T000000Z", 3), "alfred-20260101T000000Z-3.ndjson");
    assert_eq!(archive_file_name("runtime.ndjson", 0), "runtime.ndjson.zip");
    assert_eq!(archive_file_name("runtime.ndjson", 12), "runtime.ndjson.12.zip");
    assert_eq!(writable_probe_name(42, 7), ".alfred-writable-42-7.tmp");
}

#[test]
fn archive_dates_are_parsed_and_compared() {
    assert_eq!(parse_archive_date("alfred-20260215T101010Z.ndjson.zip"), Some((2026, 2, 15)));
    assert_eq!(parse_archive_date("runtime-20251231.ndjson.zip"), Some((2025, 12, 31)));
    assert_eq!(parse_archive_date("runtime-2025123.ndjson.zip"), None);
    assert_eq!(parse_archive_date("alfred-20260215.ndjson"), None);
    assert_eq!(parse_archive_date("alfred-20261332.ndjson.zip"), None);
    assert!(archive_expired("alfred-20260101.ndjson.zip", (2026, 1, 2)));
    assert!(!archive_expired("alfred-20260102.ndjson.zip", (2026, 1, 2)));
    assert!(!archive_expired("notes.txt", (2026, 1, 2)));
}

#[test]
fn retention_counts_today() {
    assert_eq!(oldest_kept_date((2024, 3, 1), 7), (2024, 2, 24));
    assert_eq!(oldest_kept_date((2024, 3, 1), 1), (2024, 3, 1));
    assert_eq!(oldest_kept_date((2024, 3, 1), 0), (2024, 3, 1));
}

#[test]
fn log_records_hold_their_fields() {
    let record = render_log_record("t", "INFO", "hello", "alfred::x");
    match record {
        JsonValue::Object(entries) => {
            let keys: Vec<&str> = entries.iter().map(|(k, _)| k.as_str()).collect();
            assert_eq!(keys, vec!["timestamp", "level", "message", "source", "extra"]);
        }
        _ => panic!("expected an object"),
    }
}
