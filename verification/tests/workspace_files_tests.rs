use alfred::services::log_manager::LogManager;
use alfred::services::task_runner::TaskRunner;
use alfred::services::workspace_files::{decode_utf8_text, trim_line_ending, validate_file_size, LineRange};
use alfred::errors::AlfredError;

#[test]
fn file_size_policy_refuses_non_files_and_large_files() {
    assert_eq!(validate_file_size("a.txt", false, 1, 10).unwrap_err(), "not a file: a.txt");
    assert_eq!(
        validate_file_size("a.txt", true, 11, 10).unwrap_err(),
        "file exceeds configured size limit: a.txt"
    );
    assert!(validate_file_size("a.txt", true, 10, 10).is_ok());
}

#[test]
fn utf8_decoding_is_checked() {
    assert_eq!(decode_utf8_text("héllo".as_bytes().to_vec(), "x").unwrap(), "héllo");
    assert_eq!(
        decode_utf8_text(vec![0xff, 0x00], "bin.dat").unwrap_err(),
        "file is not available as UTF-8 text: bin.dat"
    );
}

#[test]
fn line_endings_are_trimmed() {
    assert_eq!(trim_line_ending("abc\r\n"), "abc");
    assert_eq!(trim_line_ending("abc\n\n\r"), "abc");
    assert_eq!(trim_line_ending("abc"), "abc");
}

fn collect(lines: &[&str], start: usize, end: usize) -> Result<String, String> {
    let mut range = LineRange::new(start, end);
    for line in lines {
        if !range.wants_more() {
            break;
        }
        range.accept_line(line);
    }
    range.finish("f.txt")
}

#[test]
fn line_ranges_are_collected_from_a_stream() {
    let lines = ["one\n", "two\r\n", "three\n", "four"];
    assert_eq!(collect(&lines, 2, 3).unwrap(), "two\nthree");
    assert_eq!(collect(&lines, 4, 4).unwrap(), "four");
    assert_eq!(
        collect(&lines, 3, 5).unwrap_err(),
        "requested line range is out of bounds for file: f.txt"
    );
    assert_eq!(collect(&["\n", "x\n"], 1, 2).unwrap(), "x");
}

#[test]
fn log_follow_allows_one_stream_at_a_time() {
    let mut logs = LogManager::new("/logs/runtime.ndjson".to_string());
    assert_eq!(logs.log_path(), "/logs/runtime.ndjson");
    assert!(logs.try_start_follow().is_ok());
    match logs.try_start_follow() {
        Err(AlfredError::ConflictWithDetails { message, details }) => {
            assert_eq!(message, "follow stream already active");
            assert!(details.is_some());
        }
        _ => panic!("expected conflict"),
    }
    assert!(logs.stop_follow().is_ok());
    match logs.stop_follow() {
        Err(AlfredError::ConflictWithDetails { message, .. }) => {
            assert_eq!(message, "no follow stream active")
        }
        _ => panic!("expected conflict"),
    }
    assert!(logs.try_start_follow().is_ok());
}

#[test]
fn task_runner_keeps_its_root() {
    let runner = TaskRunner::new("/ws".to_string());
    assert_eq!(runner.workspace_root(), "/ws");
}
