use alfred::errors::AlfredError;
use alfred::json::JsonValue;
use alfred::services::file_ops::{
    contains_chars, count_matches, detect_duplicate_content_risk, ensure_patch_includes_header,
    normalize_workspace_path, patch_error_result, patch_outcome, render_hunk_failures,
    revert_outcome, sha256_hex, FileOperationsEngine,
};

fn chars(s: &str) -> Vec<char> {
    s.chars().collect()
}

fn text_of(v: &JsonValue) -> Option<String> {
    match v {
        JsonValue::String(s) => Some(s.clone()),
        _ => None,
    }
}

fn member<'a>(v: &'a JsonValue, key: &str) -> Option<&'a JsonValue> {
    match v {
        JsonValue::Object(entries) => entries.iter().find(|(k, _)| k == key).map(|(_, v)| v),
        _ => None,
    }
}

#[test]
fn patch_headers_are_added_when_missing() {
    let wrapped = ensure_patch_includes_header("f.txt", "  @@ -1 +1 @@\n-a\n+b\n ");
    assert_eq!(wrapped, "```diff\n--- a/f.txt\n+++ b/f.txt\n@@ -1 +1 @@\n-a\n+b\n```\n");
    let kept = ensure_patch_includes_header("f.txt", "\n--- a/g\n+++ b/g\n@@ -1 +1 @@\n-a\n+b\n");
    assert_eq!(kept, "--- a/g\n+++ b/g\n@@ -1 +1 @@\n-a\n+b");
}

#[test]
fn substring_search_counts_non_overlapping_matches() {
    assert!(contains_chars(&chars("hello world"), &chars("o w")));
    assert!(!contains_chars(&chars("hello"), &chars("world")));
    assert!(contains_chars(&chars("abc"), &chars("")));
    assert_eq!(count_matches(&chars("aaaa"), &chars("aa")), 2);
    assert_eq!(count_matches(&chars("abcabcab"), &chars("abc")), 2);
    assert_eq!(count_matches(&chars("xyz"), &chars("a")), 0);
}

#[test]
fn duplicate_content_is_flagged_for_long_originals() {
    let original = "x".repeat(70);
    let doubled = format!("{original}\n{original}\n");
    let warning = detect_duplicate_content_risk("f.txt", Some(original.as_str()), doubled.as_str())
        .expect("warning expected");
    assert_eq!(text_of(member(&warning, "kind").unwrap()), Some("duplicate_content_risk".to_string()));
    assert_eq!(text_of(member(&warning, "path").unwrap()), Some("f.txt".to_string()));
    let details = member(&warning, "details").unwrap();
    assert_eq!(member(details, "original_bytes").unwrap().as_u64(), Some(70));
    assert_eq!(member(details, "occurrences").unwrap().as_u64(), Some(2));
    assert!(detect_duplicate_content_risk("f.txt", Some("short"), "short short").is_none());
    assert!(detect_duplicate_content_risk("f.txt", None, doubled.as_str()).is_none());
    assert!(detect_duplicate_content_risk("f.txt", Some(original.as_str()), original.as_str()).is_none());
}

#[test]
fn hunk_failures_are_rendered_in_order() {
    let rendered = render_hunk_failures(&vec![(2, "ContextNotFound".to_string()), (5, "X".to_string())]);
    assert_eq!(rendered.len(), 2);
    assert_eq!(member(&rendered[0], "hunk_index").unwrap().as_u64(), Some(2));
    assert_eq!(text_of(member(&rendered[1], "reason").unwrap()), Some("X".to_string()));
}

#[test]
fn patch_paths_are_normalized_and_bounded() {
    assert_eq!(normalize_workspace_path("  a\\b.txt ").unwrap(), "a/b.txt");
    match normalize_workspace_path("../x") {
        Err(AlfredError::WorkspaceBoundaryViolation(m)) => {
            assert_eq!(m, "path escapes workspace boundary: ../x")
        }
        _ => panic!("expected boundary violation"),
    }
    match normalize_workspace_path("   ") {
        Err(AlfredError::InvalidArgument(m)) => assert_eq!(m, "path must not be empty"),
        _ => panic!("expected invalid argument"),
    }
}

#[test]
fn patch_outcome_reports_conflicts_dry_runs_and_writes() {
    let (conflict, write) = patch_outcome(
        "f.txt".to_string(),
        Some("a\n"),
        "b\n".to_string(),
        vec![(1, "ContextNotFound".to_string())],
        false,
    );
    assert!(!conflict.patched);
    assert!(write.is_none());
    assert_eq!(conflict.conflicts.unwrap().len(), 1);

    let (dry, write) = patch_outcome("f.txt".to_string(), Some("a\n"), "b\n".to_string(), vec![], true);
    assert!(dry.patched);
    assert!(dry.bytes_written.is_none());
    assert!(write.is_none());

    let (real, write) = patch_outcome("f.txt".to_string(), Some("a\n"), "héllo\n".to_string(), vec![], false);
    assert!(real.patched);
    assert_eq!(real.bytes_written, Some(7));
    assert_eq!(write.as_deref(), Some("héllo\n"));

    let (reverted, write) = revert_outcome("f.txt", "a\n".to_string(), vec![], false);
    assert!(reverted.reverted);
    assert_eq!(reverted.bytes_written, Some(2));
    assert_eq!(write.as_deref(), Some("a\n"));
}

#[test]
fn error_results_carry_the_error_text() {
    let result = patch_error_result("f.txt".to_string(), &AlfredError::NotFound("missing".to_string()));
    assert!(!result.patched);
    let conflicts = result.conflicts.unwrap();
    assert_eq!(text_of(member(&conflicts[0], "kind").unwrap()), Some("error".to_string()));
    assert_eq!(text_of(member(&conflicts[0], "message").unwrap()), Some("not found: missing".to_string()));
}

#[test]
fn digest_is_lower_case_hex_sha256() {
    assert_eq!(
        sha256_hex("abc"),
        "ba7816bf8f01cfea414140de5dae2223b00361a396177a9cb410ff61f20015ad"
    );
}

#[test]
fn apply_then_revert_restores_the_original() {
    let mut engine = FileOperationsEngine::new("/ws".to_string());
    assert_eq!(engine.workspace_root(), "/ws");
    assert!(engine.revert_entries().is_err());
    let step = engine
        .apply_single_patch(
            "f.txt".to_string(),
            "@@ -1,2 +1,2 @@\n one\n-two\n+three\n",
            Some("one\ntwo\n".to_string()),
            false,
        )
        .expect("patch should parse");
    assert!(step.result.patched, "conflicts: {:?}", step.result.conflicts.is_some());
    let written = step.write.clone().expect("content to write");
    assert!(written.contains("three"));
    assert!(!written.contains("two"));
    assert_eq!(step.result.bytes_written, Some(written.len() as u64));
    let undo = step.undo.expect("undo entry");
    assert_eq!(undo.after_sha256, sha256_hex(written.as_str()));
    engine.finish_apply_patches(vec![undo], false);

    let entries = engine.revert_entries().expect("entries");
    assert_eq!(entries.len(), 1);
    let (missing, _) = engine.revert_single_entry(&entries[0], None, false);
    assert!(!missing.reverted);
    let (changed, _) = engine.revert_single_entry(&entries[0], Some("other\n".to_string()), false);
    assert!(!changed.reverted);
    let changed_conflicts = changed.conflicts.unwrap();
    assert_eq!(
        text_of(member(&changed_conflicts[0], "kind").unwrap()),
        Some("content_mismatch".to_string())
    );
    let (result, restored) = engine.revert_single_entry(&entries[0], Some(written.clone()), false);
    assert!(result.reverted);
    let restored = restored.expect("restored content");
    assert!(restored.contains("two"));
    assert!(!restored.contains("three"));
    engine.finish_revert(true);
    assert!(engine.revert_entries().is_ok());
    engine.finish_revert(false);
    match engine.revert_entries() {
        Err(AlfredError::InvalidArgument(m)) => assert_eq!(m, "no patch available to revert"),
        _ => panic!("expected invalid argument"),
    }
}

#[test]
fn dry_run_patch_writes_nothing() {
    let mut engine = FileOperationsEngine::new("/ws".to_string());
    let step = engine
        .apply_single_patch(
            "f.txt".to_string(),
            "@@ -1 +1 @@\n-one\n+two\n",
            Some("one\n".to_string()),
            true,
        )
        .expect("patch should parse");
    assert!(step.result.patched);
    assert!(step.write.is_none());
    assert!(step.undo.is_none());
    engine.finish_apply_patches(Vec::new(), true);
    assert!(engine.revert_entries().is_err());
}

#[test]
fn reverting_the_latest_patch_restores_the_exact_text() {
    let mut engine = FileOperationsEngine::new("/ws".to_string());
    let step = engine
        .apply_single_patch(
            "hello.txt".to_string(),
            "--- a/hello.txt\n+++ b/hello.txt\n@@ -1,2 +1,2 @@\n alpha\n-beta\n+gamma\n",
            Some("alpha\nbeta\n".to_string()),
            false,
        )
        .expect("patch should parse");
    let written = step.write.clone().expect("content to write");
    assert_eq!(written, "alpha\ngamma\n");
    engine.finish_apply_patches(vec![step.undo.expect("undo entry")], false);
    let entries = engine.revert_entries().expect("entries");
    let (result, restored) = engine.revert_single_entry(&entries[0], Some(written.clone()), false);
    assert!(result.reverted);
    assert_eq!(restored, Some("alpha\nbeta\n".to_string()));
    let (changed, kept) =
        engine.revert_single_entry(&entries[0], Some("alpha\nmanual-change\n".to_string()), false);
    assert!(!changed.reverted);
    assert!(kept.is_none());
}

#[test]
fn an_exactly_matching_hunk_is_spliced_in_place() {
    let engine = FileOperationsEngine::new("/ws".to_string());
    let original = "head\nalpha\nbeta\ntail\n";
    let step = engine
        .apply_single_patch(
            "notes.txt".to_string(),
            "@@ -2,2 +2,3 @@\n alpha\n-beta\n+gamma\n+   \n",
            Some(original.to_string()),
            false,
        )
        .expect("patch should parse");
    assert!(step.result.patched);
    assert_eq!(step.write.as_deref(), Some("head\nalpha\ngamma\n\ntail\n"));
}

#[test]
fn a_patch_at_the_end_of_a_file_without_newline_follows_the_patch() {
    let engine = FileOperationsEngine::new("/ws".to_string());
    let step = engine
        .apply_single_patch(
            "f.txt".to_string(),
            "@@ -1,2 +1,2 @@\n one\n-two\n+three\n",
            Some("one\ntwo".to_string()),
            false,
        )
        .expect("patch should parse");
    assert_eq!(step.write.as_deref(), Some("one\nthree\n"));
}
