use alfred::errors::AlfredError;
use alfred::json::JsonValue;
use alfred::services::job_manager::{
    is_absolute_path, normalize_workspace_path, FsBulkEvent, FsBulkJob, FsBulkOperation,
    FsBulkState, FsBulkSummary, JobManager,
};

fn delete_op(path: &str) -> FsBulkOperation {
    FsBulkOperation::Delete { path: path.to_string(), recursive: false }
}

fn move_op(from: &str, to: &str) -> FsBulkOperation {
    FsBulkOperation::Move {
        from: from.to_string(),
        to: to.to_string(),
        overwrite: false,
        create_parents: false,
    }
}

#[test]
fn bulk_paths_are_normalized() {
    assert_eq!(normalize_workspace_path(" ./a//b/./c ").unwrap(), "a/b/c");
    assert_eq!(normalize_workspace_path("a\\b").unwrap(), "a/b");
}

#[test]
fn bulk_paths_refuse_empty_absolute_and_parent_segments() {
    match normalize_workspace_path("   ") {
        Err(AlfredError::InvalidArgument(m)) => assert_eq!(m, "path must not be empty"),
        _ => panic!("expected invalid argument"),
    }
    match normalize_workspace_path("/etc/passwd") {
        Err(AlfredError::InvalidArgument(m)) => {
            assert_eq!(m, "absolute paths are not allowed: /etc/passwd")
        }
        _ => panic!("expected invalid argument"),
    }
    match normalize_workspace_path("C:/x") {
        Err(AlfredError::InvalidArgument(m)) => assert_eq!(m, "absolute paths are not allowed: C:/x"),
        _ => panic!("expected invalid argument"),
    }
    match normalize_workspace_path("a/../b") {
        Err(AlfredError::WorkspaceBoundaryViolation(m)) => assert_eq!(
            m,
            "path must be workspace-relative and must not contain '..': a/../b"
        ),
        _ => panic!("expected boundary violation"),
    }
    match normalize_workspace_path("./.") {
        Err(AlfredError::InvalidArgument(m)) => assert_eq!(m, "path must not be empty"),
        _ => panic!("expected invalid argument"),
    }
    match normalize_workspace_path("./C:/x") {
        Err(AlfredError::WorkspaceBoundaryViolation(m)) => {
            assert_eq!(m, "path must be workspace-relative: ./C:/x")
        }
        _ => panic!("expected boundary violation"),
    }
}

#[test]
fn absolute_paths_are_recognized() {
    assert!(is_absolute_path("/a"));
    assert!(is_absolute_path("D:/a"));
    assert!(!is_absolute_path("a/b"));
    assert!(!is_absolute_path("D:a"));
}

#[test]
fn job_counts_outcomes_and_finalizes_partial() {
    let mut job = FsBulkJob::new("op".to_string(), 2);
    job.set_state(FsBulkState::Running);
    job.record_item(0, move_op("a", "b"), Ok(JsonValue::Null));
    job.record_item(1, delete_op("c"), Err(AlfredError::NotFound("gone".to_string())));
    job.finalize();
    let status = job.snapshot(true);
    assert_eq!(status.operation_id, "op");
    assert_eq!(status.state, FsBulkState::Partial);
    assert_eq!(status.summary, FsBulkSummary { total: 2, completed: 1, failed: 1 });
    let items = status.items.expect("items");
    assert_eq!(items.len(), 2);
    assert_eq!(items[0].kind, "move");
    assert_eq!(items[0].from.as_deref(), Some("a"));
    assert_eq!(items[0].to.as_deref(), Some("b"));
    assert!(items[0].succeeded);
    assert_eq!(items[1].kind, "delete");
    assert_eq!(items[1].path.as_deref(), Some("c"));
    assert!(!items[1].succeeded);
    assert_eq!(items[1].error.as_ref().map(|e| e.message.clone()), Some("gone".to_string()));
}

#[test]
fn job_finalizes_to_succeeded_or_failed() {
    let mut ok = FsBulkJob::new("a".to_string(), 1);
    ok.record_item(0, delete_op("x"), Ok(JsonValue::Null));
    ok.finalize();
    assert_eq!(ok.snapshot(false).state, FsBulkState::Succeeded);
    assert!(ok.snapshot(false).items.is_none());

    let mut bad = FsBulkJob::new("b".to_string(), 1);
    bad.record_item(0, delete_op("x"), Err(AlfredError::IoError("disk".to_string())));
    bad.finalize();
    assert_eq!(bad.snapshot(true).state, FsBulkState::Failed);
}

#[test]
fn canceled_job_stays_canceled() {
    let mut job = FsBulkJob::new("c".to_string(), 3);
    job.set_state(FsBulkState::Running);
    job.cancel();
    assert!(job.is_cancel_requested());
    job.finalize();
    let status = job.snapshot(true);
    assert_eq!(status.state, FsBulkState::Canceled);
    assert!(status.items.is_none());
}

#[test]
fn cancel_after_completion_keeps_final_state() {
    let mut job = FsBulkJob::new("d".to_string(), 1);
    job.record_item(0, delete_op("x"), Ok(JsonValue::Null));
    job.finalize();
    job.cancel();
    assert_eq!(job.snapshot(true).state, FsBulkState::Succeeded);
}

#[test]
fn job_ids_are_sequential() {
    let mut manager = JobManager::new();
    assert_eq!(manager.allocate_job_id(), "job-1");
    assert_eq!(manager.allocate_job_id(), "job-2");
}

#[test]
fn background_job_runs_through_events() {
    let mut manager = JobManager::new();
    let ops = vec![delete_op("x"), delete_op("y")];
    let started = manager
        .start_fs_bulk_background("op-1".to_string(), &ops)
        .expect("start should succeed");
    assert_eq!(started.state, FsBulkState::Queued);
    assert_eq!(started.summary, FsBulkSummary { total: 2, completed: 0, failed: 0 });
    assert!(started.items.is_none());

    assert_eq!(manager.run_bulk_event("op-1", FsBulkEvent::Begin), Some(true));
    assert_eq!(manager.run_bulk_event("op-1", FsBulkEvent::NextItem), Some(true));
    let done = FsBulkEvent::ItemDone { index: 0, operation: delete_op("x"), result: Ok(JsonValue::Null) };
    assert_eq!(manager.run_bulk_event("op-1", done), Some(true));
    assert_eq!(manager.run_bulk_event("op-1", FsBulkEvent::Finish), Some(false));
    let status = manager.fs_bulk_status("op-1").expect("status");
    assert_eq!(status.state, FsBulkState::Succeeded);
    assert_eq!(status.summary.completed, 1);
    assert_eq!(manager.run_bulk_event("other", FsBulkEvent::Begin), None);
}

#[test]
fn canceled_background_job_stops_before_next_item() {
    let mut manager = JobManager::new();
    let ops = vec![delete_op("x")];
    manager.start_fs_bulk_background("op-2".to_string(), &ops).unwrap();
    assert_eq!(manager.run_bulk_event("op-2", FsBulkEvent::Begin), Some(true));
    let canceled = manager.fs_bulk_cancel("op-2").expect("cancel");
    assert_eq!(canceled.state, FsBulkState::Canceled);
    assert_eq!(manager.run_bulk_event("op-2", FsBulkEvent::NextItem), Some(false));
    assert_eq!(manager.run_bulk_event("op-2", FsBulkEvent::Finish), Some(false));
    assert_eq!(manager.fs_bulk_status("op-2").unwrap().state, FsBulkState::Canceled);
}

#[test]
fn bulk_requests_need_operations_and_known_ids() {
    let mut manager = JobManager::new();
    match manager.start_fs_bulk_background("x".to_string(), &Vec::new()) {
        Err(AlfredError::InvalidArgument(m)) => assert_eq!(m, "fs.bulk.operations must not be empty"),
        _ => panic!("expected invalid argument"),
    }
    match manager.fs_bulk_status("missing") {
        Err(AlfredError::NotFound(m)) => assert_eq!(m, "bulk operation not found: missing"),
        _ => panic!("expected not found"),
    }
    match manager.fs_bulk_cancel("missing") {
        Err(AlfredError::NotFound(m)) => assert_eq!(m, "bulk operation not found: missing"),
        _ => panic!("expected not found"),
    }
}

#[test]
fn sync_bulk_reports_every_outcome() {
    let manager = JobManager::new();
    let ops = vec![move_op("a", "b"), delete_op("c")];
    let outcomes = vec![Ok(JsonValue::Null), Err(AlfredError::Conflict("exists".to_string()))];
    let status = manager.execute_fs_bulk_sync("sync".to_string(), ops, outcomes).unwrap();
    assert_eq!(status.state, FsBulkState::Partial);
    let items = status.items.unwrap();
    assert_eq!(items.len(), 2);
    assert_eq!(items[0].index, 0);
    assert_eq!(items[1].index, 1);
    assert!(!items[1].succeeded);
}
