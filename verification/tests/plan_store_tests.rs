use alfred::errors::AlfredError;
use alfred::services::plan_store::{
    parse_plan_document, render_item, render_plan_document, validate_item, ItemProblem,
    PlanDocument, PlanItem, PlanStatus, PlanStore,
};

const SAMPLE_PLAN: &str = "# Plan: Test Plan\n\n1. [ ] First task\n    - Priority: 1\n    - Cards: \"ART-001\", \"STR-001\"\n    - Description: First description\n    - Deliverables:\n        - First deliverable\n    - Status: planned\n\n2. [x] Second task\n    - Priority: 0\n    - Cards: \"ART-002\"\n    - Description: Second description\n    - Deliverables:\n        - Second deliverable\n    - Notes: Existing note\n    - Status: completed\n";

fn store() -> PlanStore {
    PlanStore::new("/work".to_string(), "/work/ProjectPlan.md".to_string())
}

fn item(id: u64, title: &str) -> PlanItem {
    PlanItem {
        id,
        title: title.to_string(),
        priority: 2,
        cards: vec!["ART-010".to_string()],
        description: format!("{title} description"),
        deliverables: vec![format!("{title} deliverable")],
        acceptance_criteria: None,
        notes: None,
        status: PlanStatus::Planned,
    }
}

fn same_item(a: &PlanItem, b: &PlanItem) -> bool {
    a.id == b.id
        && a.title == b.title
        && a.priority == b.priority
        && a.cards == b.cards
        && a.description == b.description
        && a.deliverables == b.deliverables
        && a.acceptance_criteria == b.acceptance_criteria
        && a.notes == b.notes
        && a.status == b.status
}

#[test]
fn plan_get_returns_not_found_when_plan_file_is_missing() {
    let missing = Err(AlfredError::NotFound(
        "plan file not found: /work/ProjectPlan.md".to_string(),
    ));
    match store().read_items(missing) {
        Err(AlfredError::NotFound(message)) => assert!(message.contains("plan file not found")),
        other => panic!("unexpected result: {other:?}"),
    }
}

#[test]
fn plan_get_returns_parse_error_for_invalid_plan_format() {
    let raw = "# Plan: Broken\n\n1. [ ] Missing fields\n    - Status: planned\n".to_string();
    match store().read_items(Ok(raw)) {
        Err(AlfredError::InvalidArgument(message)) => {
            assert!(message.contains("failed to parse plan file"));
            assert!(message.contains("missing priority"));
        }
        other => panic!("unexpected result: {other:?}"),
    }
}

#[test]
fn plan_get_returns_items_from_valid_plan_file() {
    let items = store().read_items(Ok(SAMPLE_PLAN.to_string())).expect("plan should parse");
    assert_eq!(items.len(), 2);
    assert_eq!(items[0].id, 1);
    assert_eq!(items[0].title, "First task");
    assert_eq!(items[0].status, PlanStatus::Planned);
    assert_eq!(items[0].cards, vec!["ART-001".to_string(), "STR-001".to_string()]);
    assert_eq!(items[1].id, 2);
    assert_eq!(items[1].status, PlanStatus::Completed);
    assert_eq!(items[1].notes, Some("Existing note".to_string()));
}

#[test]
fn plan_update_changes_status_for_existing_item() {
    let store = store();
    let written = store
        .update_status(Ok(SAMPLE_PLAN.to_string()), 1, PlanStatus::InProgress)
        .expect("update should succeed");
    let items = store.read_items(Ok(written)).expect("updated plan should parse");
    assert_eq!(items[0].status, PlanStatus::InProgress);
    assert_eq!(items[1].status, PlanStatus::Completed);
}

#[test]
fn plan_update_returns_not_found_for_missing_id() {
    match store().update_status(Ok(SAMPLE_PLAN.to_string()), 999, PlanStatus::Completed) {
        Err(AlfredError::NotFound(message)) => assert_eq!(message, "plan item id not found: 999"),
        other => panic!("unexpected result: {other:?}"),
    }
}

#[test]
fn plan_add_appends_item_with_next_sequential_id() {
    let store = store();
    let mut added = item(123, "Third task");
    added.priority = 3;
    added.cards = vec!["ART-003".to_string()];
    added.description = "Third description".to_string();
    added.deliverables = vec!["Third deliverable".to_string()];
    let (id, written) = store
        .add_item(Ok(SAMPLE_PLAN.to_string()), added)
        .expect("add should succeed");
    assert_eq!(id, 3);
    let items = store.read_items(Ok(written)).expect("plan should parse after add");
    assert_eq!(items.len(), 3);
    assert_eq!(items[2].id, 3);
    assert_eq!(items[2].title, "Third task");
}

#[test]
fn plan_delete_removes_existing_item() {
    let store = store();
    let written = store.delete_item(Ok(SAMPLE_PLAN.to_string()), 1).expect("delete should succeed");
    let items = store.read_items(Ok(written)).expect("plan should parse after delete");
    assert_eq!(items.len(), 1);
    assert_eq!(items[0].id, 2);
}

#[test]
fn plan_delete_returns_not_found_for_missing_item_id() {
    match store().delete_item(Ok(SAMPLE_PLAN.to_string()), 999) {
        Err(AlfredError::NotFound(message)) => assert_eq!(message, "plan item id not found: 999"),
        other => panic!("unexpected result: {other:?}"),
    }
}

#[test]
fn plan_outside_workspace_is_refused() {
    let store = PlanStore::new("/work".to_string(), "/elsewhere/ProjectPlan.md".to_string());
    match store.read_items(Ok(SAMPLE_PLAN.to_string())) {
        Err(AlfredError::WorkspaceBoundaryViolation(message)) => assert_eq!(
            message,
            "plan path is outside workspace boundary: /elsewhere/ProjectPlan.md"
        ),
        other => panic!("unexpected result: {other:?}"),
    }
}

#[test]
fn render_item_writes_the_markdown_block() {
    let mut it = item(7, "Seventh");
    it.acceptance_criteria = Some("It works".to_string());
    it.status = PlanStatus::Completed;
    assert_eq!(
        render_item(&it),
        "7. [x] Seventh\n    - Priority: 2\n    - Cards: \"ART-010\"\n    - Description: Seventh description\n    - Deliverables:\n        - Seventh deliverable\n    - Acceptance Criteria: It works\n    - Status: completed\n"
    );
}

#[test]
fn rendered_document_reads_back_as_the_same_document() {
    let mut second = item(2, "Second");
    second.notes = Some("Remember".to_string());
    second.cards = vec!["A-1".to_string(), "B-2".to_string()];
    let doc = PlanDocument {
        preamble: "# Plan: Round trip\n\nSome words.".to_string(),
        items: vec![second, item(1, "First")],
    };
    let text = render_plan_document(&doc);
    let back = parse_plan_document(text.as_str()).expect("rendered plan should parse");
    assert_eq!(back.preamble, "# Plan: Round trip\n\nSome words.");
    assert_eq!(back.items.len(), 2);
    assert!(same_item(&back.items[0], &doc.items[1]));
    assert!(same_item(&back.items[1], &doc.items[0]));
}

#[test]
fn validate_item_reports_the_first_problem() {
    let mut it = item(4, "Fourth");
    it.deliverables = Vec::new();
    assert_eq!(validate_item(&it), Err(ItemProblem::NoDeliverables));
    assert_eq!(ItemProblem::NoDeliverables.message(), "deliverables must contain at least one item");
    let zero = item(0, "Zero");
    assert_eq!(validate_item(&zero), Err(ItemProblem::IdZero));
}

#[test]
fn duplicate_ids_are_a_parse_error() {
    let raw = "1. [ ] A\n    - Priority: 1\n    - Cards: \"X\"\n    - Description: d\n    - Deliverables:\n        - e\n    - Status: planned\n\n1. [ ] B\n    - Priority: 1\n    - Cards: \"X\"\n    - Description: d\n    - Deliverables:\n        - e\n    - Status: planned\n";
    let err = parse_plan_document(raw).err().expect("duplicate ids should be refused");
    assert_eq!(err.message(), "duplicate plan item id: 1");
}

const SPARSE_PLAN: &str = "# Plan: Sparse\n\n1. [ ] Keep formatting\n    - Priority: 1\n    - Cards: \"ART-100\"\n    - Description: Preserve blank lines\n\n    - Deliverables:\n        - Keep this line\n    - Status: planned\n";

#[test]
fn plan_update_status_preserves_surrounding_formatting() {
    let raw = store()
        .update_status(Ok(SPARSE_PLAN.to_string()), 1, PlanStatus::Completed)
        .expect("update should succeed");
    assert!(raw.contains("1. [x] Keep formatting"));
    assert!(raw.contains("    - Status: completed"));
    assert!(raw.contains("Description: Preserve blank lines\n\n    - Deliverables:"));
    assert_eq!(raw, SPARSE_PLAN.replace("[ ]", "[x]").replace("Status: planned", "Status: completed"));
}

#[test]
fn status_update_adds_a_status_line_where_the_item_has_none() {
    let raw = "1. [ ] Task\r\n    - Priority: 1\r\n    - Cards: \"A\"\r\n    - Description: d\r\n    - Deliverables:\r\n        - e\r\n";
    let written = store()
        .update_status(Ok(raw.to_string()), 1, PlanStatus::InProgress)
        .expect("update should succeed");
    assert_eq!(written, raw.replace("1. [ ] Task\r\n", "1. [ ] Task\r\n    - Status: in-progress\r\n"));
    let items = store().read_items(Ok(written)).expect("plan should parse");
    assert_eq!(items[0].status, PlanStatus::InProgress);
}

#[test]
fn reading_after_an_add_gives_the_old_items_then_the_new_one() {
    let store = store();
    let before = store.read_items(Ok(SAMPLE_PLAN.to_string())).expect("sample parses");
    let (id, written) = store.add_item(Ok(SAMPLE_PLAN.to_string()), item(77, "Third task")).expect("add");
    let after = store.read_items(Ok(written)).expect("plan parses after add");
    assert_eq!(after.len(), before.len() + 1);
    for (old, new) in before.iter().zip(after.iter()) {
        assert!(same_item(old, new));
    }
    assert!(same_item(&after[2], &item(id, "Third task")));
}

#[test]
fn reading_after_an_edit_gives_the_item_replaced() {
    let store = store();
    let before = store.read_items(Ok(SAMPLE_PLAN.to_string())).expect("sample parses");
    let mut edited = item(2, "Second task, reworded");
    edited.notes = Some("A new note".to_string());
    edited.status = PlanStatus::InProgress;
    let written = store.edit_item(Ok(SAMPLE_PLAN.to_string()), edited).expect("edit");
    let after = store.read_items(Ok(written)).expect("plan parses after edit");
    assert_eq!(after.len(), 2);
    assert!(same_item(&after[0], &before[0]));
    let mut expected = item(2, "Second task, reworded");
    expected.notes = Some("A new note".to_string());
    expected.status = PlanStatus::InProgress;
    assert!(same_item(&after[1], &expected));
}

#[test]
fn reading_after_a_delete_keeps_the_other_items_whole() {
    let store = store();
    let before = store.read_items(Ok(SAMPLE_PLAN.to_string())).expect("sample parses");
    let written = store.delete_item(Ok(SAMPLE_PLAN.to_string()), 1).expect("delete");
    let after = store.read_items(Ok(written)).expect("plan parses after delete");
    assert_eq!(after.len(), 1);
    assert!(same_item(&after[0], &before[1]));
}

#[test]
fn reading_after_a_status_update_changes_only_that_status() {
    let store = store();
    let before = store.read_items(Ok(SAMPLE_PLAN.to_string())).expect("sample parses");
    let written = store.update_status(Ok(SAMPLE_PLAN.to_string()), 2, PlanStatus::Cancelled).expect("update");
    let after = store.read_items(Ok(written)).expect("plan parses after update");
    assert_eq!(after.len(), 2);
    assert!(same_item(&after[0], &before[0]));
    let mut expected = before[1].clone();
    expected.status = PlanStatus::Cancelled;
    assert!(same_item(&after[1], &expected));
}
