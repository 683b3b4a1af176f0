use alfred::errors::AlfredError;
use alfred::redaction::Redactor;
use alfred::services::memory_store::{
    normalize_tags, validate_id, validate_input, MemoryFact, MemoryFactInput, MemoryScope,
    MemoryStore,
};

fn input(id: &str, subject: &str, fact: &str) -> MemoryFactInput {
    MemoryFactInput {
        id: id.to_string(),
        subject: subject.to_string(),
        fact: fact.to_string(),
        citations: "docs".to_string(),
        reason: "because".to_string(),
        category: "general".to_string(),
        tags: vec![" b ".to_string(), "a".to_string(), "".to_string(), "a".to_string()],
    }
}

fn stored(id: &str, created_at: &str) -> MemoryFact {
    MemoryFact {
        id: id.to_string(),
        subject: format!("subject {id}"),
        fact: "f".to_string(),
        citations: "c".to_string(),
        reason: "r".to_string(),
        category: "g".to_string(),
        tags: Vec::new(),
        created_at: created_at.to_string(),
        updated_at: created_at.to_string(),
    }
}

fn store(user: bool, workspace: bool) -> MemoryStore {
    MemoryStore::new(
        Redactor::try_default().expect("redactor"),
        if user { Some("/u/memory.json".to_string()) } else { None },
        if workspace { Some("/w/memory.json".to_string()) } else { None },
    )
}

#[test]
fn blank_required_fields_are_refused_in_order() {
    match validate_input(&input("id-1", "subject", "   ")) {
        Err(AlfredError::InvalidArgument(m)) => assert_eq!(m, "fact must not be empty"),
        _ => panic!("expected invalid argument"),
    }
    match validate_input(&input(" ", "", "")) {
        Err(AlfredError::InvalidArgument(m)) => assert_eq!(m, "id must not be empty"),
        _ => panic!("expected invalid argument"),
    }
    assert!(validate_input(&input("id-1", "s", "f")).is_ok());
    assert!(validate_id("x").is_ok());
    assert!(validate_id("  ").is_err());
}

#[test]
fn tags_are_trimmed_sorted_and_deduplicated() {
    let tags = normalize_tags(vec![" b ".to_string(), "a".to_string(), "".to_string(), "a".to_string(), "  ".to_string()]);
    assert_eq!(tags, vec!["a".to_string(), "b".to_string()]);
}

#[test]
fn put_targets_workspace_only_when_it_holds_the_id() {
    let s = store(true, true);
    let (fact, scope) = s
        .put(input("m1", " Rust ", " facts "), vec![stored("m1", "2020")], vec![], "2026".to_string())
        .expect("put");
    assert_eq!(scope, MemoryScope::Workspace);
    assert_eq!(fact.created_at, "2020");
    assert_eq!(fact.updated_at, "2026");
    assert_eq!(fact.subject, "Rust");
    assert_eq!(fact.fact, "facts");
    assert_eq!(fact.tags, vec!["a".to_string(), "b".to_string()]);

    let (fact, scope) = s.put(input("m2", "s", "f"), vec![], vec![stored("m2", "2019")], "2026".to_string()).unwrap();
    assert_eq!(scope, MemoryScope::User);
    assert_eq!(fact.created_at, "2019");

    let (fact, scope) = store(false, true).put(input("m3", "s", "f"), vec![], vec![], "2026".to_string()).unwrap();
    assert_eq!(scope, MemoryScope::Workspace);
    assert_eq!(fact.created_at, "2026");

    match store(false, false).put(input("m4", "s", "f"), vec![], vec![], "2026".to_string()) {
        Err(AlfredError::InvalidArgument(m)) => assert_eq!(m, "memory storage is disabled by configuration"),
        _ => panic!("expected invalid argument"),
    }
}

#[test]
fn stored_texts_are_redacted() {
    let s = store(true, false);
    let (fact, _) = s
        .put(input("m1", "mail admin@example.com", "ok"), vec![], vec![], "now".to_string())
        .unwrap();
    assert!(!fact.subject.contains("admin@example.com"));
    assert_eq!(fact.id, "m1");
}

#[test]
fn workspace_fact_wins_over_user_fact() {
    let s = store(true, true);
    let found = s
        .get_effective_scoped("m1", vec![stored("m1", "ws")], vec![stored("m1", "user")])
        .unwrap()
        .unwrap();
    assert_eq!(found.scope, MemoryScope::Workspace);
    assert_eq!(found.fact.created_at, "ws");
    let user_only = s.get_effective_scoped("m1", vec![], vec![stored("m1", "user")]).unwrap().unwrap();
    assert_eq!(user_only.scope, MemoryScope::User);
    match s.get("zz", vec![], vec![]) {
        Err(AlfredError::NotFound(m)) => assert_eq!(m, "memory fact not found: zz"),
        _ => panic!("expected not found"),
    }
}

#[test]
fn effective_list_merges_by_id() {
    let s = store(true, true);
    let listed = s.list_effective_scoped(
        vec![stored("c", "u"), stored("a", "u")],
        vec![stored("b", "w"), stored("a", "w")],
    );
    let ids: Vec<String> = listed.iter().map(|f| f.fact.id.clone()).collect();
    assert_eq!(ids, vec!["a".to_string(), "b".to_string(), "c".to_string()]);
    assert_eq!(listed[0].scope, MemoryScope::Workspace);
    assert_eq!(listed[0].fact.created_at, "w");
    assert_eq!(listed[2].scope, MemoryScope::User);
    let facts = s.list_effective(vec![stored("z", "u")], vec![]);
    assert_eq!(facts.len(), 1);
    assert_eq!(facts[0].id, "z");
}

#[test]
fn delete_reports_and_plans_removal() {
    let s = store(true, true);
    let user = vec![stored("m1", "u")];
    let workspace = vec![stored("m1", "w"), stored("m2", "w")];
    let dry = s.delete("m1", true, &user, &workspace).unwrap();
    assert!(dry.deleted && !dry.delete_user && !dry.delete_workspace);
    let real = s.delete("m1", false, &user, &workspace).unwrap();
    assert!(real.deleted && real.delete_user && real.delete_workspace);
    let absent = s.delete("m9", false, &user, &workspace).unwrap();
    assert!(!absent.deleted);
}

#[test]
fn scoped_operations_need_a_configured_scope() {
    let s = store(true, false);
    match s.upsert_in_scope(MemoryScope::Workspace, input("m1", "s", "f"), vec![], "now".to_string()) {
        Err(AlfredError::InvalidArgument(m)) => {
            assert_eq!(m, "workspace memory storage is disabled by configuration")
        }
        _ => panic!("expected invalid argument"),
    }
    let fact = s
        .upsert_in_scope(MemoryScope::User, input("m1", "s", "f"), vec![stored("m1", "old")], "now".to_string())
        .unwrap();
    assert_eq!(fact.created_at, "old");
    match s.exists_in_scope(MemoryScope::Workspace, "m1", &vec![]) {
        Err(AlfredError::InvalidArgument(m)) => {
            assert_eq!(m, "workspace memory storage is disabled by configuration")
        }
        _ => panic!("expected invalid argument"),
    }
    assert_eq!(s.exists_in_scope(MemoryScope::User, "m1", &vec![stored("m1", "x")]).unwrap(), true);
    assert!(s.get_in_scope(MemoryScope::User, "m2", vec![stored("m1", "x")]).unwrap().is_none());
    assert_eq!(s.user_store_path(), Some("/u/memory.json"));
    assert_eq!(s.workspace_store_path(), None);
}
