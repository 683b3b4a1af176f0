use alfred::app::Alfred;
use alfred::design::{SERVER_VERSION, TOOL_SCHEMA_VERSION};
use alfred::protocol::ToolRoute;
use alfred::envelope::EnvelopeStatus;
use alfred::json::JsonValue;
use alfred::tool_execution::{HostContext, HostPath};

#[test]
fn capabilities_follow_the_canonical_public_tool_surface() {
    let app = Alfred::new();
    let names: Vec<&str> = app.capabilities().iter().map(|tool| tool.name.as_str()).collect();
    let expected_names = [
        "capabilities",
        "fs",
        "logs",
        "memory",
        "patch",
        "plan",
        "search",
        "status",
        "workspace_dir",
    ];

    assert_eq!(names, expected_names);
    assert!(app.capability("capabilities").is_some());
    assert!(app.capability("not-a-tool").is_none());
    assert!(app
        .capabilities()
        .iter()
        .all(|tool| tool.version == SERVER_VERSION && tool.schema_version == TOOL_SCHEMA_VERSION));
}

#[test]
fn router_dispatches_known_tools_and_rejects_unknown_names() {
    let app = Alfred::new();
    let routed = app.dispatch_tool("workspace_dir").expect("tool should route");

    assert!(matches!(routed.route(), ToolRoute::WorkspaceDir));
    assert_eq!(routed.descriptor().name, "workspace_dir");
    assert!(app.dispatch_tool("not-a-tool").is_err());
}

fn host() -> HostContext {
    HostContext {
        workspace_root: Some(HostPath {
            text: Some("/work/space".to_string()),
            lossy: "/work/space".to_string(),
        }),
        design_plan_exists: false,
        total_memory: 4096,
        duration_ms: 0,
    }
}

fn field<'a>(value: &'a JsonValue, key: &str) -> &'a JsonValue {
    value.get(key).expect("field should exist")
}

#[test]
fn invoke_tool_returns_the_capabilities_payload() {
    let app = Alfred::new();
    let envelope = app.invoke_tool("capabilities", None, &host());
    let data = envelope.data.as_ref().expect("payload should exist");
    let tool_names: Vec<String> = field(data, "tools")
        .as_array()
        .expect("tools should be an array")
        .iter()
        .map(|tool| field(tool, "name").as_str().expect("name should exist").to_owned())
        .collect();

    assert_eq!(envelope.status, EnvelopeStatus::Success);
    assert_eq!(tool_names.len(), app.capabilities().len());
    assert_eq!(tool_names.first().map(String::as_str), Some("capabilities"));
    assert!(envelope.errors.is_empty());
}

#[test]
fn invoke_tool_returns_the_status_payload() {
    let app = Alfred::new();
    let arguments = JsonValue::Object(vec![("verbose".to_string(), JsonValue::Bool(true))]);
    let envelope = app.invoke_tool("status", Some(&arguments), &host());
    let payload = envelope.data.as_ref().expect("payload should exist");

    assert_eq!(envelope.status, EnvelopeStatus::Success);
    assert_eq!(
        field(payload, "version").as_str().map(String::as_str),
        Some(SERVER_VERSION)
    );
    assert_eq!(field(field(payload, "index"), "ready").as_bool(), Some(false));
    assert_eq!(field(field(payload, "memory"), "indexed_memories").as_u64(), Some(0));
    assert!(field(field(payload, "paths"), "plan").as_str().is_some());
    assert!(field(field(payload, "paths"), "alfred_logs").as_str().is_some());
}

#[test]
fn invoke_tool_reports_unimplemented_and_unknown_tools_deterministically() {
    let app = Alfred::new();
    let unimplemented = app.invoke_tool("search", None, &host());
    let unknown = app.invoke_tool("not-a-tool", None, &host());

    assert_eq!(unimplemented.status, EnvelopeStatus::Error);
    assert_eq!(unimplemented.errors[0].kind, "tool_unavailable");
    assert_eq!(unknown.status, EnvelopeStatus::Error);
    assert_eq!(unknown.errors[0].kind, "invalid_argument");
    let details = unknown.errors[0].details.as_ref().expect("details");
    assert_eq!(field(details, "reason").as_str().map(String::as_str), Some("unknown_tool"));
}
