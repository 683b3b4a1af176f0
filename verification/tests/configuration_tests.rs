use alfred::configuration::{load_effective_disabled_tools, ConfigErrorKind};
use alfred::json::JsonValue;
use alfred::configuration::HostPaths;
use alfred::configuration::loading::{
    resolve_storage_settings, workspace_id, AppConfig, ConfigDefaults, EnvDefaults,
};

fn disabled(names: &[&str]) -> JsonValue {
    let list = names.iter().map(|name| JsonValue::String(name.to_string())).collect();
    JsonValue::Object(vec![(
        "tools".to_string(),
        JsonValue::Object(vec![("disabled".to_string(), JsonValue::Array(list))]),
    )])
}

#[test]
fn disabled_tools_merge_defaults_user_and_workspace() {
    let user = disabled(&["grep", "search"]);
    let workspace = disabled(&["grep", "workspace_dir"]);
    let names = load_effective_disabled_tools(
        Some(&user),
        Some(&workspace),
        "/home/u/.config/alfred/config.json",
        "/ws/.alfred/config.json",
    )
    .expect("configs should merge");

    assert!(names.contains(&"grep".to_string()));
    assert!(names.contains(&"search".to_string()));
    assert!(names.contains(&"workspace_dir".to_string()));
    assert!(names.contains(&"file_delete".to_string()));
    let mut sorted = names.clone();
    sorted.sort();
    sorted.dedup();
    assert_eq!(names, sorted);
}

#[test]
fn default_policy_disables_mutating_tools() {
    let names = load_effective_disabled_tools(None, None, "user.json", "workspace.json")
        .expect("missing configs are fine");
    for tool in ["file_delete", "memory_put", "plan_update", "env_set", "task_run"] {
        assert!(names.contains(&tool.to_string()), "{tool} should be disabled");
    }
    assert!(!names.contains(&"workspace_dir".to_string()));
    assert_eq!(names.len(), 21);
}

#[test]
fn disabled_tools_must_be_an_array_of_strings() {
    let bad = JsonValue::Object(vec![(
        "tools".to_string(),
        JsonValue::Object(vec![("disabled".to_string(), JsonValue::String("grep".to_string()))]),
    )]);
    let err = load_effective_disabled_tools(None, Some(&bad), "user.json", "workspace.json")
        .err()
        .expect("a string is refused");
    assert_eq!(err.kind, ConfigErrorKind::ToolsDisabledNotArray);
    assert_eq!(err.path, "workspace.json");
    assert_eq!(err.message(), "config field tools.disabled must be an array in workspace.json");

    let mixed = disabled(&[]);
    let mixed = match mixed {
        JsonValue::Object(mut entries) => {
            entries[0].1 = JsonValue::Object(vec![(
                "disabled".to_string(),
                JsonValue::Array(vec![JsonValue::Bool(true)]),
            )]);
            JsonValue::Object(entries)
        }
        other => other,
    };
    let err = load_effective_disabled_tools(Some(&mixed), None, "user.json", "workspace.json")
        .err()
        .expect("a non-string entry is refused");
    assert_eq!(err.kind, ConfigErrorKind::ToolsDisabledNotStrings);
    assert_eq!(err.path, "user.json");
}

fn object(entries: Vec<(&str, JsonValue)>) -> JsonValue {
    JsonValue::Object(entries.into_iter().map(|(k, v)| (k.to_string(), v)).collect())
}

fn storage_root_config(ws: &str, host: HostPaths) -> AppConfig {
    let doc = object(vec![
        (
            "workspace",
            object(vec![("storage", object(vec![("root", JsonValue::String(".state".to_string()))]))]),
        ),
        (
            "index",
            object(vec![
                ("enabled", JsonValue::Bool(false)),
                ("persistence", object(vec![("location", JsonValue::String("workspace".to_string()))])),
            ]),
        ),
    ]);
    let user_path = format!("{ws}/missing-user-config.json");
    let workspace_path = format!("{ws}/.alfred/config.json");
    let storage = resolve_storage_settings(
        ws,
        user_path.as_str(),
        workspace_path.as_str(),
        None,
        Some(&doc),
        &ConfigDefaults::standard(),
    )
    .ok()
    .expect("storage settings");
    let env = EnvDefaults {
        runtime_log_retention_days: None,
        index_persistence_location: None,
        index_persist_interval_seconds: None,
        index_watch_debounce_millis: None,
    };
    AppConfig::load_from_paths_with_host(
        ws.to_string(),
        host,
        user_path,
        workspace_path,
        storage,
        None,
        Some(&doc),
        &env,
    )
    .ok()
    .expect("config should load")
}

#[test]
fn auto_runtime_log_goes_to_the_workspace_storage_root() {
    let host = HostPaths {
        user_config_dir: Some("/home/u/.config".to_string()),
        user_data_dir: Some("/home/u/.local/share".to_string()),
        user_logs_dir: Some("/home/u/logs".to_string()),
        system_logs_dir: None,
    };
    let os = HostPaths {
        user_config_dir: None,
        user_data_dir: None,
        user_logs_dir: None,
        system_logs_dir: None,
    };
    let config = storage_root_config("/ws", host);
    assert_eq!(config.workspace_storage_root_dir, ".state");
    assert!(!config.index_enabled);
    assert_eq!(config.effective_runtime_log_path(&os), "/ws/.state/logs/runtime.ndjson");
}

#[test]
fn rebinding_the_workspace_recomputes_its_id() {
    let host = HostPaths {
        user_config_dir: None,
        user_data_dir: None,
        user_logs_dir: None,
        system_logs_dir: None,
    };
    let mut config = storage_root_config("/ws", host);
    assert_eq!(config.workspace_id, workspace_id("/ws"));
    config.rebind_workspace_root("/other".to_string());
    assert_eq!(config.workspace_root, "/other");
    assert_eq!(config.workspace_id, workspace_id("/other"));
    assert_eq!(config.workspace_config_path, "/other/.alfred/config.json");
}
