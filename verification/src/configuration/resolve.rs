//! Field-by-field merge of the two configuration documents: the workspace document is
//! consulted first, then the user document, and an invalid value in a consulted document
//! is an error placed in that document.

use vstd::prelude::*;

use crate::configuration::{
    deref_opt, opt_text, resolved, resolved_path, ConfigError, ConfigErrorKind,
    IndexPersistenceLocation, RuntimeLogLocation, StorageUserLocation, StorageWorkspaceLocation,
    extract_storage_user_location, spec_storage_user_location, extract_storage_workspace_location,
    spec_storage_workspace_location, extract_runtime_log_location, spec_runtime_log_location,
    extract_runtime_log_path, spec_runtime_log_path, extract_runtime_log_retention_days,
    spec_runtime_log_retention_days, extract_index_enabled, spec_index_enabled,
    extract_index_persistence_location, spec_index_persistence_location,
    extract_index_persistence_path, spec_index_persistence_path,
    extract_index_persist_interval_seconds, spec_index_persist_interval_seconds,
    extract_redaction_enabled, spec_redaction_enabled, extract_redaction_replacement_token,
    spec_redaction_replacement_token, extract_redaction_preserve_length,
    spec_redaction_preserve_length, extract_redaction_rules, spec_redaction_rules,
    extract_memory_user_enabled, spec_memory_user_enabled, extract_memory_workspace_enabled,
    spec_memory_workspace_enabled, extract_memory_user_path, spec_memory_user_path,
    extract_memory_workspace_path, spec_memory_workspace_path,
};
use crate::json::JsonValue;
use crate::redaction::{RedactionRule, RuleModel};

verus! {

/// A merged optional setting, with its error placed in the document it came from.
pub open spec fn resolution_matches<T>(
    r: Result<Option<T>, ConfigError>,
    w: Result<Option<T>, ConfigErrorKind>,
    u: Result<Option<T>, ConfigErrorKind>,
    workspace_path: Seq<char>,
    user_path: Seq<char>,
) -> bool {
    match resolved(w, u) {
        Ok(x) => r is Ok && r->Ok_0 == x,
        Err(k) => r is Err && r->Err_0.kind == k && r->Err_0.path@ == resolved_path(
            w,
            workspace_path,
            user_path,
        ),
    }
}

/// A merged optional text setting, with its error placed in the document it came from.
pub open spec fn text_resolution_matches(
    r: Result<Option<String>, ConfigError>,
    w: Result<Option<Seq<char>>, ConfigErrorKind>,
    u: Result<Option<Seq<char>>, ConfigErrorKind>,
    workspace_path: Seq<char>,
    user_path: Seq<char>,
) -> bool {
    match resolved(w, u) {
        Ok(x) => r is Ok && opt_text(r->Ok_0) == x,
        Err(k) => r is Err && r->Err_0.kind == k && r->Err_0.path@ == resolved_path(
            w,
            workspace_path,
            user_path,
        ),
    }
}

/// A merged flag: the workspace value, else the user value, else `None`.
pub open spec fn flag_resolution(w: Option<bool>, u: Option<bool>) -> Option<bool> {
    match w {
        Some(b) => Some(b),
        None => u,
    }
}

/// The merged `storage.user.location`.
pub fn resolve_storage_user_location(
    user_root: Option<&JsonValue>,
    workspace_root: Option<&JsonValue>,
    user_path: &str,
    workspace_path: &str,
) -> (r: Result<Option<StorageUserLocation>, ConfigError>)
    ensures
        resolution_matches(
            r,
            spec_storage_user_location(deref_opt(workspace_root)),
            spec_storage_user_location(deref_opt(user_root)),
            workspace_path@,
            user_path@,
        ),
{
    match extract_storage_user_location(workspace_root, workspace_path) {
        Err(e) => Err(e),
        Ok(Some(x)) => Ok(Some(x)),
        Ok(None) => extract_storage_user_location(user_root, user_path),
    }
}

/// The merged `storage.workspace.location`.
pub fn resolve_storage_workspace_location(
    user_root: Option<&JsonValue>,
    workspace_root: Option<&JsonValue>,
    user_path: &str,
    workspace_path: &str,
) -> (r: Result<Option<StorageWorkspaceLocation>, ConfigError>)
    ensures
        resolution_matches(
            r,
            spec_storage_workspace_location(deref_opt(workspace_root)),
            spec_storage_workspace_location(deref_opt(user_root)),
            workspace_path@,
            user_path@,
        ),
{
    match extract_storage_workspace_location(workspace_root, workspace_path) {
        Err(e) => Err(e),
        Ok(Some(x)) => Ok(Some(x)),
        Ok(None) => extract_storage_workspace_location(user_root, user_path),
    }
}

/// The merged `logging.runtime.location`.
pub fn resolve_runtime_log_location(
    user_root: Option<&JsonValue>,
    workspace_root: Option<&JsonValue>,
    user_path: &str,
    workspace_path: &str,
) -> (r: Result<Option<RuntimeLogLocation>, ConfigError>)
    ensures
        resolution_matches(
            r,
            spec_runtime_log_location(deref_opt(workspace_root)),
            spec_runtime_log_location(deref_opt(user_root)),
            workspace_path@,
            user_path@,
        ),
{
    match extract_runtime_log_location(workspace_root, workspace_path) {
        Err(e) => Err(e),
        Ok(Some(x)) => Ok(Some(x)),
        Ok(None) => extract_runtime_log_location(user_root, user_path),
    }
}

/// The merged `logging.runtime.path`.
pub fn resolve_runtime_log_path(
    user_root: Option<&JsonValue>,
    workspace_root: Option<&JsonValue>,
    user_path: &str,
    workspace_path: &str,
) -> (r: Result<Option<String>, ConfigError>)
    ensures
        text_resolution_matches(
            r,
            spec_runtime_log_path(deref_opt(workspace_root)),
            spec_runtime_log_path(deref_opt(user_root)),
            workspace_path@,
            user_path@,
        ),
{
    match extract_runtime_log_path(workspace_root, workspace_path) {
        Err(e) => Err(e),
        Ok(Some(x)) => Ok(Some(x)),
        Ok(None) => extract_runtime_log_path(user_root, user_path),
    }
}

/// The merged `logging.runtime.retention_days`.
pub fn resolve_runtime_log_retention_days(
    user_root: Option<&JsonValue>,
    workspace_root: Option<&JsonValue>,
    user_path: &str,
    workspace_path: &str,
) -> (r: Result<Option<u64>, ConfigError>)
    ensures
        resolution_matches(
            r,
            spec_runtime_log_retention_days(deref_opt(workspace_root)),
            spec_runtime_log_retention_days(deref_opt(user_root)),
            workspace_path@,
            user_path@,
        ),
{
    match extract_runtime_log_retention_days(workspace_root, workspace_path) {
        Err(e) => Err(e),
        Ok(Some(x)) => Ok(Some(x)),
        Ok(None) => extract_runtime_log_retention_days(user_root, user_path),
    }
}

/// The merged `index.enabled`, on by default.
pub fn resolve_index_enabled(user_root: Option<&JsonValue>, workspace_root: Option<&JsonValue>) -> (r:
    bool)
    ensures
        r == match flag_resolution(
            spec_index_enabled(deref_opt(workspace_root)),
            spec_index_enabled(deref_opt(user_root)),
        ) {
            Some(b) => b,
            None => true,
        },
{
    if let Some(b) = extract_index_enabled(workspace_root) {
        return b;
    }
    if let Some(b) = extract_index_enabled(user_root) {
        return b;
    }
    true
}

/// The merged `index.persistence.location`.
pub fn resolve_index_persistence_location(
    user_root: Option<&JsonValue>,
    workspace_root: Option<&JsonValue>,
    user_path: &str,
    workspace_path: &str,
) -> (r: Result<Option<IndexPersistenceLocation>, ConfigError>)
    ensures
        resolution_matches(
            r,
            spec_index_persistence_location(deref_opt(workspace_root)),
            spec_index_persistence_location(deref_opt(user_root)),
            workspace_path@,
            user_path@,
        ),
{
    match extract_index_persistence_location(workspace_root, workspace_path) {
        Err(e) => Err(e),
        Ok(Some(x)) => Ok(Some(x)),
        Ok(None) => extract_index_persistence_location(user_root, user_path),
    }
}

/// The merged `index.persistence.path`.
pub fn resolve_index_persistence_path(
    user_root: Option<&JsonValue>,
    workspace_root: Option<&JsonValue>,
    user_path: &str,
    workspace_path: &str,
) -> (r: Result<Option<String>, ConfigError>)
    ensures
        text_resolution_matches(
            r,
            spec_index_persistence_path(deref_opt(workspace_root)),
            spec_index_persistence_path(deref_opt(user_root)),
            workspace_path@,
            user_path@,
        ),
{
    match extract_index_persistence_path(workspace_root, workspace_path) {
        Err(e) => Err(e),
        Ok(Some(x)) => Ok(Some(x)),
        Ok(None) => extract_index_persistence_path(user_root, user_path),
    }
}

/// The merged `index.persistence.interval_seconds`.
pub fn resolve_index_persist_interval_seconds(
    user_root: Option<&JsonValue>,
    workspace_root: Option<&JsonValue>,
    user_path: &str,
    workspace_path: &str,
) -> (r: Result<Option<u64>, ConfigError>)
    ensures
        resolution_matches(
            r,
            spec_index_persist_interval_seconds(deref_opt(workspace_root)),
            spec_index_persist_interval_seconds(deref_opt(user_root)),
            workspace_path@,
            user_path@,
        ),
{
    match extract_index_persist_interval_seconds(workspace_root, workspace_path) {
        Err(e) => Err(e),
        Ok(Some(x)) => Ok(Some(x)),
        Ok(None) => extract_index_persist_interval_seconds(user_root, user_path),
    }
}

/// The merged `redaction.enabled`, on by default.
pub fn resolve_redaction_enabled(
    user_root: Option<&JsonValue>,
    workspace_root: Option<&JsonValue>,
) -> (r: bool)
    ensures
        r == match flag_resolution(
            spec_redaction_enabled(deref_opt(workspace_root)),
            spec_redaction_enabled(deref_opt(user_root)),
        ) {
            Some(b) => b,
            None => true,
        },
{
    if let Some(b) = extract_redaction_enabled(workspace_root) {
        return b;
    }
    if let Some(b) = extract_redaction_enabled(user_root) {
        return b;
    }
    true
}

/// The merged `redaction.replacement_token`.
pub fn resolve_redaction_replacement_token(
    user_root: Option<&JsonValue>,
    workspace_root: Option<&JsonValue>,
    user_path: &str,
    workspace_path: &str,
) -> (r: Result<Option<String>, ConfigError>)
    ensures
        text_resolution_matches(
            r,
            spec_redaction_replacement_token(deref_opt(workspace_root)),
            spec_redaction_replacement_token(deref_opt(user_root)),
            workspace_path@,
            user_path@,
        ),
{
    match extract_redaction_replacement_token(workspace_root, workspace_path) {
        Err(e) => Err(e),
        Ok(Some(x)) => Ok(Some(x)),
        Ok(None) => extract_redaction_replacement_token(user_root, user_path),
    }
}

/// The merged `redaction.preserve_length`.
pub fn resolve_redaction_preserve_length(
    user_root: Option<&JsonValue>,
    workspace_root: Option<&JsonValue>,
) -> (r: Option<bool>)
    ensures
        r == flag_resolution(
            spec_redaction_preserve_length(deref_opt(workspace_root)),
            spec_redaction_preserve_length(deref_opt(user_root)),
        ),
{
    match extract_redaction_preserve_length(workspace_root) {
        Some(b) => Some(b),
        None => extract_redaction_preserve_length(user_root),
    }
}

/// A merged rule list, with its error placed in the document it came from.
pub open spec fn rules_resolution_matches(
    r: Result<Option<Vec<RedactionRule>>, ConfigError>,
    w: Result<Option<Seq<RuleModel>>, ConfigErrorKind>,
    u: Result<Option<Seq<RuleModel>>, ConfigErrorKind>,
    workspace_path: Seq<char>,
    user_path: Seq<char>,
) -> bool {
    match resolved(w, u) {
        Ok(None) => r is Ok && r->Ok_0 is None,
        Ok(Some(rules)) => r is Ok && r->Ok_0 is Some && r->Ok_0->0@.map_values(
            |x: RedactionRule| x@,
        ) == rules,
        Err(k) => r is Err && r->Err_0.kind == k && r->Err_0.path@ == resolved_path(
            w,
            workspace_path,
            user_path,
        ),
    }
}

/// The merged `redaction.rules`.
pub fn resolve_redaction_rules(
    user_root: Option<&JsonValue>,
    workspace_root: Option<&JsonValue>,
    user_path: &str,
    workspace_path: &str,
) -> (r: Result<Option<Vec<RedactionRule>>, ConfigError>)
    ensures
        rules_resolution_matches(
            r,
            spec_redaction_rules(deref_opt(workspace_root)),
            spec_redaction_rules(deref_opt(user_root)),
            workspace_path@,
            user_path@,
        ),
{
    match extract_redaction_rules(workspace_root, workspace_path) {
        Err(e) => Err(e),
        Ok(Some(x)) => Ok(Some(x)),
        Ok(None) => extract_redaction_rules(user_root, user_path),
    }
}

/// The merged `memory.user.enabled`.
pub fn resolve_memory_user_enabled(
    user_root: Option<&JsonValue>,
    workspace_root: Option<&JsonValue>,
) -> (r: Option<bool>)
    ensures
        r == flag_resolution(
            spec_memory_user_enabled(deref_opt(workspace_root)),
            spec_memory_user_enabled(deref_opt(user_root)),
        ),
{
    match extract_memory_user_enabled(workspace_root) {
        Some(b) => Some(b),
        None => extract_memory_user_enabled(user_root),
    }
}

/// The merged `memory.workspace.enabled`.
pub fn resolve_memory_workspace_enabled(
    user_root: Option<&JsonValue>,
    workspace_root: Option<&JsonValue>,
) -> (r: Option<bool>)
    ensures
        r == flag_resolution(
            spec_memory_workspace_enabled(deref_opt(workspace_root)),
            spec_memory_workspace_enabled(deref_opt(user_root)),
        ),
{
    match extract_memory_workspace_enabled(workspace_root) {
        Some(b) => Some(b),
        None => extract_memory_workspace_enabled(user_root),
    }
}

/// The merged `memory.storage.user.path`.
pub fn resolve_memory_user_path(
    user_root: Option<&JsonValue>,
    workspace_root: Option<&JsonValue>,
    user_path: &str,
    workspace_path: &str,
) -> (r: Result<Option<String>, ConfigError>)
    ensures
        text_resolution_matches(
            r,
            spec_memory_user_path(deref_opt(workspace_root)),
            spec_memory_user_path(deref_opt(user_root)),
            workspace_path@,
            user_path@,
        ),
{
    match extract_memory_user_path(workspace_root, workspace_path) {
        Err(e) => Err(e),
        Ok(Some(x)) => Ok(Some(x)),
        Ok(None) => extract_memory_user_path(user_root, user_path),
    }
}

/// The merged `memory.storage.workspace.path`.
pub fn resolve_memory_workspace_path(
    user_root: Option<&JsonValue>,
    workspace_root: Option<&JsonValue>,
    user_path: &str,
    workspace_path: &str,
) -> (r: Result<Option<String>, ConfigError>)
    ensures
        text_resolution_matches(
            r,
            spec_memory_workspace_path(deref_opt(workspace_root)),
            spec_memory_workspace_path(deref_opt(user_root)),
            workspace_path@,
            user_path@,
        ),
{
    match extract_memory_workspace_path(workspace_root, workspace_path) {
        Err(e) => Err(e),
        Ok(Some(x)) => Ok(Some(x)),
        Ok(None) => extract_memory_workspace_path(user_root, user_path),
    }
}

} // verus!
