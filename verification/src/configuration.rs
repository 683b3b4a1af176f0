//! Configuration model: locations, the per-field schema of the user and workspace
//! configuration documents, their deterministic merge, and derived storage paths.
//!
//! Reading files, creating directories and querying the operating system happen at the
//! caller; this module receives the parsed documents and host directories as values.

use vstd::prelude::*;

use crate::json::JsonValue;
use crate::path_encoding::{normalize_separator_chars, normalized_separators};
use crate::paths::{join_path, spec_join};
use crate::redaction::{RedactionRule, RuleModel};
use crate::text::{
    chars_eq, chars_of, eq_ignore_ascii_case, ascii_lower_seq, replace_char, replace_char_spec,
    split_chars, split_on, string_of, trim_chars, trim_spec, views_of, insert_sorted_unique,
    strictly_sorted, string_views, to_lowercase, lowercase_of, str_eq, trim_str,
};

verus! {

broadcast use vstd::string::group_string_axioms;

/// Workspace-relative directory for Alfred-owned artifacts.
pub const WORKSPACE_STORAGE_DIR: &'static str = ".alfred";

/// Content of the `.gitignore` placed in the workspace storage directory.
pub const WORKSPACE_GITIGNORE_TEMPLATE: &'static str = "*\n!config.json\n";

/// Storage location used for persisted workspace indexes.
#[derive(Debug, Clone, Copy, PartialEq, Eq, Structural)]
pub enum IndexPersistenceLocation {
    UserData,
    Workspace,
}

/// Storage location used for user-scoped configuration and data.
#[derive(Debug, Clone, Copy, PartialEq, Eq, Structural)]
pub enum StorageUserLocation {
    /// Store user-scoped artifacts under OS user directories.
    Os,
    /// Store user-scoped artifacts under the workspace storage root.
    Workspace,
}

/// Storage location used for workspace-scoped configuration and data.
#[derive(Debug, Clone, Copy, PartialEq, Eq, Structural)]
pub enum StorageWorkspaceLocation {
    /// Store workspace-scoped artifacts under the workspace storage root.
    Workspace,
    /// Store workspace-scoped artifacts under OS user directories keyed by workspace id.
    User,
}

/// Storage location selection for runtime logs.
#[derive(Debug, Clone, Copy, PartialEq, Eq, Structural)]
pub enum RuntimeLogLocation {
    Auto,
    Workspace,
    UserLogs,
    UserData,
    SystemLogs,
}

/// Host-provided default directories used for config/data discovery.
pub struct HostPaths {
    pub user_config_dir: Option<String>,
    pub user_data_dir: Option<String>,
    pub user_logs_dir: Option<String>,
    pub system_logs_dir: Option<String>,
}

// ---------------------------------------------------------------------------
// Workspace-relative paths
// ---------------------------------------------------------------------------

/// Whether some `/`-separated segment of `s` is `..`.
pub open spec fn has_dotdot_segment(s: Seq<char>) -> bool {
    exists|k: int| 0 <= k < split_on(s, '/').len() && #[trigger] split_on(s, '/')[k] == seq!['.', '.']
}

/// Whether a path is workspace-relative and safe for tool contracts: non-empty, not
/// absolute (neither `/...` nor `X:/...` after separator normalization) and free of `..`
/// segments.
pub open spec fn workspace_relative(path: Seq<char>) -> bool {
    let n = normalized_separators(path);
    let b = vstd::utf8::encode_utf8(n);
    &&& path.len() > 0
    &&& !(n.len() > 0 && n[0] == '/')
    &&& !(b.len() >= 3 && b[1] == 58 && b[2] == 47)
    &&& !has_dotdot_segment(n)
}

fn has_dotdot(v: &[char]) -> (r: bool)
    ensures
        r == has_dotdot_segment(v@),
{
    let segments = split_chars(v, '/');
    let mut dots: Vec<char> = Vec::new();
    dots.push('.');
    dots.push('.');
    assert(dots@ =~= seq!['.', '.']);
    let mut k: usize = 0;
    while k < segments.len()
        invariant
            k <= segments.len(),
            dots@ == seq!['.', '.'],
            views_of(segments@) == split_on(v@, '/'),
            forall|j: int| 0 <= j < k ==> split_on(v@, '/')[j] != seq!['.', '.'],
        decreases segments.len() - k,
    {
        assert(split_on(v@, '/')[k as int] == segments@[k as int]@);
        if chars_eq(segments[k].as_slice(), dots.as_slice()) {
            return true;
        }
        k = k + 1;
    }
    false
}

/// Validates that a path is workspace-relative and safe for tool contracts.
pub fn is_workspace_relative_path(path: &str) -> (r: bool)
    ensures
        r == workspace_relative(path@),
{
    let raw = chars_of(path);
    if raw.len() == 0 {
        return false;
    }
    let n = normalize_separator_chars(raw.as_slice());
    if n.len() > 0 && n[0] == '/' {
        return false;
    }
    let text = string_of(n.as_slice());
    let bytes = text.as_str().as_bytes();
    if bytes.len() >= 3 && bytes[1] == 58 && bytes[2] == 47 {
        return false;
    }
    !has_dotdot(n.as_slice())
}

/// `s` without trailing occurrences of `c` (`str::trim_end_matches` with a `char`).
pub open spec fn trim_end_char(s: Seq<char>, c: char) -> Seq<char>
    decreases s.len(),
{
    if s.len() > 0 && s.last() == c {
        trim_end_char(s.drop_last(), c)
    } else {
        s
    }
}

fn trim_end_char_exec(v: &[char], c: char) -> (r: Vec<char>)
    ensures
        r@ == trim_end_char(v@, c),
{
    let mut n = v.len();
    assert(v@.subrange(0, n as int) =~= v@);
    while n > 0 && v[n - 1] == c
        invariant
            n <= v.len(),
            trim_end_char(v@, c) == trim_end_char(v@.subrange(0, n as int), c),
        decreases n,
    {
        assert(v@.subrange(0, n as int).drop_last() =~= v@.subrange(0, n - 1));
        n = n - 1;
    }
    let mut out: Vec<char> = Vec::new();
    let mut i: usize = 0;
    while i < n
        invariant
            n <= v.len(),
            i <= n,
            out@ == v@.subrange(0, i as int),
        decreases n - i,
    {
        out.push(v[i]);
        i = i + 1;
    }
    out
}

/// Why a configuration document was refused.
#[derive(Debug, Clone, Copy, PartialEq, Eq, Structural)]
pub enum ConfigErrorKind {
    ToolsNotObject,
    ToolsDisabledNotArray,
    ToolsDisabledNotStrings,
    StorageRootEmpty,
    StorageRootNotRelative,
    StorageUserLocationInvalid,
    StorageWorkspaceLocationInvalid,
    RuntimeLogLocationInvalid,
    RuntimeLogPathEmpty,
    RetentionDaysNotInteger,
    RetentionDaysZero,
    IndexLocationInvalid,
    IndexIntervalNotInteger,
    IndexIntervalZero,
    RedactionTokenNotString,
    RedactionRulesNotArray,
    RedactionRulesNotObjects,
    RedactionRuleKeysNotArray,
    RedactionRuleKeysNotStrings,
    RedactionRulePatternNotString,
    RedactionRuleKindUnsupported,
    RedactionRuleIncomplete,
}

/// A refused configuration document: why, and in which file.
#[derive(Debug)]
pub struct ConfigError {
    pub kind: ConfigErrorKind,
    /// The configuration file whose content was refused.
    pub path: String,
    /// The offending value, where the error names one.
    pub detail: Option<String>,
}

/// What a refused configuration document is told with, before ` in <path>`.
pub open spec fn config_error_lead(kind: ConfigErrorKind, detail: Seq<char>) -> Seq<char> {
    match kind {
        ConfigErrorKind::ToolsNotObject => "config field tools must be an object"@,
        ConfigErrorKind::ToolsDisabledNotArray => "config field tools.disabled must be an array"@,
        ConfigErrorKind::ToolsDisabledNotStrings => "config field tools.disabled must contain strings"@,
        ConfigErrorKind::StorageRootEmpty => "workspace storage root must not be empty"@,
        ConfigErrorKind::StorageRootNotRelative => "workspace storage root must be workspace-relative"@,
        ConfigErrorKind::StorageUserLocationInvalid => "config field storage.user.location must be 'os' or 'workspace'"@,
        ConfigErrorKind::StorageWorkspaceLocationInvalid => "config field storage.workspace.location must be 'workspace' or 'user'"@,
        ConfigErrorKind::RuntimeLogLocationInvalid => "config field logging.runtime.location must be one of 'auto', 'workspace', 'user_logs', 'user_data', 'system_logs'"@,
        ConfigErrorKind::RuntimeLogPathEmpty => "config field logging.runtime.path must not be empty"@,
        ConfigErrorKind::RetentionDaysNotInteger => "config field logging.runtime.retention_days must be an integer"@,
        ConfigErrorKind::RetentionDaysZero => "config field logging.runtime.retention_days must be at least 1"@,
        ConfigErrorKind::IndexLocationInvalid => "config field index.persistence.location must be 'workspace' or 'user'"@,
        ConfigErrorKind::IndexIntervalNotInteger => "config field index.persistence.interval_seconds must be an integer"@,
        ConfigErrorKind::IndexIntervalZero => "config field index.persistence.interval_seconds must be greater than 0"@,
        ConfigErrorKind::RedactionTokenNotString => "config field redaction.replacement_token must be a string"@,
        ConfigErrorKind::RedactionRulesNotArray => "config field redaction.rules must be an array"@,
        ConfigErrorKind::RedactionRulesNotObjects => "config field redaction.rules must contain objects"@,
        ConfigErrorKind::RedactionRuleKeysNotArray => "config field redaction.rules[].keys must be an array"@,
        ConfigErrorKind::RedactionRuleKeysNotStrings => "config field redaction.rules[].keys must contain strings"@,
        ConfigErrorKind::RedactionRulePatternNotString => "config field redaction.rules[].pattern must be a string"@,
        ConfigErrorKind::RedactionRuleIncomplete => "config field redaction.rules[] must include kind, keys, or pattern"@,
        ConfigErrorKind::RedactionRuleKindUnsupported => "config field redaction.rules[].kind is not supported ("@
            + detail + ")"@,
    }
}

impl ConfigError {
    /// The message: what is wrong, then ` in ` and the file.
    pub fn message(&self) -> (m: String)
        ensures
            m@ == config_error_lead(
                self.kind,
                match &self.detail {
                    Some(d) => d@,
                    None => Seq::empty(),
                },
            ) + " in "@ + self.path@,
    {
        let mut m = match self.kind {
            ConfigErrorKind::ToolsNotObject => "config field tools must be an object",
            ConfigErrorKind::ToolsDisabledNotArray => "config field tools.disabled must be an array",
            ConfigErrorKind::ToolsDisabledNotStrings => "config field tools.disabled must contain strings",
            ConfigErrorKind::StorageRootEmpty => "workspace storage root must not be empty",
            ConfigErrorKind::StorageRootNotRelative => "workspace storage root must be workspace-relative",
            ConfigErrorKind::StorageUserLocationInvalid => "config field storage.user.location must be 'os' or 'workspace'",
            ConfigErrorKind::StorageWorkspaceLocationInvalid => "config field storage.workspace.location must be 'workspace' or 'user'",
            ConfigErrorKind::RuntimeLogLocationInvalid => "config field logging.runtime.location must be one of 'auto', 'workspace', 'user_logs', 'user_data', 'system_logs'",
            ConfigErrorKind::RuntimeLogPathEmpty => "config field logging.runtime.path must not be empty",
            ConfigErrorKind::RetentionDaysNotInteger => "config field logging.runtime.retention_days must be an integer",
            ConfigErrorKind::RetentionDaysZero => "config field logging.runtime.retention_days must be at least 1",
            ConfigErrorKind::IndexLocationInvalid => "config field index.persistence.location must be 'workspace' or 'user'",
            ConfigErrorKind::IndexIntervalNotInteger => "config field index.persistence.interval_seconds must be an integer",
            ConfigErrorKind::IndexIntervalZero => "config field index.persistence.interval_seconds must be greater than 0",
            ConfigErrorKind::RedactionTokenNotString => "config field redaction.replacement_token must be a string",
            ConfigErrorKind::RedactionRulesNotArray => "config field redaction.rules must be an array",
            ConfigErrorKind::RedactionRulesNotObjects => "config field redaction.rules must contain objects",
            ConfigErrorKind::RedactionRuleKeysNotArray => "config field redaction.rules[].keys must be an array",
            ConfigErrorKind::RedactionRuleKeysNotStrings => "config field redaction.rules[].keys must contain strings",
            ConfigErrorKind::RedactionRulePatternNotString => "config field redaction.rules[].pattern must be a string",
            ConfigErrorKind::RedactionRuleIncomplete => "config field redaction.rules[] must include kind, keys, or pattern",
            ConfigErrorKind::RedactionRuleKindUnsupported => {
                let mut t = String::from_str("config field redaction.rules[].kind is not supported (");
                match &self.detail {
                    Some(d) => t.append(d.as_str()),
                    None => {},
                }
                t.append(")");
                return {
                    t.append(" in ");
                    t.append(self.path.as_str());
                    t
                };
            },
        }.to_string();
        m.append(" in ");
        m.append(self.path.as_str());
        m
    }
}

/// The normalized form of a workspace-relative directory setting: trimmed, with `\`
/// turned into `/` and trailing `/` removed.
pub open spec fn normalized_relative_dir(value: Seq<char>) -> Seq<char> {
    trim_end_char(replace_char_spec(trim_spec(value), '\\', '/'), '/')
}

/// The outcome of normalizing a workspace-relative directory setting.
pub open spec fn relative_dir_outcome(value: Seq<char>) -> Result<Seq<char>, ConfigErrorKind> {
    let n = normalized_relative_dir(value);
    if n.len() == 0 {
        Err(ConfigErrorKind::StorageRootEmpty)
    } else if !workspace_relative(n) {
        Err(ConfigErrorKind::StorageRootNotRelative)
    } else {
        Ok(n)
    }
}

fn config_error(kind: ConfigErrorKind, config_path: &str) -> (e: ConfigError)
    ensures
        e.kind == kind,
        e.path@ == config_path@,
        e.detail is None,
{
    ConfigError { kind, path: config_path.to_string(), detail: None }
}

/// Normalizes a workspace-relative directory setting.
pub fn normalize_workspace_relative_dir(value: &str, config_path: &str) -> (r: Result<
    String,
    ConfigError,
>)
    ensures
        match relative_dir_outcome(value@) {
            Ok(n) => r is Ok && r->Ok_0@ == n,
            Err(k) => r is Err && r->Err_0.kind == k && r->Err_0.path@ == config_path@,
        },
{
    let v = chars_of(value);
    let trimmed = trim_chars(v.as_slice());
    let replaced = replace_char(trimmed.as_slice(), '\\', '/');
    let normalized = trim_end_char_exec(replaced.as_slice(), '/');
    if normalized.len() == 0 {
        return Err(config_error(ConfigErrorKind::StorageRootEmpty, config_path));
    }
    let text = string_of(normalized.as_slice());
    if !is_workspace_relative_path(text.as_str()) {
        return Err(config_error(ConfigErrorKind::StorageRootNotRelative, config_path));
    }
    Ok(text)
}

// ---------------------------------------------------------------------------
// Reading fields of a configuration document
// ---------------------------------------------------------------------------

/// `v[key]`, absent when `v` is absent or not an object holding `key`.
pub open spec fn at(v: Option<JsonValue>, key: Seq<char>) -> Option<JsonValue> {
    match v {
        Some(x) => x.spec_get(key),
        None => None,
    }
}

/// The string content of an optional value.
pub open spec fn text_of(v: Option<JsonValue>) -> Option<Seq<char>> {
    match v {
        Some(JsonValue::String(s)) => Some(s@),
        _ => None,
    }
}

/// The boolean content of an optional value.
pub open spec fn bool_of(v: Option<JsonValue>) -> Option<bool> {
    match v {
        Some(JsonValue::Bool(b)) => Some(b),
        _ => None,
    }
}

/// An optional reference as an optional value.
pub open spec fn deref_opt(v: Option<&JsonValue>) -> Option<JsonValue> {
    match v {
        Some(x) => Some(*x),
        None => None,
    }
}

/// The view of an optional string.
pub open spec fn opt_text(v: Option<String>) -> Option<Seq<char>> {
    match v {
        Some(s) => Some(s@),
        None => None,
    }
}

/// Case-insensitive ASCII equality of two texts.
pub open spec fn same_ignoring_case(a: Seq<char>, b: Seq<char>) -> bool {
    ascii_lower_seq(a) == ascii_lower_seq(b)
}

fn get_in<'a>(v: Option<&'a JsonValue>, key: &str) -> (r: Option<&'a JsonValue>)
    ensures
        deref_opt(r) == at(deref_opt(v), key@),
{
    match v {
        Some(x) => x.get(key),
        None => None,
    }
}

fn text_in(v: Option<&JsonValue>) -> (r: Option<&String>)
    ensures
        match r {
            Some(s) => text_of(deref_opt(v)) == Some(s@),
            None => text_of(deref_opt(v)) is None,
        },
{
    match v {
        Some(JsonValue::String(s)) => Some(s),
        _ => None,
    }
}

fn bool_in(v: Option<&JsonValue>) -> (r: Option<bool>)
    ensures
        r == bool_of(deref_opt(v)),
{
    match v {
        Some(JsonValue::Bool(b)) => Some(*b),
        _ => None,
    }
}

/// An extraction outcome with the error placed in the file at `path`.
pub open spec fn outcome_matches<T>(
    r: Result<Option<T>, ConfigError>,
    s: Result<Option<T>, ConfigErrorKind>,
    path: Seq<char>,
) -> bool {
    match s {
        Ok(x) => r is Ok && r->Ok_0 == x,
        Err(k) => r is Err && r->Err_0.kind == k && r->Err_0.path@ == path,
    }
}

/// A text extraction outcome with the error placed in the file at `path`.
pub open spec fn text_outcome_matches(
    r: Result<Option<String>, ConfigError>,
    s: Result<Option<Seq<char>>, ConfigErrorKind>,
    path: Seq<char>,
) -> bool {
    match s {
        Ok(x) => r is Ok && opt_text(r->Ok_0) == x,
        Err(k) => r is Err && r->Err_0.kind == k && r->Err_0.path@ == path,
    }
}

/// Workspace document first, then user document: the first that sets the field wins,
/// and an invalid value in a document that is consulted is an error.
pub open spec fn resolved<T>(
    workspace: Result<Option<T>, ConfigErrorKind>,
    user: Result<Option<T>, ConfigErrorKind>,
) -> Result<Option<T>, ConfigErrorKind> {
    match workspace {
        Err(k) => Err(k),
        Ok(Some(x)) => Ok(Some(x)),
        Ok(None) => user,
    }
}

/// Which document a resolution error comes from.
pub open spec fn resolved_path<T>(
    workspace: Result<Option<T>, ConfigErrorKind>,
    workspace_path: Seq<char>,
    user_path: Seq<char>,
) -> Seq<char> {
    if workspace is Err {
        workspace_path
    } else {
        user_path
    }
}

/// `storage.user.location`.
pub open spec fn spec_storage_user_location(root: Option<JsonValue>) -> Result<
    Option<StorageUserLocation>,
    ConfigErrorKind,
> {
    match text_of(at(at(at(root, "storage"@), "user"@), "location"@)) {
        None => Ok(None),
        Some(v) => if same_ignoring_case(v, "os"@) {
            Ok(Some(StorageUserLocation::Os))
        } else if same_ignoring_case(v, "workspace"@) {
            Ok(Some(StorageUserLocation::Workspace))
        } else {
            Err(ConfigErrorKind::StorageUserLocationInvalid)
        },
    }
}

/// Reads `storage.user.location` from one document.
pub fn extract_storage_user_location(config_root: Option<&JsonValue>, config_path: &str) -> (r:
    Result<Option<StorageUserLocation>, ConfigError>)
    ensures
        outcome_matches(r, spec_storage_user_location(deref_opt(config_root)), config_path@),
{
    let v = get_in(get_in(get_in(config_root, "storage"), "user"), "location");
    match text_in(v) {
        None => Ok(None),
        Some(text) => {
            if eq_ignore_ascii_case(text.as_str(), "os") {
                Ok(Some(StorageUserLocation::Os))
            } else if eq_ignore_ascii_case(text.as_str(), "workspace") {
                Ok(Some(StorageUserLocation::Workspace))
            } else {
                Err(config_error(ConfigErrorKind::StorageUserLocationInvalid, config_path))
            }
        },
    }
}

/// `storage.workspace.location`.
pub open spec fn spec_storage_workspace_location(root: Option<JsonValue>) -> Result<
    Option<StorageWorkspaceLocation>,
    ConfigErrorKind,
> {
    match text_of(at(at(at(root, "storage"@), "workspace"@), "location"@)) {
        None => Ok(None),
        Some(v) => if same_ignoring_case(v, "workspace"@) {
            Ok(Some(StorageWorkspaceLocation::Workspace))
        } else if same_ignoring_case(v, "user"@) {
            Ok(Some(StorageWorkspaceLocation::User))
        } else {
            Err(ConfigErrorKind::StorageWorkspaceLocationInvalid)
        },
    }
}

/// Reads `storage.workspace.location` from one document.
pub fn extract_storage_workspace_location(
    config_root: Option<&JsonValue>,
    config_path: &str,
) -> (r: Result<Option<StorageWorkspaceLocation>, ConfigError>)
    ensures
        outcome_matches(r, spec_storage_workspace_location(deref_opt(config_root)), config_path@),
{
    let v = get_in(get_in(get_in(config_root, "storage"), "workspace"), "location");
    match text_in(v) {
        None => Ok(None),
        Some(text) => {
            if eq_ignore_ascii_case(text.as_str(), "workspace") {
                Ok(Some(StorageWorkspaceLocation::Workspace))
            } else if eq_ignore_ascii_case(text.as_str(), "user") {
                Ok(Some(StorageWorkspaceLocation::User))
            } else {
                Err(config_error(ConfigErrorKind::StorageWorkspaceLocationInvalid, config_path))
            }
        },
    }
}

/// `logging.runtime.location`.
pub open spec fn spec_runtime_log_location(root: Option<JsonValue>) -> Result<
    Option<RuntimeLogLocation>,
    ConfigErrorKind,
> {
    match text_of(at(at(at(root, "logging"@), "runtime"@), "location"@)) {
        None => Ok(None),
        Some(v) => if same_ignoring_case(v, "auto"@) {
            Ok(Some(RuntimeLogLocation::Auto))
        } else if same_ignoring_case(v, "workspace"@) {
            Ok(Some(RuntimeLogLocation::Workspace))
        } else if same_ignoring_case(v, "user_logs"@) {
            Ok(Some(RuntimeLogLocation::UserLogs))
        } else if same_ignoring_case(v, "user_data"@) {
            Ok(Some(RuntimeLogLocation::UserData))
        } else if same_ignoring_case(v, "system_logs"@) {
            Ok(Some(RuntimeLogLocation::SystemLogs))
        } else {
            Err(ConfigErrorKind::RuntimeLogLocationInvalid)
        },
    }
}

/// Reads `logging.runtime.location` from one document.
pub fn extract_runtime_log_location(config_root: Option<&JsonValue>, config_path: &str) -> (r:
    Result<Option<RuntimeLogLocation>, ConfigError>)
    ensures
        outcome_matches(r, spec_runtime_log_location(deref_opt(config_root)), config_path@),
{
    let v = get_in(get_in(get_in(config_root, "logging"), "runtime"), "location");
    match text_in(v) {
        None => Ok(None),
        Some(text) => {
            let t = text.as_str();
            if eq_ignore_ascii_case(t, "auto") {
                Ok(Some(RuntimeLogLocation::Auto))
            } else if eq_ignore_ascii_case(t, "workspace") {
                Ok(Some(RuntimeLogLocation::Workspace))
            } else if eq_ignore_ascii_case(t, "user_logs") {
                Ok(Some(RuntimeLogLocation::UserLogs))
            } else if eq_ignore_ascii_case(t, "user_data") {
                Ok(Some(RuntimeLogLocation::UserData))
            } else if eq_ignore_ascii_case(t, "system_logs") {
                Ok(Some(RuntimeLogLocation::SystemLogs))
            } else {
                Err(config_error(ConfigErrorKind::RuntimeLogLocationInvalid, config_path))
            }
        },
    }
}

/// `logging.runtime.path`, trimmed; blank values are refused.
pub open spec fn spec_runtime_log_path(root: Option<JsonValue>) -> Result<
    Option<Seq<char>>,
    ConfigErrorKind,
> {
    match text_of(at(at(at(root, "logging"@), "runtime"@), "path"@)) {
        None => Ok(None),
        Some(v) => if trim_spec(v).len() == 0 {
            Err(ConfigErrorKind::RuntimeLogPathEmpty)
        } else {
            Ok(Some(trim_spec(v)))
        },
    }
}

/// Reads `logging.runtime.path` from one document.
pub fn extract_runtime_log_path(config_root: Option<&JsonValue>, config_path: &str) -> (r: Result<
    Option<String>,
    ConfigError,
>)
    ensures
        text_outcome_matches(r, spec_runtime_log_path(deref_opt(config_root)), config_path@),
{
    let v = get_in(get_in(get_in(config_root, "logging"), "runtime"), "path");
    match text_in(v) {
        None => Ok(None),
        Some(text) => {
            let trimmed = trim_chars(chars_of(text.as_str()).as_slice());
            if trimmed.len() == 0 {
                Err(config_error(ConfigErrorKind::RuntimeLogPathEmpty, config_path))
            } else {
                Ok(Some(string_of(trimmed.as_slice())))
            }
        },
    }
}

/// A positive integer field: absent, a positive `u64`, or refused.
pub open spec fn spec_positive_integer(
    v: Option<JsonValue>,
    not_integer: ConfigErrorKind,
    zero: ConfigErrorKind,
) -> Result<Option<u64>, ConfigErrorKind> {
    match v {
        None => Ok(None),
        Some(x) => match x {
            JsonValue::Number(n) => match n.unsigned {
                Some(d) => if d == 0 {
                    Err(zero)
                } else {
                    Ok(Some(d))
                },
                None => Err(not_integer),
            },
            _ => Err(not_integer),
        },
    }
}

fn positive_integer(
    v: Option<&JsonValue>,
    not_integer: ConfigErrorKind,
    zero: ConfigErrorKind,
    config_path: &str,
) -> (r: Result<Option<u64>, ConfigError>)
    ensures
        outcome_matches(r, spec_positive_integer(deref_opt(v), not_integer, zero), config_path@),
{
    match v {
        None => Ok(None),
        Some(x) => match x.as_u64() {
            Some(d) => {
                if d == 0 {
                    Err(config_error(zero, config_path))
                } else {
                    Ok(Some(d))
                }
            },
            None => Err(config_error(not_integer, config_path)),
        },
    }
}

/// `logging.runtime.retention_days`.
pub open spec fn spec_runtime_log_retention_days(root: Option<JsonValue>) -> Result<
    Option<u64>,
    ConfigErrorKind,
> {
    spec_positive_integer(
        at(at(at(root, "logging"@), "runtime"@), "retention_days"@),
        ConfigErrorKind::RetentionDaysNotInteger,
        ConfigErrorKind::RetentionDaysZero,
    )
}

/// Reads `logging.runtime.retention_days` from one document.
pub fn extract_runtime_log_retention_days(
    config_root: Option<&JsonValue>,
    config_path: &str,
) -> (r: Result<Option<u64>, ConfigError>)
    ensures
        outcome_matches(r, spec_runtime_log_retention_days(deref_opt(config_root)), config_path@),
{
    let v = get_in(get_in(get_in(config_root, "logging"), "runtime"), "retention_days");
    positive_integer(
        v,
        ConfigErrorKind::RetentionDaysNotInteger,
        ConfigErrorKind::RetentionDaysZero,
        config_path,
    )
}

/// `index.persistence.interval_seconds`.
pub open spec fn spec_index_persist_interval_seconds(root: Option<JsonValue>) -> Result<
    Option<u64>,
    ConfigErrorKind,
> {
    spec_positive_integer(
        at(at(at(root, "index"@), "persistence"@), "interval_seconds"@),
        ConfigErrorKind::IndexIntervalNotInteger,
        ConfigErrorKind::IndexIntervalZero,
    )
}

/// Reads `index.persistence.interval_seconds` from one document.
pub fn extract_index_persist_interval_seconds(
    config_root: Option<&JsonValue>,
    config_path: &str,
) -> (r: Result<Option<u64>, ConfigError>)
    ensures
        outcome_matches(
            r,
            spec_index_persist_interval_seconds(deref_opt(config_root)),
            config_path@,
        ),
{
    let v = get_in(get_in(get_in(config_root, "index"), "persistence"), "interval_seconds");
    positive_integer(
        v,
        ConfigErrorKind::IndexIntervalNotInteger,
        ConfigErrorKind::IndexIntervalZero,
        config_path,
    )
}

/// `index.persistence.location`.
pub open spec fn spec_index_persistence_location(root: Option<JsonValue>) -> Result<
    Option<IndexPersistenceLocation>,
    ConfigErrorKind,
> {
    match text_of(at(at(at(root, "index"@), "persistence"@), "location"@)) {
        None => Ok(None),
        Some(v) => if same_ignoring_case(v, "workspace"@) {
            Ok(Some(IndexPersistenceLocation::Workspace))
        } else if same_ignoring_case(v, "user"@) {
            Ok(Some(IndexPersistenceLocation::UserData))
        } else {
            Err(ConfigErrorKind::IndexLocationInvalid)
        },
    }
}

/// Reads `index.persistence.location` from one document.
pub fn extract_index_persistence_location(
    config_root: Option<&JsonValue>,
    config_path: &str,
) -> (r: Result<Option<IndexPersistenceLocation>, ConfigError>)
    ensures
        outcome_matches(r, spec_index_persistence_location(deref_opt(config_root)), config_path@),
{
    let v = get_in(get_in(get_in(config_root, "index"), "persistence"), "location");
    match text_in(v) {
        None => Ok(None),
        Some(text) => {
            if eq_ignore_ascii_case(text.as_str(), "workspace") {
                Ok(Some(IndexPersistenceLocation::Workspace))
            } else if eq_ignore_ascii_case(text.as_str(), "user") {
                Ok(Some(IndexPersistenceLocation::UserData))
            } else {
                Err(config_error(ConfigErrorKind::IndexLocationInvalid, config_path))
            }
        },
    }
}

/// A workspace-relative directory field.
pub open spec fn spec_relative_dir_field(v: Option<JsonValue>) -> Result<
    Option<Seq<char>>,
    ConfigErrorKind,
> {
    match text_of(v) {
        None => Ok(None),
        Some(t) => match relative_dir_outcome(t) {
            Ok(n) => Ok(Some(n)),
            Err(k) => Err(k),
        },
    }
}

fn relative_dir_field(v: Option<&JsonValue>, config_path: &str) -> (r: Result<
    Option<String>,
    ConfigError,
>)
    ensures
        text_outcome_matches(r, spec_relative_dir_field(deref_opt(v)), config_path@),
{
    match text_in(v) {
        None => Ok(None),
        Some(text) => {
            let n = normalize_workspace_relative_dir(text.as_str(), config_path)?;
            Ok(Some(n))
        },
    }
}

/// `workspace.storage.root`.
pub open spec fn spec_workspace_storage_root_dir(root: Option<JsonValue>) -> Result<
    Option<Seq<char>>,
    ConfigErrorKind,
> {
    spec_relative_dir_field(at(at(at(root, "workspace"@), "storage"@), "root"@))
}

/// Reads `workspace.storage.root` from one document.
pub fn extract_workspace_storage_root_dir(config_root: Option<&JsonValue>, config_path: &str) -> (r:
    Result<Option<String>, ConfigError>)
    ensures
        text_outcome_matches(
            r,
            spec_workspace_storage_root_dir(deref_opt(config_root)),
            config_path@,
        ),
{
    relative_dir_field(
        get_in(get_in(get_in(config_root, "workspace"), "storage"), "root"),
        config_path,
    )
}

/// `index.persistence.path`.
pub open spec fn spec_index_persistence_path(root: Option<JsonValue>) -> Result<
    Option<Seq<char>>,
    ConfigErrorKind,
> {
    spec_relative_dir_field(at(at(at(root, "index"@), "persistence"@), "path"@))
}

/// Reads `index.persistence.path` from one document.
pub fn extract_index_persistence_path(config_root: Option<&JsonValue>, config_path: &str) -> (r:
    Result<Option<String>, ConfigError>)
    ensures
        text_outcome_matches(r, spec_index_persistence_path(deref_opt(config_root)), config_path@),
{
    relative_dir_field(
        get_in(get_in(get_in(config_root, "index"), "persistence"), "path"),
        config_path,
    )
}

/// `memory.storage.user.path`.
pub open spec fn spec_memory_user_path(root: Option<JsonValue>) -> Result<
    Option<Seq<char>>,
    ConfigErrorKind,
> {
    spec_relative_dir_field(at(at(at(at(root, "memory"@), "storage"@), "user"@), "path"@))
}

/// Reads `memory.storage.user.path` from one document.
pub fn extract_memory_user_path(config_root: Option<&JsonValue>, config_path: &str) -> (r: Result<
    Option<String>,
    ConfigError,
>)
    ensures
        text_outcome_matches(r, spec_memory_user_path(deref_opt(config_root)), config_path@),
{
    relative_dir_field(
        get_in(get_in(get_in(get_in(config_root, "memory"), "storage"), "user"), "path"),
        config_path,
    )
}

/// `memory.storage.workspace.path`.
pub open spec fn spec_memory_workspace_path(root: Option<JsonValue>) -> Result<
    Option<Seq<char>>,
    ConfigErrorKind,
> {
    spec_relative_dir_field(at(at(at(at(root, "memory"@), "storage"@), "workspace"@), "path"@))
}

/// Reads `memory.storage.workspace.path` from one document.
pub fn extract_memory_workspace_path(config_root: Option<&JsonValue>, config_path: &str) -> (r:
    Result<Option<String>, ConfigError>)
    ensures
        text_outcome_matches(r, spec_memory_workspace_path(deref_opt(config_root)), config_path@),
{
    relative_dir_field(
        get_in(get_in(get_in(get_in(config_root, "memory"), "storage"), "workspace"), "path"),
        config_path,
    )
}

/// `index.enabled`; non-boolean values are ignored.
pub open spec fn spec_index_enabled(root: Option<JsonValue>) -> Option<bool> {
    bool_of(at(at(root, "index"@), "enabled"@))
}

/// `redaction.enabled`; non-boolean values are ignored.
pub open spec fn spec_redaction_enabled(root: Option<JsonValue>) -> Option<bool> {
    bool_of(at(at(root, "redaction"@), "enabled"@))
}

/// `redaction.preserve_length`; non-boolean values are ignored.
pub open spec fn spec_redaction_preserve_length(root: Option<JsonValue>) -> Option<bool> {
    bool_of(at(at(root, "redaction"@), "preserve_length"@))
}

/// `memory.storage.user.enabled`; non-boolean values are ignored.
pub open spec fn spec_memory_user_enabled(root: Option<JsonValue>) -> Option<bool> {
    bool_of(at(at(at(at(root, "memory"@), "storage"@), "user"@), "enabled"@))
}

/// `memory.storage.workspace.enabled`; non-boolean values are ignored.
pub open spec fn spec_memory_workspace_enabled(root: Option<JsonValue>) -> Option<bool> {
    bool_of(at(at(at(at(root, "memory"@), "storage"@), "workspace"@), "enabled"@))
}

/// Reads `index.enabled` from one document.
pub fn extract_index_enabled(config_root: Option<&JsonValue>) -> (r: Option<bool>)
    ensures
        r == spec_index_enabled(deref_opt(config_root)),
{
    bool_in(get_in(get_in(config_root, "index"), "enabled"))
}

/// Reads `redaction.enabled` from one document.
pub fn extract_redaction_enabled(config_root: Option<&JsonValue>) -> (r: Option<bool>)
    ensures
        r == spec_redaction_enabled(deref_opt(config_root)),
{
    bool_in(get_in(get_in(config_root, "redaction"), "enabled"))
}

/// Reads `redaction.preserve_length` from one document.
pub fn extract_redaction_preserve_length(config_root: Option<&JsonValue>) -> (r: Option<bool>)
    ensures
        r == spec_redaction_preserve_length(deref_opt(config_root)),
{
    bool_in(get_in(get_in(config_root, "redaction"), "preserve_length"))
}

/// Reads `memory.storage.user.enabled` from one document.
pub fn extract_memory_user_enabled(config_root: Option<&JsonValue>) -> (r: Option<bool>)
    ensures
        r == spec_memory_user_enabled(deref_opt(config_root)),
{
    bool_in(get_in(get_in(get_in(get_in(config_root, "memory"), "storage"), "user"), "enabled"))
}

/// Reads `memory.storage.workspace.enabled` from one document.
pub fn extract_memory_workspace_enabled(config_root: Option<&JsonValue>) -> (r: Option<bool>)
    ensures
        r == spec_memory_workspace_enabled(deref_opt(config_root)),
{
    bool_in(
        get_in(get_in(get_in(get_in(config_root, "memory"), "storage"), "workspace"), "enabled"),
    )
}

/// `redaction.replacement_token`: absent, a string, or refused.
pub open spec fn spec_redaction_replacement_token(root: Option<JsonValue>) -> Result<
    Option<Seq<char>>,
    ConfigErrorKind,
> {
    match at(at(root, "redaction"@), "replacement_token"@) {
        None => Ok(None),
        Some(v) => match v {
            JsonValue::String(s) => Ok(Some(s@)),
            _ => Err(ConfigErrorKind::RedactionTokenNotString),
        },
    }
}

/// Reads `redaction.replacement_token` from one document.
pub fn extract_redaction_replacement_token(
    config_root: Option<&JsonValue>,
    config_path: &str,
) -> (r: Result<Option<String>, ConfigError>)
    ensures
        text_outcome_matches(
            r,
            spec_redaction_replacement_token(deref_opt(config_root)),
            config_path@,
        ),
{
    match get_in(get_in(config_root, "redaction"), "replacement_token") {
        None => Ok(None),
        Some(v) => match v.as_str() {
            Some(s) => Ok(Some(s.clone())),
            None => Err(config_error(ConfigErrorKind::RedactionTokenNotString, config_path)),
        },
    }
}

// ---------------------------------------------------------------------------
// Tool gating
// ---------------------------------------------------------------------------

/// Whether every item is a JSON string.
pub open spec fn all_strings(items: Seq<JsonValue>) -> bool {
    forall|i: int| 0 <= i < items.len() ==> #[trigger] items[i] is String
}

/// The string contents of items that are all strings.
pub open spec fn texts_of(items: Seq<JsonValue>) -> Seq<Seq<char>> {
    items.map_values(|v: JsonValue| text_of(Some(v))->0)
}

/// `tools.disabled` of one document.
pub open spec fn spec_disabled_tools(root: Option<JsonValue>) -> Result<
    Seq<Seq<char>>,
    ConfigErrorKind,
> {
    match at(root, "tools"@) {
        None => Ok(Seq::empty()),
        Some(tools) => if !(tools is Object) {
            Err(ConfigErrorKind::ToolsNotObject)
        } else {
            match tools.spec_get("disabled"@) {
                None => Ok(Seq::empty()),
                Some(JsonValue::Array(items)) => if all_strings(items@) {
                    Ok(texts_of(items@))
                } else {
                    Err(ConfigErrorKind::ToolsDisabledNotStrings)
                },
                Some(_) => Err(ConfigErrorKind::ToolsDisabledNotArray),
            }
        },
    }
}

fn strings_of(items: &Vec<JsonValue>, config_path: &str, kind: ConfigErrorKind) -> (r: Result<
    Vec<String>,
    ConfigError,
>)
    ensures
        all_strings(items@) ==> r is Ok && string_views(r->Ok_0@) == texts_of(items@),
        !all_strings(items@) ==> r is Err && r->Err_0.kind == kind && r->Err_0.path@
            == config_path@,
{
    let mut out: Vec<String> = Vec::new();
    let mut i: usize = 0;
    while i < items.len()
        invariant
            i <= items.len(),
            out@.len() == i,
            forall|j: int| 0 <= j < i ==> #[trigger] items@[j] is String,
            forall|j: int| 0 <= j < i ==> #[trigger] out@[j]@ == text_of(Some(items@[j]))->0,
        decreases items.len() - i,
    {
        match &items[i] {
            JsonValue::String(s) => out.push(s.clone()),
            _ => {
                return Err(config_error(kind, config_path));
            },
        }
        i = i + 1;
    }
    assert(string_views(out@) =~= texts_of(items@));
    Ok(out)
}

/// Reads `tools.disabled` from one document.
pub fn extract_disabled_tools(config_root: Option<&JsonValue>, config_path: &str) -> (r: Result<
    Vec<String>,
    ConfigError,
>)
    ensures
        match spec_disabled_tools(deref_opt(config_root)) {
            Ok(names) => r is Ok && string_views(r->Ok_0@) == names,
            Err(k) => r is Err && r->Err_0.kind == k && r->Err_0.path@ == config_path@,
        },
{
    let tools = match get_in(config_root, "tools") {
        None => {
            return Ok(Vec::new());
        },
        Some(t) => t,
    };
    if !tools.is_object() {
        return Err(config_error(ConfigErrorKind::ToolsNotObject, config_path));
    }
    match tools.get("disabled") {
        None => Ok(Vec::new()),
        Some(JsonValue::Array(items)) => strings_of(
            items,
            config_path,
            ConfigErrorKind::ToolsDisabledNotStrings,
        ),
        Some(_) => Err(config_error(ConfigErrorKind::ToolsDisabledNotArray, config_path)),
    }
}

/// Tools that mutate the workspace or host; disabled by default.
pub open spec fn default_disabled_tools() -> Seq<Seq<char>> {
    seq![
        "dir_create"@, "dir_delete"@, "env_set"@, "env_unset"@, "file_append"@,
        "file_append_bytes"@, "file_create"@, "file_create_bytes"@, "file_delete"@,
        "file_patch"@, "memory_delete"@, "memory_put"@, "multi_file_patch"@, "path_copy"@,
        "path_delete"@, "path_move"@, "plan_add"@, "plan_delete"@, "plan_edit"@,
        "plan_update"@, "task_run"@
    ]
}

fn default_disabled_tool_names() -> (v: Vec<String>)
    ensures
        string_views(v@) == default_disabled_tools(),
{
    let mut v: Vec<String> = Vec::new();
    v.push("dir_create".to_string());
    v.push("dir_delete".to_string());
    v.push("env_set".to_string());
    v.push("env_unset".to_string());
    v.push("file_append".to_string());
    v.push("file_append_bytes".to_string());
    v.push("file_create".to_string());
    v.push("file_create_bytes".to_string());
    v.push("file_delete".to_string());
    v.push("file_patch".to_string());
    v.push("memory_delete".to_string());
    v.push("memory_put".to_string());
    v.push("multi_file_patch".to_string());
    v.push("path_copy".to_string());
    v.push("path_delete".to_string());
    v.push("path_move".to_string());
    v.push("plan_add".to_string());
    v.push("plan_delete".to_string());
    v.push("plan_edit".to_string());
    v.push("plan_update".to_string());
    v.push("task_run".to_string());
    assert(string_views(v@) =~= default_disabled_tools());
    v
}

fn add_all_sorted_unique(acc: &mut Vec<String>, names: Vec<String>)
    requires
        strictly_sorted(string_views(old(acc)@)),
    ensures
        strictly_sorted(string_views(final(acc)@)),
        string_views(final(acc)@).to_set() == string_views(old(acc)@).to_set() + string_views(
            names@,
        ).to_set(),
{
    let ghost start = string_views(acc@).to_set();
    let mut names = names;
    let ghost all = string_views(names@);
    let mut k: usize = 0;
    let n = names.len();
    while k < n
        invariant
            n == names.len(),
            k <= n,
            string_views(names@) == all,
            strictly_sorted(string_views(acc@)),
            string_views(acc@).to_set() == start + all.subrange(0, k as int).to_set(),
        decreases n - k,
    {
        let name = names[k].clone();
        insert_sorted_unique(acc, name);
        proof {
            assert(all.subrange(0, k + 1) =~= all.subrange(0, k as int).push(all[k as int]));
            all.subrange(0, k as int).lemma_push_to_set_commute(all[k as int]);
            assert(start + all.subrange(0, k + 1).to_set() =~= (start + all.subrange(
                0,
                k as int,
            ).to_set()).insert(all[k as int]));
        }
        k = k + 1;
    }
    assert(all.subrange(0, n as int) =~= all);
}

/// The effective disabled tools: defaults, then user, then workspace entries, sorted and
/// deduplicated.
pub open spec fn disabled_tools_outcome(
    user_root: Option<JsonValue>,
    workspace_root: Option<JsonValue>,
) -> Result<Set<Seq<char>>, (ConfigErrorKind, bool)> {
    match spec_disabled_tools(user_root) {
        Err(k) => Err((k, false)),
        Ok(u) => match spec_disabled_tools(workspace_root) {
            Err(k) => Err((k, true)),
            Ok(w) => Ok(default_disabled_tools().to_set() + u.to_set() + w.to_set()),
        },
    }
}

/// Merges the disabled-tool lists of both documents with the defaults.
pub fn load_effective_disabled_tools(
    user_root: Option<&JsonValue>,
    workspace_root: Option<&JsonValue>,
    user_path: &str,
    workspace_path: &str,
) -> (r: Result<Vec<String>, ConfigError>)
    ensures
        match disabled_tools_outcome(deref_opt(user_root), deref_opt(workspace_root)) {
            Ok(names) => r is Ok && strictly_sorted(string_views(r->Ok_0@)) && string_views(
                r->Ok_0@,
            ).to_set() == names,
            Err((k, in_workspace)) => r is Err && r->Err_0.kind == k && r->Err_0.path@ == (
            if in_workspace {
                workspace_path@
            } else {
                user_path@
            }),
        },
{
    let user = extract_disabled_tools(user_root, user_path)?;
    let workspace = extract_disabled_tools(workspace_root, workspace_path)?;
    let mut names: Vec<String> = Vec::new();
    assert(string_views(names@).to_set() =~= Set::empty());
    add_all_sorted_unique(&mut names, default_disabled_tool_names());
    add_all_sorted_unique(&mut names, user);
    add_all_sorted_unique(&mut names, workspace);
    assert(Set::<Seq<char>>::empty() + default_disabled_tools().to_set() =~= default_disabled_tools().to_set());
    Ok(names)
}

// ---------------------------------------------------------------------------
// Redaction rules
// ---------------------------------------------------------------------------

/// The normalized `kind` of a rule object: trimmed and lower-cased.
pub open spec fn rule_kind(obj: JsonValue) -> Option<Seq<char>> {
    match obj.spec_get("kind"@) {
        Some(JsonValue::String(k)) => Some(lowercase_of(trim_spec(k@))),
        _ => None,
    }
}

/// The rule one object of `redaction.rules` describes.
pub open spec fn spec_rule(obj: JsonValue) -> Result<RuleModel, ConfigErrorKind> {
    let kind = rule_kind(obj);
    let has_keys = obj.spec_get("keys"@) is Some;
    let has_pattern = obj.spec_get("pattern"@) is Some;
    if !(obj is Object) {
        Err(ConfigErrorKind::RedactionRulesNotObjects)
    } else if (kind == Some("structured_key"@) || kind == Some("structured_keys"@) || kind is None)
        && has_keys {
        match obj.spec_get("keys"@) {
            Some(JsonValue::Array(items)) => if all_strings(items@) {
                Ok(RuleModel::StructuredKeys(texts_of(items@)))
            } else {
                Err(ConfigErrorKind::RedactionRuleKeysNotStrings)
            },
            _ => Err(ConfigErrorKind::RedactionRuleKeysNotArray),
        }
    } else if (kind == Some("regex"@) || kind is None) && has_pattern {
        match obj.spec_get("pattern"@) {
            Some(JsonValue::String(p)) => Ok(
                RuleModel::Regex(
                    p@,
                    match bool_of(obj.spec_get("case_sensitive"@)) {
                        Some(b) => b,
                        None => false,
                    },
                ),
            ),
            _ => Err(ConfigErrorKind::RedactionRulePatternNotString),
        }
    } else if kind == Some("builtin_email"@) || kind == Some("email"@) {
        Ok(RuleModel::BuiltinEmail)
    } else if kind == Some("builtin_bearer"@) || kind == Some("builtin_bearer_token"@) || kind
        == Some("bearer"@) {
        Ok(RuleModel::BuiltinBearerToken)
    } else if kind is Some {
        Err(ConfigErrorKind::RedactionRuleKindUnsupported)
    } else {
        Err(ConfigErrorKind::RedactionRuleIncomplete)
    }
}

/// Index of the first refused rule object, if any.
pub open spec fn first_bad_rule(items: Seq<JsonValue>) -> Option<int> {
    if exists|i: int| 0 <= i < items.len() && spec_rule(#[trigger] items[i]) is Err {
        Some(choose|i: int| 0 <= i < items.len() && spec_rule(#[trigger] items[i]) is Err && forall|
            j: int,
        | 0 <= j < i ==> spec_rule(#[trigger] items[j]) is Ok)
    } else {
        None
    }
}

/// `redaction.rules` of one document.
pub open spec fn spec_redaction_rules(root: Option<JsonValue>) -> Result<
    Option<Seq<RuleModel>>,
    ConfigErrorKind,
> {
    match at(at(root, "redaction"@), "rules"@) {
        None => Ok(None),
        Some(JsonValue::Array(items)) => {
            let items = items@;
            if forall|i: int| 0 <= i < items.len() ==> spec_rule(#[trigger] items[i]) is Ok {
                Ok(Some(items.map_values(|v: JsonValue| spec_rule(v)->Ok_0)))
            } else {
                Err(
                    spec_rule(
                        items[choose|i: int|
                            0 <= i < items.len() && spec_rule(#[trigger] items[i]) is Err && forall|
                                j: int,
                            | 0 <= j < i ==> spec_rule(#[trigger] items[j]) is Ok],
                    )->Err_0,
                )
            }
        },
        Some(_) => Err(ConfigErrorKind::RedactionRulesNotArray),
    }
}

fn kind_is(kind: &Option<String>, literal: &str) -> (r: bool)
    ensures
        r == (opt_text(*kind) == Some(literal@)),
{
    match kind {
        Some(k) => str_eq(k.as_str(), literal),
        None => false,
    }
}

fn parse_rule(obj: &JsonValue, config_path: &str) -> (r: Result<RedactionRule, ConfigError>)
    ensures
        match spec_rule(*obj) {
            Ok(m) => r is Ok && r->Ok_0@ == m,
            Err(k) => r is Err && r->Err_0.kind == k && r->Err_0.path@ == config_path@ && (k
                == ConfigErrorKind::RedactionRuleKindUnsupported ==> opt_text(r->Err_0.detail)
                == rule_kind(*obj)),
        },
{
    if !obj.is_object() {
        return Err(config_error(ConfigErrorKind::RedactionRulesNotObjects, config_path));
    }
    let kind: Option<String> = match obj.get("kind") {
        Some(JsonValue::String(k)) => Some(to_lowercase(trim_str(k.as_str()).as_str())),
        _ => None,
    };
    let has_keys = obj.get("keys").is_some();
    let has_pattern = obj.get("pattern").is_some();
    if (kind_is(&kind, "structured_key") || kind_is(&kind, "structured_keys") || kind.is_none())
        && has_keys {
        match obj.get("keys") {
            Some(JsonValue::Array(items)) => {
                let keys = strings_of(
                    items,
                    config_path,
                    ConfigErrorKind::RedactionRuleKeysNotStrings,
                )?;
                let rule = RedactionRule::StructuredKeys { keys };
                proof {
                    assert(rule@ == RuleModel::StructuredKeys(texts_of(items@)));
                }
                Ok(rule)
            },
            _ => Err(config_error(ConfigErrorKind::RedactionRuleKeysNotArray, config_path)),
        }
    } else if (kind_is(&kind, "regex") || kind.is_none()) && has_pattern {
        match obj.get("pattern") {
            Some(JsonValue::String(p)) => {
                let case_sensitive = match obj.get("case_sensitive") {
                    Some(JsonValue::Bool(b)) => *b,
                    _ => false,
                };
                Ok(RedactionRule::Regex { pattern: p.clone(), case_sensitive })
            },
            _ => Err(config_error(ConfigErrorKind::RedactionRulePatternNotString, config_path)),
        }
    } else if kind_is(&kind, "builtin_email") || kind_is(&kind, "email") {
        Ok(RedactionRule::BuiltinEmail)
    } else if kind_is(&kind, "builtin_bearer") || kind_is(&kind, "builtin_bearer_token")
        || kind_is(&kind, "bearer") {
        Ok(RedactionRule::BuiltinBearerToken)
    } else if kind.is_some() {
        Err(
            ConfigError {
                kind: ConfigErrorKind::RedactionRuleKindUnsupported,
                path: config_path.to_string(),
                detail: kind,
            },
        )
    } else {
        Err(config_error(ConfigErrorKind::RedactionRuleIncomplete, config_path))
    }
}

/// Reads `redaction.rules` from one document.
pub fn extract_redaction_rules(config_root: Option<&JsonValue>, config_path: &str) -> (r: Result<
    Option<Vec<RedactionRule>>,
    ConfigError,
>)
    ensures
        match spec_redaction_rules(deref_opt(config_root)) {
            Ok(None) => r is Ok && r->Ok_0 is None,
            Ok(Some(rules)) => r is Ok && r->Ok_0 is Some && r->Ok_0->0@.map_values(
                |x: RedactionRule| x@,
            ) == rules,
            Err(k) => r is Err && r->Err_0.kind == k && r->Err_0.path@ == config_path@,
        },
{
    let value = match get_in(get_in(config_root, "redaction"), "rules") {
        None => {
            return Ok(None);
        },
        Some(v) => v,
    };
    let items = match value.as_array() {
        Some(items) => items,
        None => {
            return Err(config_error(ConfigErrorKind::RedactionRulesNotArray, config_path));
        },
    };
    let ghost root = deref_opt(config_root);
    assert(at(at(root, "redaction"@), "rules"@) == Some(JsonValue::Array(*items)));
    let mut parsed: Vec<RedactionRule> = Vec::new();
    let mut i: usize = 0;
    while i < items.len()
        invariant
            root == deref_opt(config_root),
            at(at(root, "redaction"@), "rules"@) == Some(JsonValue::Array(*items)),
            i <= items.len(),
            parsed@.len() == i,
            forall|j: int| 0 <= j < i ==> spec_rule(#[trigger] items@[j]) is Ok,
            forall|j: int| 0 <= j < i ==> #[trigger] parsed@[j]@ == spec_rule(items@[j])->Ok_0,
        decreases items.len() - i,
    {
        let rule = match parse_rule(&items[i], config_path) {
            Ok(rule) => rule,
            Err(e) => {
                proof {
                    let ii = i as int;
                    let c = choose|c: int|
                        0 <= c < items@.len() && spec_rule(#[trigger] items@[c]) is Err && forall|
                            j: int,
                        | 0 <= j < c ==> spec_rule(#[trigger] items@[j]) is Ok;
                    assert(0 <= ii < items@.len() && spec_rule(items@[ii]) is Err && forall|j: int|
                        0 <= j < ii ==> spec_rule(#[trigger] items@[j]) is Ok);
                    if c < ii {
                        assert(spec_rule(items@[c]) is Ok);
                    } else if c > ii {
                        assert(spec_rule(items@[ii]) is Ok);
                    }
                }
                return Err(e);
            },
        };
        parsed.push(rule);
        i = i + 1;
    }
    assert(parsed@.map_values(|x: RedactionRule| x@) =~= items@.map_values(
        |v: JsonValue| spec_rule(v)->Ok_0,
    ));
    Ok(Some(parsed))
}

} // verus!
pub mod loading;
pub mod resolve;
