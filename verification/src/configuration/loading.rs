//! The effective configuration: defaults, the field-by-field merge of the user and
//! workspace documents, and the storage paths derived from the result.
//!
//! Files are read, directories created and the operating system queried by the caller,
//! which hands the parsed documents and host directories in as values.

use vstd::prelude::*;

use sha2::Digest;

use crate::configuration::{
    bool_of, at, deref_opt, opt_text, same_ignoring_case, resolved, resolved_path, ConfigError, ConfigErrorKind,
    IndexPersistenceLocation, RuntimeLogLocation, StorageUserLocation, StorageWorkspaceLocation,
    HostPaths, WORKSPACE_STORAGE_DIR, disabled_tools_outcome, load_effective_disabled_tools,
    extract_workspace_storage_root_dir, spec_workspace_storage_root_dir,
    extract_storage_user_location, spec_storage_user_location, extract_storage_workspace_location,
    spec_storage_workspace_location, spec_runtime_log_location, spec_runtime_log_path,
    spec_runtime_log_retention_days, spec_index_enabled, spec_index_persistence_location,
    spec_index_persistence_path, spec_index_persist_interval_seconds, spec_redaction_enabled,
    spec_redaction_replacement_token, spec_redaction_preserve_length, spec_redaction_rules,
    spec_memory_user_enabled, spec_memory_workspace_enabled, spec_memory_user_path,
    spec_memory_workspace_path,
};
use crate::configuration::resolve::{
    flag_resolution, resolve_storage_user_location, resolve_storage_workspace_location,
    resolve_runtime_log_location, resolve_runtime_log_path, resolve_runtime_log_retention_days,
    resolve_index_enabled, resolve_index_persistence_location, resolve_index_persistence_path,
    resolve_index_persist_interval_seconds, resolve_redaction_enabled,
    resolve_redaction_replacement_token, resolve_redaction_preserve_length,
    resolve_redaction_rules, resolve_memory_user_enabled, resolve_memory_workspace_enabled,
    resolve_memory_user_path, resolve_memory_workspace_path,
};
use crate::redaction::{
    default_redaction_rules, default_rule_models, RedactionRule, DEFAULT_REPLACEMENT_TOKEN,
};
use crate::json::JsonValue;
use crate::paths::{join_path, spec_join};
use crate::text::{
    chars_of, eq_ignore_ascii_case, str_eq, parse_u64, parse_u64_spec, replace_char, replace_char_spec,
    string_of, strictly_sorted, string_views, trim_spec, trim_str,
};

verus! {

broadcast use vstd::string::group_string_axioms;

// ---------------------------------------------------------------------------
// Defaults
// ---------------------------------------------------------------------------

/// Days of rotated runtime log archives kept when nothing else is configured.
pub const DEFAULT_RUNTIME_LOG_RETENTION_DAYS: u64 = 7;

/// Seconds between persisted index commits when nothing else is configured.
pub const DEFAULT_INDEX_PERSIST_INTERVAL_SECONDS: u64 = 5;

/// Per-path debounce window of the file watcher when nothing else is configured.
pub const DEFAULT_INDEX_WATCH_DEBOUNCE_MILLIS: u64 = 250;

/// Storage defaults that apply before the documents are consulted.
pub struct ConfigDefaults {
    pub workspace_storage_root_dir: String,
    pub storage_user_location: StorageUserLocation,
    pub storage_workspace_location: StorageWorkspaceLocation,
}

impl ConfigDefaults {
    /// `.alfred` in the workspace, user data under the OS, workspace data in the workspace.
    pub fn standard() -> (d: Self)
        ensures
            d.workspace_storage_root_dir@ == WORKSPACE_STORAGE_DIR@,
            d.storage_user_location == StorageUserLocation::Os,
            d.storage_workspace_location == StorageWorkspaceLocation::Workspace,
    {
        ConfigDefaults {
            workspace_storage_root_dir: WORKSPACE_STORAGE_DIR.to_string(),
            storage_user_location: StorageUserLocation::Os,
            storage_workspace_location: StorageWorkspaceLocation::Workspace,
        }
    }
}

/// Raw values of the environment variables that tune defaults
/// (`ALFRED_RUNTIME_LOG_RETENTION_DAYS`, `ALFRED_INDEX_PERSISTENCE_LOCATION`,
/// `ALFRED_INDEX_PERSIST_INTERVAL_SECONDS`, `ALFRED_INDEX_WATCH_DEBOUNCE_MILLIS`); `None`
/// where a variable is unset or not Unicode.
pub struct EnvDefaults {
    pub runtime_log_retention_days: Option<String>,
    pub index_persistence_location: Option<String>,
    pub index_persist_interval_seconds: Option<String>,
    pub index_watch_debounce_millis: Option<String>,
}

/// A number read from an environment value: trimmed, then parsed as `u64`.
pub open spec fn env_number(raw: Option<String>) -> Option<u64> {
    match raw {
        Some(s) => parse_u64_spec(trim_spec(s@)),
        None => None,
    }
}

fn env_number_exec(raw: &Option<String>) -> (r: Option<u64>)
    ensures
        r == env_number(*raw),
{
    match raw {
        Some(s) => {
            let t = trim_str(s.as_str());
            parse_u64(t.as_str())
        },
        None => None,
    }
}

/// The retention-days default: the environment value when it parses, else 7.
pub open spec fn spec_default_retention_days(env: EnvDefaults) -> u64 {
    match env_number(env.runtime_log_retention_days) {
        Some(n) => n,
        None => DEFAULT_RUNTIME_LOG_RETENTION_DAYS,
    }
}

/// The default number of days to keep rotated runtime log archives.
pub fn default_runtime_log_retention_days(env: &EnvDefaults) -> (r: u64)
    ensures
        r == spec_default_retention_days(*env),
{
    match env_number_exec(&env.runtime_log_retention_days) {
        Some(n) => n,
        None => DEFAULT_RUNTIME_LOG_RETENTION_DAYS,
    }
}

/// The index-location default: user data when the environment says `user` (any case).
pub open spec fn spec_default_index_location(env: EnvDefaults) -> IndexPersistenceLocation {
    match env.index_persistence_location {
        Some(s) => if same_ignoring_case(s@, "user"@) {
            IndexPersistenceLocation::UserData
        } else {
            IndexPersistenceLocation::Workspace
        },
        None => IndexPersistenceLocation::Workspace,
    }
}

/// The default location of persisted indexes.
pub fn default_index_persistence_location(env: &EnvDefaults) -> (r: IndexPersistenceLocation)
    ensures
        r == spec_default_index_location(*env),
{
    match &env.index_persistence_location {
        Some(s) => if eq_ignore_ascii_case(s.as_str(), "user") {
            IndexPersistenceLocation::UserData
        } else {
            IndexPersistenceLocation::Workspace
        },
        None => IndexPersistenceLocation::Workspace,
    }
}

/// A positive environment number, else `fallback`.
pub open spec fn positive_or(raw: Option<String>, fallback: u64) -> u64 {
    match env_number(raw) {
        Some(n) => if n > 0 {
            n
        } else {
            fallback
        },
        None => fallback,
    }
}

/// The default interval between persisted index commits.
pub fn default_index_persist_interval_seconds(env: &EnvDefaults) -> (r: u64)
    ensures
        r == positive_or(env.index_persist_interval_seconds, DEFAULT_INDEX_PERSIST_INTERVAL_SECONDS),
{
    match env_number_exec(&env.index_persist_interval_seconds) {
        Some(n) if n > 0 => n,
        _ => DEFAULT_INDEX_PERSIST_INTERVAL_SECONDS,
    }
}

/// The default per-path debounce window of the file watcher.
pub fn default_index_watch_debounce_millis(env: &EnvDefaults) -> (r: u64)
    ensures
        r == positive_or(env.index_watch_debounce_millis, DEFAULT_INDEX_WATCH_DEBOUNCE_MILLIS),
{
    match env_number_exec(&env.index_watch_debounce_millis) {
        Some(n) if n > 0 => n,
        _ => DEFAULT_INDEX_WATCH_DEBOUNCE_MILLIS,
    }
}

// ---------------------------------------------------------------------------
// Paths
// ---------------------------------------------------------------------------

/// `base` joined with two relative components.
pub open spec fn join2(base: Seq<char>, a: Seq<char>, b: Seq<char>) -> Seq<char> {
    spec_join(spec_join(base, a), b)
}

/// `base` joined with three relative components.
pub open spec fn join3(base: Seq<char>, a: Seq<char>, b: Seq<char>, c: Seq<char>) -> Seq<char> {
    spec_join(join2(base, a, b), c)
}

/// `s` without trailing `/`, but keeping a lone root `/`.
pub open spec fn trim_trailing_slashes(s: Seq<char>) -> Seq<char>
    decreases s.len(),
{
    if s.len() > 1 && s.last() == '/' {
        trim_trailing_slashes(s.drop_last())
    } else {
        s
    }
}

/// The index of the last `/` in `s`, or -1.
pub open spec fn last_slash(s: Seq<char>) -> int
    decreases s.len(),
{
    if s.len() == 0 {
        -1
    } else if s.last() == '/' {
        s.len() - 1
    } else {
        last_slash(s.drop_last())
    }
}

/// The parent directory of a `/`-separated path (`Path::parent` on Unix): the path
/// without its last component and the separators before it; `None` for the empty path and
/// for the root. Segments are taken as written.
pub open spec fn spec_parent(p: Seq<char>) -> Option<Seq<char>> {
    let t = trim_trailing_slashes(p);
    if t.len() == 0 || t =~= seq!['/'] {
        None
    } else if last_slash(t) < 0 {
        Some(Seq::empty())
    } else {
        Some(trim_trailing_slashes(t.take(last_slash(t) + 1)))
    }
}

proof fn lemma_trim_trailing_slashes_prefix(s: Seq<char>)
    ensures
        trim_trailing_slashes(s).len() <= s.len(),
        trim_trailing_slashes(s) =~= s.take(trim_trailing_slashes(s).len() as int),
    decreases s.len(),
{
    if s.len() > 1 && s.last() == '/' {
        lemma_trim_trailing_slashes_prefix(s.drop_last());
        assert(s.drop_last().take(trim_trailing_slashes(s).len() as int) =~= s.take(
            trim_trailing_slashes(s).len() as int,
        ));
    }
}

fn trimmed_len(v: &Vec<char>, end: usize) -> (k: usize)
    requires
        end <= v.len(),
    ensures
        k <= end,
        v@.take(k as int) == trim_trailing_slashes(v@.take(end as int)),
{
    let mut k = end;
    while k > 1 && v[k - 1] == '/'
        invariant
            k <= end <= v.len(),
            trim_trailing_slashes(v@.take(k as int)) == trim_trailing_slashes(v@.take(end as int)),
        decreases k,
    {
        assert(v@.take(k as int).drop_last() =~= v@.take(k - 1));
        k = k - 1;
    }
    k
}

fn last_slash_exec(v: &Vec<char>, end: usize) -> (k: Option<usize>)
    requires
        end <= v.len(),
    ensures
        match k {
            Some(i) => i < end && last_slash(v@.take(end as int)) == i,
            None => last_slash(v@.take(end as int)) == -1,
        },
{
    let mut k = end;
    while k > 0
        invariant
            k <= end <= v.len(),
            last_slash(v@.take(end as int)) == last_slash(v@.take(k as int)),
        decreases k,
    {
        assert(v@.take(k as int).drop_last() =~= v@.take(k - 1));
        if v[k - 1] == '/' {
            return Some(k - 1);
        }
        k = k - 1;
    }
    None
}

/// The parent directory of a `/`-separated path.
pub fn parent_path(p: &str) -> (r: Option<String>)
    ensures
        opt_text(r) == spec_parent(p@),
{
    let v = chars_of(p);
    let t = trimmed_len(&v, v.len());
    assert(v@.take(v.len() as int) =~= p@);
    if t == 0 || (t == 1 && v[0] == '/') {
        proof {
            if t == 1 {
                assert(v@.take(1) =~= seq!['/']);
            }
        }
        return None;
    }
    proof {
        if v@.take(t as int) =~= seq!['/'] {
            assert(v@[0] == '/');
        }
    }
    match last_slash_exec(&v, t) {
        None => Some(String::new()),
        Some(i) => {
            let k = trimmed_len(&v, i + 1);
            assert(v@.take(t as int).take(i + 1) =~= v@.take(i + 1));
            let mut prefix: Vec<char> = Vec::new();
            let mut j: usize = 0;
            while j < k
                invariant
                    j <= k <= v.len(),
                    prefix@ =~= v@.take(j as int),
                decreases k - j,
            {
                prefix.push(v[j]);
                j = j + 1;
            }
            Some(string_of(prefix.as_slice()))
        },
    }
}

/// The ignore file beside the user configuration file.
pub open spec fn spec_user_ignore_path(user_config_path: Seq<char>) -> Seq<char> {
    match spec_parent(user_config_path) {
        Some(parent) => spec_join(parent, ".alfredignore"@),
        None => ".alfredignore"@,
    }
}

/// The `.alfredignore` path next to the user configuration file.
pub fn default_user_ignore_path(user_config_path: &str) -> (r: String)
    ensures
        r@ == spec_user_ignore_path(user_config_path@),
{
    match parent_path(user_config_path) {
        Some(parent) => join_path(parent.as_str(), ".alfredignore"),
        None => ".alfredignore".to_string(),
    }
}

/// The user configuration file under the OS config directory, or a workspace-local
/// fallback where the host has none.
pub open spec fn spec_os_user_config_path(
    workspace_root: Seq<char>,
    user_config_dir: Option<Seq<char>>,
) -> Seq<char> {
    match user_config_dir {
        Some(dir) => join2(dir, "alfred"@, "config.json"@),
        None => join2(workspace_root, WORKSPACE_STORAGE_DIR@, "config.user.json"@),
    }
}

/// The default user configuration path.
pub fn default_os_user_config_path(workspace_root: &str, user_config_dir: Option<&str>) -> (r:
    String)
    ensures
        r@ == spec_os_user_config_path(
            workspace_root@,
            match user_config_dir {
                Some(d) => Some(d@),
                None => None,
            },
        ),
{
    match user_config_dir {
        Some(dir) => {
            let a = join_path(dir, "alfred");
            join_path(a.as_str(), "config.json")
        },
        None => {
            let a = join_path(workspace_root, WORKSPACE_STORAGE_DIR);
            join_path(a.as_str(), "config.user.json")
        },
    }
}

/// The workspace configuration file when it is relocated to the OS config directory.
pub open spec fn spec_relocated_workspace_config_path(
    user_config_dir: Option<Seq<char>>,
    workspace_root: Seq<char>,
    workspace_id: Seq<char>,
) -> Seq<char> {
    match user_config_dir {
        Some(dir) => join3(dir, "alfred"@, workspace_id, "config.json"@),
        None => join2(workspace_root, WORKSPACE_STORAGE_DIR@, "config.workspace.user.json"@),
    }
}

/// The relocated workspace configuration path, keyed by the workspace id.
pub fn default_relocated_workspace_config_path(
    user_config_dir: Option<&str>,
    workspace_root: &str,
    workspace_id: &str,
) -> (r: String)
    ensures
        r@ == spec_relocated_workspace_config_path(
            match user_config_dir {
                Some(d) => Some(d@),
                None => None,
            },
            workspace_root@,
            workspace_id@,
        ),
{
    match user_config_dir {
        Some(dir) => {
            let a = join_path(dir, "alfred");
            let b = join_path(a.as_str(), workspace_id);
            join_path(b.as_str(), "config.json")
        },
        None => {
            let a = join_path(workspace_root, WORKSPACE_STORAGE_DIR);
            join_path(a.as_str(), "config.workspace.user.json")
        },
    }
}

/// The default workspace configuration path: `.alfred/config.json` in the workspace.
pub fn default_workspace_config_path(workspace_root: &str) -> (r: String)
    ensures
        r@ == join2(workspace_root@, WORKSPACE_STORAGE_DIR@, "config.json"@),
{
    let a = join_path(workspace_root, WORKSPACE_STORAGE_DIR);
    join_path(a.as_str(), "config.json")
}

/// The default runtime log file: `.alfred/logs/runtime.ndjson` in the workspace.
pub fn default_runtime_log_path(workspace_root: &str) -> (r: String)
    ensures
        r@ == join3(workspace_root@, WORKSPACE_STORAGE_DIR@, "logs"@, "runtime.ndjson"@),
{
    let a = join_path(workspace_root, WORKSPACE_STORAGE_DIR);
    let b = join_path(a.as_str(), "logs");
    join_path(b.as_str(), "runtime.ndjson")
}

/// The default per-workspace index root: `.alfred/index` in the workspace.
pub fn default_workspace_index_root(workspace_root: &str) -> (r: String)
    ensures
        r@ == join2(workspace_root@, WORKSPACE_STORAGE_DIR@, "index"@),
{
    let a = join_path(workspace_root, WORKSPACE_STORAGE_DIR);
    join_path(a.as_str(), "index")
}

/// The workspace-local index root: `.alfred/index` in the workspace.
pub fn default_workspace_local_index_root(workspace_root: &str) -> (r: String)
    ensures
        r@ == join2(workspace_root@, WORKSPACE_STORAGE_DIR@, "index"@),
{
    default_workspace_index_root(workspace_root)
}

/// Whether the workspace storage directory has to exist for the chosen locations.
pub open spec fn spec_needs_scaffold(
    user_location: StorageUserLocation,
    workspace_location: StorageWorkspaceLocation,
) -> bool {
    workspace_location == StorageWorkspaceLocation::Workspace || user_location
        == StorageUserLocation::Workspace
}

/// Whether the workspace storage directory (with its `.gitignore`) must be created.
pub fn needs_workspace_storage_scaffold(
    user_location: StorageUserLocation,
    workspace_location: StorageWorkspaceLocation,
) -> (r: bool)
    ensures
        r == spec_needs_scaffold(user_location, workspace_location),
{
    workspace_location == StorageWorkspaceLocation::Workspace || user_location
        == StorageUserLocation::Workspace
}

// ---------------------------------------------------------------------------
// Workspace identity
// ---------------------------------------------------------------------------

/// The SHA-256 digest of `data`.
pub uninterp spec fn sha256_of(data: Seq<u8>) -> Seq<u8>;

/// `sha2::Sha256::digest`: the result is the SHA-256 digest of the input, 32 bytes long.
#[verifier::external_body]
pub(crate) fn sha256_digest(data: &[u8]) -> (r: Vec<u8>)
    ensures
        r@ == sha256_of(data@),
        r@.len() == 32,
{
    sha2::Sha256::digest(data).to_vec()
}

/// A lower-case hexadecimal digit.
pub open spec fn hex_lower_digit(n: int) -> char {
    if n < 10 {
        ((n + 48) as u8) as char
    } else {
        ((n + 87) as u8) as char
    }
}

/// Bytes as lower-case hexadecimal, high nibble first.
pub open spec fn hex_lower(bytes: Seq<u8>) -> Seq<char>
    decreases bytes.len(),
{
    if bytes.len() == 0 {
        Seq::empty()
    } else {
        hex_lower(bytes.drop_last()) + seq![
            hex_lower_digit(bytes.last() as int / 16),
            hex_lower_digit(bytes.last() as int % 16),
        ]
    }
}

/// `hex::encode`: each byte as two lower-case hexadecimal digits, high nibble first.
#[verifier::external_body]
pub(crate) fn hex_encode(bytes: &[u8]) -> (r: String)
    ensures
        r@ == hex_lower(bytes@),
{
    hex::encode(bytes)
}

/// The stable identifier of a workspace: the hexadecimal SHA-256 digest of its root path
/// with `\` turned into `/`.
pub open spec fn spec_workspace_id(workspace_root: Seq<char>) -> Seq<char> {
    hex_lower(sha256_of(vstd::utf8::encode_utf8(replace_char_spec(workspace_root, '\\', '/'))))
}

/// The key under which a workspace's index and relocated data are stored.
pub fn workspace_index_key(workspace_root: &str) -> (r: String)
    ensures
        r@ == spec_workspace_id(workspace_root@),
{
    let v = chars_of(workspace_root);
    let normalized = string_of(replace_char(v.as_slice(), '\\', '/').as_slice());
    let digest = sha256_digest(normalized.as_str().as_bytes());
    hex_encode(digest.as_slice())
}

/// The stable identifier derived from the workspace root.
pub fn workspace_id(workspace_root: &str) -> (r: String)
    ensures
        r@ == spec_workspace_id(workspace_root@),
{
    workspace_index_key(workspace_root)
}

// ---------------------------------------------------------------------------
// Seeding: where the documents live
// ---------------------------------------------------------------------------

/// Where the user and workspace documents live, and the storage defaults that the OS
/// user document seeds.
pub struct ConfigSeed {
    pub defaults: ConfigDefaults,
    pub workspace_id: String,
    pub user_config_path: String,
    pub workspace_config_path: String,
}

/// An optional value, else a fallback.
pub open spec fn or_default<T>(x: Option<T>, d: T) -> T {
    match x {
        Some(v) => v,
        None => d,
    }
}

/// The first error of the seeding step, in the order the settings are read.
pub open spec fn seed_error(doc: Option<JsonValue>) -> Option<ConfigErrorKind> {
    if spec_workspace_storage_root_dir(doc) is Err {
        Some(spec_workspace_storage_root_dir(doc)->Err_0)
    } else if spec_storage_user_location(doc) is Err {
        Some(spec_storage_user_location(doc)->Err_0)
    } else if spec_storage_workspace_location(doc) is Err {
        Some(spec_storage_workspace_location(doc)->Err_0)
    } else {
        None
    }
}

/// The seed that the OS user document gives, once it is known to be valid.
pub open spec fn seed_matches(
    seed: ConfigSeed,
    workspace_root: Seq<char>,
    user_config_dir: Option<Seq<char>>,
    doc: Option<JsonValue>,
) -> bool {
    let root_dir = or_default(spec_workspace_storage_root_dir(doc)->Ok_0, WORKSPACE_STORAGE_DIR@);
    let user_location = or_default(spec_storage_user_location(doc)->Ok_0, StorageUserLocation::Os);
    let workspace_location = or_default(
        spec_storage_workspace_location(doc)->Ok_0,
        StorageWorkspaceLocation::Workspace,
    );
    let id = spec_workspace_id(workspace_root);
    &&& seed.defaults.workspace_storage_root_dir@ == root_dir
    &&& seed.defaults.storage_user_location == user_location
    &&& seed.defaults.storage_workspace_location == workspace_location
    &&& seed.workspace_id@ == id
    &&& seed.user_config_path@ == match user_location {
        StorageUserLocation::Os => spec_os_user_config_path(workspace_root, user_config_dir),
        StorageUserLocation::Workspace => join3(workspace_root, root_dir, "user"@, "config.json"@),
    }
    &&& seed.workspace_config_path@ == match workspace_location {
        StorageWorkspaceLocation::Workspace => join2(workspace_root, root_dir, "config.json"@),
        StorageWorkspaceLocation::User => spec_relocated_workspace_config_path(
            user_config_dir,
            workspace_root,
            id,
        ),
    }
}

/// Reads the storage settings of the OS user document (at
/// `default_os_user_config_path`) and derives where the user and workspace documents
/// live.
pub fn seed_config_locations(
    workspace_root: &str,
    user_config_dir: Option<&str>,
    os_user_root: Option<&JsonValue>,
) -> (r: Result<ConfigSeed, ConfigError>)
    ensures
        match seed_error(deref_opt(os_user_root)) {
            Some(k) => r is Err && r->Err_0.kind == k && r->Err_0.path@ == spec_os_user_config_path(
                workspace_root@,
                match user_config_dir {
                    Some(d) => Some(d@),
                    None => None,
                },
            ),
            None => r is Ok && seed_matches(
                r->Ok_0,
                workspace_root@,
                match user_config_dir {
                    Some(d) => Some(d@),
                    None => None,
                },
                deref_opt(os_user_root),
            ),
        },
{
    let os_path = default_os_user_config_path(workspace_root, user_config_dir);
    let root_dir = match extract_workspace_storage_root_dir(os_user_root, os_path.as_str()) {
        Err(e) => {
            return Err(e);
        },
        Ok(Some(d)) => d,
        Ok(None) => WORKSPACE_STORAGE_DIR.to_string(),
    };
    let user_location = match extract_storage_user_location(os_user_root, os_path.as_str()) {
        Err(e) => {
            return Err(e);
        },
        Ok(Some(l)) => l,
        Ok(None) => StorageUserLocation::Os,
    };
    let workspace_location = match extract_storage_workspace_location(
        os_user_root,
        os_path.as_str(),
    ) {
        Err(e) => {
            return Err(e);
        },
        Ok(Some(l)) => l,
        Ok(None) => StorageWorkspaceLocation::Workspace,
    };
    let id = workspace_id(workspace_root);
    let user_config_path = match user_location {
        StorageUserLocation::Os => os_path,
        StorageUserLocation::Workspace => {
            let a = join_path(workspace_root, root_dir.as_str());
            let b = join_path(a.as_str(), "user");
            join_path(b.as_str(), "config.json")
        },
    };
    let workspace_config_path = match workspace_location {
        StorageWorkspaceLocation::Workspace => {
            let a = join_path(workspace_root, root_dir.as_str());
            join_path(a.as_str(), "config.json")
        },
        StorageWorkspaceLocation::User => default_relocated_workspace_config_path(
            user_config_dir,
            workspace_root,
            id.as_str(),
        ),
    };
    Ok(
        ConfigSeed {
            defaults: ConfigDefaults {
                workspace_storage_root_dir: root_dir,
                storage_user_location: user_location,
                storage_workspace_location: workspace_location,
            },
            workspace_id: id,
            user_config_path,
            workspace_config_path,
        },
    )
}

// ---------------------------------------------------------------------------
// Storage settings: what decides whether the workspace storage directory is needed
// ---------------------------------------------------------------------------

/// The settings read before the workspace storage directory is created.
pub struct StorageSettings {
    /// Effective disabled tool names (sorted, without duplicates).
    pub disabled_tools: Vec<String>,
    pub workspace_storage_root_dir: String,
    pub storage_user_location: StorageUserLocation,
    pub storage_workspace_location: StorageWorkspaceLocation,
    pub workspace_id: String,
}

/// The first error of the storage step, with whether it lies in the workspace document.
pub open spec fn storage_error(user: Option<JsonValue>, workspace: Option<JsonValue>) -> Option<
    (ConfigErrorKind, bool),
> {
    let w_dir = spec_workspace_storage_root_dir(workspace);
    let u_dir = spec_workspace_storage_root_dir(user);
    let w_user = spec_storage_user_location(workspace);
    let u_user = spec_storage_user_location(user);
    let w_ws = spec_storage_workspace_location(workspace);
    let u_ws = spec_storage_workspace_location(user);
    if disabled_tools_outcome(user, workspace) is Err {
        Some(disabled_tools_outcome(user, workspace)->Err_0)
    } else if failure(w_dir, u_dir) is Some {
        failure(w_dir, u_dir)
    } else if failure(w_user, u_user) is Some {
        failure(w_user, u_user)
    } else {
        failure(w_ws, u_ws)
    }
}

/// The error of a merged setting, with whether it lies in the workspace document.
pub open spec fn failure<T>(
    w: Result<Option<T>, ConfigErrorKind>,
    u: Result<Option<T>, ConfigErrorKind>,
) -> Option<(ConfigErrorKind, bool)> {
    match w {
        Err(k) => Some((k, true)),
        Ok(Some(_)) => None,
        Ok(None) => match u {
            Err(k) => Some((k, false)),
            Ok(_) => None,
        },
    }
}

/// A merged setting once both documents are valid for it, else `d`.
pub open spec fn setting<T>(
    w: Result<Option<T>, ConfigErrorKind>,
    u: Result<Option<T>, ConfigErrorKind>,
    d: T,
) -> T {
    match resolved(w, u) {
        Ok(Some(x)) => x,
        _ => d,
    }
}

/// The storage settings the two documents give, once both are valid for them.
pub open spec fn storage_matches(
    s: StorageSettings,
    workspace_root: Seq<char>,
    user: Option<JsonValue>,
    workspace: Option<JsonValue>,
    defaults: ConfigDefaults,
) -> bool {
    &&& strictly_sorted(string_views(s.disabled_tools@))
    &&& string_views(s.disabled_tools@).to_set() == disabled_tools_outcome(user, workspace)->Ok_0
    &&& s.workspace_storage_root_dir@ == setting(
        spec_workspace_storage_root_dir(workspace),
        spec_workspace_storage_root_dir(user),
        defaults.workspace_storage_root_dir@,
    )
    &&& s.storage_user_location == setting(
        spec_storage_user_location(workspace),
        spec_storage_user_location(user),
        defaults.storage_user_location,
    )
    &&& s.storage_workspace_location == setting(
        spec_storage_workspace_location(workspace),
        spec_storage_workspace_location(user),
        defaults.storage_workspace_location,
    )
    &&& s.workspace_id@ == spec_workspace_id(workspace_root)
}

/// Reads the disabled tools and the storage settings of both documents.
pub fn resolve_storage_settings(
    workspace_root: &str,
    user_config_path: &str,
    workspace_config_path: &str,
    user_root: Option<&JsonValue>,
    workspace_config_root: Option<&JsonValue>,
    defaults: &ConfigDefaults,
) -> (r: Result<StorageSettings, ConfigError>)
    ensures
        match storage_error(deref_opt(user_root), deref_opt(workspace_config_root)) {
            Some((k, in_workspace)) => r is Err && r->Err_0.kind == k && r->Err_0.path@ == (
            if in_workspace {
                workspace_config_path@
            } else {
                user_config_path@
            }),
            None => r is Ok && storage_matches(
                r->Ok_0,
                workspace_root@,
                deref_opt(user_root),
                deref_opt(workspace_config_root),
                *defaults,
            ),
        },
{
    let disabled_tools = match load_effective_disabled_tools(
        user_root,
        workspace_config_root,
        user_config_path,
        workspace_config_path,
    ) {
        Err(e) => {
            return Err(e);
        },
        Ok(t) => t,
    };
    let root_dir = match extract_workspace_storage_root_dir(
        workspace_config_root,
        workspace_config_path,
    ) {
        Err(e) => {
            return Err(e);
        },
        Ok(Some(d)) => d,
        Ok(None) => match extract_workspace_storage_root_dir(user_root, user_config_path) {
            Err(e) => {
                return Err(e);
            },
            Ok(Some(d)) => d,
            Ok(None) => defaults.workspace_storage_root_dir.clone(),
        },
    };
    let user_location = match resolve_storage_user_location(
        user_root,
        workspace_config_root,
        user_config_path,
        workspace_config_path,
    ) {
        Err(e) => {
            return Err(e);
        },
        Ok(Some(l)) => l,
        Ok(None) => defaults.storage_user_location,
    };
    let workspace_location = match resolve_storage_workspace_location(
        user_root,
        workspace_config_root,
        user_config_path,
        workspace_config_path,
    ) {
        Err(e) => {
            return Err(e);
        },
        Ok(Some(l)) => l,
        Ok(None) => defaults.storage_workspace_location,
    };
    let id = workspace_id(workspace_root);
    Ok(
        StorageSettings {
            disabled_tools,
            workspace_storage_root_dir: root_dir,
            storage_user_location: user_location,
            storage_workspace_location: workspace_location,
            workspace_id: id,
        },
    )
}

// ---------------------------------------------------------------------------
// The effective configuration
// ---------------------------------------------------------------------------

/// Effective Alfred configuration values.
pub struct AppConfig {
    /// Host-provided OS user config directory (when available).
    pub host_user_config_dir: Option<String>,
    /// Host-provided OS user data directory (when available).
    pub host_user_data_dir: Option<String>,
    /// Host-provided OS user logs directory (when available).
    pub host_user_logs_dir: Option<String>,
    /// Host-provided OS system logs directory (when available).
    pub host_system_logs_dir: Option<String>,
    /// Effective workspace root.
    pub workspace_root: String,
    /// Stable identifier derived from `workspace_root`.
    pub workspace_id: String,
    /// Workspace-relative root folder used for Alfred-owned runtime artifacts.
    pub workspace_storage_root_dir: String,
    /// Effective user-scoped storage location selection.
    pub storage_user_location: StorageUserLocation,
    /// Effective workspace-scoped storage location selection.
    pub storage_workspace_location: StorageWorkspaceLocation,
    /// User-level configuration path.
    pub user_config_path: String,
    /// User-level `.alfredignore` path.
    pub user_ignore_path: String,
    /// Workspace-level configuration path.
    pub workspace_config_path: String,
    /// Relocated workspace `.alfredignore` path when the workspace config is relocated.
    pub workspace_ignore_path: Option<String>,
    /// Selected runtime log location.
    pub runtime_log_location: RuntimeLogLocation,
    /// Optional runtime log directory override.
    pub runtime_log_path: Option<String>,
    /// Number of days to keep rotated runtime log archives.
    pub runtime_log_retention_days: u64,
    /// Whether workspace indexing is enabled.
    pub index_enabled: bool,
    /// Where workspace indexes are persisted.
    pub index_persistence_location: IndexPersistenceLocation,
    /// Optional index persistence path override.
    pub index_persistence_path: Option<String>,
    /// Interval between persisted index commits.
    pub index_persist_interval_seconds: u64,
    /// Per-path debounce window used by file watching.
    pub index_watch_debounce_millis: u64,
    /// Effective disabled tool names (sorted, without duplicates).
    pub disabled_tools: Vec<String>,
    /// Whether deterministic redaction is enabled.
    pub redaction_enabled: bool,
    /// Replacement token used for redaction.
    pub redaction_replacement_token: String,
    /// Whether redaction preserves the scalar length of redacted spans.
    pub redaction_preserve_length: bool,
    /// Effective, ordered redaction rule list.
    pub redaction_rules: Vec<RedactionRule>,
    /// Whether user-scoped memory persistence is enabled.
    pub memory_user_enabled: bool,
    /// Whether workspace-scoped memory persistence is enabled.
    pub memory_workspace_enabled: bool,
    /// Optional memory store path override for user scope (relative to the user root).
    pub memory_user_path: Option<String>,
    /// Optional memory store path override for workspace scope (relative to the workspace
    /// root).
    pub memory_workspace_path: Option<String>,
}

/// `second` where `first` is absent.
pub open spec fn or_else<T>(first: Option<T>, second: Option<T>) -> Option<T> {
    if first is Some {
        first
    } else {
        second
    }
}

/// `r` fails exactly with the error `e` (in the workspace document when its flag is set).
pub open spec fn error_placed<T>(
    r: Result<T, ConfigError>,
    e: Option<(ConfigErrorKind, bool)>,
    user_config_path: Seq<char>,
    workspace_config_path: Seq<char>,
) -> bool {
    match e {
        Some((k, in_workspace)) => r is Err && r->Err_0.kind == k && r->Err_0.path@ == (
        if in_workspace {
            workspace_config_path
        } else {
            user_config_path
        }),
        None => r is Ok,
    }
}

/// A merged flag, else `d`.
pub open spec fn flag_setting(w: Option<bool>, u: Option<bool>, d: bool) -> bool {
    match flag_resolution(w, u) {
        Some(b) => b,
        None => d,
    }
}

/// Runtime log settings.
pub struct LoggingSettings {
    pub runtime_log_location: RuntimeLogLocation,
    pub runtime_log_path: Option<String>,
    pub runtime_log_retention_days: u64,
}

/// The first error among the runtime log settings.
pub open spec fn logging_error(user: Option<JsonValue>, workspace: Option<JsonValue>) -> Option<
    (ConfigErrorKind, bool),
> {
    or_else(
        failure(spec_runtime_log_location(workspace), spec_runtime_log_location(user)),
        or_else(
            failure(spec_runtime_log_path(workspace), spec_runtime_log_path(user)),
            failure(spec_runtime_log_retention_days(workspace), spec_runtime_log_retention_days(user)),
        ),
    )
}

/// The runtime log settings the documents give.
pub open spec fn logging_matches(
    s: LoggingSettings,
    user: Option<JsonValue>,
    workspace: Option<JsonValue>,
    env: EnvDefaults,
) -> bool {
    &&& s.runtime_log_location == setting(
        spec_runtime_log_location(workspace),
        spec_runtime_log_location(user),
        RuntimeLogLocation::Auto,
    )
    &&& opt_text(s.runtime_log_path) == resolved(
        spec_runtime_log_path(workspace),
        spec_runtime_log_path(user),
    )->Ok_0
    &&& s.runtime_log_retention_days == setting(
        spec_runtime_log_retention_days(workspace),
        spec_runtime_log_retention_days(user),
        spec_default_retention_days(env),
    )
}

/// Reads the runtime log settings of both documents.
pub fn load_logging_settings(
    user_root: Option<&JsonValue>,
    workspace_config_root: Option<&JsonValue>,
    user_config_path: &str,
    workspace_config_path: &str,
    env: &EnvDefaults,
) -> (r: Result<LoggingSettings, ConfigError>)
    ensures
        error_placed(
            r,
            logging_error(deref_opt(user_root), deref_opt(workspace_config_root)),
            user_config_path@,
            workspace_config_path@,
        ),
        r is Ok ==> logging_matches(
            r->Ok_0,
            deref_opt(user_root),
            deref_opt(workspace_config_root),
            *env,
        ),
{
    let up = user_config_path;
    let wp = workspace_config_path;
    let runtime_log_location = match resolve_runtime_log_location(
        user_root,
        workspace_config_root,
        up,
        wp,
    ) {
        Err(e) => {
            return Err(e);
        },
        Ok(Some(l)) => l,
        Ok(None) => RuntimeLogLocation::Auto,
    };
    let runtime_log_path = match resolve_runtime_log_path(user_root, workspace_config_root, up, wp) {
        Err(e) => {
            return Err(e);
        },
        Ok(v) => v,
    };
    let runtime_log_retention_days = match resolve_runtime_log_retention_days(
        user_root,
        workspace_config_root,
        up,
        wp,
    ) {
        Err(e) => {
            return Err(e);
        },
        Ok(Some(d)) => d,
        Ok(None) => default_runtime_log_retention_days(env),
    };
    Ok(LoggingSettings { runtime_log_location, runtime_log_path, runtime_log_retention_days })
}

/// Index settings.
pub struct IndexSettings {
    pub index_enabled: bool,
    pub index_persistence_location: IndexPersistenceLocation,
    pub index_persistence_path: Option<String>,
    pub index_persist_interval_seconds: u64,
    pub index_watch_debounce_millis: u64,
}

/// The first error among the index settings.
pub open spec fn index_error(user: Option<JsonValue>, workspace: Option<JsonValue>) -> Option<
    (ConfigErrorKind, bool),
> {
    or_else(
        failure(spec_index_persistence_location(workspace), spec_index_persistence_location(user)),
        or_else(
            failure(spec_index_persistence_path(workspace), spec_index_persistence_path(user)),
            failure(
                spec_index_persist_interval_seconds(workspace),
                spec_index_persist_interval_seconds(user),
            ),
        ),
    )
}

/// The index settings the documents give.
pub open spec fn index_matches(
    s: IndexSettings,
    user: Option<JsonValue>,
    workspace: Option<JsonValue>,
    env: EnvDefaults,
) -> bool {
    &&& s.index_enabled == flag_setting(spec_index_enabled(workspace), spec_index_enabled(user), true)
    &&& s.index_persistence_location == setting(
        spec_index_persistence_location(workspace),
        spec_index_persistence_location(user),
        spec_default_index_location(env),
    )
    &&& opt_text(s.index_persistence_path) == resolved(
        spec_index_persistence_path(workspace),
        spec_index_persistence_path(user),
    )->Ok_0
    &&& s.index_persist_interval_seconds == setting(
        spec_index_persist_interval_seconds(workspace),
        spec_index_persist_interval_seconds(user),
        positive_or(env.index_persist_interval_seconds, DEFAULT_INDEX_PERSIST_INTERVAL_SECONDS),
    )
    &&& s.index_watch_debounce_millis == positive_or(
        env.index_watch_debounce_millis,
        DEFAULT_INDEX_WATCH_DEBOUNCE_MILLIS,
    )
}

/// Reads the index settings of both documents.
pub fn load_index_settings(
    user_root: Option<&JsonValue>,
    workspace_config_root: Option<&JsonValue>,
    user_config_path: &str,
    workspace_config_path: &str,
    env: &EnvDefaults,
) -> (r: Result<IndexSettings, ConfigError>)
    ensures
        error_placed(
            r,
            index_error(deref_opt(user_root), deref_opt(workspace_config_root)),
            user_config_path@,
            workspace_config_path@,
        ),
        r is Ok ==> index_matches(r->Ok_0, deref_opt(user_root), deref_opt(workspace_config_root), *env),
{
    let up = user_config_path;
    let wp = workspace_config_path;
    let index_enabled = resolve_index_enabled(user_root, workspace_config_root);
    let index_persistence_location = match resolve_index_persistence_location(
        user_root,
        workspace_config_root,
        up,
        wp,
    ) {
        Err(e) => {
            return Err(e);
        },
        Ok(Some(l)) => l,
        Ok(None) => default_index_persistence_location(env),
    };
    let index_persistence_path = match resolve_index_persistence_path(
        user_root,
        workspace_config_root,
        up,
        wp,
    ) {
        Err(e) => {
            return Err(e);
        },
        Ok(v) => v,
    };
    let index_persist_interval_seconds = match resolve_index_persist_interval_seconds(
        user_root,
        workspace_config_root,
        up,
        wp,
    ) {
        Err(e) => {
            return Err(e);
        },
        Ok(Some(n)) => n,
        Ok(None) => default_index_persist_interval_seconds(env),
    };
    let index_watch_debounce_millis = default_index_watch_debounce_millis(env);
    Ok(
        IndexSettings {
            index_enabled,
            index_persistence_location,
            index_persistence_path,
            index_persist_interval_seconds,
            index_watch_debounce_millis,
        },
    )
}

/// Redaction settings.
pub struct RedactionSettings {
    pub redaction_enabled: bool,
    pub redaction_replacement_token: String,
    pub redaction_preserve_length: bool,
    pub redaction_rules: Vec<RedactionRule>,
}

/// The first error among the redaction settings.
pub open spec fn redaction_error(user: Option<JsonValue>, workspace: Option<JsonValue>) -> Option<
    (ConfigErrorKind, bool),
> {
    or_else(
        failure(spec_redaction_replacement_token(workspace), spec_redaction_replacement_token(user)),
        failure(spec_redaction_rules(workspace), spec_redaction_rules(user)),
    )
}

/// The redaction settings the documents give.
pub open spec fn redaction_matches(
    s: RedactionSettings,
    user: Option<JsonValue>,
    workspace: Option<JsonValue>,
) -> bool {
    &&& s.redaction_enabled == flag_setting(
        spec_redaction_enabled(workspace),
        spec_redaction_enabled(user),
        true,
    )
    &&& s.redaction_replacement_token@ == setting(
        spec_redaction_replacement_token(workspace),
        spec_redaction_replacement_token(user),
        DEFAULT_REPLACEMENT_TOKEN@,
    )
    &&& s.redaction_preserve_length == flag_setting(
        spec_redaction_preserve_length(workspace),
        spec_redaction_preserve_length(user),
        true,
    )
    &&& s.redaction_rules@.map_values(|x: RedactionRule| x@) == setting(
        spec_redaction_rules(workspace),
        spec_redaction_rules(user),
        default_rule_models(),
    )
}

/// Reads the redaction settings of both documents.
pub fn load_redaction_settings(
    user_root: Option<&JsonValue>,
    workspace_config_root: Option<&JsonValue>,
    user_config_path: &str,
    workspace_config_path: &str,
) -> (r: Result<RedactionSettings, ConfigError>)
    ensures
        error_placed(
            r,
            redaction_error(deref_opt(user_root), deref_opt(workspace_config_root)),
            user_config_path@,
            workspace_config_path@,
        ),
        r is Ok ==> redaction_matches(r->Ok_0, deref_opt(user_root), deref_opt(workspace_config_root)),
{
    let up = user_config_path;
    let wp = workspace_config_path;
    let redaction_enabled = resolve_redaction_enabled(user_root, workspace_config_root);
    let redaction_replacement_token = match resolve_redaction_replacement_token(
        user_root,
        workspace_config_root,
        up,
        wp,
    ) {
        Err(e) => {
            return Err(e);
        },
        Ok(Some(t)) => t,
        Ok(None) => DEFAULT_REPLACEMENT_TOKEN.to_string(),
    };
    let redaction_preserve_length = match resolve_redaction_preserve_length(
        user_root,
        workspace_config_root,
    ) {
        Some(b) => b,
        None => true,
    };
    let redaction_rules = match resolve_redaction_rules(user_root, workspace_config_root, up, wp) {
        Err(e) => {
            return Err(e);
        },
        Ok(Some(rules)) => rules,
        Ok(None) => default_redaction_rules(),
    };
    Ok(
        RedactionSettings {
            redaction_enabled,
            redaction_replacement_token,
            redaction_preserve_length,
            redaction_rules,
        },
    )
}

/// Memory settings.
pub struct MemorySettings {
    pub memory_user_enabled: bool,
    pub memory_workspace_enabled: bool,
    pub memory_user_path: Option<String>,
    pub memory_workspace_path: Option<String>,
}

/// The first error among the memory settings.
pub open spec fn memory_error(user: Option<JsonValue>, workspace: Option<JsonValue>) -> Option<
    (ConfigErrorKind, bool),
> {
    or_else(
        failure(spec_memory_user_path(workspace), spec_memory_user_path(user)),
        failure(spec_memory_workspace_path(workspace), spec_memory_workspace_path(user)),
    )
}

/// The memory settings the documents give.
pub open spec fn memory_matches(
    s: MemorySettings,
    user: Option<JsonValue>,
    workspace: Option<JsonValue>,
) -> bool {
    &&& s.memory_user_enabled == flag_setting(
        spec_memory_user_enabled(workspace),
        spec_memory_user_enabled(user),
        true,
    )
    &&& s.memory_workspace_enabled == flag_setting(
        spec_memory_workspace_enabled(workspace),
        spec_memory_workspace_enabled(user),
        false,
    )
    &&& opt_text(s.memory_user_path) == resolved(
        spec_memory_user_path(workspace),
        spec_memory_user_path(user),
    )->Ok_0
    &&& opt_text(s.memory_workspace_path) == resolved(
        spec_memory_workspace_path(workspace),
        spec_memory_workspace_path(user),
    )->Ok_0
}

/// Reads the memory settings of both documents.
pub fn load_memory_settings(
    user_root: Option<&JsonValue>,
    workspace_config_root: Option<&JsonValue>,
    user_config_path: &str,
    workspace_config_path: &str,
) -> (r: Result<MemorySettings, ConfigError>)
    ensures
        error_placed(
            r,
            memory_error(deref_opt(user_root), deref_opt(workspace_config_root)),
            user_config_path@,
            workspace_config_path@,
        ),
        r is Ok ==> memory_matches(r->Ok_0, deref_opt(user_root), deref_opt(workspace_config_root)),
{
    let up = user_config_path;
    let wp = workspace_config_path;
    let memory_user_enabled = match resolve_memory_user_enabled(user_root, workspace_config_root) {
        Some(b) => b,
        None => true,
    };
    let memory_workspace_enabled = match resolve_memory_workspace_enabled(
        user_root,
        workspace_config_root,
    ) {
        Some(b) => b,
        None => false,
    };
    let memory_user_path = match resolve_memory_user_path(user_root, workspace_config_root, up, wp) {
        Err(e) => {
            return Err(e);
        },
        Ok(v) => v,
    };
    let memory_workspace_path = match resolve_memory_workspace_path(
        user_root,
        workspace_config_root,
        up,
        wp,
    ) {
        Err(e) => {
            return Err(e);
        },
        Ok(v) => v,
    };
    Ok(
        MemorySettings {
            memory_user_enabled,
            memory_workspace_enabled,
            memory_user_path,
            memory_workspace_path,
        },
    )
}

/// The first error among the settings read after the storage step.
pub open spec fn settings_error(user: Option<JsonValue>, workspace: Option<JsonValue>) -> Option<
    (ConfigErrorKind, bool),
> {
    or_else(
        logging_error(user, workspace),
        or_else(
            index_error(user, workspace),
            or_else(redaction_error(user, workspace), memory_error(user, workspace)),
        ),
    )
}

/// The ignore file beside a relocated workspace configuration file.
pub open spec fn spec_workspace_ignore_path(
    location: StorageWorkspaceLocation,
    workspace_config_path: Seq<char>,
) -> Option<Seq<char>> {
    if location == StorageWorkspaceLocation::User {
        match spec_parent(workspace_config_path) {
            Some(parent) => Some(spec_join(parent, ".alfredignore"@)),
            None => None,
        }
    } else {
        None
    }
}

/// The configuration the two documents give, once both are valid.
pub open spec fn config_matches(
    c: AppConfig,
    host: HostPaths,
    workspace_root: Seq<char>,
    user_config_path: Seq<char>,
    workspace_config_path: Seq<char>,
    storage: StorageSettings,
    user: Option<JsonValue>,
    workspace: Option<JsonValue>,
    env: EnvDefaults,
) -> bool {
    &&& c.host_user_config_dir == host.user_config_dir
    &&& c.host_user_data_dir == host.user_data_dir
    &&& c.host_user_logs_dir == host.user_logs_dir
    &&& c.host_system_logs_dir == host.system_logs_dir
    &&& c.workspace_root@ == workspace_root
    &&& c.workspace_id == storage.workspace_id
    &&& c.workspace_storage_root_dir == storage.workspace_storage_root_dir
    &&& c.storage_user_location == storage.storage_user_location
    &&& c.storage_workspace_location == storage.storage_workspace_location
    &&& c.disabled_tools == storage.disabled_tools
    &&& c.user_config_path@ == user_config_path
    &&& c.user_ignore_path@ == spec_user_ignore_path(user_config_path)
    &&& c.workspace_config_path@ == workspace_config_path
    &&& opt_text(c.workspace_ignore_path) == spec_workspace_ignore_path(
        storage.storage_workspace_location,
        workspace_config_path,
    )
    &&& logging_matches(
        LoggingSettings {
            runtime_log_location: c.runtime_log_location,
            runtime_log_path: c.runtime_log_path,
            runtime_log_retention_days: c.runtime_log_retention_days,
        },
        user,
        workspace,
        env,
    )
    &&& index_matches(
        IndexSettings {
            index_enabled: c.index_enabled,
            index_persistence_location: c.index_persistence_location,
            index_persistence_path: c.index_persistence_path,
            index_persist_interval_seconds: c.index_persist_interval_seconds,
            index_watch_debounce_millis: c.index_watch_debounce_millis,
        },
        user,
        workspace,
        env,
    )
    &&& redaction_matches(
        RedactionSettings {
            redaction_enabled: c.redaction_enabled,
            redaction_replacement_token: c.redaction_replacement_token,
            redaction_preserve_length: c.redaction_preserve_length,
            redaction_rules: c.redaction_rules,
        },
        user,
        workspace,
    )
    &&& memory_matches(
        MemorySettings {
            memory_user_enabled: c.memory_user_enabled,
            memory_workspace_enabled: c.memory_workspace_enabled,
            memory_user_path: c.memory_user_path,
            memory_workspace_path: c.memory_workspace_path,
        },
        user,
        workspace,
    )
}

impl AppConfig {
    /// Completes the configuration from both documents once the storage settings are
    /// known (and the workspace storage directory exists where they need it).
    pub fn load_from_paths_with_host(
        workspace_root: String,
        host: HostPaths,
        user_config_path: String,
        workspace_config_path: String,
        storage: StorageSettings,
        user_root: Option<&JsonValue>,
        workspace_config_root: Option<&JsonValue>,
        env: &EnvDefaults,
    ) -> (r: Result<AppConfig, ConfigError>)
        ensures
            error_placed(
                r,
                settings_error(deref_opt(user_root), deref_opt(workspace_config_root)),
                user_config_path@,
                workspace_config_path@,
            ),
            r is Ok ==> config_matches(
                r->Ok_0,
                host,
                workspace_root@,
                user_config_path@,
                workspace_config_path@,
                storage,
                deref_opt(user_root),
                deref_opt(workspace_config_root),
                *env,
            ),
    {
        let up = user_config_path.as_str();
        let wp = workspace_config_path.as_str();
        let user_ignore_path = default_user_ignore_path(up);
        let workspace_ignore_path = if storage.storage_workspace_location
            == StorageWorkspaceLocation::User {
            match parent_path(wp) {
                Some(parent) => Some(join_path(parent.as_str(), ".alfredignore")),
                None => None,
            }
        } else {
            None
        };
        let logging = match load_logging_settings(user_root, workspace_config_root, up, wp, env) {
            Err(e) => {
                return Err(e);
            },
            Ok(v) => v,
        };
        let index = match load_index_settings(user_root, workspace_config_root, up, wp, env) {
            Err(e) => {
                return Err(e);
            },
            Ok(v) => v,
        };
        let redaction = match load_redaction_settings(user_root, workspace_config_root, up, wp) {
            Err(e) => {
                return Err(e);
            },
            Ok(v) => v,
        };
        let memory = match load_memory_settings(user_root, workspace_config_root, up, wp) {
            Err(e) => {
                return Err(e);
            },
            Ok(v) => v,
        };
        Ok(
            AppConfig {
                host_user_config_dir: host.user_config_dir,
                host_user_data_dir: host.user_data_dir,
                host_user_logs_dir: host.user_logs_dir,
                host_system_logs_dir: host.system_logs_dir,
                workspace_root,
                workspace_id: storage.workspace_id,
                workspace_storage_root_dir: storage.workspace_storage_root_dir,
                storage_user_location: storage.storage_user_location,
                storage_workspace_location: storage.storage_workspace_location,
                user_config_path,
                user_ignore_path,
                workspace_config_path,
                workspace_ignore_path,
                runtime_log_location: logging.runtime_log_location,
                runtime_log_path: logging.runtime_log_path,
                runtime_log_retention_days: logging.runtime_log_retention_days,
                index_enabled: index.index_enabled,
                index_persistence_location: index.index_persistence_location,
                index_persistence_path: index.index_persistence_path,
                index_persist_interval_seconds: index.index_persist_interval_seconds,
                index_watch_debounce_millis: index.index_watch_debounce_millis,
                disabled_tools: storage.disabled_tools,
                redaction_enabled: redaction.redaction_enabled,
                redaction_replacement_token: redaction.redaction_replacement_token,
                redaction_preserve_length: redaction.redaction_preserve_length,
                redaction_rules: redaction.redaction_rules,
                memory_user_enabled: memory.memory_user_enabled,
                memory_workspace_enabled: memory.memory_workspace_enabled,
                memory_user_path: memory.memory_user_path,
                memory_workspace_path: memory.memory_workspace_path,
            },
        )
    }
}

// ---------------------------------------------------------------------------
// Derived storage locations
// ---------------------------------------------------------------------------

/// A host-provided directory, else the one the operating system reports.
pub open spec fn host_or_os(host: Option<String>, os: Option<String>) -> Option<Seq<char>> {
    match host {
        Some(d) => Some(d@),
        None => opt_text(os),
    }
}

fn host_or_os_exec(host: &Option<String>, os: &Option<String>) -> (r: Option<String>)
    ensures
        opt_text(r) == host_or_os(*host, *os),
{
    match host {
        Some(d) => Some(d.clone()),
        None => match os {
            Some(d) => Some(d.clone()),
            None => None,
        },
    }
}

/// The runtime log directory an override names: the workspace `.alfred/logs` when it is
/// blank; otherwise, with `\` read as `/`, itself when absolute and joined onto the
/// workspace when relative.
pub open spec fn spec_override_dir(workspace_root: Seq<char>, raw: Seq<char>) -> Seq<char> {
    let trimmed = trim_spec(raw);
    let normalized = replace_char_spec(trimmed, '\\', '/');
    if trimmed.len() == 0 {
        join2(workspace_root, WORKSPACE_STORAGE_DIR@, "logs"@)
    } else if normalized.len() > 0 && normalized[0] == '/' {
        normalized
    } else {
        spec_join(workspace_root, normalized)
    }
}

/// Resolves a configured runtime log directory against the workspace.
pub fn resolve_runtime_log_override_dir(workspace_root: &str, raw: &str) -> (r: String)
    ensures
        r@ == spec_override_dir(workspace_root@, raw@),
{
    let trimmed = chars_of(trim_str(raw).as_str());
    if trimmed.len() == 0 {
        let a = join_path(workspace_root, WORKSPACE_STORAGE_DIR);
        return join_path(a.as_str(), "logs");
    }
    let normalized = replace_char(trimmed.as_slice(), '\\', '/');
    let text = string_of(normalized.as_slice());
    if normalized.len() > 0 && normalized[0] == '/' {
        text
    } else {
        join_path(workspace_root, text.as_str())
    }
}

/// The workspace storage directory inside the workspace.
pub open spec fn spec_storage_in_workspace(c: AppConfig) -> Seq<char> {
    spec_join(c.workspace_root@, c.workspace_storage_root_dir@)
}

/// The effective workspace storage root: in the workspace, or under the user data
/// directory keyed by the workspace id.
pub open spec fn spec_workspace_storage_root(c: AppConfig, os: HostPaths) -> Seq<char> {
    match c.storage_workspace_location {
        StorageWorkspaceLocation::Workspace => spec_storage_in_workspace(c),
        StorageWorkspaceLocation::User => match host_or_os(c.host_user_data_dir, os.user_data_dir) {
            Some(d) => join3(d, "alfred"@, c.workspace_id@, "data"@),
            None => spec_storage_in_workspace(c),
        },
    }
}

/// The effective persisted-index root.
pub open spec fn spec_workspace_index_root(c: AppConfig, os: HostPaths) -> Seq<char> {
    match c.index_persistence_location {
        IndexPersistenceLocation::Workspace => match c.index_persistence_path {
            Some(p) => spec_join(c.workspace_root@, p@),
            None => spec_join(spec_workspace_storage_root(c, os), "index"@),
        },
        IndexPersistenceLocation::UserData => match host_or_os(
            c.host_user_data_dir,
            os.user_data_dir,
        ) {
            None => join2(c.workspace_root@, WORKSPACE_STORAGE_DIR@, "index"@),
            Some(d) => match c.index_persistence_path {
                Some(p) => spec_join(d, p@),
                None => spec_join(join3(d, "alfred"@, c.workspace_id@, "data"@), "index"@),
            },
        },
    }
}

/// The candidates of one preferred directory followed by the workspace log directory.
pub open spec fn preferred_then(preferred: Option<Seq<char>>, fallback: Seq<char>) -> Seq<
    Seq<char>,
> {
    seq![or_default(preferred, fallback), fallback]
}

/// The present entries among three optional directories.
pub open spec fn present3(a: Option<Seq<char>>, b: Option<Seq<char>>, c: Option<Seq<char>>) -> Seq<
    Seq<char>,
> {
    (if a is Some {
        seq![a->0]
    } else {
        Seq::empty()
    }) + (if b is Some {
        seq![b->0]
    } else {
        Seq::empty()
    }) + (if c is Some {
        seq![c->0]
    } else {
        Seq::empty()
    })
}

/// Candidate runtime log directories, most preferred first.
pub open spec fn spec_log_candidates(c: AppConfig, os: HostPaths) -> Seq<Seq<char>> {
    let workspace_dir = spec_join(spec_storage_in_workspace(c), "logs"@);
    let user_logs = host_or_os(c.host_user_logs_dir, os.user_logs_dir);
    let user_data = match host_or_os(c.host_user_data_dir, os.user_data_dir) {
        Some(d) => Some(join2(d, "alfred"@, "logs"@)),
        None => None,
    };
    let system_logs = host_or_os(c.host_system_logs_dir, os.system_logs_dir);
    match c.runtime_log_path {
        Some(raw) => seq![spec_override_dir(c.workspace_root@, raw@)],
        None => match c.runtime_log_location {
            RuntimeLogLocation::Workspace => seq![workspace_dir],
            RuntimeLogLocation::UserLogs => preferred_then(user_logs, workspace_dir),
            RuntimeLogLocation::UserData => preferred_then(user_data, workspace_dir),
            RuntimeLogLocation::SystemLogs => preferred_then(system_logs, workspace_dir),
            RuntimeLogLocation::Auto => present3(user_logs, user_data, system_logs).push(
                workspace_dir,
            ),
        },
    }
}

/// The runtime log file the configuration names: `runtime.ndjson` in the override
/// directory or the chosen location's preferred directory; under `Auto`, in the workspace
/// log directory (the other candidates serve only when picking a writable directory).
pub open spec fn spec_runtime_log_file(c: AppConfig, os: HostPaths) -> Seq<char> {
    if c.runtime_log_path is None && c.runtime_log_location == RuntimeLogLocation::Auto {
        spec_join(spec_join(spec_storage_in_workspace(c), "logs"@), "runtime.ndjson"@)
    } else {
        spec_join(spec_log_candidates(c, os)[0], "runtime.ndjson"@)
    }
}

/// The user-scoped memory root.
pub open spec fn spec_user_memory_root(c: AppConfig, os: HostPaths) -> Seq<char> {
    let local = join2(spec_storage_in_workspace(c), "user"@, "memory"@);
    match c.storage_user_location {
        StorageUserLocation::Workspace => local,
        StorageUserLocation::Os => match host_or_os(c.host_user_data_dir, os.user_data_dir) {
            Some(d) => join2(d, "alfred"@, "memory"@),
            None => local,
        },
    }
}

/// A memory store path: absent when disabled, else `alfred` under the root or its
/// configured sub-path.
pub open spec fn spec_memory_store(enabled: bool, base: Seq<char>, sub: Option<String>) -> Option<
    Seq<char>,
> {
    if !enabled {
        None
    } else {
        Some(
            spec_join(
                match sub {
                    Some(p) => spec_join(base, p@),
                    None => base,
                },
                "alfred"@,
            ),
        )
    }
}

/// All fields but the workspace root, its id and the workspace configuration path agree.
pub open spec fn same_but_workspace(a: AppConfig, b: AppConfig) -> bool {
    &&& a.host_user_config_dir == b.host_user_config_dir
    &&& a.host_user_data_dir == b.host_user_data_dir
    &&& a.host_user_logs_dir == b.host_user_logs_dir
    &&& a.host_system_logs_dir == b.host_system_logs_dir
    &&& a.workspace_storage_root_dir == b.workspace_storage_root_dir
    &&& a.storage_user_location == b.storage_user_location
    &&& a.storage_workspace_location == b.storage_workspace_location
    &&& a.user_config_path == b.user_config_path
    &&& a.user_ignore_path == b.user_ignore_path
    &&& a.workspace_ignore_path == b.workspace_ignore_path
    &&& a.runtime_log_location == b.runtime_log_location
    &&& a.runtime_log_path == b.runtime_log_path
    &&& a.runtime_log_retention_days == b.runtime_log_retention_days
    &&& a.index_enabled == b.index_enabled
    &&& a.index_persistence_location == b.index_persistence_location
    &&& a.index_persistence_path == b.index_persistence_path
    &&& a.index_persist_interval_seconds == b.index_persist_interval_seconds
    &&& a.index_watch_debounce_millis == b.index_watch_debounce_millis
    &&& a.disabled_tools == b.disabled_tools
    &&& a.redaction_enabled == b.redaction_enabled
    &&& a.redaction_replacement_token == b.redaction_replacement_token
    &&& a.redaction_preserve_length == b.redaction_preserve_length
    &&& a.redaction_rules == b.redaction_rules
    &&& a.memory_user_enabled == b.memory_user_enabled
    &&& a.memory_workspace_enabled == b.memory_workspace_enabled
    &&& a.memory_user_path == b.memory_user_path
    &&& a.memory_workspace_path == b.memory_workspace_path
}

impl AppConfig {
    /// Moves the configuration to another workspace root; the workspace id is derived
    /// from the new root and the workspace configuration path becomes its default.
    pub fn rebind_workspace_root(&mut self, workspace_root: String)
        ensures
            final(self).workspace_root@ == workspace_root@,
            final(self).workspace_id@ == spec_workspace_id(workspace_root@),
            final(self).workspace_config_path@ == join2(
                workspace_root@,
                WORKSPACE_STORAGE_DIR@,
                "config.json"@,
            ),
            same_but_workspace(*old(self), *final(self)),
    {
        self.workspace_config_path = default_workspace_config_path(workspace_root.as_str());
        self.workspace_id = workspace_id(workspace_root.as_str());
        self.workspace_root = workspace_root;
    }

    /// Whether a tool is enabled by policy: it is not among the disabled tools.
    pub fn is_tool_enabled(&self, tool_name: &str) -> (r: bool)
        ensures
            r == !string_views(self.disabled_tools@).contains(tool_name@),
    {
        let mut i: usize = 0;
        while i < self.disabled_tools.len()
            invariant
                i <= self.disabled_tools.len(),
                forall|j: int| 0 <= j < i ==> #[trigger] self.disabled_tools@[j]@ != tool_name@,
            decreases self.disabled_tools.len() - i,
        {
            if str_eq(self.disabled_tools[i].as_str(), tool_name) {
                assert(string_views(self.disabled_tools@)[i as int] == tool_name@);
                return false;
            }
            i = i + 1;
        }
        proof {
            if string_views(self.disabled_tools@).contains(tool_name@) {
                let j = choose|j: int|
                    0 <= j < string_views(self.disabled_tools@).len() && string_views(
                        self.disabled_tools@,
                    )[j] == tool_name@;
                assert(self.disabled_tools@[j]@ == tool_name@);
            }
        }
        true
    }

    /// The workspace storage directory inside the workspace.
    pub fn workspace_storage_root_in_workspace(&self) -> (r: String)
        ensures
            r@ == spec_storage_in_workspace(*self),
    {
        join_path(self.workspace_root.as_str(), self.workspace_storage_root_dir.as_str())
    }

    /// The effective workspace storage root; `os` holds the directories the operating
    /// system reports, consulted where the host gave none.
    pub fn effective_workspace_storage_root(&self, os: &HostPaths) -> (r: String)
        ensures
            r@ == spec_workspace_storage_root(*self, *os),
    {
        match self.storage_workspace_location {
            StorageWorkspaceLocation::Workspace => self.workspace_storage_root_in_workspace(),
            StorageWorkspaceLocation::User => match host_or_os_exec(
                &self.host_user_data_dir,
                &os.user_data_dir,
            ) {
                Some(d) => {
                    let a = join_path(d.as_str(), "alfred");
                    let b = join_path(a.as_str(), self.workspace_id.as_str());
                    join_path(b.as_str(), "data")
                },
                None => self.workspace_storage_root_in_workspace(),
            },
        }
    }

    /// The effective persisted-index root of this workspace.
    pub fn effective_workspace_index_root(&self, os: &HostPaths) -> (r: String)
        ensures
            r@ == spec_workspace_index_root(*self, *os),
    {
        match self.index_persistence_location {
            IndexPersistenceLocation::Workspace => match &self.index_persistence_path {
                Some(p) => join_path(self.workspace_root.as_str(), p.as_str()),
                None => {
                    let root = self.effective_workspace_storage_root(os);
                    join_path(root.as_str(), "index")
                },
            },
            IndexPersistenceLocation::UserData => match host_or_os_exec(
                &self.host_user_data_dir,
                &os.user_data_dir,
            ) {
                None => default_workspace_index_root(self.workspace_root.as_str()),
                Some(d) => match &self.index_persistence_path {
                    Some(p) => join_path(d.as_str(), p.as_str()),
                    None => {
                        let a = join_path(d.as_str(), "alfred");
                        let b = join_path(a.as_str(), self.workspace_id.as_str());
                        let c = join_path(b.as_str(), "data");
                        join_path(c.as_str(), "index")
                    },
                },
            },
        }
    }

    /// Candidate runtime log directories in preferred order.
    pub fn runtime_log_dir_candidates(&self, os: &HostPaths) -> (r: Vec<String>)
        ensures
            string_views(r@) == spec_log_candidates(*self, *os),
            r@.len() >= 1,
    {
        if let Some(raw) = &self.runtime_log_path {
            let mut v: Vec<String> = Vec::new();
            v.push(resolve_runtime_log_override_dir(self.workspace_root.as_str(), raw.as_str()));
            assert(string_views(v@) =~= spec_log_candidates(*self, *os));
            return v;
        }
        let root = self.workspace_storage_root_in_workspace();
        let workspace_dir = join_path(root.as_str(), "logs");
        let user_logs = host_or_os_exec(&self.host_user_logs_dir, &os.user_logs_dir);
        let user_data = match host_or_os_exec(&self.host_user_data_dir, &os.user_data_dir) {
            Some(d) => {
                let a = join_path(d.as_str(), "alfred");
                Some(join_path(a.as_str(), "logs"))
            },
            None => None,
        };
        let system_logs = host_or_os_exec(&self.host_system_logs_dir, &os.system_logs_dir);
        let mut v: Vec<String> = Vec::new();
        match self.runtime_log_location {
            RuntimeLogLocation::Workspace => {
                v.push(workspace_dir);
            },
            RuntimeLogLocation::UserLogs => {
                v.push(
                    match user_logs {
                        Some(d) => d,
                        None => workspace_dir.clone(),
                    },
                );
                v.push(workspace_dir);
            },
            RuntimeLogLocation::UserData => {
                v.push(
                    match user_data {
                        Some(d) => d,
                        None => workspace_dir.clone(),
                    },
                );
                v.push(workspace_dir);
            },
            RuntimeLogLocation::SystemLogs => {
                v.push(
                    match system_logs {
                        Some(d) => d,
                        None => workspace_dir.clone(),
                    },
                );
                v.push(workspace_dir);
            },
            RuntimeLogLocation::Auto => {
                if let Some(d) = user_logs {
                    v.push(d);
                }
                if let Some(d) = user_data {
                    v.push(d);
                }
                if let Some(d) = system_logs {
                    v.push(d);
                }
                v.push(workspace_dir);
            },
        }
        assert(string_views(v@) =~= spec_log_candidates(*self, *os));
        v
    }

    /// The runtime log file: `runtime.ndjson` in the preferred candidate directory, or in
    /// the workspace log directory under `Auto`.
    pub fn effective_runtime_log_path(&self, os: &HostPaths) -> (r: String)
        ensures
            r@ == spec_runtime_log_file(*self, *os),
    {
        if self.runtime_log_path.is_none() && self.runtime_log_location == RuntimeLogLocation::Auto {
            let root = self.workspace_storage_root_in_workspace();
            let dir = join_path(root.as_str(), "logs");
            return join_path(dir.as_str(), "runtime.ndjson");
        }
        let candidates = self.runtime_log_dir_candidates(os);
        assert(candidates@[0]@ == string_views(candidates@)[0]);
        join_path(candidates[0].as_str(), "runtime.ndjson")
    }

    /// The user-scoped memory root.
    pub fn effective_user_memory_root(&self, os: &HostPaths) -> (r: String)
        ensures
            r@ == spec_user_memory_root(*self, *os),
    {
        let local = {
            let root = self.workspace_storage_root_in_workspace();
            let a = join_path(root.as_str(), "user");
            join_path(a.as_str(), "memory")
        };
        match self.storage_user_location {
            StorageUserLocation::Workspace => local,
            StorageUserLocation::Os => match host_or_os_exec(
                &self.host_user_data_dir,
                &os.user_data_dir,
            ) {
                Some(d) => {
                    let a = join_path(d.as_str(), "alfred");
                    join_path(a.as_str(), "memory")
                },
                None => local,
            },
        }
    }

    /// The workspace-scoped memory root: `memory` under the workspace storage root.
    pub fn effective_workspace_memory_root(&self, os: &HostPaths) -> (r: String)
        ensures
            r@ == spec_join(spec_workspace_storage_root(*self, *os), "memory"@),
    {
        let root = self.effective_workspace_storage_root(os);
        join_path(root.as_str(), "memory")
    }

    /// The user memory store path, when user memory is enabled.
    pub fn effective_user_memory_store_path(&self, os: &HostPaths) -> (r: Option<String>)
        ensures
            opt_text(r) == spec_memory_store(
                self.memory_user_enabled,
                spec_user_memory_root(*self, *os),
                self.memory_user_path,
            ),
    {
        if !self.memory_user_enabled {
            return None;
        }
        let base = self.effective_user_memory_root(os);
        let root = match &self.memory_user_path {
            Some(p) => join_path(base.as_str(), p.as_str()),
            None => base,
        };
        Some(join_path(root.as_str(), "alfred"))
    }

    /// The workspace memory store path, when workspace memory is enabled.
    pub fn effective_workspace_memory_store_path(&self, os: &HostPaths) -> (r: Option<String>)
        ensures
            opt_text(r) == spec_memory_store(
                self.memory_workspace_enabled,
                spec_join(spec_workspace_storage_root(*self, *os), "memory"@),
                self.memory_workspace_path,
            ),
    {
        if !self.memory_workspace_enabled {
            return None;
        }
        let base = self.effective_workspace_memory_root(os);
        let root = match &self.memory_workspace_path {
            Some(p) => join_path(base.as_str(), p.as_str()),
            None => base,
        };
        Some(join_path(root.as_str(), "alfred"))
    }
}

} // verus!
