//! Canonical tool execution for the currently implemented tools: `capabilities`,
//! `workspace_dir` and `status`. Host facts (the process working directory, the
//! machine's memory, elapsed time) are supplied by the caller.

use vstd::prelude::*;
use vstd::string::StringSliceAdditionalSpecFns;

use crate::design::{SERVER_VERSION, TOOL_SCHEMA_VERSION};
use crate::envelope::{DeterministicError, EnvelopeStatus, ToolEnvelope, ToolMeta, ToolWarning};
use crate::json::{
    array_items, bool_value, json_optional_unsigned, json_text, json_string, json_unsigned,
    object_entries, push_entry, text_value, unsigned_value, JsonValue,
};
use crate::paths::{join_path, spec_join};
use crate::protocol::{ExecutionMode, ToolDescriptor, ToolLimits, ToolRoute};
use crate::text::{digit_char, push_char};

verus! {

broadcast use vstd::string::group_string_axioms;

/// A host filesystem path: its text when it is valid Unicode, and its lossy rendering.
pub struct HostPath {
    pub text: Option<String>,
    pub lossy: String,
}

/// Facts about the host that tool execution reads.
pub struct HostContext {
    /// The process working directory, or `None` when it cannot be resolved.
    pub workspace_root: Option<HostPath>,
    /// Whether `docs/design/ProjectPlan.md` exists under the workspace root.
    pub design_plan_exists: bool,
    /// Total system memory in bytes.
    pub total_memory: u64,
    /// Elapsed time of the call in milliseconds.
    pub duration_ms: u64,
}

/// A path rendered for protocol output, with the warnings its rendering produced.
pub struct RenderedProtocolPath {
    pub actual: HostPath,
    pub rendered: String,
    pub warnings: Vec<ToolWarning>,
}

// ---------------------------------------------------------------------------
// Percent encoding
// ---------------------------------------------------------------------------

/// Bytes that percent encoding keeps as they are.
pub open spec fn is_unreserved(b: u8) -> bool {
    (65 <= b <= 90) || (97 <= b <= 122) || (48 <= b <= 57) || b == 45 || b == 95 || b == 46
        || b == 47 || b == 126 || b == 32
}

/// An upper-case hexadecimal digit.
pub open spec fn hex_upper_digit(n: nat) -> char {
    if n < 10 {
        digit_char(n)
    } else if n == 10 {
        'A'
    } else if n == 11 {
        'B'
    } else if n == 12 {
        'C'
    } else if n == 13 {
        'D'
    } else if n == 14 {
        'E'
    } else {
        'F'
    }
}

/// The encoding of one byte.
pub open spec fn percent_piece(b: u8) -> Seq<char> {
    if is_unreserved(b) {
        seq![b as char]
    } else {
        seq!['%', hex_upper_digit((b / 16) as nat), hex_upper_digit((b % 16) as nat)]
    }
}

/// Percent encoding of a byte string.
pub open spec fn percent_encoded(bytes: Seq<u8>) -> Seq<char>
    decreases bytes.len(),
{
    if bytes.len() == 0 {
        Seq::empty()
    } else {
        percent_encoded(bytes.drop_last()) + percent_piece(bytes.last())
    }
}

fn hex_upper(n: u8) -> (c: char)
    requires
        n < 16,
    ensures
        c == hex_upper_digit(n as nat),
{
    if n == 0 {
        '0'
    } else if n == 1 {
        '1'
    } else if n == 2 {
        '2'
    } else if n == 3 {
        '3'
    } else if n == 4 {
        '4'
    } else if n == 5 {
        '5'
    } else if n == 6 {
        '6'
    } else if n == 7 {
        '7'
    } else if n == 8 {
        '8'
    } else if n == 9 {
        '9'
    } else if n == 10 {
        'A'
    } else if n == 11 {
        'B'
    } else if n == 12 {
        'C'
    } else if n == 13 {
        'D'
    } else if n == 14 {
        'E'
    } else {
        'F'
    }
}

/// Percent-encodes the UTF-8 bytes of `text`, keeping unreserved ASCII bytes.
pub fn percent_encode_utf8(text: &str) -> (s: String)
    ensures
        s@ == percent_encoded(text.spec_bytes()),
{
    let bytes = text.as_bytes();
    let mut out = String::new();
    let mut i: usize = 0;
    while i < bytes.len()
        invariant
            i <= bytes.len(),
            bytes@ == text.spec_bytes(),
            out@ == percent_encoded(bytes@.subrange(0, i as int)),
        decreases bytes.len() - i,
    {
        let b = bytes[i];
        proof {
            let pre = bytes@.subrange(0, i + 1);
            assert(pre.drop_last() =~= bytes@.subrange(0, i as int));
            assert(pre.last() == b);
        }
        if (65 <= b && b <= 90) || (97 <= b && b <= 122) || (48 <= b && b <= 57) || b == 45 || b
            == 95 || b == 46 || b == 47 || b == 126 || b == 32 {
            push_char(&mut out, b as char);
        } else {
            push_char(&mut out, '%');
            push_char(&mut out, hex_upper(b / 16));
            push_char(&mut out, hex_upper(b % 16));
        }
        i = i + 1;
    }
    assert(bytes@.subrange(0, bytes@.len() as int) =~= bytes@);
    out
}

// ---------------------------------------------------------------------------
// Protocol paths
// ---------------------------------------------------------------------------

/// The text a protocol path renders to.
pub open spec fn rendered_text(path: HostPath) -> Seq<char> {
    match path.text {
        Some(t) => t@,
        None => percent_encoded(vstd::utf8::encode_utf8(path.lossy@)),
    }
}

/// The warning attached to a percent-encoded path.
pub open spec fn is_path_encoded_warning(w: ToolWarning) -> bool {
    &&& w.kind@ == "path_encoded"@
    &&& w.message is Some
}

fn path_encoded_warning() -> (w: ToolWarning)
    ensures
        is_path_encoded_warning(w),
{
    ToolWarning {
        kind: "path_encoded".to_string(),
        message: Some(
            "A protocol path required deterministic percent-encoding to remain valid UTF-8.".to_string(),
        ),
    }
}

/// Renders a host path for protocol output; non-Unicode paths are percent-encoded
/// and produce a `path_encoded` warning.
pub fn render_protocol_path(path: HostPath) -> (r: RenderedProtocolPath)
    ensures
        r.rendered@ == rendered_text(path),
        r.actual == path,
        path.text is Some ==> r.warnings@.len() == 0,
        path.text is None ==> r.warnings@.len() == 1 && is_path_encoded_warning(r.warnings@[0]),
{
    match &path.text {
        Some(text) => {
            let rendered = text.clone();
            RenderedProtocolPath { actual: path, rendered, warnings: Vec::new() }
        },
        None => {
            let rendered = percent_encode_utf8(path.lossy.as_str());
            let mut warnings = Vec::new();
            warnings.push(path_encoded_warning());
            RenderedProtocolPath { actual: path, rendered, warnings }
        },
    }
}

/// A host path joined with a relative path.
pub open spec fn host_join(path: HostPath, rel: Seq<char>) -> (Option<Seq<char>>, Seq<char>) {
    (
        match path.text {
            Some(t) => Some(spec_join(t@, rel)),
            None => None,
        },
        spec_join(path.lossy@, rel),
    )
}

fn join_host_path(path: &HostPath, rel: &str) -> (r: HostPath)
    ensures
        host_join(*path, rel@) == (
            match r.text {
                Some(t) => Some(t@),
                None => None,
            },
            r.lossy@,
        ),
{
    let text = match &path.text {
        Some(t) => Some(join_path(t.as_str(), rel)),
        None => None,
    };
    HostPath { text, lossy: join_path(path.lossy.as_str(), rel) }
}

/// The default project plan path for a workspace root.
pub fn default_plan_path(workspace_root: &HostPath, design_plan_exists: bool) -> (r: HostPath)
    ensures
        host_join(
            *workspace_root,
            if design_plan_exists {
                "docs/design/ProjectPlan.md"@
            } else {
                "ProjectPlan.md"@
            },
        ) == (
            match r.text {
                Some(t) => Some(t@),
                None => None,
            },
            r.lossy@,
        ),
{
    if design_plan_exists {
        join_host_path(workspace_root, "docs/design/ProjectPlan.md")
    } else {
        join_host_path(workspace_root, "ProjectPlan.md")
    }
}

/// The runtime log directory for a workspace root.
pub fn default_runtime_logs_path(workspace_root: &HostPath) -> (r: HostPath)
    ensures
        host_join(*workspace_root, ".alfred/logs"@) == (
            match r.text {
                Some(t) => Some(t@),
                None => None,
            },
            r.lossy@,
        ),
{
    join_host_path(workspace_root, ".alfred/logs")
}

// ---------------------------------------------------------------------------
// Deterministic errors
// ---------------------------------------------------------------------------

/// `details` is the object `{"tool": tool}`.
pub open spec fn is_tool_details(details: Option<JsonValue>, tool: Seq<char>) -> bool {
    match details {
        Some(d) => d is Object && object_entries(d).len() == 1 && object_entries(d)[0].0@
            == "tool"@ && text_value(object_entries(d)[0].1, tool),
        None => false,
    }
}

/// `details` is the object `{"reason": reason, "tool": tool}`.
pub open spec fn is_reason_details(
    details: Option<JsonValue>,
    reason: Seq<char>,
    tool: Seq<char>,
) -> bool {
    match details {
        Some(d) => d is Object && object_entries(d).len() == 2 && object_entries(d)[0].0@
            == "reason"@ && text_value(object_entries(d)[0].1, reason) && object_entries(d)[1].0@
            == "tool"@ && text_value(object_entries(d)[1].1, tool),
        None => false,
    }
}

fn tool_details(tool_name: &str) -> (d: JsonValue)
    ensures
        is_tool_details(Some(d), tool_name@),
{
    let mut entries = Vec::new();
    push_entry(&mut entries, "tool", json_text(tool_name));
    JsonValue::Object(entries)
}

fn reason_details(reason: &str, tool_name: &str) -> (d: JsonValue)
    ensures
        is_reason_details(Some(d), reason@, tool_name@),
{
    let mut entries = Vec::new();
    push_entry(&mut entries, "reason", json_text(reason));
    push_entry(&mut entries, "tool", json_text(tool_name));
    JsonValue::Object(entries)
}

/// An `invalid_argument` error; without explicit details it names the tool.
pub fn invalid_argument_error(tool_name: &str, message: &str, details: Option<JsonValue>) -> (e:
    DeterministicError)
    ensures
        e.kind@ == "invalid_argument"@,
        e.message@ == message@,
        !e.retryable,
        details is Some ==> e.details == details,
        details is None ==> is_tool_details(e.details, tool_name@),
{
    let details = match details {
        Some(d) => Some(d),
        None => Some(tool_details(tool_name)),
    };
    DeterministicError {
        kind: "invalid_argument".to_string(),
        message: message.to_string(),
        retryable: false,
        details,
    }
}

/// An `io_error` naming the tool.
pub fn io_error(tool_name: &str, message: &str) -> (e: DeterministicError)
    ensures
        e.kind@ == "io_error"@,
        e.message@ == message@,
        e.retryable,
        is_tool_details(e.details, tool_name@),
{
    DeterministicError {
        kind: "io_error".to_string(),
        message: message.to_string(),
        retryable: true,
        details: Some(tool_details(tool_name)),
    }
}

/// A `tool_unavailable` error for an advertised but unimplemented tool.
pub fn tool_unavailable_error(tool_name: &str) -> (e: DeterministicError)
    ensures
        e.kind@ == "tool_unavailable"@,
        e.retryable,
        is_reason_details(e.details, "not_implemented"@, tool_name@),
{
    DeterministicError {
        kind: "tool_unavailable".to_string(),
        message: "The requested tool is advertised but is not implemented yet.".to_string(),
        retryable: true,
        details: Some(reason_details("not_implemented", tool_name)),
    }
}

/// Envelope metadata for a tool call.
pub fn meta(tool_name: &str, duration_ms: u64) -> (m: ToolMeta)
    ensures
        m.tool@ == tool_name@,
        m.schema_version@ == TOOL_SCHEMA_VERSION@,
        m.duration_ms == Some(duration_ms),
        m.transport_equivalent is None,
{
    ToolMeta {
        tool: tool_name.to_string(),
        schema_version: TOOL_SCHEMA_VERSION.to_string(),
        duration_ms: Some(duration_ms),
        transport_equivalent: None,
    }
}

// ---------------------------------------------------------------------------
// Arguments
// ---------------------------------------------------------------------------

/// Whether the arguments fit a tool that takes none (absent, `null`, `{}` or `[]`).
pub open spec fn no_arguments_accepted(arguments: Option<JsonValue>) -> bool {
    match arguments {
        None => true,
        Some(JsonValue::Null) => true,
        Some(JsonValue::Object(entries)) => entries@.len() == 0,
        Some(JsonValue::Array(items)) => items@.len() == 0,
        _ => false,
    }
}

/// The `verbose` flag of `status` arguments, or `None` when they do not fit
/// `{"verbose": <bool>}` (absent and `null` arguments mean `false`).
pub open spec fn status_verbose(arguments: Option<JsonValue>) -> Option<bool> {
    match arguments {
        None => Some(false),
        Some(JsonValue::Null) => Some(false),
        Some(JsonValue::Object(entries)) => if entries@.len() == 1 && entries@[0].0@ == "verbose"@
            && entries@[0].1 is Bool {
            Some(entries@[0].1->Bool_0)
        } else {
            None
        },
        Some(JsonValue::Array(items)) => if items@.len() == 1 && items@[0] is Bool {
            Some(items@[0]->Bool_0)
        } else {
            None
        },
        _ => None,
    }
}

fn accepts_no_arguments(arguments: Option<&JsonValue>) -> (r: bool)
    ensures
        r == no_arguments_accepted(
            match arguments {
                Some(v) => Some(*v),
                None => None,
            },
        ),
{
    match arguments {
        None => true,
        Some(JsonValue::Null) => true,
        Some(JsonValue::Object(entries)) => entries.len() == 0,
        Some(JsonValue::Array(items)) => items.len() == 0,
        _ => false,
    }
}

fn parse_status_verbose(arguments: Option<&JsonValue>) -> (r: Option<bool>)
    ensures
        r == status_verbose(
            match arguments {
                Some(v) => Some(*v),
                None => None,
            },
        ),
{
    match arguments {
        None => Some(false),
        Some(JsonValue::Null) => Some(false),
        Some(JsonValue::Object(entries)) => {
            if entries.len() == 1 && crate::text::str_eq(entries[0].0.as_str(), "verbose") {
                match &entries[0].1 {
                    JsonValue::Bool(b) => Some(*b),
                    _ => None,
                }
            } else {
                None
            }
        },
        Some(JsonValue::Array(items)) => {
            if items.len() == 1 {
                match &items[0] {
                    JsonValue::Bool(b) => Some(*b),
                    _ => None,
                }
            } else {
                None
            }
        },
        _ => None,
    }
}

/// The deterministic error for arguments that do not fit a tool's contract.
pub open spec fn is_invalid_arguments_error(e: DeterministicError, tool: Seq<char>) -> bool {
    &&& e.kind@ == "invalid_argument"@
    &&& !e.retryable
    &&& is_reason_details(e.details, "invalid_arguments"@, tool)
}

fn invalid_arguments(tool_name: &str) -> (e: DeterministicError)
    ensures
        is_invalid_arguments_error(e, tool_name@),
{
    invalid_argument_error(
        tool_name,
        "The supplied tool arguments do not match the canonical contract.",
        Some(reason_details("invalid_arguments", tool_name)),
    )
}

// ---------------------------------------------------------------------------
// Payloads
// ---------------------------------------------------------------------------

/// The serialized name of an execution mode.
pub open spec fn mode_text(mode: ExecutionMode) -> Seq<char> {
    match mode {
        ExecutionMode::Sync => "Sync"@,
        ExecutionMode::Background => "Background"@,
        ExecutionMode::Stream => "Stream"@,
    }
}

/// `v` is `n` as a JSON number, or `null` when `n` is `None`.
pub open spec fn optional_unsigned_value(v: JsonValue, n: Option<usize>) -> bool {
    match n {
        Some(x) => unsigned_value(v, x as u64),
        None => v is Null,
    }
}

/// `v` is the serialization of optional limits.
pub open spec fn limits_json(v: JsonValue, limits: Option<ToolLimits>) -> bool {
    match limits {
        None => v is Null,
        Some(l) => {
            let e = object_entries(v);
            &&& v is Object
            &&& e.len() == 4
            &&& e[0].0@ == "max_inline_utf8_bytes"@
            &&& optional_unsigned_value(e[0].1, l.max_inline_utf8_bytes)
            &&& e[1].0@ == "max_patch_files_per_call"@
            &&& optional_unsigned_value(e[1].1, l.max_patch_files_per_call)
            &&& e[2].0@ == "max_bulk_operations_per_call"@
            &&& optional_unsigned_value(e[2].1, l.max_bulk_operations_per_call)
            &&& e[3].0@ == "max_log_records_per_call"@
            &&& optional_unsigned_value(e[3].1, l.max_log_records_per_call)
        },
    }
}

/// `v` is the serialization of a tool descriptor.
pub open spec fn descriptor_json(v: JsonValue, d: ToolDescriptor) -> bool {
    let e = object_entries(v);
    let modes = array_items(e[3].1);
    &&& v is Object
    &&& e.len() == 5
    &&& e[0].0@ == "name"@ && text_value(e[0].1, d.name@)
    &&& e[1].0@ == "version"@ && text_value(e[1].1, d.version@)
    &&& e[2].0@ == "schema_version"@ && text_value(e[2].1, d.schema_version@)
    &&& e[3].0@ == "execution_modes"@ && e[3].1 is Array
    &&& modes.len() == d.execution_modes@.len()
    &&& forall|i: int|
        0 <= i < modes.len() ==> text_value(#[trigger] modes[i], mode_text(d.execution_modes@[i]))
    &&& e[4].0@ == "limits"@ && limits_json(e[4].1, d.limits)
}

/// `v` is the `capabilities` payload `{"tools": [...]}` for `tools`.
pub open spec fn capabilities_payload_json(v: JsonValue, tools: Seq<ToolDescriptor>) -> bool {
    let e = object_entries(v);
    let items = array_items(e[0].1);
    &&& v is Object
    &&& e.len() == 1
    &&& e[0].0@ == "tools"@ && e[0].1 is Array
    &&& items.len() == tools.len()
    &&& forall|i: int| 0 <= i < items.len() ==> descriptor_json(#[trigger] items[i], tools[i])
}

fn mode_json(mode: ExecutionMode) -> (v: JsonValue)
    ensures
        text_value(v, mode_text(mode)),
{
    match mode {
        ExecutionMode::Sync => json_text("Sync"),
        ExecutionMode::Background => json_text("Background"),
        ExecutionMode::Stream => json_text("Stream"),
    }
}

fn limits_to_json(limits: Option<ToolLimits>) -> (v: JsonValue)
    ensures
        limits_json(v, limits),
{
    match limits {
        None => JsonValue::Null,
        Some(l) => {
            let mut entries = Vec::new();
            push_entry(
                &mut entries,
                "max_inline_utf8_bytes",
                json_optional_unsigned(l.max_inline_utf8_bytes),
            );
            push_entry(
                &mut entries,
                "max_patch_files_per_call",
                json_optional_unsigned(l.max_patch_files_per_call),
            );
            push_entry(
                &mut entries,
                "max_bulk_operations_per_call",
                json_optional_unsigned(l.max_bulk_operations_per_call),
            );
            push_entry(
                &mut entries,
                "max_log_records_per_call",
                json_optional_unsigned(l.max_log_records_per_call),
            );
            JsonValue::Object(entries)
        },
    }
}

/// Serializes a tool descriptor.
pub fn descriptor_to_json(d: &ToolDescriptor) -> (v: JsonValue)
    ensures
        descriptor_json(v, *d),
{
    let mut modes: Vec<JsonValue> = Vec::new();
    let mut i: usize = 0;
    while i < d.execution_modes.len()
        invariant
            i <= d.execution_modes.len(),
            modes@.len() == i,
            forall|j: int|
                0 <= j < i ==> text_value(#[trigger] modes@[j], mode_text(d.execution_modes@[j])),
        decreases d.execution_modes.len() - i,
    {
        modes.push(mode_json(d.execution_modes[i]));
        i = i + 1;
    }
    let mut entries = Vec::new();
    push_entry(&mut entries, "name", json_string(d.name.clone()));
    push_entry(&mut entries, "version", json_string(d.version.clone()));
    push_entry(&mut entries, "schema_version", json_string(d.schema_version.clone()));
    push_entry(&mut entries, "execution_modes", JsonValue::Array(modes));
    push_entry(&mut entries, "limits", limits_to_json(d.limits));
    JsonValue::Object(entries)
}

/// Builds the `capabilities` payload.
pub fn capabilities_to_json(tools: &[ToolDescriptor]) -> (v: JsonValue)
    ensures
        capabilities_payload_json(v, tools@),
{
    let mut items: Vec<JsonValue> = Vec::new();
    let mut i: usize = 0;
    while i < tools.len()
        invariant
            i <= tools.len(),
            items@.len() == i,
            forall|j: int| 0 <= j < i ==> descriptor_json(#[trigger] items@[j], tools@[j]),
        decreases tools.len() - i,
    {
        items.push(descriptor_to_json(&tools[i]));
        i = i + 1;
    }
    let mut entries = Vec::new();
    push_entry(&mut entries, "tools", JsonValue::Array(items));
    JsonValue::Object(entries)
}

/// `v` is the `status` payload.
pub open spec fn status_payload_json(
    v: JsonValue,
    total_memory: u64,
    root: Seq<char>,
    plan: Seq<char>,
    logs: Seq<char>,
) -> bool {
    let e = object_entries(v);
    let paths = object_entries(e[3].1);
    let index = object_entries(e[4].1);
    let memory = object_entries(e[5].1);
    &&& v is Object && e.len() == 6
    &&& e[0].0@ == "version"@ && text_value(e[0].1, SERVER_VERSION@)
    &&& e[1].0@ == "total_memory"@ && unsigned_value(e[1].1, total_memory)
    &&& e[2].0@ == "workspace_root"@ && text_value(e[2].1, root)
    &&& e[3].0@ == "paths"@ && e[3].1 is Object && paths.len() == 2
    &&& paths[0].0@ == "plan"@ && text_value(paths[0].1, plan)
    &&& paths[1].0@ == "alfred_logs"@ && text_value(paths[1].1, logs)
    &&& e[4].0@ == "index"@ && e[4].1 is Object && index.len() == 3
    &&& index[0].0@ == "ready"@ && bool_value(index[0].1, false)
    &&& index[1].0@ == "indexed_files"@ && unsigned_value(index[1].1, 0)
    &&& index[2].0@ == "indexed_directories"@ && unsigned_value(index[2].1, 0)
    &&& e[5].0@ == "memory"@ && e[5].1 is Object && memory.len() == 2
    &&& memory[0].0@ == "ready"@ && bool_value(memory[0].1, false)
    &&& memory[1].0@ == "indexed_memories"@ && unsigned_value(memory[1].1, 0)
}

fn status_to_json(total_memory: u64, root: String, plan: String, logs: String) -> (v: JsonValue)
    ensures
        status_payload_json(v, total_memory, root@, plan@, logs@),
{
    let mut paths = Vec::new();
    push_entry(&mut paths, "plan", json_string(plan));
    push_entry(&mut paths, "alfred_logs", json_string(logs));
    let mut index = Vec::new();
    push_entry(&mut index, "ready", JsonValue::Bool(false));
    push_entry(&mut index, "indexed_files", json_unsigned(0));
    push_entry(&mut index, "indexed_directories", json_unsigned(0));
    let mut memory = Vec::new();
    push_entry(&mut memory, "ready", JsonValue::Bool(false));
    push_entry(&mut memory, "indexed_memories", json_unsigned(0));
    let mut entries = Vec::new();
    push_entry(&mut entries, "version", json_text(SERVER_VERSION));
    push_entry(&mut entries, "total_memory", json_unsigned(total_memory));
    push_entry(&mut entries, "workspace_root", json_string(root));
    push_entry(&mut entries, "paths", JsonValue::Object(paths));
    push_entry(&mut entries, "index", JsonValue::Object(index));
    push_entry(&mut entries, "memory", JsonValue::Object(memory));
    JsonValue::Object(entries)
}

/// `v` is the `workspace_dir` payload `{"root": root}`.
pub open spec fn workspace_dir_payload_json(v: JsonValue, root: Seq<char>) -> bool {
    let e = object_entries(v);
    &&& v is Object && e.len() == 1
    &&& e[0].0@ == "root"@ && text_value(e[0].1, root)
}

/// The successful data of a tool together with its warnings.
pub struct ToolPayload {
    pub data: JsonValue,
    pub warnings: Vec<ToolWarning>,
}

/// The error for a working directory that cannot be resolved.
pub open spec fn is_workspace_root_error(e: DeterministicError, tool: Seq<char>) -> bool {
    &&& e.kind@ == "io_error"@
    &&& e.retryable
    &&& is_tool_details(e.details, tool)
}

fn resolve_workspace_root(tool_name: &str, host: &HostContext) -> (r: Result<
    RenderedProtocolPath,
    DeterministicError,
>)
    ensures
        match host.workspace_root {
            Some(root) => r is Ok && r->Ok_0.rendered@ == rendered_text(root) && r->Ok_0.actual
                == root && (root.text is Some
                ==> r->Ok_0.warnings@.len() == 0),
            None => r is Err && is_workspace_root_error(r->Err_0, tool_name@),
        },
{
    match &host.workspace_root {
        Some(root) => {
            let copy = HostPath {
                text: match &root.text {
                    Some(t) => Some(t.clone()),
                    None => None,
                },
                lossy: root.lossy.clone(),
            };
            Ok(render_protocol_path(copy))
        },
        None => Err(
            io_error(
                tool_name,
                "Alfred could not resolve the current workspace root from the process working directory.",
            ),
        ),
    }
}

/// The outcome the tool payload step gives for a route.
pub open spec fn payload_outcome_ok(
    route: ToolRoute,
    tool: Seq<char>,
    arguments: Option<JsonValue>,
    host: HostContext,
) -> bool {
    match route {
        ToolRoute::Capabilities => no_arguments_accepted(arguments),
        ToolRoute::WorkspaceDir => no_arguments_accepted(arguments) && host.workspace_root is Some,
        ToolRoute::Status => status_verbose(arguments) is Some && host.workspace_root is Some,
        _ => false,
    }
}

/// The error the tool payload step gives for a route when it fails.
pub open spec fn payload_error(
    e: DeterministicError,
    route: ToolRoute,
    tool: Seq<char>,
    arguments: Option<JsonValue>,
    host: HostContext,
) -> bool {
    match route {
        ToolRoute::Capabilities => is_invalid_arguments_error(e, tool),
        ToolRoute::WorkspaceDir => if !no_arguments_accepted(arguments) {
            is_invalid_arguments_error(e, tool)
        } else {
            is_workspace_root_error(e, tool)
        },
        ToolRoute::Status => if status_verbose(arguments) is None {
            is_invalid_arguments_error(e, tool)
        } else {
            is_workspace_root_error(e, tool)
        },
        _ => e.kind@ == "tool_unavailable"@ && e.retryable && is_reason_details(
            e.details,
            "not_implemented"@,
            tool,
        ),
    }
}

/// The data the tool payload step gives for a route when it succeeds.
pub open spec fn payload_data(
    v: JsonValue,
    route: ToolRoute,
    tools: Seq<ToolDescriptor>,
    host: HostContext,
) -> bool {
    match route {
        ToolRoute::Capabilities => capabilities_payload_json(v, tools),
        ToolRoute::WorkspaceDir => workspace_dir_payload_json(
            v,
            rendered_text(host.workspace_root->0),
        ),
        ToolRoute::Status => {
            let root = host.workspace_root->0;
            let plan = host_join(
                root,
                if host.design_plan_exists {
                    "docs/design/ProjectPlan.md"@
                } else {
                    "ProjectPlan.md"@
                },
            );
            let logs = host_join(root, ".alfred/logs"@);
            status_payload_json(
                v,
                host.total_memory,
                rendered_text(root),
                rendered_joined(plan),
                rendered_joined(logs),
            )
        },
        _ => false,
    }
}

/// The rendering of a joined host path given as (text, lossy).
pub open spec fn rendered_joined(p: (Option<Seq<char>>, Seq<char>)) -> Seq<char> {
    match p.0 {
        Some(t) => t,
        None => percent_encoded(vstd::utf8::encode_utf8(p.1)),
    }
}

fn execute_tool_payload(
    route: ToolRoute,
    tool_name: &str,
    arguments: Option<&JsonValue>,
    tools: &[ToolDescriptor],
    host: &HostContext,
) -> (r: Result<ToolPayload, DeterministicError>)
    ensures
        ({
            let args = match arguments {
                Some(v) => Some(*v),
                None => None,
            };
            &&& (r is Ok) == payload_outcome_ok(route, tool_name@, args, *host)
            &&& r is Ok ==> payload_data(r->Ok_0.data, route, tools@, *host)
            &&& r is Err ==> payload_error(r->Err_0, route, tool_name@, args, *host)
        }),
{
    match route {
        ToolRoute::Capabilities => {
            if !accepts_no_arguments(arguments) {
                return Err(invalid_arguments(tool_name));
            }
            Ok(ToolPayload { data: capabilities_to_json(tools), warnings: Vec::new() })
        },
        ToolRoute::WorkspaceDir => {
            if !accepts_no_arguments(arguments) {
                return Err(invalid_arguments(tool_name));
            }
            let root = resolve_workspace_root(tool_name, host)?;
            let mut entries = Vec::new();
            push_entry(&mut entries, "root", json_string(root.rendered));
            Ok(ToolPayload { data: JsonValue::Object(entries), warnings: root.warnings })
        },
        ToolRoute::Status => {
            let verbose = parse_status_verbose(arguments);
            if verbose.is_none() {
                return Err(invalid_arguments(tool_name));
            }
            let root = resolve_workspace_root(tool_name, host)?;
            let plan = render_protocol_path(
                default_plan_path(&root.actual, host.design_plan_exists),
            );
            let logs = render_protocol_path(default_runtime_logs_path(&root.actual));
            let mut warnings = root.warnings;
            let mut plan_warnings = plan.warnings;
            let mut log_warnings = logs.warnings;
            warnings.append(&mut plan_warnings);
            warnings.append(&mut log_warnings);
            let data = status_to_json(host.total_memory, root.rendered, plan.rendered, logs.rendered);
            Ok(ToolPayload { data, warnings })
        },
        _ => Err(tool_unavailable_error(tool_name)),
    }
}

/// Executes a routed tool and wraps the outcome in an envelope.
pub fn execute_tool(
    descriptor: &ToolDescriptor,
    route: ToolRoute,
    arguments: Option<&JsonValue>,
    tools: &[ToolDescriptor],
    host: &HostContext,
) -> (r: ToolEnvelope<JsonValue>)
    ensures
        ({
            let args = match arguments {
                Some(v) => Some(*v),
                None => None,
            };
            let name = descriptor.name@;
            &&& r.meta.tool@ == name
            &&& r.meta.schema_version@ == TOOL_SCHEMA_VERSION@
            &&& r.meta.duration_ms == Some(host.duration_ms)
            &&& r.meta.transport_equivalent is None
            &&& if payload_outcome_ok(route, name, args, *host) {
                &&& r.status == EnvelopeStatus::Success
                &&& r.data is Some && payload_data(r.data->0, route, tools@, *host)
                &&& r.errors@.len() == 0
            } else {
                &&& r.status == EnvelopeStatus::Error
                &&& r.data is None
                &&& r.warnings@.len() == 0
                &&& r.errors@.len() == 1 && payload_error(r.errors@[0], route, name, args, *host)
            }
        }),
{
    match execute_tool_payload(route, descriptor.name.as_str(), arguments, tools, host) {
        Ok(payload) => ToolEnvelope {
            status: EnvelopeStatus::Success,
            data: Some(payload.data),
            warnings: payload.warnings,
            errors: Vec::new(),
            meta: meta(descriptor.name.as_str(), host.duration_ms),
        },
        Err(error) => {
            let mut errors = Vec::new();
            errors.push(error);
            ToolEnvelope {
                status: EnvelopeStatus::Error,
                data: None,
                warnings: Vec::new(),
                errors,
                meta: meta(descriptor.name.as_str(), host.duration_ms),
            }
        },
    }
}

/// The envelope for a tool name outside the advertised surface.
pub fn unknown_tool_response(name: &str, duration_ms: u64) -> (r: ToolEnvelope<JsonValue>)
    ensures
        r.status == EnvelopeStatus::Error,
        r.data is None,
        r.warnings@.len() == 0,
        r.errors@.len() == 1,
        r.errors@[0].kind@ == "invalid_argument"@,
        !r.errors@[0].retryable,
        is_reason_details(r.errors@[0].details, "unknown_tool"@, name@),
        r.meta.tool@ == name@,
        r.meta.schema_version@ == TOOL_SCHEMA_VERSION@,
        r.meta.duration_ms == Some(duration_ms),
{
    let mut errors = Vec::new();
    errors.push(
        invalid_argument_error(
            "tool",
            "The requested tool name is not part of Alfred's advertised tool surface.",
            Some(reason_details("unknown_tool", name)),
        ),
    );
    ToolEnvelope {
        status: EnvelopeStatus::Error,
        data: None,
        warnings: Vec::new(),
        errors,
        meta: meta(name, duration_ms),
    }
}

} // verus!
