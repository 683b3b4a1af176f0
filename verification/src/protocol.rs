//! Shared protocol-facing types: execution modes, routes, limits and tool descriptors.

use vstd::prelude::*;

verus! {

/// Alfred tool execution mode.
#[derive(Clone, Copy, Debug, PartialEq, Eq, Structural)]
pub enum ExecutionMode {
    /// A single synchronous response.
    Sync,
    /// A response that may continue in the background.
    Background,
    /// A response that may stream multiple envelopes.
    Stream,
}

/// Canonical dispatch routes for Alfred's public tools.
#[derive(Clone, Copy, Debug, PartialEq, Eq, Structural)]
pub enum ToolRoute {
    Capabilities,
    WorkspaceDir,
    Status,
    Search,
    Fs,
    Patch,
    Logs,
    Plan,
    Memory,
}

/// Canonical limits advertised by a tool.
#[derive(Clone, Copy, Debug, PartialEq, Eq, Structural)]
pub struct ToolLimits {
    /// Maximum inline UTF-8 payload size.
    pub max_inline_utf8_bytes: Option<usize>,
    /// Maximum patch file count per call.
    pub max_patch_files_per_call: Option<usize>,
    /// Maximum bulk operation count per call.
    pub max_bulk_operations_per_call: Option<usize>,
    /// Maximum log record count per call.
    pub max_log_records_per_call: Option<usize>,
}

impl Default for ToolLimits {
    fn default() -> (r: Self)
        ensures
            r.max_inline_utf8_bytes is None,
            r.max_patch_files_per_call is None,
            r.max_bulk_operations_per_call is None,
            r.max_log_records_per_call is None,
    {
        ToolLimits {
            max_inline_utf8_bytes: None,
            max_patch_files_per_call: None,
            max_bulk_operations_per_call: None,
            max_log_records_per_call: None,
        }
    }
}

/// A single public tool descriptor.
#[derive(Clone, Debug)]
pub struct ToolDescriptor {
    /// Stable public tool name.
    pub name: String,
    /// Tool version.
    pub version: String,
    /// Tool schema version.
    pub schema_version: String,
    /// Supported execution modes.
    pub execution_modes: Vec<ExecutionMode>,
    /// Optional capability limits.
    pub limits: Option<ToolLimits>,
}

/// The mathematical content of a tool descriptor.
pub struct DescriptorModel {
    pub name: Seq<char>,
    pub version: Seq<char>,
    pub schema_version: Seq<char>,
    pub execution_modes: Seq<ExecutionMode>,
    pub limits: Option<ToolLimits>,
}

impl View for ToolDescriptor {
    type V = DescriptorModel;

    open spec fn view(&self) -> DescriptorModel {
        DescriptorModel {
            name: self.name@,
            version: self.version@,
            schema_version: self.schema_version@,
            execution_modes: self.execution_modes@,
            limits: self.limits,
        }
    }
}

} // verus!
