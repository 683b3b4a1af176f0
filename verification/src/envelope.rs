//! Canonical tool result envelope.

use vstd::prelude::*;

use crate::json::JsonValue;

verus! {

/// Envelope state for a tool result.
#[derive(Clone, Copy, Debug, PartialEq, Eq, Structural)]
pub enum EnvelopeStatus {
    /// The tool completed successfully (serialized as `ok`).
    Success,
    /// The tool completed with deterministic errors.
    Error,
    /// The tool was accepted for background execution.
    Pending,
}

/// Transport-specific metadata preserved in the envelope.
#[derive(Clone, Copy, Debug, PartialEq, Eq, Structural)]
pub struct TransportEquivalent {
    /// Expected HTTP status for the envelope when bridged from stdio.
    pub http_status: Option<u16>,
}

/// Common metadata shared by tool result envelopes.
pub struct ToolMeta {
    /// Tool name.
    pub tool: String,
    /// Tool result schema version.
    pub schema_version: String,
    /// Observed duration in milliseconds.
    pub duration_ms: Option<u64>,
    /// Transport-specific metadata.
    pub transport_equivalent: Option<TransportEquivalent>,
}

/// Deterministic warning emitted alongside a result.
pub struct ToolWarning {
    /// Stable warning kind.
    pub kind: String,
    /// Human-readable warning message.
    pub message: Option<String>,
}

/// Deterministic error emitted by Alfred.
pub struct DeterministicError {
    /// Stable error kind.
    pub kind: String,
    /// Stable human-readable message.
    pub message: String,
    /// Whether the client may retry the operation.
    pub retryable: bool,
    /// Optional structured details.
    pub details: Option<JsonValue>,
}

/// Generic Alfred tool result envelope.
pub struct ToolEnvelope<T> {
    /// Result status.
    pub status: EnvelopeStatus,
    /// Tool-specific payload.
    pub data: Option<T>,
    /// Non-fatal warnings.
    pub warnings: Vec<ToolWarning>,
    /// Deterministic errors.
    pub errors: Vec<DeterministicError>,
    /// Common metadata.
    pub meta: ToolMeta,
}

} // verus!
