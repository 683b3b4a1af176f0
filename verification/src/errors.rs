//! Deterministic error taxonomy: error kinds, the tool-level error payload and the
//! crate-level error enum.

use vstd::prelude::*;
use vstd::std_specs::convert::FromSpecImpl;

use crate::json::{copy_json, json_mapped, same_text, JsonValue};

verus! {

broadcast use vstd::string::group_string_axioms;

/// Canonical error kind values used in tool envelopes.
#[derive(Debug, Clone, Copy, PartialEq, Eq, Structural)]
pub enum ErrorKind {
    InvalidArgument,
    PermissionDenied,
    WorkspaceBoundaryViolation,
    Conflict,
    NotFound,
    ToolUnavailable,
    ResourceExhausted,
    Timeout,
    Canceled,
    IoError,
    Internal,
}

/// The stable snake_case name of an error kind.
pub open spec fn kind_name(kind: ErrorKind) -> Seq<char> {
    match kind {
        ErrorKind::InvalidArgument => "invalid_argument"@,
        ErrorKind::PermissionDenied => "permission_denied"@,
        ErrorKind::WorkspaceBoundaryViolation => "workspace_boundary_violation"@,
        ErrorKind::Conflict => "conflict"@,
        ErrorKind::NotFound => "not_found"@,
        ErrorKind::ToolUnavailable => "tool_unavailable"@,
        ErrorKind::ResourceExhausted => "resource_exhausted"@,
        ErrorKind::Timeout => "timeout"@,
        ErrorKind::Canceled => "canceled"@,
        ErrorKind::IoError => "io_error"@,
        ErrorKind::Internal => "internal"@,
    }
}

impl ErrorKind {
    /// Returns the stable snake_case name of the kind.
    pub fn name(&self) -> (s: &'static str)
        ensures
            s@ == kind_name(*self),
    {
        match self {
            ErrorKind::InvalidArgument => "invalid_argument",
            ErrorKind::PermissionDenied => "permission_denied",
            ErrorKind::WorkspaceBoundaryViolation => "workspace_boundary_violation",
            ErrorKind::Conflict => "conflict",
            ErrorKind::NotFound => "not_found",
            ErrorKind::ToolUnavailable => "tool_unavailable",
            ErrorKind::ResourceExhausted => "resource_exhausted",
            ErrorKind::Timeout => "timeout",
            ErrorKind::Canceled => "canceled",
            ErrorKind::IoError => "io_error",
            ErrorKind::Internal => "internal",
        }
    }
}

/// Structured tool-level error payload.
#[derive(Debug)]
pub struct ToolError {
    pub kind: ErrorKind,
    pub message: String,
    pub retryable: bool,
    pub details: Option<JsonValue>,
}

/// Internal crate-level error enum.
#[derive(Debug)]
pub enum AlfredError {
    InvalidArgument(String),
    InvalidArgumentWithDetails { message: String, details: Option<JsonValue> },
    PermissionDenied(String),
    WorkspaceBoundaryViolation(String),
    Conflict(String),
    ConflictWithDetails { message: String, details: Option<JsonValue> },
    NotFound(String),
    ToolUnavailable { message: String, details: Option<JsonValue> },
    ResourceExhausted(String),
    Timeout(String),
    Canceled(String),
    IoError(String),
    Internal(String),
}

/// The error kind a crate-level error maps to.
pub open spec fn error_kind_of(e: AlfredError) -> ErrorKind {
    match e {
        AlfredError::InvalidArgument(_) => ErrorKind::InvalidArgument,
        AlfredError::InvalidArgumentWithDetails { .. } => ErrorKind::InvalidArgument,
        AlfredError::PermissionDenied(_) => ErrorKind::PermissionDenied,
        AlfredError::WorkspaceBoundaryViolation(_) => ErrorKind::WorkspaceBoundaryViolation,
        AlfredError::Conflict(_) => ErrorKind::Conflict,
        AlfredError::ConflictWithDetails { .. } => ErrorKind::Conflict,
        AlfredError::NotFound(_) => ErrorKind::NotFound,
        AlfredError::ToolUnavailable { .. } => ErrorKind::ToolUnavailable,
        AlfredError::ResourceExhausted(_) => ErrorKind::ResourceExhausted,
        AlfredError::Timeout(_) => ErrorKind::Timeout,
        AlfredError::Canceled(_) => ErrorKind::Canceled,
        AlfredError::IoError(_) => ErrorKind::IoError,
        AlfredError::Internal(_) => ErrorKind::Internal,
    }
}

/// The message carried by a crate-level error.
pub open spec fn error_message_of(e: AlfredError) -> String {
    match e {
        AlfredError::InvalidArgument(m) => m,
        AlfredError::InvalidArgumentWithDetails { message, .. } => message,
        AlfredError::PermissionDenied(m) => m,
        AlfredError::WorkspaceBoundaryViolation(m) => m,
        AlfredError::Conflict(m) => m,
        AlfredError::ConflictWithDetails { message, .. } => message,
        AlfredError::NotFound(m) => m,
        AlfredError::ToolUnavailable { message, .. } => message,
        AlfredError::ResourceExhausted(m) => m,
        AlfredError::Timeout(m) => m,
        AlfredError::Canceled(m) => m,
        AlfredError::IoError(m) => m,
        AlfredError::Internal(m) => m,
    }
}

/// The structured details carried by a crate-level error.
pub open spec fn error_details_of(e: AlfredError) -> Option<JsonValue> {
    match e {
        AlfredError::InvalidArgumentWithDetails { details, .. } => details,
        AlfredError::ConflictWithDetails { details, .. } => details,
        AlfredError::ToolUnavailable { details, .. } => details,
        _ => None,
    }
}

/// Whether errors of a kind may be retried by the client.
pub open spec fn kind_is_retryable(kind: ErrorKind) -> bool {
    match kind {
        ErrorKind::ToolUnavailable | ErrorKind::ResourceExhausted | ErrorKind::Timeout
        | ErrorKind::Canceled | ErrorKind::IoError | ErrorKind::Internal => true,
        _ => false,
    }
}

/// The human-readable prefix of a crate-level error's rendering.
pub open spec fn error_prefix(kind: ErrorKind) -> Seq<char> {
    match kind {
        ErrorKind::InvalidArgument => "invalid argument: "@,
        ErrorKind::PermissionDenied => "permission denied: "@,
        ErrorKind::WorkspaceBoundaryViolation => "workspace boundary violation: "@,
        ErrorKind::Conflict => "conflict: "@,
        ErrorKind::NotFound => "not found: "@,
        ErrorKind::ToolUnavailable => "tool unavailable: "@,
        ErrorKind::ResourceExhausted => "resource exhausted: "@,
        ErrorKind::Timeout => "timeout: "@,
        ErrorKind::Canceled => "canceled: "@,
        ErrorKind::IoError => "io error: "@,
        ErrorKind::Internal => "internal: "@,
    }
}

impl AlfredError {
    /// The error kind of this error.
    pub fn kind(&self) -> (k: ErrorKind)
        ensures
            k == error_kind_of(*self),
    {
        match self {
            AlfredError::InvalidArgument(_) => ErrorKind::InvalidArgument,
            AlfredError::InvalidArgumentWithDetails { .. } => ErrorKind::InvalidArgument,
            AlfredError::PermissionDenied(_) => ErrorKind::PermissionDenied,
            AlfredError::WorkspaceBoundaryViolation(_) => ErrorKind::WorkspaceBoundaryViolation,
            AlfredError::Conflict(_) => ErrorKind::Conflict,
            AlfredError::ConflictWithDetails { .. } => ErrorKind::Conflict,
            AlfredError::NotFound(_) => ErrorKind::NotFound,
            AlfredError::ToolUnavailable { .. } => ErrorKind::ToolUnavailable,
            AlfredError::ResourceExhausted(_) => ErrorKind::ResourceExhausted,
            AlfredError::Timeout(_) => ErrorKind::Timeout,
            AlfredError::Canceled(_) => ErrorKind::Canceled,
            AlfredError::IoError(_) => ErrorKind::IoError,
            AlfredError::Internal(_) => ErrorKind::Internal,
        }
    }

    /// The message of this error.
    pub fn message(&self) -> (m: &String)
        ensures
            *m == error_message_of(*self),
    {
        match self {
            AlfredError::InvalidArgument(m) => m,
            AlfredError::InvalidArgumentWithDetails { message, .. } => message,
            AlfredError::PermissionDenied(m) => m,
            AlfredError::WorkspaceBoundaryViolation(m) => m,
            AlfredError::Conflict(m) => m,
            AlfredError::ConflictWithDetails { message, .. } => message,
            AlfredError::NotFound(m) => m,
            AlfredError::ToolUnavailable { message, .. } => message,
            AlfredError::ResourceExhausted(m) => m,
            AlfredError::Timeout(m) => m,
            AlfredError::Canceled(m) => m,
            AlfredError::IoError(m) => m,
            AlfredError::Internal(m) => m,
        }
    }

    /// Renders the error as `"<kind phrase>: <message>"`.
    pub fn to_display_string(&self) -> (s: String)
        ensures
            s@ == error_prefix(error_kind_of(*self)) + error_message_of(*self)@,
    {
        let prefix: &str = match self.kind() {
            ErrorKind::InvalidArgument => "invalid argument: ",
            ErrorKind::PermissionDenied => "permission denied: ",
            ErrorKind::WorkspaceBoundaryViolation => "workspace boundary violation: ",
            ErrorKind::Conflict => "conflict: ",
            ErrorKind::NotFound => "not found: ",
            ErrorKind::ToolUnavailable => "tool unavailable: ",
            ErrorKind::ResourceExhausted => "resource exhausted: ",
            ErrorKind::Timeout => "timeout: ",
            ErrorKind::Canceled => "canceled: ",
            ErrorKind::IoError => "io error: ",
            ErrorKind::Internal => "internal: ",
        };
        let mut s = String::from_str(prefix);
        s.append(self.message().as_str());
        s
    }
}

/// The tool-level payload of a crate-level error.
pub open spec fn tool_error_of(e: AlfredError) -> ToolError {
    ToolError {
        kind: error_kind_of(e),
        message: error_message_of(e),
        retryable: kind_is_retryable(error_kind_of(e)),
        details: error_details_of(e),
    }
}

impl From<AlfredError> for ToolError {
    fn from(value: AlfredError) -> (r: Self) {
        match value {
            AlfredError::InvalidArgument(message) => ToolError {
                kind: ErrorKind::InvalidArgument,
                message,
                retryable: false,
                details: None,
            },
            AlfredError::InvalidArgumentWithDetails { message, details } => ToolError {
                kind: ErrorKind::InvalidArgument,
                message,
                retryable: false,
                details,
            },
            AlfredError::PermissionDenied(message) => ToolError {
                kind: ErrorKind::PermissionDenied,
                message,
                retryable: false,
                details: None,
            },
            AlfredError::WorkspaceBoundaryViolation(message) => ToolError {
                kind: ErrorKind::WorkspaceBoundaryViolation,
                message,
                retryable: false,
                details: None,
            },
            AlfredError::Conflict(message) => ToolError {
                kind: ErrorKind::Conflict,
                message,
                retryable: false,
                details: None,
            },
            AlfredError::ConflictWithDetails { message, details } => ToolError {
                kind: ErrorKind::Conflict,
                message,
                retryable: false,
                details,
            },
            AlfredError::NotFound(message) => ToolError {
                kind: ErrorKind::NotFound,
                message,
                retryable: false,
                details: None,
            },
            AlfredError::ToolUnavailable { message, details } => ToolError {
                kind: ErrorKind::ToolUnavailable,
                message,
                retryable: true,
                details,
            },
            AlfredError::ResourceExhausted(message) => ToolError {
                kind: ErrorKind::ResourceExhausted,
                message,
                retryable: true,
                details: None,
            },
            AlfredError::Timeout(message) => ToolError {
                kind: ErrorKind::Timeout,
                message,
                retryable: true,
                details: None,
            },
            AlfredError::Canceled(message) => ToolError {
                kind: ErrorKind::Canceled,
                message,
                retryable: true,
                details: None,
            },
            AlfredError::IoError(message) => ToolError {
                kind: ErrorKind::IoError,
                message,
                retryable: true,
                details: None,
            },
            AlfredError::Internal(message) => ToolError {
                kind: ErrorKind::Internal,
                message,
                retryable: true,
                details: None,
            },
        }
    }
}

impl FromSpecImpl<AlfredError> for ToolError {
    open spec fn obeys_from_spec() -> bool {
        true
    }

    open spec fn from_spec(v: AlfredError) -> ToolError {
        tool_error_of(v)
    }
}

/// `b` carries the kind, message, retryability and details of `a`.
pub open spec fn tool_error_copied(a: ToolError, b: ToolError) -> bool {
    &&& b.kind == a.kind
    &&& b.message@ == a.message@
    &&& b.retryable == a.retryable
    &&& match a.details {
        Some(d) => b.details matches Some(e) && json_mapped(d, e, same_text()),
        None => b.details is None,
    }
}

/// A deep copy of a tool error.
pub fn copy_tool_error(e: &ToolError) -> (r: ToolError)
    ensures
        tool_error_copied(*e, r),
{
    let details = match &e.details {
        Some(d) => Some(copy_json(d)),
        None => None,
    };
    ToolError { kind: e.kind, message: e.message.clone(), retryable: e.retryable, details }
}

/// `e` is the plain (detail-free) error of kind `kind` with message `msg`.
pub open spec fn is_error(e: AlfredError, kind: ErrorKind, msg: Seq<char>) -> bool {
    match e {
        AlfredError::InvalidArgument(m) => kind == ErrorKind::InvalidArgument && m@ == msg,
        AlfredError::PermissionDenied(m) => kind == ErrorKind::PermissionDenied && m@ == msg,
        AlfredError::WorkspaceBoundaryViolation(m) => kind == ErrorKind::WorkspaceBoundaryViolation
            && m@ == msg,
        AlfredError::Conflict(m) => kind == ErrorKind::Conflict && m@ == msg,
        AlfredError::NotFound(m) => kind == ErrorKind::NotFound && m@ == msg,
        AlfredError::ResourceExhausted(m) => kind == ErrorKind::ResourceExhausted && m@ == msg,
        AlfredError::Timeout(m) => kind == ErrorKind::Timeout && m@ == msg,
        AlfredError::Canceled(m) => kind == ErrorKind::Canceled && m@ == msg,
        AlfredError::IoError(m) => kind == ErrorKind::IoError && m@ == msg,
        AlfredError::Internal(m) => kind == ErrorKind::Internal && m@ == msg,
        _ => false,
    }
}

} // verus!
