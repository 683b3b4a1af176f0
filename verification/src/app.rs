//! Alfred application shell: the canonical capability list and tool invocation.

use vstd::prelude::*;

use crate::capabilities::{
    canonical_descriptor, canonical_index, canonical_tool_route, is_canonical_surface,
    lemma_canonical_index_from,
};
use crate::envelope::{EnvelopeStatus, ToolEnvelope};
use crate::json::JsonValue;
use crate::protocol::ToolDescriptor;
use crate::router::{RoutedTool, ToolRouter, ToolRouterError};
use crate::tool_execution::{
    execute_tool, is_reason_details, payload_data, payload_error, payload_outcome_ok,
    unknown_tool_response, HostContext,
};

verus! {

/// Alfred application state.
pub struct Alfred {
    router: ToolRouter,
}

impl Alfred {
    /// The advertised public tools.
    pub closed spec fn capabilities_view(&self) -> Seq<ToolDescriptor> {
        self.router.capabilities_view()
    }

    /// Creates a new Alfred application shell.
    pub fn new() -> (r: Self)
        ensures
            is_canonical_surface(r.capabilities_view()),
    {
        Alfred { router: ToolRouter::new() }
    }

    /// Returns the canonical public capability list.
    pub fn capabilities(&self) -> (t: &[ToolDescriptor])
        ensures
            t@ == self.capabilities_view(),
            is_canonical_surface(t@),
    {
        self.router.capabilities()
    }

    /// Returns the canonical capability metadata for a tool name.
    pub fn capability(&self, name: &str) -> (r: Option<&ToolDescriptor>)
        ensures
            match canonical_index(name@) {
                Some(i) => r is Some && r->0@ == canonical_descriptor(i),
                None => r is None,
            },
    {
        self.router.capability(name)
    }

    /// Dispatches a tool name to the canonical router boundary.
    pub fn dispatch_tool(&self, name: &str) -> (r: Result<RoutedTool<'_>, ToolRouterError>)
        ensures
            match canonical_index(name@) {
                Some(i) => r is Ok && r->Ok_0.route_view() == canonical_tool_route(i)
                    && r->Ok_0.descriptor_view()@ == canonical_descriptor(i),
                None => r is Err && r->Err_0->name@ == name@,
            },
    {
        self.router.dispatch(name)
    }

    /// Executes a tool call against the currently implemented handlers.
    pub fn invoke_tool(&self, name: &str, arguments: Option<&JsonValue>, host: &HostContext) -> (r:
        ToolEnvelope<JsonValue>)
        ensures
            ({
                let args = match arguments {
                    Some(v) => Some(*v),
                    None => None,
                };
                match canonical_index(name@) {
                    Some(i) => {
                        let route = canonical_tool_route(i);
                        &&& r.meta.tool@ == name@
                        &&& if payload_outcome_ok(route, name@, args, *host) {
                            &&& r.status == EnvelopeStatus::Success
                            &&& r.data is Some && payload_data(
                                r.data->0,
                                route,
                                self.capabilities_view(),
                                *host,
                            )
                            &&& r.errors@.len() == 0
                        } else {
                            &&& r.status == EnvelopeStatus::Error
                            &&& r.data is None
                            &&& r.errors@.len() == 1 && payload_error(
                                r.errors@[0],
                                route,
                                name@,
                                args,
                                *host,
                            )
                        }
                    },
                    None => {
                        &&& r.status == EnvelopeStatus::Error
                        &&& r.data is None
                        &&& r.errors@.len() == 1
                        &&& r.errors@[0].kind@ == "invalid_argument"@
                        &&& is_reason_details(r.errors@[0].details, "unknown_tool"@, name@)
                        &&& r.meta.tool@ == name@
                    },
                }
            }),
    {
        proof {
            lemma_canonical_index_from(name@, 0);
        }
        match self.dispatch_tool(name) {
            Ok(routed) => execute_tool(
                routed.descriptor(),
                routed.route(),
                arguments,
                self.capabilities(),
                host,
            ),
            Err(_) => unknown_tool_response(name, host.duration_ms),
        }
    }
}

} // verus!
