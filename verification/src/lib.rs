//! Alfred: deterministic, workspace-scoped tool logic for a local MCP server.

pub mod app;
pub mod capabilities;
pub mod design;
pub mod diagnostics;
pub mod envelope;
pub mod errors;
pub mod json;
pub mod logging;
pub mod paths;
pub mod protocol;
pub mod router;
pub mod services;
pub mod text;
pub mod tool_execution;
pub mod tools;

use vstd::prelude::*;

use crate::capabilities::lemma_canonical_index_of_name;
use crate::protocol::ToolRoute;

verus! {

/// Builds the application shell and checks that `capabilities` routes to its own
/// handler; always succeeds.
pub fn run() -> (r: Result<(), String>)
    ensures
        r is Ok,
{
    let app = app::Alfred::new();
    let routed = app.dispatch_tool("capabilities");
    proof {
        lemma_canonical_index_of_name(0);
    }
    assert(routed is Ok && routed->Ok_0.route_view() == ToolRoute::Capabilities);
    Ok(())
}

} // verus!
pub mod redaction;
pub mod path_encoding;
pub mod configuration;
