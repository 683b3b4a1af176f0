//! Canonical capability registry: the single source of truth for the public tools.

use vstd::prelude::*;

use crate::design::{
    MAX_BULK_OPERATIONS_PER_CALL, MAX_INLINE_UTF8_BYTES, MAX_LOG_RECORDS_PER_CALL,
    MAX_PATCH_FILES_PER_CALL, SERVER_VERSION, TOOL_SCHEMA_VERSION,
};
use crate::protocol::{DescriptorModel, ExecutionMode, ToolDescriptor, ToolLimits, ToolRoute};
use crate::text::str_eq;

verus! {

broadcast use vstd::string::group_string_axioms;

/// Number of tools on the canonical public surface.
pub open spec fn canonical_tool_count() -> int {
    9
}

/// Name of the `i`-th canonical tool, in advertised order.
pub open spec fn canonical_tool_name(i: int) -> Seq<char> {
    if i == 0 {
        "capabilities"@
    } else if i == 1 {
        "fs"@
    } else if i == 2 {
        "logs"@
    } else if i == 3 {
        "memory"@
    } else if i == 4 {
        "patch"@
    } else if i == 5 {
        "plan"@
    } else if i == 6 {
        "search"@
    } else if i == 7 {
        "status"@
    } else {
        "workspace_dir"@
    }
}

/// Route of the `i`-th canonical tool.
pub open spec fn canonical_tool_route(i: int) -> ToolRoute {
    if i == 0 {
        ToolRoute::Capabilities
    } else if i == 1 {
        ToolRoute::Fs
    } else if i == 2 {
        ToolRoute::Logs
    } else if i == 3 {
        ToolRoute::Memory
    } else if i == 4 {
        ToolRoute::Patch
    } else if i == 5 {
        ToolRoute::Plan
    } else if i == 6 {
        ToolRoute::Search
    } else if i == 7 {
        ToolRoute::Status
    } else {
        ToolRoute::WorkspaceDir
    }
}

/// Execution modes advertised for a route.
pub open spec fn modes_for_route(route: ToolRoute) -> Seq<ExecutionMode> {
    match route {
        ToolRoute::Fs => seq![ExecutionMode::Sync, ExecutionMode::Background],
        ToolRoute::Logs => seq![ExecutionMode::Sync, ExecutionMode::Stream],
        _ => seq![ExecutionMode::Sync],
    }
}

/// Limits advertised for a route.
pub open spec fn limits_for_route(route: ToolRoute) -> Option<ToolLimits> {
    match route {
        ToolRoute::Fs => Some(
            ToolLimits {
                max_inline_utf8_bytes: Some(MAX_INLINE_UTF8_BYTES),
                max_patch_files_per_call: None,
                max_bulk_operations_per_call: Some(MAX_BULK_OPERATIONS_PER_CALL),
                max_log_records_per_call: None,
            },
        ),
        ToolRoute::Patch => Some(
            ToolLimits {
                max_inline_utf8_bytes: Some(MAX_INLINE_UTF8_BYTES),
                max_patch_files_per_call: Some(MAX_PATCH_FILES_PER_CALL),
                max_bulk_operations_per_call: None,
                max_log_records_per_call: None,
            },
        ),
        ToolRoute::Logs => Some(
            ToolLimits {
                max_inline_utf8_bytes: None,
                max_patch_files_per_call: None,
                max_bulk_operations_per_call: None,
                max_log_records_per_call: Some(MAX_LOG_RECORDS_PER_CALL),
            },
        ),
        _ => None,
    }
}

/// The canonical descriptor of the `i`-th tool.
pub open spec fn canonical_descriptor(i: int) -> DescriptorModel {
    DescriptorModel {
        name: canonical_tool_name(i),
        version: SERVER_VERSION@,
        schema_version: TOOL_SCHEMA_VERSION@,
        execution_modes: modes_for_route(canonical_tool_route(i)),
        limits: limits_for_route(canonical_tool_route(i)),
    }
}

/// `tools` is exactly the canonical surface, in advertised order.
pub open spec fn is_canonical_surface(tools: Seq<ToolDescriptor>) -> bool {
    &&& tools.len() == canonical_tool_count()
    &&& forall|i: int| 0 <= i < canonical_tool_count() ==> #[trigger] tools[i]@ == canonical_descriptor(i)
}

/// Index of the first canonical tool at or after `i` whose name is `name`.
pub open spec fn canonical_index_from(name: Seq<char>, i: int) -> Option<int>
    decreases canonical_tool_count() - i,
{
    if i < 0 || i >= canonical_tool_count() {
        None
    } else if canonical_tool_name(i) == name {
        Some(i)
    } else {
        canonical_index_from(name, i + 1)
    }
}

/// Index of the canonical tool named `name`, if it is on the surface.
pub open spec fn canonical_index(name: Seq<char>) -> Option<int> {
    canonical_index_from(name, 0)
}

/// Canonical route of the tool named `name`, if it is on the surface.
pub open spec fn spec_route_for(name: Seq<char>) -> Option<ToolRoute> {
    match canonical_index(name) {
        Some(i) => Some(canonical_tool_route(i)),
        None => None,
    }
}

pub proof fn lemma_canonical_index_from(name: Seq<char>, i: int)
    requires
        0 <= i <= canonical_tool_count(),
    ensures
        canonical_index_from(name, i) matches Some(k) ==> i <= k < canonical_tool_count()
            && canonical_tool_name(k) == name
            && forall|j: int| i <= j < k ==> canonical_tool_name(j) != name,
        canonical_index_from(name, i) is None ==> forall|j: int|
            i <= j < canonical_tool_count() ==> canonical_tool_name(j) != name,
    decreases canonical_tool_count() - i,
{
    if i < canonical_tool_count() {
        lemma_canonical_index_from(name, i + 1);
    }
}

/// The canonical tool names are pairwise distinct.
pub proof fn lemma_canonical_names_distinct()
    ensures
        forall|i: int, j: int|
            0 <= i < canonical_tool_count() && 0 <= j < canonical_tool_count() && i != j
                ==> canonical_tool_name(i) != canonical_tool_name(j),
{
    reveal_strlit("capabilities");
    reveal_strlit("fs");
    reveal_strlit("logs");
    reveal_strlit("memory");
    reveal_strlit("patch");
    reveal_strlit("plan");
    reveal_strlit("search");
    reveal_strlit("status");
    reveal_strlit("workspace_dir");
    assert("logs"@[0] != "plan"@[0]);
    assert("memory"@[0] != "search"@[0]);
    assert("memory"@[0] != "status"@[0]);
    assert("search"@[1] != "status"@[1]);
    assert forall|i: int, j: int|
        0 <= i < canonical_tool_count() && 0 <= j < canonical_tool_count() && i != j
            implies canonical_tool_name(i) != canonical_tool_name(j) by {
        if i == 0 {
            if j == 0 {
            } else if j == 1 {
                assert("capabilities"@.len() != "fs"@.len());
            } else if j == 2 {
                assert("capabilities"@.len() != "logs"@.len());
            } else if j == 3 {
                assert("capabilities"@.len() != "memory"@.len());
            } else if j == 4 {
                assert("capabilities"@.len() != "patch"@.len());
            } else if j == 5 {
                assert("capabilities"@.len() != "plan"@.len());
            } else if j == 6 {
                assert("capabilities"@.len() != "search"@.len());
            } else if j == 7 {
                assert("capabilities"@.len() != "status"@.len());
            } else {
                assert("capabilities"@.len() != "workspace_dir"@.len());
            }
        } else if i == 1 {
            if j == 0 {
                assert("fs"@.len() != "capabilities"@.len());
            } else if j == 1 {
            } else if j == 2 {
                assert("fs"@.len() != "logs"@.len());
            } else if j == 3 {
                assert("fs"@.len() != "memory"@.len());
            } else if j == 4 {
                assert("fs"@.len() != "patch"@.len());
            } else if j == 5 {
                assert("fs"@.len() != "plan"@.len());
            } else if j == 6 {
                assert("fs"@.len() != "search"@.len());
            } else if j == 7 {
                assert("fs"@.len() != "status"@.len());
            } else {
                assert("fs"@.len() != "workspace_dir"@.len());
            }
        } else if i == 2 {
            if j == 0 {
                assert("logs"@.len() != "capabilities"@.len());
            } else if j == 1 {
                assert("logs"@.len() != "fs"@.len());
            } else if j == 2 {
            } else if j == 3 {
                assert("logs"@.len() != "memory"@.len());
            } else if j == 4 {
                assert("logs"@.len() != "patch"@.len());
            } else if j == 5 {
                assert("logs"@[0] != "plan"@[0]);
            } else if j == 6 {
                assert("logs"@.len() != "search"@.len());
            } else if j == 7 {
                assert("logs"@.len() != "status"@.len());
            } else {
                assert("logs"@.len() != "workspace_dir"@.len());
            }
        } else if i == 3 {
            if j == 0 {
                assert("memory"@.len() != "capabilities"@.len());
            } else if j == 1 {
                assert("memory"@.len() != "fs"@.len());
            } else if j == 2 {
                assert("memory"@.len() != "logs"@.len());
            } else if j == 3 {
            } else if j == 4 {
                assert("memory"@.len() != "patch"@.len());
            } else if j == 5 {
                assert("memory"@.len() != "plan"@.len());
            } else if j == 6 {
                assert("memory"@[0] != "search"@[0]);
            } else if j == 7 {
                assert("memory"@[0] != "status"@[0]);
            } else {
                assert("memory"@.len() != "workspace_dir"@.len());
            }
        } else if i == 4 {
            if j == 0 {
                assert("patch"@.len() != "capabilities"@.len());
            } else if j == 1 {
                assert("patch"@.len() != "fs"@.len());
            } else if j == 2 {
                assert("patch"@.len() != "logs"@.len());
            } else if j == 3 {
                assert("patch"@.len() != "memory"@.len());
            } else if j == 4 {
            } else if j == 5 {
                assert("patch"@.len() != "plan"@.len());
            } else if j == 6 {
                assert("patch"@.len() != "search"@.len());
            } else if j == 7 {
                assert("patch"@.len() != "status"@.len());
            } else {
                assert("patch"@.len() != "workspace_dir"@.len());
            }
        } else if i == 5 {
            if j == 0 {
                assert("plan"@.len() != "capabilities"@.len());
            } else if j == 1 {
                assert("plan"@.len() != "fs"@.len());
            } else if j == 2 {
                assert("plan"@[0] != "logs"@[0]);
            } else if j == 3 {
                assert("plan"@.len() != "memory"@.len());
            } else if j == 4 {
                assert("plan"@.len() != "patch"@.len());
            } else if j == 5 {
            } else if j == 6 {
                assert("plan"@.len() != "search"@.len());
            } else if j == 7 {
                assert("plan"@.len() != "status"@.len());
            } else {
                assert("plan"@.len() != "workspace_dir"@.len());
            }
        } else if i == 6 {
            if j == 0 {
                assert("search"@.len() != "capabilities"@.len());
            } else if j == 1 {
                assert("search"@.len() != "fs"@.len());
            } else if j == 2 {
                assert("search"@.len() != "logs"@.len());
            } else if j == 3 {
                assert("search"@[0] != "memory"@[0]);
            } else if j == 4 {
                assert("search"@.len() != "patch"@.len());
            } else if j == 5 {
                assert("search"@.len() != "plan"@.len());
            } else if j == 6 {
            } else if j == 7 {
                assert("search"@[1] != "status"@[1]);
            } else {
                assert("search"@.len() != "workspace_dir"@.len());
            }
        } else if i == 7 {
            if j == 0 {
                assert("status"@.len() != "capabilities"@.len());
            } else if j == 1 {
                assert("status"@.len() != "fs"@.len());
            } else if j == 2 {
                assert("status"@.len() != "logs"@.len());
            } else if j == 3 {
                assert("status"@[0] != "memory"@[0]);
            } else if j == 4 {
                assert("status"@.len() != "patch"@.len());
            } else if j == 5 {
                assert("status"@.len() != "plan"@.len());
            } else if j == 6 {
                assert("status"@[1] != "search"@[1]);
            } else if j == 7 {
            } else {
                assert("status"@.len() != "workspace_dir"@.len());
            }
        } else {
            if j == 0 {
                assert("workspace_dir"@.len() != "capabilities"@.len());
            } else if j == 1 {
                assert("workspace_dir"@.len() != "fs"@.len());
            } else if j == 2 {
                assert("workspace_dir"@.len() != "logs"@.len());
            } else if j == 3 {
                assert("workspace_dir"@.len() != "memory"@.len());
            } else if j == 4 {
                assert("workspace_dir"@.len() != "patch"@.len());
            } else if j == 5 {
                assert("workspace_dir"@.len() != "plan"@.len());
            } else if j == 6 {
                assert("workspace_dir"@.len() != "search"@.len());
            } else if j == 7 {
                assert("workspace_dir"@.len() != "status"@.len());
            } else {
            }
        }
    }
}

/// Each canonical name resolves to its own index.
pub proof fn lemma_canonical_index_of_name(i: int)
    requires
        0 <= i < canonical_tool_count(),
    ensures
        canonical_index(canonical_tool_name(i)) == Some(i),
{
    lemma_canonical_names_distinct();
    lemma_canonical_index_from(canonical_tool_name(i), 0);
}

/// A canonical capability: its route together with its public descriptor.
pub struct CapabilityDefinition {
    pub route: ToolRoute,
    pub descriptor: ToolDescriptor,
}

fn modes_vec(route: ToolRoute) -> (v: Vec<ExecutionMode>)
    ensures
        v@ == modes_for_route(route),
{
    let mut v = Vec::new();
    v.push(ExecutionMode::Sync);
    match route {
        ToolRoute::Fs => v.push(ExecutionMode::Background),
        ToolRoute::Logs => v.push(ExecutionMode::Stream),
        _ => {},
    }
    assert(v@ =~= modes_for_route(route));
    v
}

fn limits_value(route: ToolRoute) -> (r: Option<ToolLimits>)
    ensures
        r == limits_for_route(route),
{
    match route {
        ToolRoute::Fs => Some(
            ToolLimits {
                max_inline_utf8_bytes: Some(MAX_INLINE_UTF8_BYTES),
                max_patch_files_per_call: None,
                max_bulk_operations_per_call: Some(MAX_BULK_OPERATIONS_PER_CALL),
                max_log_records_per_call: None,
            },
        ),
        ToolRoute::Patch => Some(
            ToolLimits {
                max_inline_utf8_bytes: Some(MAX_INLINE_UTF8_BYTES),
                max_patch_files_per_call: Some(MAX_PATCH_FILES_PER_CALL),
                max_bulk_operations_per_call: None,
                max_log_records_per_call: None,
            },
        ),
        ToolRoute::Logs => Some(
            ToolLimits {
                max_inline_utf8_bytes: None,
                max_patch_files_per_call: None,
                max_bulk_operations_per_call: None,
                max_log_records_per_call: Some(MAX_LOG_RECORDS_PER_CALL),
            },
        ),
        _ => None,
    }
}

/// Builds one capability definition with the server's version and schema version.
pub fn capability(name: &str, route: ToolRoute) -> (d: CapabilityDefinition)
    ensures
        d.route == route,
        d.descriptor@ == (DescriptorModel {
            name: name@,
            version: SERVER_VERSION@,
            schema_version: TOOL_SCHEMA_VERSION@,
            execution_modes: modes_for_route(route),
            limits: limits_for_route(route),
        }),
{
    CapabilityDefinition {
        route,
        descriptor: ToolDescriptor {
            name: name.to_string(),
            version: SERVER_VERSION.to_string(),
            schema_version: TOOL_SCHEMA_VERSION.to_string(),
            execution_modes: modes_vec(route),
            limits: limits_value(route),
        },
    }
}

/// The `i`-th canonical capability definition.
pub fn definition_at(i: usize) -> (d: CapabilityDefinition)
    requires
        i < canonical_tool_count(),
    ensures
        d.route == canonical_tool_route(i as int),
        d.descriptor@ == canonical_descriptor(i as int),
{
    if i == 0 {
        capability("capabilities", ToolRoute::Capabilities)
    } else if i == 1 {
        capability("fs", ToolRoute::Fs)
    } else if i == 2 {
        capability("logs", ToolRoute::Logs)
    } else if i == 3 {
        capability("memory", ToolRoute::Memory)
    } else if i == 4 {
        capability("patch", ToolRoute::Patch)
    } else if i == 5 {
        capability("plan", ToolRoute::Plan)
    } else if i == 6 {
        capability("search", ToolRoute::Search)
    } else if i == 7 {
        capability("status", ToolRoute::Status)
    } else {
        capability("workspace_dir", ToolRoute::WorkspaceDir)
    }
}

/// Capability registry with a single source of truth for the public tools.
pub struct CapabilityRegistry {
    tools: Vec<ToolDescriptor>,
}

impl CapabilityRegistry {
    #[verifier::type_invariant]
    spec fn surface_is_canonical(self) -> bool {
        is_canonical_surface(self.tools@)
    }

    /// Creates the canonical registry.
    pub fn new() -> (r: Self)
        ensures
            is_canonical_surface(r.tools_view()),
    {
        let mut tools: Vec<ToolDescriptor> = Vec::new();
        let mut i: usize = 0;
        while i < 9
            invariant
                i <= 9,
                tools.len() == i,
                forall|j: int| 0 <= j < i ==> #[trigger] tools@[j]@ == canonical_descriptor(j),
            decreases 9 - i,
        {
            let definition = definition_at(i);
            tools.push(definition.descriptor);
            i = i + 1;
        }
        CapabilityRegistry { tools }
    }

    /// The advertised public tools.
    pub closed spec fn tools_view(&self) -> Seq<ToolDescriptor> {
        self.tools@
    }

    /// Returns the advertised public tools.
    pub fn tools(&self) -> (t: &[ToolDescriptor])
        ensures
            t@ == self.tools_view(),
            is_canonical_surface(t@),
    {
        proof {
            use_type_invariant(self);
        }
        self.tools.as_slice()
    }

    /// Returns the canonical route for an advertised tool.
    pub fn route_for(&self, name: &str) -> (r: Option<ToolRoute>)
        ensures
            r == spec_route_for(name@),
    {
        let mut i: usize = 0;
        while i < 9
            invariant
                i <= 9,
                canonical_index(name@) == canonical_index_from(name@, i as int),
            decreases 9 - i,
        {
            let definition = definition_at(i);
            if str_eq(definition.descriptor.name.as_str(), name) {
                return Some(definition.route);
            }
            i = i + 1;
        }
        None
    }
}

} // verus!
