//! Tool routing boundary: resolves tool names against the canonical capability registry.

mod route;

use vstd::prelude::*;

use crate::capabilities::{
    canonical_descriptor, canonical_index, canonical_index_from, canonical_tool_route,
    is_canonical_surface, lemma_canonical_index_from, lemma_canonical_index_of_name, CapabilityRegistry,
};
use crate::protocol::{ToolDescriptor, ToolRoute};
use crate::text::str_eq;

pub use route::RoutedTool;

verus! {

/// Dispatch failure for the router boundary.
#[derive(Debug, PartialEq, Eq)]
pub enum ToolRouterError {
    /// The requested tool is not part of the canonical surface.
    UnknownTool { name: String },
}

impl ToolRouterError {
    /// Human-readable rendering of the error.
    pub fn message(&self) -> (s: String)
        ensures
            s@ == seq!['u', 'n', 'k', 'n', 'o', 'w', 'n', ' ', 't', 'o', 'o', 'l', ' ', '`']
                + self->name@ + seq!['`', '.'],
    {
        match self {
            ToolRouterError::UnknownTool { name } => {
                let mut s = String::from_str("unknown tool `");
                proof {
                    reveal_strlit("unknown tool `");
                }
                s.append(name.as_str());
                s.append("`.");
                proof {
                    reveal_strlit("`.");
                }
                s
            },
        }
    }
}

/// Resolves tool names against the canonical capability registry.
pub struct ToolRouter {
    capabilities: CapabilityRegistry,
}

impl ToolRouter {
    /// Creates a router backed by the canonical capability registry.
    pub fn new() -> (r: Self)
        ensures
            is_canonical_surface(r.capabilities_view()),
    {
        ToolRouter { capabilities: CapabilityRegistry::new() }
    }

    /// The advertised public tools.
    pub closed spec fn capabilities_view(&self) -> Seq<ToolDescriptor> {
        self.capabilities.tools_view()
    }

    /// Returns the advertised public tools.
    pub fn capabilities(&self) -> (t: &[ToolDescriptor])
        ensures
            t@ == self.capabilities_view(),
            is_canonical_surface(t@),
    {
        self.capabilities.tools()
    }

    /// Finds a single advertised tool by name.
    pub fn capability(&self, name: &str) -> (r: Option<&ToolDescriptor>)
        ensures
            match canonical_index(name@) {
                Some(i) => r is Some && r->0@ == canonical_descriptor(i),
                None => r is None,
            },
    {
        let tools = self.capabilities();
        proof {
            lemma_canonical_index_from(name@, 0);
        }
        let mut i: usize = 0;
        while i < tools.len()
            invariant
                is_canonical_surface(tools@),
                0 <= i <= tools.len(),
                forall|j: int| 0 <= j < i ==> #[trigger] tools@[j]@.name != name@,
                canonical_index(name@) matches Some(k) ==> forall|j: int|
                    0 <= j < k ==> #[trigger] canonical_descriptor(j).name != name@,
                canonical_index(name@) matches Some(k) ==> 0 <= k < 9 && canonical_descriptor(
                    k,
                ).name == name@,
                canonical_index(name@) is None ==> forall|j: int|
                    0 <= j < 9 ==> #[trigger] canonical_descriptor(j).name != name@,
            decreases tools.len() - i,
        {
            if str_eq(tools[i].name.as_str(), name) {
                proof {
                    let ii = i as int;
                    assert(tools@[ii]@ == canonical_descriptor(ii));
                    assert(canonical_descriptor(ii).name == name@);
                    if let Some(k) = canonical_index(name@) {
                        if k < ii {
                            assert(tools@[k]@ == canonical_descriptor(k));
                        }
                        assert(k == ii);
                    } else {
                        assert(canonical_descriptor(ii).name != name@);
                    }
                }
                return Some(&tools[i]);
            }
            i = i + 1;
        }
        proof {
            if let Some(k) = canonical_index(name@) {
                assert(tools@[k]@ == canonical_descriptor(k));
            }
        }
        None
    }

    /// Dispatches a tool name to its canonical route and descriptor.
    pub fn dispatch(&self, name: &str) -> (r: Result<RoutedTool<'_>, ToolRouterError>)
        ensures
            match canonical_index(name@) {
                Some(i) => r is Ok && r->Ok_0.route_view() == canonical_tool_route(i)
                    && r->Ok_0.descriptor_view()@ == canonical_descriptor(i),
                None => r is Err && r->Err_0->name@ == name@,
            },
    {
        let descriptor = match self.capability(name) {
            Some(d) => d,
            None => {
                return Err(ToolRouterError::UnknownTool { name: name.to_string() });
            },
        };
        proof {
            lemma_canonical_index_from(name@, 0);
            if let Some(i) = canonical_index(name@) {
                lemma_canonical_index_of_name(i);
            }
        }
        let route = match self.capabilities.route_for(descriptor.name.as_str()) {
            Some(route) => route,
            None => {
                return Err(ToolRouterError::UnknownTool { name: name.to_string() });
            },
        };
        Ok(RoutedTool::new(route, descriptor))
    }
}

} // verus!
