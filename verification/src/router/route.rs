//! Canonical dispatch route type: a route paired with its descriptor.

use vstd::prelude::*;

use crate::protocol::{ToolDescriptor, ToolRoute};

verus! {

/// A routed tool with its canonical descriptor.
pub struct RoutedTool<'a> {
    route: ToolRoute,
    descriptor: &'a ToolDescriptor,
}

impl<'a> RoutedTool<'a> {
    /// The routed tool kind.
    pub closed spec fn route_view(&self) -> ToolRoute {
        self.route
    }

    /// The descriptor associated with the route.
    pub closed spec fn descriptor_view(&self) -> ToolDescriptor {
        *self.descriptor
    }

    /// Creates a routed tool from a canonical route and descriptor.
    pub fn new(route: ToolRoute, descriptor: &'a ToolDescriptor) -> (r: Self)
        ensures
            r.route_view() == route,
            r.descriptor_view() == *descriptor,
    {
        RoutedTool { route, descriptor }
    }

    /// Returns the routed tool kind.
    pub fn route(&self) -> (r: ToolRoute)
        ensures
            r == self.route_view(),
    {
        self.route
    }

    /// Returns the canonical tool descriptor associated with the route.
    pub fn descriptor(&self) -> (d: &'a ToolDescriptor)
        ensures
            *d == self.descriptor_view(),
    {
        self.descriptor
    }
}

} // verus!
