//! The task runner: runs tasks with the workspace root as working directory.

use vstd::prelude::*;

verus! {

/// Runs tasks within the workspace boundary.
pub struct TaskRunner {
    workspace_root: String,
}

impl TaskRunner {
    /// The workspace root.
    pub closed spec fn root_view(&self) -> Seq<char> {
        self.workspace_root@
    }

    /// Creates a task runner bound to a workspace root.
    pub fn new(workspace_root: String) -> (r: Self)
        ensures
            r.root_view() == workspace_root@,
    {
        TaskRunner { workspace_root }
    }

    /// Returns the workspace root used for task working directory.
    pub fn workspace_root(&self) -> (r: &str)
        ensures
            r@ == self.root_view(),
    {
        self.workspace_root.as_str()
    }
}

} // verus!
