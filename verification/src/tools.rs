//! The registry of exposed tool names, and the policy filter over it.

use vstd::prelude::*;

use crate::configuration::loading::AppConfig;
use crate::text::string_views;

verus! {

broadcast use vstd::string::group_string_axioms;

/// Registry of the exposed tool groups: context, workspace query, logs, patch, status,
/// plan, memory and capabilities.
pub struct ToolRegistry {}

/// The registered tool names, in lexicographic order.
pub open spec fn registry_names() -> Seq<Seq<char>> {
    seq![
        "capabilities"@,
        "fs"@,
        "logs"@,
        "memory"@,
        "memory_delete"@,
        "memory_get"@,
        "memory_list"@,
        "memory_put"@,
        "memory_search"@,
        "patch"@,
        "plan"@,
        "search"@,
        "status"@,
        "workspace_dir"@,
    ]
}

/// The views of a list of static strings.
pub open spec fn str_views(v: Seq<&'static str>) -> Seq<Seq<char>> {
    v.map_values(|s: &'static str| s@)
}

/// The names that a disabled-tool list leaves enabled, in order.
pub open spec fn enabled_names(names: Seq<Seq<char>>, disabled: Seq<Seq<char>>) -> Seq<Seq<char>>
    decreases names.len(),
{
    if names.len() == 0 {
        names
    } else if disabled.contains(names.last()) {
        enabled_names(names.drop_last(), disabled)
    } else {
        enabled_names(names.drop_last(), disabled).push(names.last())
    }
}

/// The policy filter lists exactly the registered names that are not disabled: a disabled
/// tool never appears, and every other registered tool does.
pub proof fn lemma_policy_filter(names: Seq<Seq<char>>, disabled: Seq<Seq<char>>)
    ensures
        forall|x: Seq<char>| #[trigger]
            enabled_names(names, disabled).contains(x) <==> (names.contains(x)
                && !disabled.contains(x)),
    decreases names.len(),
{
    if names.len() > 0 {
        lemma_policy_filter(names.drop_last(), disabled);
        let rest = enabled_names(names.drop_last(), disabled);
        assert forall|x: Seq<char>| #[trigger]
            enabled_names(names, disabled).contains(x) <==> (names.contains(x)
                && !disabled.contains(x)) by {
            assert(names =~= names.drop_last().push(names.last()));
            if names.contains(x) && !names.drop_last().contains(x) {
                let k = choose|k: int| 0 <= k < names.len() && names[k] == x;
                if k < names.len() - 1 {
                    assert(names.drop_last()[k] == x);
                }
            }
            if names.drop_last().contains(x) {
                let k = choose|k: int| 0 <= k < names.drop_last().len() && names.drop_last()[k] == x;
                assert(names[k] == x);
            }
            assert(names[names.len() - 1] == names.last());
            if !disabled.contains(names.last()) {
                let pushed = rest.push(names.last());
                assert(pushed[rest.len() as int] == names.last());
                if rest.contains(x) {
                    let k = choose|k: int| 0 <= k < rest.len() && rest[k] == x;
                    assert(pushed[k] == x);
                }
                if pushed.contains(x) && x != names.last() {
                    let k = choose|k: int| 0 <= k < pushed.len() && pushed[k] == x;
                    assert(rest[k] == x);
                }
            }
        }
    }
}

impl ToolRegistry {
    /// Creates the default tool registry.
    pub fn new() -> (r: Self) {
        ToolRegistry {  }
    }

    /// The registered tool names, sorted.
    pub fn tool_names(&self) -> (r: Vec<&'static str>)
        ensures
            str_views(r@) == registry_names(),
    {
        let mut names: Vec<&'static str> = Vec::new();
        names.push("capabilities");
        names.push("fs");
        names.push("logs");
        names.push("memory");
        names.push("memory_delete");
        names.push("memory_get");
        names.push("memory_list");
        names.push("memory_put");
        names.push("memory_search");
        names.push("patch");
        names.push("plan");
        names.push("search");
        names.push("status");
        names.push("workspace_dir");
        assert(str_views(names@) =~= registry_names());
        names
    }

    /// The number of registered tools.
    pub fn tool_count(&self) -> (r: usize)
        ensures
            r == registry_names().len(),
    {
        self.tool_names().len()
    }

    /// The registered names that the configuration's policy leaves enabled, in order.
    pub fn tool_names_for_config(&self, config: &AppConfig) -> (r: Vec<&'static str>)
        ensures
            str_views(r@) == enabled_names(registry_names(), string_views(config.disabled_tools@)),
    {
        let names = self.tool_names();
        let mut out: Vec<&'static str> = Vec::new();
        let mut i: usize = 0;
        while i < names.len()
            invariant
                i <= names.len(),
                str_views(names@) == registry_names(),
                str_views(out@) == enabled_names(str_views(names@).take(i as int), string_views(config.disabled_tools@)),
            decreases names.len() - i,
        {
            let ghost next = str_views(names@).take(i + 1);
            assert(next.drop_last() =~= str_views(names@).take(i as int));
            assert(next.last() == names@[i as int]@);
            if config.is_tool_enabled(names[i]) {
                let ghost before = str_views(out@);
                out.push(names[i]);
                assert(str_views(out@) =~= before.push(names@[i as int]@));
            }
            i = i + 1;
        }
        assert(str_views(names@).take(names.len() as int) =~= str_views(names@));
        out
    }
}

} // verus!
