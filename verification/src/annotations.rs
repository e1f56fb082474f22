//! Behavioral annotations attached to the analysis entry points when they
//! are offered to a client: read-only, idempotency and caching hints,
//! plus a tag list, keyed by entry-point name.

use vstd::prelude::*;

use crate::strings::spec_views;
use crate::strings::str_eq;
use vstd::string::StringExecFns;

verus! {

#[derive(Debug, Clone)]
pub struct ToolAnnotations {
    pub title: Option<String>,
    pub destructive_hint: Option<bool>,
    pub idempotent_hint: Option<bool>,
    pub read_only_hint: Option<bool>,
    pub open_world_hint: Option<bool>,
    pub tags: Option<Vec<String>>,
    pub cache_ttl_seconds: Option<i32>,
}

pub open spec fn spec_opt_title(o: Option<String>) -> Option<Seq<char>> {
    match o {
        Some(s) => Some(s@),
        None => None,
    }
}

pub open spec fn spec_tags_views(o: Option<Vec<String>>) -> Option<Seq<Seq<char>>> {
    match o {
        Some(v) => Some(spec_views(v@)),
        None => None,
    }
}

/// The fixed shape of each annotation family, up to its title.
pub open spec fn spec_is_analysis(t: ToolAnnotations) -> bool {
    &&& t.read_only_hint == Some(true)
    &&& t.idempotent_hint == Some(true)
    &&& t.destructive_hint == Some(false)
    &&& t.open_world_hint == Some(false)
    &&& t.cache_ttl_seconds == Some(300i32)
    &&& spec_tags_views(t.tags) == Some(seq!["analysis"@, "read-only"@])
}

pub open spec fn spec_is_security(t: ToolAnnotations) -> bool {
    &&& t.read_only_hint == Some(true)
    &&& t.idempotent_hint == Some(true)
    &&& t.destructive_hint == Some(false)
    &&& t.open_world_hint == Some(true)
    &&& t.cache_ttl_seconds == Some(60i32)
    &&& spec_tags_views(t.tags) == Some(seq!["security"@, "audit"@])
}

pub open spec fn spec_is_visualization(t: ToolAnnotations) -> bool {
    &&& t.read_only_hint == Some(true)
    &&& t.idempotent_hint == Some(true)
    &&& t.destructive_hint == Some(false)
    &&& t.open_world_hint == Some(false)
    &&& t.cache_ttl_seconds == Some(300i32)
    &&& spec_tags_views(t.tags) == Some(seq!["visualization"@, "graph"@])
}

pub open spec fn spec_is_documentation(t: ToolAnnotations) -> bool {
    &&& t.read_only_hint == Some(false)
    &&& t.idempotent_hint == Some(true)
    &&& t.destructive_hint == Some(false)
    &&& t.open_world_hint == Some(false)
    &&& t.cache_ttl_seconds is None
    &&& spec_tags_views(t.tags) == Some(seq!["documentation"@, "generate"@])
}

pub open spec fn spec_is_multi_repo(t: ToolAnnotations) -> bool {
    &&& t.read_only_hint == Some(true)
    &&& t.idempotent_hint == Some(true)
    &&& t.destructive_hint == Some(false)
    &&& t.open_world_hint == Some(false)
    &&& t.cache_ttl_seconds == Some(120i32)
    &&& spec_tags_views(t.tags) == Some(seq!["multi-repo"@, "analysis"@])
}

pub open spec fn spec_is_default(t: ToolAnnotations) -> bool {
    &&& t.title is None
    &&& t.read_only_hint is None
    &&& t.idempotent_hint is None
    &&& t.destructive_hint is None
    &&& t.open_world_hint is None
    &&& t.cache_ttl_seconds is None
    &&& t.tags is None
}

impl Default for ToolAnnotations {
    fn default() -> (r: Self)
        ensures
            spec_is_default(r),
    {
        ToolAnnotations {
            title: None,
            destructive_hint: None,
            idempotent_hint: None,
            read_only_hint: None,
            open_world_hint: None,
            tags: None,
            cache_ttl_seconds: None,
        }
    }
}

fn two_tags(a: &str, b: &str) -> (r: Vec<String>)
    ensures
        spec_views(r@) == seq![a@, b@],
{
    let mut v: Vec<String> = Vec::new();
    v.push(String::from_str(a));
    v.push(String::from_str(b));
    assert(spec_views(v@) =~= seq![a@, b@]);
    v
}

impl ToolAnnotations {
    /// The annotation of a read-only analysis entry point.
    pub fn analysis() -> (r: Self)
        ensures
            spec_is_analysis(r),
            r.title is None,
    {
        ToolAnnotations {
            title: None,
            read_only_hint: Some(true),
            idempotent_hint: Some(true),
            destructive_hint: Some(false),
            open_world_hint: Some(false),
            cache_ttl_seconds: Some(300),
            tags: Some(two_tags("analysis", "read-only")),
        }
    }

    /// The annotation of a security audit entry point.
    pub fn security() -> (r: Self)
        ensures
            spec_is_security(r),
            r.title is None,
    {
        ToolAnnotations {
            title: None,
            read_only_hint: Some(true),
            idempotent_hint: Some(true),
            destructive_hint: Some(false),
            open_world_hint: Some(true),
            cache_ttl_seconds: Some(60),
            tags: Some(two_tags("security", "audit")),
        }
    }

    /// The annotation of a graph rendering entry point.
    pub fn visualization() -> (r: Self)
        ensures
            spec_is_visualization(r),
            r.title is None,
    {
        ToolAnnotations {
            title: None,
            read_only_hint: Some(true),
            idempotent_hint: Some(true),
            destructive_hint: Some(false),
            open_world_hint: Some(false),
            cache_ttl_seconds: Some(300),
            tags: Some(two_tags("visualization", "graph")),
        }
    }

    /// The annotation of a documentation-writing entry point.
    pub fn documentation() -> (r: Self)
        ensures
            spec_is_documentation(r),
            r.title is None,
    {
        ToolAnnotations {
            title: None,
            read_only_hint: Some(false),
            idempotent_hint: Some(true),
            destructive_hint: Some(false),
            open_world_hint: Some(false),
            cache_ttl_seconds: None,
            tags: Some(two_tags("documentation", "generate")),
        }
    }

    /// The annotation of a multi-repository analysis entry point.
    pub fn multi_repo() -> (r: Self)
        ensures
            spec_is_multi_repo(r),
            r.title is None,
    {
        ToolAnnotations {
            title: None,
            read_only_hint: Some(true),
            idempotent_hint: Some(true),
            destructive_hint: Some(false),
            open_world_hint: Some(false),
            cache_ttl_seconds: Some(120),
            tags: Some(two_tags("multi-repo", "analysis")),
        }
    }

    /// The same annotation with the title set.
    pub fn with_title(self, title: &str) -> (r: Self)
        ensures
            spec_opt_title(r.title) == Some(title@),
            r.destructive_hint == self.destructive_hint,
            r.idempotent_hint == self.idempotent_hint,
            r.read_only_hint == self.read_only_hint,
            r.open_world_hint == self.open_world_hint,
            r.tags == self.tags,
            r.cache_ttl_seconds == self.cache_ttl_seconds,
    {
        let mut annotated = self;
        annotated.title = Some(String::from_str(title));
        annotated
    }
}

/// What the registry's lookup promises per entry-point name: the family
/// shape and the title.
pub open spec fn spec_tool_annotation(name: Seq<char>, t: ToolAnnotations) -> bool {
    if name == "analyze_dependencies"@ {
        spec_is_analysis(t) && spec_opt_title(t.title) == Some("Analyze Dependencies"@)
    } else if name == "analyze_psr4"@ {
        spec_is_analysis(t) && spec_opt_title(t.title) == Some("Analyze PSR-4"@)
    } else if name == "detect_namespaces"@ {
        spec_is_analysis(t) && spec_opt_title(t.title) == Some("Detect Namespaces"@)
    } else if name == "analyze_namespace_usage"@ {
        spec_is_analysis(t) && spec_opt_title(t.title) == Some("Analyze Namespace Usage"@)
    } else if name == "audit_security"@ {
        spec_is_security(t) && spec_opt_title(t.title) == Some("Audit Security"@)
    } else if name == "analyze_licenses"@ {
        spec_is_security(t) && spec_opt_title(t.title) == Some("Analyze Licenses"@)
    } else if name == "generate_dependency_graph"@ {
        spec_is_visualization(t) && spec_opt_title(t.title) == Some("Generate Dependency Graph"@)
    } else if name == "find_circular_dependencies"@ {
        spec_is_visualization(t) && spec_opt_title(t.title) == Some("Find Circular Dependencies"@)
    } else if name == "analyze_multi_repo"@ {
        spec_is_multi_repo(t) && spec_opt_title(t.title) == Some("Analyze Multi-Repo"@)
    } else if name == "generate_comprehensive_docs"@ {
        spec_is_documentation(t) && spec_opt_title(t.title) == Some("Generate Documentation"@)
    } else {
        spec_is_default(t)
    }
}

/// The annotation for an entry point, by name; unknown names get the
/// empty annotation.
pub fn get_tool_annotation(tool_name: &str) -> (r: ToolAnnotations)
    ensures
        spec_tool_annotation(tool_name@, r),
{
    if str_eq(tool_name, "analyze_dependencies") {
        ToolAnnotations::analysis().with_title("Analyze Dependencies")
    } else if str_eq(tool_name, "analyze_psr4") {
        ToolAnnotations::analysis().with_title("Analyze PSR-4")
    } else if str_eq(tool_name, "detect_namespaces") {
        ToolAnnotations::analysis().with_title("Detect Namespaces")
    } else if str_eq(tool_name, "analyze_namespace_usage") {
        ToolAnnotations::analysis().with_title("Analyze Namespace Usage")
    } else if str_eq(tool_name, "audit_security") {
        ToolAnnotations::security().with_title("Audit Security")
    } else if str_eq(tool_name, "analyze_licenses") {
        ToolAnnotations::security().with_title("Analyze Licenses")
    } else if str_eq(tool_name, "generate_dependency_graph") {
        ToolAnnotations::visualization().with_title("Generate Dependency Graph")
    } else if str_eq(tool_name, "find_circular_dependencies") {
        ToolAnnotations::visualization().with_title("Find Circular Dependencies")
    } else if str_eq(tool_name, "analyze_multi_repo") {
        ToolAnnotations::multi_repo().with_title("Analyze Multi-Repo")
    } else if str_eq(tool_name, "generate_comprehensive_docs") {
        ToolAnnotations::documentation().with_title("Generate Documentation")
    } else {
        ToolAnnotations::default()
    }
}

} // verus!
