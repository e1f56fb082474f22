//! Options for the documentation-site generator that consumes the
//! analysis results, and the static site configuration it writes.

use vstd::prelude::*;

use vstd::string::StringExecFns;

verus! {

/// What the documentation generator is asked to produce, and where.
#[derive(Debug, Clone)]
pub struct MkDocsOptions {
    pub repo_path: String,
    pub output_dir: Option<String>,
    pub include_changelog: bool,
    pub format: String,
    pub site_name: Option<String>,
    pub site_description: Option<String>,
}

/// The fixed part of the site configuration, between the site header and
/// the navigation entries.
pub open spec fn spec_mkdocs_theme_block() -> Seq<char> {
    "site_url: https://example.com\n\ntheme:\n  name: material\n  palette:\n    primary: blue\n    accent: blue\n\nmarkdown_extensions:\n  - pymdownx.highlight:\n      anchor_linenums: true\n  - pymdownx.inlinehilite\n  - pymdownx.snippets\n  - pymdownx.superfences:\n      custom_fences:\n        - name: mermaid\n          class: mermaid\n          format: !!python/name:pymdownx.superfences.fence_code_format\n\n"@
}

pub open spec fn spec_mkdocs_nav_block() -> Seq<char> {
    "nav:\n  - Home: index.md\n  - Dependencies: dependencies.md\n  - Security: security.md\n  - Licenses: licenses.md\n  - Architecture: architecture.md\n"@
}

/// The whole site configuration for the given name and description; the
/// changelog entry stands at the end exactly when one is generated.
pub open spec fn spec_mkdocs_config(
    site_name: Seq<char>,
    site_description: Seq<char>,
    include_changelog: bool,
) -> Seq<char> {
    "site_name: "@ + site_name + "\n"@ + "site_description: "@ + site_description + "\n"@
        + spec_mkdocs_theme_block() + spec_mkdocs_nav_block() + (if include_changelog {
        "  - Changelog: changelog.md\n"@
    } else {
        Seq::<char>::empty()
    })
}

/// Renders the site configuration the generator writes out.
pub fn generate_mkdocs_config(site_name: &str, site_description: &str, include_changelog: bool) -> (r: String)
    ensures
        r@ == spec_mkdocs_config(site_name@, site_description@, include_changelog),
{
    let mut config = String::from_str("site_name: ");
    config.append(site_name);
    config.append("\n");
    config.append("site_description: ");
    config.append(site_description);
    config.append("\n");
    config.append(
        "site_url: https://example.com\n\ntheme:\n  name: material\n  palette:\n    primary: blue\n    accent: blue\n\nmarkdown_extensions:\n  - pymdownx.highlight:\n      anchor_linenums: true\n  - pymdownx.inlinehilite\n  - pymdownx.snippets\n  - pymdownx.superfences:\n      custom_fences:\n        - name: mermaid\n          class: mermaid\n          format: !!python/name:pymdownx.superfences.fence_code_format\n\n",
    );
    config.append(
        "nav:\n  - Home: index.md\n  - Dependencies: dependencies.md\n  - Security: security.md\n  - Licenses: licenses.md\n  - Architecture: architecture.md\n",
    );
    if include_changelog {
        config.append("  - Changelog: changelog.md\n");
    }
    config
}

} // verus!
