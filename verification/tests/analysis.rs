use composer_analyzer::graph::analyze_dependencies_raw;
use composer_analyzer::graph::build_dependency_tree;
use composer_analyzer::graph::find_circular_dependencies;
use composer_analyzer::mermaid::generate_dependency_graph;
use composer_analyzer::mermaid::sanitize_for_mermaid;
use composer_analyzer::security::analyze_licenses;
use composer_analyzer::security::assess_license_risk;
use composer_analyzer::security::audit_security;
use composer_analyzer::types::ComposerJson;
use composer_analyzer::types::ComposerLock;
use composer_analyzer::types::PackageInfo;

fn pkg(name: &str, version: &str, reqs: &[(&str, &str)]) -> PackageInfo {
    PackageInfo {
        name: name.to_string(),
        version: version.to_string(),
        description: None,
        package_type: None,
        license: None,
        authors: None,
        require: if reqs.is_empty() {
            None
        } else {
            Some(reqs.iter().map(|(k, v)| (k.to_string(), v.to_string())).collect())
        },
        require_dev: None,
        autoload: None,
        homepage: None,
        source: None,
        dist: None,
        time: None,
    }
}

fn lock_of(packages: Vec<PackageInfo>) -> ComposerLock {
    ComposerLock { packages, packages_dev: None, content_hash: None }
}

fn manifest() -> ComposerJson {
    ComposerJson {
        name: Some("acme/app".to_string()),
        description: None,
        package_type: None,
        license: None,
        require: Some(vec![
            ("php".to_string(), ">=8.0".to_string()),
            ("ext-json".to_string(), "*".to_string()),
            ("acme/lib".to_string(), "^1.0".to_string()),
        ]),
        require_dev: Some(vec![("acme/test".to_string(), "^2.0".to_string())]),
        autoload: None,
        autoload_dev: None,
    }
}

#[test]
fn reverse_index_matches_dependencies() {
    let lock = lock_of(vec![
        pkg("a/a", "1.0.0", &[("b/b", "^1.0")]),
        pkg("b/b", "1.2.0", &[]),
        pkg("c/c", "2.0.0", &[("b/b", "^1.0"), ("a/a", "^1.0")]),
    ]);
    let tree = build_dependency_tree(&lock);
    assert_eq!(tree.len(), 3);
    // For every pair: B in usedBy(A) iff A in dependencies(B).
    for i in 0..tree.len() {
        for j in 0..tree.len() {
            let b_in_used_by_a = tree[i].used_by.contains(&tree[j].name);
            let a_in_deps_b = tree[j].dependencies.contains(&tree[i].name);
            assert_eq!(b_in_used_by_a, a_in_deps_b);
        }
    }
    assert_eq!(tree[1].used_by, vec!["a/a".to_string(), "c/c".to_string()]);
    assert_eq!(tree[0].used_by, vec!["c/c".to_string()]);
    assert!(tree[2].used_by.is_empty());
}

#[test]
fn platform_dependencies_are_excluded_from_edges() {
    let lock = lock_of(vec![pkg(
        "a/a",
        "1.0.0",
        &[("php", ">=8.0"), ("ext-json", "*"), ("b/b", "^1.0")],
    )]);
    let tree = build_dependency_tree(&lock);
    assert_eq!(tree[0].dependencies, vec!["b/b".to_string()]);
}

#[test]
fn kind_is_assigned_by_position() {
    let mut lock = lock_of(vec![pkg("a/a", "1.0.0", &[])]);
    lock.packages_dev = Some(vec![pkg("d/d", "3.0.0", &[])]);
    let tree = build_dependency_tree(&lock);
    assert_eq!(tree[0].node_type, "production");
    assert_eq!(tree[1].node_type, "development");
}

#[test]
fn primary_license_is_the_first_entry() {
    let mut p = pkg("a/a", "1.0.0", &[]);
    p.license = Some(vec!["MIT".to_string(), "Apache-2.0".to_string()]);
    let tree = build_dependency_tree(&lock_of(vec![p]));
    assert_eq!(tree[0].license.as_deref(), Some("MIT"));
}

#[test]
fn three_node_cycle_is_found() {
    let lock = lock_of(vec![
        pkg("a/a", "1.0.0", &[("b/b", "*")]),
        pkg("b/b", "1.0.0", &[("c/c", "*")]),
        pkg("c/c", "1.0.0", &[("a/a", "*")]),
    ]);
    let result = find_circular_dependencies(&lock);
    assert_eq!(result.count, result.cycles.len());
    assert!(result.count >= 1);
    let found = result.cycles.iter().any(|c| {
        let mut names: Vec<&str> = c.iter().map(|s| s.as_str()).collect();
        let closed = names.first() == names.last();
        names.pop();
        names.sort();
        names.dedup();
        closed && names == vec!["a/a", "b/b", "c/c"]
    });
    assert!(found);
}

#[test]
fn acyclic_graph_reports_no_cycles() {
    let lock = lock_of(vec![
        pkg("a/a", "1.0.0", &[("b/b", "*")]),
        pkg("b/b", "1.0.0", &[]),
    ]);
    let result = find_circular_dependencies(&lock);
    assert_eq!(result.count, 0);
}

#[test]
fn raw_analysis_filters_production_and_keeps_development() {
    let composer = manifest();
    let result = analyze_dependencies_raw(&composer, None);
    assert_eq!(result.production, vec![("acme/lib".to_string(), "^1.0".to_string())]);
    assert_eq!(result.development, vec![("acme/test".to_string(), "^2.0".to_string())]);
    assert!(result.tree.is_empty());
    assert_eq!(result.stats.total_production, 1);
    assert_eq!(result.stats.total_development, 1);
    assert_eq!(result.stats.outdated, 0);
    assert_eq!(result.stats.up_to_date, 0);
}

const NOW_2026: i64 = 1767225600000; // 2026-01-01T00:00:00Z

#[test]
fn development_version_is_flagged_medium() {
    let lock = lock_of(vec![pkg("a/a", "1.0-dev", &[])]);
    let result = audit_security(&lock, NOW_2026);
    assert_eq!(result.vulnerabilities.len(), 1);
    let v = &result.vulnerabilities[0];
    assert_eq!(v.package, "a/a");
    assert_eq!(v.version, "1.0-dev");
    assert_eq!(v.severity, "medium");
    assert_eq!(v.description, "Using development version in production");
    assert_eq!(result.risk_level, "medium");
    assert_eq!(result.summary.medium, 1);
    assert_eq!(result.summary.low, 0);
}

#[test]
fn dev_channel_release_is_not_flagged() {
    let lock = lock_of(vec![pkg("a/a", "dev-main", &[])]);
    let result = audit_security(&lock, NOW_2026);
    assert!(result.vulnerabilities.is_empty());
    assert_eq!(result.risk_level, "low");
}

#[test]
fn prestable_version_is_flagged_low() {
    let lock = lock_of(vec![pkg("a/a", "0.9.1", &[])]);
    let result = audit_security(&lock, NOW_2026);
    assert_eq!(result.vulnerabilities.len(), 1);
    assert_eq!(result.vulnerabilities[0].severity, "low");
    assert_eq!(result.risk_level, "low");
    assert_eq!(result.summary.low, 1);
}

#[test]
fn old_release_is_flagged_medium() {
    let mut p = pkg("a/a", "1.0.0", &[]);
    p.time = Some("2015-06-01T12:00:00+00:00".to_string());
    let result = audit_security(&lock_of(vec![p]), NOW_2026);
    assert_eq!(result.vulnerabilities.len(), 1);
    assert_eq!(result.vulnerabilities[0].severity, "medium");
    assert_eq!(
        result.vulnerabilities[0].description,
        "Package has not been updated in over 5 years"
    );
}

#[test]
fn recent_release_is_not_flagged() {
    let mut p = pkg("a/a", "1.0.0", &[]);
    p.time = Some("2025-06-01T12:00:00+00:00".to_string());
    let result = audit_security(&lock_of(vec![p]), NOW_2026);
    assert!(result.vulnerabilities.is_empty());
}

#[test]
fn license_risk_classification() {
    assert_eq!(assess_license_risk("MIT"), "safe");
    assert_eq!(assess_license_risk("Apache-2.0"), "safe");
    assert_eq!(assess_license_risk("GPL-3.0"), "review-required");
    assert_eq!(assess_license_risk("LGPL-2.1"), "caution");
    assert_eq!(assess_license_risk("Unknown"), "review-required");
    assert_eq!(assess_license_risk("SuperCustomLicense"), "caution");
}

#[test]
fn licenses_are_grouped_with_unknown_bucket() {
    let mut a = pkg("a/a", "1.0.0", &[]);
    a.license = Some(vec!["MIT".to_string()]);
    let mut b = pkg("b/b", "1.0.0", &[]);
    b.license = Some(vec!["MIT".to_string()]);
    let c = pkg("c/c", "1.0.0", &[]);
    let result = analyze_licenses(&lock_of(vec![a, b, c]));
    assert_eq!(result.summary.total_packages, 3);
    assert_eq!(result.summary.unique_licenses, 2);
    assert_eq!(result.summary.unknown_licenses, 1);
    assert_eq!(result.distribution.len(), 2);
    let mit = result.distribution.iter().find(|d| d.license == "MIT").unwrap();
    assert_eq!(mit.count, 2);
    assert_eq!(mit.packages, vec!["a/a".to_string(), "b/b".to_string()]);
    assert_eq!(mit.risk_level, "safe");
    let unknown = result.distribution.iter().find(|d| d.license == "Unknown").unwrap();
    assert_eq!(unknown.count, 1);
    assert_eq!(unknown.risk_level, "review-required");
    assert!(result.compatibility_issues.is_empty());
}

#[test]
fn gpl_and_proprietary_conflict_is_reported() {
    let mut a = pkg("a/a", "1.0.0", &[]);
    a.license = Some(vec!["GPL-3.0".to_string()]);
    let mut b = pkg("b/b", "1.0.0", &[]);
    b.license = Some(vec!["Proprietary".to_string()]);
    let result = analyze_licenses(&lock_of(vec![a, b]));
    assert_eq!(result.compatibility_issues.len(), 1);
    assert_eq!(
        result.compatibility_issues[0],
        "Potential conflict: GPL and Proprietary licenses detected. Review compatibility."
    );
}

#[test]
fn sanitize_replaces_separator_characters() {
    assert_eq!(sanitize_for_mermaid("acme/pkg-name.x@v"), "acme_pkg_name_x_v");
}

#[test]
fn mermaid_graph_for_one_package() {
    let lock = lock_of(vec![pkg("acme/lib", "1.2.3", &[])]);
    let graph = generate_dependency_graph(Some(&lock), 1, false, None);
    assert_eq!(
        graph,
        "graph TD\n  Root[Your Application]\n  Root --> acme_lib[\"acme/lib...\n1.2.3\"]\n"
    );
}

#[test]
fn mermaid_graph_without_lock() {
    let graph = generate_dependency_graph(None, 2, false, None);
    assert_eq!(graph, "graph TD\n  NoLock[composer.lock not found]");
}

#[test]
fn mermaid_focused_graph_lists_real_edges() {
    let lock = lock_of(vec![pkg("acme/lib", "1.2.3", &[("php", ">=8.0"), ("b/b", "^2.0")])]);
    let graph = generate_dependency_graph(Some(&lock), 2, false, Some("acme/lib"));
    assert_eq!(
        graph,
        "graph TD\n  acme_lib[acme/lib]\n  acme_lib --> b_b[\"b/b...\n^2.0\"]\n"
    );
}

#[test]
fn mermaid_overview_lists_at_most_three_edges_per_package() {
    let lock = lock_of(vec![
        pkg(
            "acme/app",
            "1.0.0",
            &[("a/a", "^1"), ("b/b", "^2"), ("c/c", "^3"), ("d/d", "^4"), ("php", ">=8.0")],
        ),
    ]);
    let graph = generate_dependency_graph(Some(&lock), 2, false, None);
    assert_eq!(
        graph,
        "graph TD\n  Root[Your Application]\n  Root --> acme_app[\"acme/app...\n1.0.0\"]\n\
         \x20 acme_app --> a_a[\"a/a...\n^1\"]\n  acme_app --> b_b[\"b/b...\n^2\"]\n\
         \x20 acme_app --> c_c[\"c/c...\n^3\"]\n"
    );
}

#[test]
fn development_packages_enter_the_graph_only_on_request() {
    let mut lock = lock_of(vec![pkg("p/p", "1.0.0", &[])]);
    lock.packages_dev = Some(vec![pkg("d/d", "2.0.0", &[])]);
    let without = generate_dependency_graph(Some(&lock), 1, false, None);
    assert!(!without.contains("d_d"));
    let with = generate_dependency_graph(Some(&lock), 1, true, None);
    assert!(with.contains("d_d"));
}

#[test]
fn self_dependency_is_a_cycle() {
    let lock = lock_of(vec![pkg("a/a", "1.0.0", &[("a/a", "*")])]);
    let result = find_circular_dependencies(&lock);
    assert!(result.count >= 1);
    assert!(result.cycles.iter().any(|c| c == &vec!["a/a".to_string(), "a/a".to_string()]));
}
