use composer_analyzer::annotations::get_tool_annotation;
use composer_analyzer::annotations::ToolAnnotations;
use composer_analyzer::auth::is_auth_enabled;
use composer_analyzer::auth::validate_auth;
use composer_analyzer::auth::AuthConfig;
use composer_analyzer::composer::calculate_expected_namespace;
use composer_analyzer::composer::filter_php_dependencies;
use composer_analyzer::composer::get_licenses;
use composer_analyzer::composer::get_psr4_mappings;
use composer_analyzer::docs::generate_mkdocs_config;
use composer_analyzer::multirepo::analyze_multiple_repositories;
use composer_analyzer::types::RepoConfig;
use composer_analyzer::mcp::repo_path_tool;
use composer_analyzer::namespace::analyze_namespace_usage;
use composer_analyzer::namespace::detect_namespaces;
use composer_analyzer::namespace::SourceFile;
use composer_analyzer::psr4::analyze_psr4_autoloading;
use composer_analyzer::psr4::Psr4SourceFile;
use composer_analyzer::scan::analyze_file;
use composer_analyzer::scan::extract_namespace;
use composer_analyzer::strings::capitalize;
use composer_analyzer::types::AutoloadConfig;
use composer_analyzer::types::ComposerJson;
use composer_analyzer::types::LicenseField;
use composer_analyzer::types::Psr4Path;
use sha2::Digest;

#[test]
fn expected_namespace_from_path() {
    assert_eq!(calculate_expected_namespace("App", "Foo/Bar.php"), "App\\Foo");
    assert_eq!(calculate_expected_namespace("App\\", "Foo/Bar.php"), "App\\Foo");
    assert_eq!(calculate_expected_namespace("App", "Bar.php"), "App");
    assert_eq!(calculate_expected_namespace("App", "Foo/Baz/Qux.php"), "App\\Foo\\Baz");
}

fn psr4_file(declared: &str) -> Psr4SourceFile {
    Psr4SourceFile {
        base_namespace: "App".to_string(),
        mapping_path: "src".to_string(),
        rel_path: "Foo/Bar.php".to_string(),
        contents: format!("<?php\n\nnamespace {};\n\nclass Bar {{}}\n", declared),
    }
}

fn mapping() -> composer_analyzer::types::Psr4Mapping {
    composer_analyzer::types::Psr4Mapping {
        namespace: "App".to_string(),
        paths: vec!["src".to_string()],
        mapping_type: "psr-4".to_string(),
        is_dev: false,
    }
}

#[test]
fn correctly_placed_file_yields_no_violation() {
    let result = analyze_psr4_autoloading(&vec![mapping()], &vec![psr4_file("App\\Foo")]);
    assert_eq!(result.stats.total_mappings, 1);
    assert_eq!(result.stats.total_files, 1);
    assert_eq!(result.stats.valid_files, 1);
    assert_eq!(result.stats.violation_count, 0);
    assert!(result.violations.is_empty());
}

#[test]
fn wrong_namespace_yields_a_mismatch_violation() {
    let result = analyze_psr4_autoloading(&vec![mapping()], &vec![psr4_file("App\\Wrong")]);
    assert_eq!(result.stats.valid_files, 0);
    assert_eq!(result.violations.len(), 1);
    let v = &result.violations[0];
    assert_eq!(v.expected_namespace, "App\\Foo");
    assert_eq!(v.actual_namespace.as_deref(), Some("App\\Wrong"));
    assert_eq!(v.issue, "Namespace mismatch");
    assert_eq!(v.file, "src/Foo/Bar.php");
}

#[test]
fn missing_namespace_yields_a_missing_violation() {
    let file = Psr4SourceFile {
        base_namespace: "App".to_string(),
        mapping_path: "src".to_string(),
        rel_path: "Foo/Bar.php".to_string(),
        contents: "<?php\nclass Bar {}\n".to_string(),
    };
    let result = analyze_psr4_autoloading(&vec![mapping()], &vec![file]);
    assert_eq!(result.violations.len(), 1);
    assert_eq!(result.violations[0].issue, "Missing namespace declaration");
    assert!(result.violations[0].actual_namespace.is_none());
    assert_eq!(result.violations[0].expected_namespace, "App\\Foo");
}

#[test]
fn analyze_file_collects_declarations() {
    let contents = "<?php\nnamespace App\\Models;\nuse App\\Contracts\\Storable;\nuse Psr\\Log\\LoggerInterface as Logger;\nabstract class User {}\ninterface Greeter {}\ntrait Counts {}\n";
    let info = analyze_file(contents);
    assert_eq!(info.namespace, "App\\Models");
    assert_eq!(info.classes, vec!["User".to_string()]);
    assert_eq!(info.interfaces, vec!["Greeter".to_string()]);
    assert_eq!(info.traits, vec!["Counts".to_string()]);
    assert_eq!(
        info.uses,
        vec!["App\\Contracts\\Storable".to_string(), "Psr\\Log\\LoggerInterface".to_string()]
    );
}

#[test]
fn extract_namespace_takes_the_first_declaration() {
    let contents = "namespace First;\nnamespace Second;\n";
    assert_eq!(extract_namespace(contents), "First");
    let info = analyze_file(contents);
    assert_eq!(info.namespace, "Second");
    assert_eq!(extract_namespace("no declarations here"), "");
}

#[test]
fn detect_namespaces_groups_files() {
    let files = vec![
        SourceFile {
            path: "src/A.php".to_string(),
            contents: "namespace App;\nclass A {}\n".to_string(),
        },
        SourceFile {
            path: "src/B.php".to_string(),
            contents: "namespace App;\nclass B {}\n".to_string(),
        },
        SourceFile {
            path: "src/helpers.php".to_string(),
            contents: "function helper() {}\n".to_string(),
        },
    ];
    let result = detect_namespaces(&files);
    assert_eq!(result.total_files, 3);
    assert_eq!(result.files_without_namespace, vec!["src/helpers.php".to_string()]);
    assert_eq!(result.namespaces.len(), 1);
    let app = &result.namespaces[0];
    assert_eq!(app.namespace, "App");
    assert_eq!(app.files, vec!["src/A.php".to_string(), "src/B.php".to_string()]);
    assert_eq!(app.classes, vec!["A".to_string(), "B".to_string()]);
    assert!(app.interfaces.is_empty());
}

#[test]
fn namespace_usage_counts_definitions_and_imports() {
    let files = vec![
        SourceFile {
            path: "src/A.php".to_string(),
            contents: "namespace App\\Core;\n".to_string(),
        },
        SourceFile {
            path: "src/B.php".to_string(),
            contents: "namespace Other;\nuse App\\Core\\Thing;\nuse Vendor\\Lib;\n".to_string(),
        },
    ];
    let result = analyze_namespace_usage(&files, "App\\Core");
    assert_eq!(result.defined_in, vec!["src/A.php".to_string()]);
    assert_eq!(result.imported_by.len(), 1);
    assert_eq!(result.imported_by[0].file, "src/B.php");
    assert_eq!(result.imported_by[0].imports, vec!["App\\Core\\Thing".to_string()]);
    assert_eq!(result.total_usages, 2);
}

#[test]
fn capitalize_uppercases_the_first_character() {
    assert_eq!(capitalize("hello"), "Hello");
    assert_eq!(capitalize("Hello"), "Hello");
    assert_eq!(capitalize(""), "");
    assert_eq!(capitalize("license"), "License");
}

#[test]
fn manifest_helpers() {
    let composer = ComposerJson {
        name: None,
        description: None,
        package_type: None,
        license: Some(LicenseField::Multiple(vec!["MIT".to_string(), "ISC".to_string()])),
        require: Some(vec![
            ("php".to_string(), ">=8.0".to_string()),
            ("acme/lib".to_string(), "^1.0".to_string()),
        ]),
        require_dev: None,
        autoload: Some(AutoloadConfig {
            psr4: Some(vec![("App\\".to_string(), Psr4Path::Single("src/".to_string()))]),
            psr0: None,
            files: None,
            classmap: None,
        }),
        autoload_dev: Some(AutoloadConfig {
            psr4: Some(vec![(
                "Tests\\".to_string(),
                Psr4Path::Multiple(vec!["tests/".to_string(), "spec/".to_string()]),
            )]),
            psr0: None,
            files: None,
            classmap: None,
        }),
    };
    assert_eq!(get_licenses(&composer), vec!["MIT".to_string(), "ISC".to_string()]);
    let filtered = filter_php_dependencies(composer.require.as_ref().unwrap());
    assert_eq!(filtered, vec![("acme/lib".to_string(), "^1.0".to_string())]);
    let mappings = get_psr4_mappings(&composer);
    assert_eq!(mappings.len(), 2);
    assert_eq!(mappings[0].namespace, "App\\");
    assert_eq!(mappings[0].paths, vec!["src/".to_string()]);
    assert_eq!(mappings[0].mapping_type, "psr-4");
    assert!(!mappings[0].is_dev);
    assert_eq!(mappings[1].namespace, "Tests\\");
    assert_eq!(mappings[1].paths, vec!["tests/".to_string(), "spec/".to_string()]);
    assert!(mappings[1].is_dev);
}

#[test]
fn tool_annotations_by_name() {
    let audit = get_tool_annotation("audit_security");
    assert_eq!(audit.title.as_deref(), Some("Audit Security"));
    assert_eq!(audit.read_only_hint, Some(true));
    assert_eq!(audit.open_world_hint, Some(true));
    assert_eq!(audit.cache_ttl_seconds, Some(60));
    assert_eq!(
        audit.tags,
        Some(vec!["security".to_string(), "audit".to_string()])
    );
    let unknown = get_tool_annotation("nonexistent_tool");
    assert!(unknown.title.is_none());
    assert!(unknown.tags.is_none());
    let titled = ToolAnnotations::analysis().with_title("Custom");
    assert_eq!(titled.title.as_deref(), Some("Custom"));
    assert_eq!(titled.cache_ttl_seconds, Some(300));
}

#[test]
fn auth_validation_paths() {
    let config = AuthConfig::default();
    assert!(!is_auth_enabled(&config));
    let ok = validate_auth(&config, "tools/call", &vec![]).unwrap();
    assert_eq!(ok.cred_type, "anonymous");

    let mut enabled = AuthConfig::default();
    enabled.enabled = true;
    enabled.static_tokens.push("token-alpha".to_string());
    assert!(is_auth_enabled(&enabled));

    let public = validate_auth(&enabled, "initialize", &vec![]).unwrap();
    assert_eq!(public.cred_type, "anonymous");

    let missing = validate_auth(&enabled, "tools/call", &vec![]);
    assert!(missing.is_err());

    let bad = validate_auth(
        &enabled,
        "tools/call",
        &vec![("Authorization".to_string(), "Bearer wrong".to_string())],
    );
    assert!(bad.is_err());

    let good = validate_auth(
        &enabled,
        "tools/call",
        &vec![("Authorization".to_string(), "Bearer token-alpha".to_string())],
    )
    .unwrap();
    assert_eq!(good.cred_type, "static_token");
    assert_eq!(good.subject.as_deref(), Some("mcp-client"));
    let mut hasher = sha2::Sha256::new();
    hasher.update("token-alpha".as_bytes());
    let digest = hasher.finalize();
    assert_eq!(good.token_hash.as_deref(), Some(hex::encode(&digest[..8]).as_str()));
}

#[test]
fn repo_path_tool_shape() {
    let tool = repo_path_tool("analyze_dependencies", "Analyze the project");
    assert_eq!(tool.name, "analyze_dependencies");
    assert_eq!(tool.description, "Analyze the project");
    assert_eq!(tool.input_schema.schema_type, "object");
    assert_eq!(tool.input_schema.required, vec!["repo_path".to_string()]);
    assert_eq!(tool.input_schema.properties.len(), 1);
    assert_eq!(tool.input_schema.properties[0].0, "repo_path");
    assert_eq!(tool.input_schema.properties[0].1.property_type, "string");
    assert!(tool.annotations.is_none());
}

#[test]
fn mkdocs_config_lists_the_navigation() {
    let with = generate_mkdocs_config("Site", "Desc", true);
    assert!(with.starts_with("site_name: Site\nsite_description: Desc\n"));
    assert!(with.contains("nav:\n"));
    assert!(with.ends_with("  - Changelog: changelog.md\n"));
    let without = generate_mkdocs_config("Site", "Desc", false);
    assert!(!without.contains("Changelog"));
    assert!(without.ends_with("  - Architecture: architecture.md\n"));
}

#[test]
fn multi_repo_shared_and_conflicting_packages() {
    let repo = |name: &str| RepoConfig {
        name: name.to_string(),
        path: format!("/{}", name),
        repo_type: "service".to_string(),
        team: None,
        description: None,
    };
    let manifest = |reqs: &[(&str, &str)], lic: Option<&str>| ComposerJson {
        name: None,
        description: None,
        package_type: None,
        license: lic.map(|l| LicenseField::Single(l.to_string())),
        require: Some(reqs.iter().map(|(k, v)| (k.to_string(), v.to_string())).collect()),
        require_dev: None,
        autoload: None,
        autoload_dev: None,
    };
    let repos = vec![repo("alpha"), repo("beta")];
    let manifests = vec![
        Some(manifest(&[("php", ">=8.0"), ("acme/shared", "^1.0")], Some("MIT"))),
        Some(manifest(&[("acme/shared", "^2.0"), ("acme/solo", "^1.0")], Some("MIT"))),
    ];
    let result = analyze_multiple_repositories(&repos, &manifests);
    assert_eq!(result.repositories.len(), 2);
    assert_eq!(result.total_packages, 2);
    assert_eq!(result.shared_dependencies.len(), 1);
    assert_eq!(result.shared_dependencies[0].0, "acme/shared");
    assert_eq!(
        result.shared_dependencies[0].1,
        vec!["alpha".to_string(), "beta".to_string()]
    );
    assert_eq!(result.version_conflicts.len(), 1);
    let conflict = &result.version_conflicts[0];
    assert_eq!(conflict.package, "acme/shared");
    assert_eq!(conflict.versions.len(), 2);
    assert_eq!(conflict.versions[0].repo, "alpha");
    assert_eq!(conflict.versions[0].version, "^1.0");
    assert_eq!(conflict.versions[1].repo, "beta");
    assert_eq!(conflict.versions[1].version, "^2.0");
    assert_eq!(result.common_licenses, vec![("MIT".to_string(), 2usize)]);
}

#[test]
fn windows_line_endings_are_handled() {
    let info = analyze_file("namespace App;\r\nclass A {}\r\n");
    assert_eq!(info.namespace, "App");
    assert_eq!(info.classes, vec!["A".to_string()]);
}

#[test]
fn matcher_edge_cases_follow_plain_pattern_matching() {
    // The keyword is matched wherever it occurs, without word boundaries.
    let info = analyze_file("this subclass Foo of thing\n");
    assert_eq!(info.classes, vec!["Foo".to_string()]);
    // An import needs its semicolon right after the name or the alias.
    let spaced = analyze_file("use Foo ;\n");
    assert!(spaced.uses.is_empty());
    let aliased = analyze_file("use Foo as Bar;\n");
    assert_eq!(aliased.uses, vec!["Foo".to_string()]);
    // A namespace declaration allows whitespace before the semicolon.
    let padded = analyze_file("namespace App\\Sub  ;\n");
    assert_eq!(padded.namespace, "App\\Sub");
}

#[test]
fn violation_paths_join_without_doubled_separators() {
    let file = Psr4SourceFile {
        base_namespace: "App".to_string(),
        mapping_path: "src/".to_string(),
        rel_path: "Foo/Bar.php".to_string(),
        contents: "namespace App\\Wrong;\n".to_string(),
    };
    let result = analyze_psr4_autoloading(&vec![mapping()], &vec![file]);
    assert_eq!(result.violations[0].file, "src/Foo/Bar.php");
}
