use composer_analyzer::graph::build_dependency_tree;
use composer_analyzer::tracker::check_compliance;
use composer_analyzer::tracker::compare_snapshots;
use composer_analyzer::tracker::create_dependency_snapshot;
use composer_analyzer::tracker::generate_revert_command;
use composer_analyzer::tracker::get_dependency_history;
use composer_analyzer::tracker::DependencyChange;
use composer_analyzer::tracker::DependencySnapshot;
use composer_analyzer::tracker::SnapshotMetadata;
use composer_analyzer::tracker::TrackedDependency;
use composer_analyzer::types::ComposerLock;
use composer_analyzer::types::PackageInfo;
use sha2::Digest;

const NOW_2026: i64 = 1767225600000; // 2026-01-01T00:00:00Z
const NOW_RFC3339: &str = "2026-01-01T00:00:00+00:00";

fn pkg(name: &str, version: &str) -> PackageInfo {
    PackageInfo {
        name: name.to_string(),
        version: version.to_string(),
        description: None,
        package_type: None,
        license: None,
        authors: None,
        require: None,
        require_dev: None,
        autoload: None,
        homepage: None,
        source: None,
        dist: None,
        time: None,
    }
}

fn lock_of(packages: Vec<PackageInfo>) -> ComposerLock {
    ComposerLock { packages, packages_dev: None, content_hash: None }
}

fn entry(name: &str, version: &str) -> TrackedDependency {
    TrackedDependency {
        name: name.to_string(),
        version: version.to_string(),
        dep_type: "production".to_string(),
        added_at: Some(NOW_RFC3339.to_string()),
        updated_at: Some(NOW_RFC3339.to_string()),
        license: None,
        security_status: Some("unknown".to_string()),
    }
}

fn snapshot_of(entries: Vec<TrackedDependency>) -> DependencySnapshot {
    let total = entries.len();
    DependencySnapshot {
        timestamp: NOW_RFC3339.to_string(),
        checksum: String::new(),
        dependencies: entries,
        metadata: SnapshotMetadata {
            repo_path: "/repo".to_string(),
            package_manager: "composer".to_string(),
            total_count: total,
        },
    }
}

fn expected_checksum(tokens: &mut Vec<String>) -> String {
    tokens.sort();
    let mut hasher = sha2::Sha256::new();
    hasher.update(tokens.join("|").as_bytes());
    let digest = hasher.finalize();
    hex::encode(&digest[..8])
}

#[test]
fn snapshot_checksum_matches_the_digest_of_sorted_tokens() {
    let tree = build_dependency_tree(&lock_of(vec![pkg("b/b", "2.0.0"), pkg("a/a", "1.0.0")]));
    let snap = create_dependency_snapshot(&tree, None, NOW_RFC3339, "/repo");
    let mut tokens = vec!["b/b@2.0.0".to_string(), "a/a@1.0.0".to_string()];
    assert_eq!(snap.checksum, expected_checksum(&mut tokens));
    assert_eq!(snap.timestamp, NOW_RFC3339);
    assert_eq!(snap.metadata.repo_path, "/repo");
    assert_eq!(snap.metadata.package_manager, "composer");
    assert_eq!(snap.metadata.total_count, 2);
}

#[test]
fn checksum_is_order_independent() {
    let t1 = build_dependency_tree(&lock_of(vec![
        pkg("a/a", "1.0.0"),
        pkg("b/b", "2.0.0"),
        pkg("c/c", "3.0.0"),
    ]));
    let t2 = build_dependency_tree(&lock_of(vec![
        pkg("c/c", "3.0.0"),
        pkg("a/a", "1.0.0"),
        pkg("b/b", "2.0.0"),
    ]));
    let s1 = create_dependency_snapshot(&t1, None, NOW_RFC3339, "/repo");
    let s2 = create_dependency_snapshot(&t2, None, NOW_RFC3339, "/repo");
    assert_eq!(s1.checksum, s2.checksum);
}

#[test]
fn checksum_depends_on_versions() {
    let t1 = build_dependency_tree(&lock_of(vec![pkg("a/a", "1.0.0")]));
    let t2 = build_dependency_tree(&lock_of(vec![pkg("a/a", "2.0.0")]));
    let s1 = create_dependency_snapshot(&t1, None, NOW_RFC3339, "/repo");
    let s2 = create_dependency_snapshot(&t2, None, NOW_RFC3339, "/repo");
    assert_ne!(s1.checksum, s2.checksum);
}

#[test]
fn snapshot_inherits_added_at_and_refreshes_updated_at_on_change() {
    let old_time = "2024-05-05T00:00:00+00:00";
    let prior = snapshot_of(vec![TrackedDependency {
        name: "a/a".to_string(),
        version: "1.0.0".to_string(),
        dep_type: "production".to_string(),
        added_at: Some(old_time.to_string()),
        updated_at: Some(old_time.to_string()),
        license: None,
        security_status: Some("unknown".to_string()),
    }]);
    let tree = build_dependency_tree(&lock_of(vec![pkg("a/a", "2.0.0"), pkg("b/b", "1.0.0")]));
    let snap = create_dependency_snapshot(&tree, Some(&prior), NOW_RFC3339, "/repo");
    // a/a existed before: added-at inherited, updated-at refreshed (version changed).
    assert_eq!(snap.dependencies[0].added_at.as_deref(), Some(old_time));
    assert_eq!(snap.dependencies[0].updated_at.as_deref(), Some(NOW_RFC3339));
    // b/b is new: both stamps are now.
    assert_eq!(snap.dependencies[1].added_at.as_deref(), Some(NOW_RFC3339));
    assert_eq!(snap.dependencies[1].updated_at.as_deref(), Some(NOW_RFC3339));
    assert_eq!(snap.dependencies[0].security_status.as_deref(), Some("unknown"));
}

#[test]
fn snapshot_carries_updated_at_forward_when_version_is_unchanged() {
    let old_time = "2024-05-05T00:00:00+00:00";
    let prior = snapshot_of(vec![TrackedDependency {
        name: "a/a".to_string(),
        version: "1.0.0".to_string(),
        dep_type: "production".to_string(),
        added_at: Some(old_time.to_string()),
        updated_at: Some(old_time.to_string()),
        license: None,
        security_status: Some("unknown".to_string()),
    }]);
    let tree = build_dependency_tree(&lock_of(vec![pkg("a/a", "1.0.0")]));
    let snap = create_dependency_snapshot(&tree, Some(&prior), NOW_RFC3339, "/repo");
    assert_eq!(snap.dependencies[0].updated_at.as_deref(), Some(old_time));
}

#[test]
fn comparing_identical_snapshots_yields_no_changes() {
    let s = snapshot_of(vec![entry("a/a", "1.0.0"), entry("b/b", "2.0.0")]);
    let changes = compare_snapshots(&s, &s);
    assert!(changes.is_empty());
}

#[test]
fn version_change_is_reported_as_updated() {
    let old = snapshot_of(vec![entry("a/a", "1.0")]);
    let new = snapshot_of(vec![entry("a/a", "2.0")]);
    let changes = compare_snapshots(&old, &new);
    assert_eq!(changes.len(), 1);
    assert_eq!(changes[0].change_type, "updated");
    assert_eq!(changes[0].name, "a/a");
    assert_eq!(changes[0].old_version.as_deref(), Some("1.0"));
    assert_eq!(changes[0].new_version.as_deref(), Some("2.0"));
    assert_eq!(changes[0].timestamp, new.timestamp);
}

#[test]
fn appearing_package_is_added_and_disappearing_one_removed() {
    let empty = snapshot_of(vec![]);
    let one = snapshot_of(vec![entry("a/a", "1.0")]);
    let added = compare_snapshots(&empty, &one);
    assert_eq!(added.len(), 1);
    assert_eq!(added[0].change_type, "added");
    assert_eq!(added[0].name, "a/a");
    assert!(added[0].old_version.is_none());
    assert_eq!(added[0].new_version.as_deref(), Some("1.0"));
    let removed = compare_snapshots(&one, &empty);
    assert_eq!(removed.len(), 1);
    assert_eq!(removed[0].change_type, "removed");
    assert_eq!(removed[0].old_version.as_deref(), Some("1.0"));
    assert!(removed[0].new_version.is_none());
}

#[test]
fn history_buckets_by_recency() {
    let recent = "2025-12-20T00:00:00+00:00";
    let old = "2023-01-01T00:00:00+00:00";
    let mut fresh = entry("fresh/pkg", "1.0");
    fresh.added_at = Some(recent.to_string());
    fresh.updated_at = Some(recent.to_string());
    let mut bumped = entry("bumped/pkg", "2.0");
    bumped.added_at = Some(old.to_string());
    bumped.updated_at = Some(recent.to_string());
    let mut dusty = entry("dusty/pkg", "0.1");
    dusty.added_at = Some(old.to_string());
    dusty.updated_at = Some(old.to_string());
    let snap = snapshot_of(vec![fresh, bumped, dusty]);
    let history = get_dependency_history(&snap, NOW_2026);
    let names = |v: &Vec<TrackedDependency>| v.iter().map(|d| d.name.clone()).collect::<Vec<_>>();
    assert_eq!(names(&history.recently_added), vec!["fresh/pkg"]);
    assert_eq!(names(&history.recently_updated), vec!["bumped/pkg"]);
    assert_eq!(names(&history.stale), vec!["dusty/pkg"]);
    assert_eq!(history.current_snapshot.dependencies.len(), 3);
}

#[test]
fn restrictive_license_raises_a_high_issue() {
    let mut e = entry("a/a", "1.0.0");
    e.license = Some("gpl-3.0".to_string());
    let issues = check_compliance(&snapshot_of(vec![e]), NOW_2026);
    let license_issues: Vec<_> = issues.iter().filter(|i| i.issue == "license").collect();
    assert_eq!(license_issues.len(), 1);
    assert_eq!(license_issues[0].severity, "high");
    assert_eq!(license_issues[0].dependency, "a/a");
    assert_eq!(license_issues[0].description, "Uses restrictive license: gpl-3.0");
    assert!(!license_issues[0].auto_fix_available);
}

#[test]
fn development_entries_are_not_license_checked() {
    let mut e = entry("a/a", "1.0.0");
    e.dep_type = "development".to_string();
    e.license = Some("GPL-3.0".to_string());
    let issues = check_compliance(&snapshot_of(vec![e]), NOW_2026);
    assert!(issues.iter().all(|i| i.issue != "license"));
}

#[test]
fn stale_entry_raises_a_low_issue_with_auto_fix() {
    let mut e = entry("a/a", "1.0.0");
    e.updated_at = Some("2022-01-01T00:00:00+00:00".to_string());
    let issues = check_compliance(&snapshot_of(vec![e]), NOW_2026);
    assert_eq!(issues.len(), 1);
    assert_eq!(issues[0].issue, "outdated");
    assert_eq!(issues[0].severity, "low");
    assert_eq!(issues[0].description, "Not updated in over 2 years");
    assert!(issues[0].auto_fix_available);
}

fn change(kind: &str, name: &str, old_version: Option<&str>) -> DependencyChange {
    DependencyChange {
        change_type: kind.to_string(),
        name: name.to_string(),
        old_version: old_version.map(|s| s.to_string()),
        new_version: None,
        timestamp: NOW_RFC3339.to_string(),
        reason: None,
    }
}

#[test]
fn revert_commands_per_change_kind() {
    assert_eq!(
        generate_revert_command(&change("added", "a/a", None)),
        "composer remove a/a"
    );
    assert_eq!(
        generate_revert_command(&change("removed", "a/a", Some("1.0"))),
        "composer require a/a:1.0"
    );
    assert_eq!(
        generate_revert_command(&change("updated", "a/a", Some("1.0"))),
        "composer require a/a:1.0"
    );
    assert_eq!(generate_revert_command(&change("removed", "a/a", None)), "composer require a/a:*");
    assert_eq!(generate_revert_command(&change("renamed", "a/a", None)), "");
}

#[test]
fn comparison_has_set_semantics_even_with_repeated_names() {
    // Identical lists never produce a change, even with a name repeated
    // at different versions.
    let s = snapshot_of(vec![entry("x/x", "1.0"), entry("x/x", "2.0")]);
    assert!(compare_snapshots(&s, &s).is_empty());
    // A name-keyed map holds the last entry, so x/x counts as 2.0 here.
    let t = snapshot_of(vec![entry("x/x", "2.0")]);
    assert!(compare_snapshots(&s, &t).is_empty());
    let u = snapshot_of(vec![entry("x/x", "3.0")]);
    let changes = compare_snapshots(&s, &u);
    assert_eq!(changes.len(), 1);
    assert_eq!(changes[0].change_type, "updated");
    assert_eq!(changes[0].old_version.as_deref(), Some("2.0"));
    assert_eq!(changes[0].new_version.as_deref(), Some("3.0"));
}
