//! Data model: manifest and lock-file structures, graph nodes, namespace
//! mappings, violations and risk findings.
//!
//! Requirement maps and namespace-mapping tables are held as vectors of
//! pairs in declaration order; a well-formed manifest never repeats a key.

use vstd::prelude::*;

verus! {

/// A declared license: either one identifier or a list of them.
#[derive(Debug, Clone)]
pub enum LicenseField {
    Single(String),
    Multiple(Vec<String>),
}

/// One or several base directories bound to a namespace prefix.
#[derive(Debug, Clone)]
pub enum Psr4Path {
    Single(String),
    Multiple(Vec<String>),
}

/// Autoload section of a manifest: namespace prefix to directory bindings.
#[derive(Debug, Clone)]
pub struct AutoloadConfig {
    pub psr4: Option<Vec<(String, Psr4Path)>>,
    pub psr0: Option<Vec<(String, Psr4Path)>>,
    pub files: Option<Vec<String>>,
    pub classmap: Option<Vec<String>>,
}

/// The project manifest: declared requirements and autoload rules.
#[derive(Debug, Clone)]
pub struct ComposerJson {
    pub name: Option<String>,
    pub description: Option<String>,
    pub package_type: Option<String>,
    pub license: Option<LicenseField>,
    pub require: Option<Vec<(String, String)>>,
    pub require_dev: Option<Vec<(String, String)>>,
    pub autoload: Option<AutoloadConfig>,
    pub autoload_dev: Option<AutoloadConfig>,
}

#[derive(Debug, Clone)]
pub struct Author {
    pub name: String,
    pub email: Option<String>,
}

#[derive(Debug, Clone)]
pub struct SourceInfo {
    pub source_type: String,
    pub url: String,
    pub reference: String,
}

#[derive(Debug, Clone)]
pub struct DistInfo {
    pub dist_type: String,
    pub url: String,
    pub reference: String,
}

/// One resolved package from the lock file.
#[derive(Debug, Clone)]
pub struct PackageInfo {
    pub name: String,
    pub version: String,
    pub description: Option<String>,
    pub package_type: Option<String>,
    pub license: Option<Vec<String>>,
    pub authors: Option<Vec<Author>>,
    pub require: Option<Vec<(String, String)>>,
    pub require_dev: Option<Vec<(String, String)>>,
    pub autoload: Option<AutoloadConfig>,
    pub homepage: Option<String>,
    pub source: Option<SourceInfo>,
    pub dist: Option<DistInfo>,
    pub time: Option<String>,
}

/// The lock file: resolved production and development package lists.
#[derive(Debug, Clone)]
pub struct ComposerLock {
    pub packages: Vec<PackageInfo>,
    pub packages_dev: Option<Vec<PackageInfo>>,
    pub content_hash: Option<String>,
}

/// A namespace prefix bound to one or more source directories.
#[derive(Debug, Clone)]
pub struct Psr4Mapping {
    pub namespace: String,
    pub paths: Vec<String>,
    pub mapping_type: String,
    pub is_dev: bool,
}

/// A source file whose declared namespace is missing or wrong.
#[derive(Debug, Clone)]
pub struct Psr4Violation {
    pub file: String,
    pub expected_namespace: String,
    pub actual_namespace: Option<String>,
    pub issue: String,
}

/// One node of the dependency graph, with forward edges and the derived
/// reverse ("used by") edges.
#[derive(Debug, Clone)]
pub struct DependencyNode {
    pub name: String,
    pub version: String,
    pub node_type: String,
    pub dependencies: Vec<String>,
    pub used_by: Vec<String>,
    pub license: Option<String>,
}

/// A heuristic security finding on one package.
#[derive(Debug, Clone)]
pub struct SecurityVulnerability {
    pub package: String,
    pub version: String,
    pub severity: String,
    pub cve: Option<String>,
    pub description: String,
    pub recommendation: String,
}

/// Files, classes, interfaces and traits grouped under one namespace.
#[derive(Debug, Clone)]
pub struct NamespaceInfo {
    pub namespace: String,
    pub files: Vec<String>,
    pub classes: Vec<String>,
    pub interfaces: Vec<String>,
    pub traits: Vec<String>,
}

/// One repository in a multi-repository configuration.
#[derive(Debug, Clone)]
pub struct RepoConfig {
    pub name: String,
    pub path: String,
    pub repo_type: String,
    pub team: Option<String>,
    pub description: Option<String>,
}

/// The packages sharing one license, with its risk class.
#[derive(Debug, Clone)]
pub struct LicenseDistribution {
    pub license: String,
    pub count: usize,
    pub packages: Vec<String>,
    pub risk_level: String,
}

#[derive(Debug, Clone)]
pub struct RepoVersion {
    pub repo: String,
    pub version: String,
}

/// One package required at different version constraints by different
/// repositories.
#[derive(Debug, Clone)]
pub struct VersionConflict {
    pub package: String,
    pub versions: Vec<RepoVersion>,
}

} // verus!
