//! Static analysis of a composer-style package project: dependency graph
//! construction with a reverse index, cycle detection, PSR-4 namespace
//! placement validation, heuristic security and license risk classification,
//! and snapshot-based change tracking.

pub mod annotations;
pub mod auth;
pub mod composer;
pub mod docs;
pub mod graph;
pub mod mcp;
pub mod mermaid;
pub mod multirepo;
pub mod namespace;
pub mod psr4;
pub mod scan;
pub mod security;
pub mod suggestions;
pub mod seqs;
pub mod strings;
pub mod tracker;
pub mod types;
pub mod wrappers;
