//! Structured suggestion records for the advisory layer that consumes
//! tracker output. Only the data shapes live here; assembling and
//! rendering suggestions is the consumer's work.

use vstd::prelude::*;

verus! {

/// One actionable command attached to a suggestion.
#[derive(Debug, Clone)]
pub struct AgentAction {
    pub id: String,
    pub label: String,
    pub command: String,
    pub action_type: String,
    pub auto_apply: Option<bool>,
    pub confirm_required: Option<bool>,
    pub description: Option<String>,
}

/// Suggestion totals, bucketed by severity and by category.
#[derive(Debug, Clone)]
pub struct SuggestionSummary {
    pub total: usize,
    pub by_severity: Vec<(String, usize)>,
    pub by_category: Vec<(String, usize)>,
}

} // verus!
