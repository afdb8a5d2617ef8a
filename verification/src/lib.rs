//! Telemetry core for an AI code-completion service: diff primitives,
//! an edit-classification heuristic, and the lifecycle of suggested
//! completion snippets from registration through acceptance to finalization.

pub mod approx;
pub mod diff;
pub mod heuristic;
pub mod snippets_collection;
pub mod text;
