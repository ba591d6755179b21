//! The query orchestrator for getProgramAccounts: filter types, cost estimates,
//! cardinality statistics, execution plans and bitmap set algebra.
pub mod bitmap_intersection;
pub mod cost_estimator;
pub mod cost_model;
pub mod types;
