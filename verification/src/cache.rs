//! The cache plane: hot in-memory entries, invalidation of materialized queries,
//! and the key and statistics formats of the distributed cache.
pub mod dragonfly;
pub mod l1;
pub mod invalidation;
