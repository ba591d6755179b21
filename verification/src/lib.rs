//! Synapse Hyperplane accounts engine: the verified core.
//!
//! Storage locations, account views, slot and commitment tracking,
//! compressed pubkey bitmaps and dictionaries, secondary indexes,
//! query planning, caches and integrity checksums.
pub mod index;
pub mod location;
pub mod mapper;
pub mod scanner;
pub mod pubkey;
pub mod account;
pub mod bitmap;
pub mod bridge;
pub mod checksum;
pub mod cli;
pub mod clock;
pub mod collections;
pub mod roaring_sets;
pub mod rpc;
pub mod slot;
pub mod text;
pub mod delta;
pub mod dictionary;
pub mod cache;
pub mod provider;
pub mod query;
pub mod reconciler;
pub mod runtime;
