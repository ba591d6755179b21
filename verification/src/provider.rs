//! The RPC read provider: request routing, JSON-RPC errors, rate limiting and
//! request timing.
pub mod middleware;
pub mod server;
