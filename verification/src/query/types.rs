//! Filters of a getProgramAccounts query.
use vstd::prelude::*;

verus! {

/// A getProgramAccounts filter.
#[derive(Debug, Clone)]
pub enum GpaFilter {
    /// Accounts with this data size.
    DataSize(u64),
    /// Accounts whose data holds `bytes` at `offset`.
    Memcmp { offset: usize, bytes: Vec<u8> },
    /// Accounts with this Anchor discriminator.
    Discriminator([u8; 8]),
}

} // verus!
