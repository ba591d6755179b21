//! RPC request and response types and account encoding.
use crate::account::AccountView;
use crate::pubkey::{base58, Pubkey};
use crate::slot::CommitmentLevel;
use vstd::prelude::*;
use vstd::string::StringExecFns;

verus! {

/// Account data encodings.
#[derive(Debug, Clone, Copy, PartialEq, Eq, Hash, Structural)]
pub enum AccountEncoding {
    /// Base58 (legacy, slow).
    Base58,
    /// Base64 (standard).
    Base64,
    /// Base64 of zstd-compressed data.
    Base64Zstd,
    /// Raw bytes, for internal use.
    Binary,
    /// Parsed JSON, for known layouts.
    JsonParsed,
}

impl Default for AccountEncoding {
    fn default() -> (e: Self)
        ensures
            e == AccountEncoding::Base64,
    {
        AccountEncoding::Base64
    }
}

/// Sort order of paginated results.
#[derive(Debug, Clone, Copy, PartialEq, Eq, Structural)]
pub enum SortOrder {
    Pubkey,
    Lamports,
    DataSize,
    /// Most recent first.
    Slot,
}

impl Default for SortOrder {
    fn default() -> (o: Self)
        ensures
            o == SortOrder::Pubkey,
    {
        SortOrder::Pubkey
    }
}

/// Context of an RPC request.
#[derive(Debug, Clone)]
pub struct RpcContext {
    pub commitment: CommitmentLevel,
    pub encoding: AccountEncoding,
    /// Whether the response carries the slot context.
    pub with_context: bool,
    /// Page size.
    pub limit: Option<usize>,
    /// Pagination cursor.
    pub cursor: Option<String>,
    pub sort: SortOrder,
}

impl Default for RpcContext {
    fn default() -> (c: Self)
        ensures
            c.commitment == CommitmentLevel::Processed,
            c.encoding == AccountEncoding::Base64,
            c.with_context,
            c.limit == Some(1000usize),
            c.cursor is None,
            c.sort == SortOrder::Pubkey,
    {
        RpcContext {
            commitment: CommitmentLevel::Processed,
            encoding: AccountEncoding::Base64,
            with_context: true,
            limit: Some(1000),
            cursor: None,
            sort: SortOrder::Pubkey,
        }
    }
}

/// A byte comparison filter on account data.
#[derive(Debug, Clone)]
pub struct MemcmpFilter {
    pub offset: usize,
    /// Bytes to match, as text.
    pub bytes: String,
    pub encoding: Option<String>,
}

/// A getProgramAccounts filter.
#[derive(Debug, Clone)]
pub struct AccountFilter {
    pub data_size: Option<u64>,
    pub memcmp: Option<MemcmpFilter>,
    pub mint: Option<Pubkey>,
    pub token_owner: Option<Pubkey>,
}

/// A paginated getProgramAccounts request.
#[derive(Debug, Clone)]
pub struct GetProgramAccountsV2Request {
    pub program_id: Pubkey,
    pub filters: Vec<AccountFilter>,
    pub cursor: Option<String>,
    pub limit: usize,
    pub encoding: AccountEncoding,
    pub commitment: CommitmentLevel,
    pub sort: SortOrder,
    pub with_context: bool,
}

impl Default for GetProgramAccountsV2Request {
    fn default() -> (r: Self)
        ensures
            r.program_id.0@ == Seq::new(32, |i: int| 0u8),
            r.filters@.len() == 0,
            r.cursor is None,
            r.limit == 1000,
            r.encoding == AccountEncoding::Base64,
            r.commitment == CommitmentLevel::Processed,
            r.sort == SortOrder::Pubkey,
            r.with_context,
    {
        GetProgramAccountsV2Request {
            program_id: Pubkey::default(),
            filters: Vec::new(),
            cursor: None,
            limit: 1000,
            encoding: AccountEncoding::Base64,
            commitment: CommitmentLevel::Processed,
            sort: SortOrder::Pubkey,
            with_context: true,
        }
    }
}

/// Encoded account data.
#[derive(Debug, Clone)]
pub struct RpcAccountData {
    pub encoding: AccountEncoding,
    pub data: String,
    /// Size of the raw data in bytes.
    pub data_size: usize,
}

/// An account in an RPC response.
#[derive(Debug, Clone)]
pub struct RpcAccountInfo {
    /// Base58 address.
    pub pubkey: String,
    pub lamports: u64,
    pub data: RpcAccountData,
    /// Base58 owner address.
    pub owner: String,
    pub executable: bool,
    pub rent_epoch: u64,
    pub slot: u64,
}

/// Slot context of a response.
#[derive(Debug, Clone)]
pub struct RpcResponseContext {
    pub slot: u64,
    pub api_version: String,
}

impl RpcResponseContext {
    /// The context at a slot, with this engine's API version.
    pub fn new(slot: u64) -> (c: Self)
        ensures
            c.slot == slot,
            c.api_version@ == "synapse-hyperplane/0.1.0"@,
    {
        RpcResponseContext { slot, api_version: String::from_str("synapse-hyperplane/0.1.0") }
    }
}

/// A paginated getProgramAccounts response.
#[derive(Debug, Clone)]
pub struct GetProgramAccountsV2Response {
    pub context: RpcResponseContext,
    pub accounts: Vec<RpcAccountInfo>,
    pub cursor: Option<String>,
    pub has_more: bool,
    /// Candidate count from the bitmap.
    pub total_candidates: u64,
    pub execution_ms: u128,
}

/// A getAccountInfo response.
#[derive(Debug, Clone)]
pub struct GetAccountInfoResponse {
    pub context: RpcResponseContext,
    pub value: Option<RpcAccountInfo>,
    pub cache_hit: bool,
    pub storage_type: Option<String>,
    pub execution_ms: u128,
}

/// A getMultipleAccounts response.
#[derive(Debug, Clone)]
pub struct GetMultipleAccountsResponse {
    pub context: RpcResponseContext,
    pub value: Vec<RpcAccountInfo>,
    pub missing_pubkeys: Vec<String>,
    pub cache_hits: usize,
    pub execution_ms: u128,
}

/// Statistics of one query, for adaptive indexing.
#[derive(Debug, Clone)]
pub struct QueryStats {
    pub method: String,
    pub program_id: Option<Pubkey>,
    pub filters: Vec<String>,
    pub candidate_count: u64,
    pub result_count: usize,
    pub execution_ms: u128,
    pub cache_hit: bool,
    pub slot_watermark: u64,
}

/// The standard (padded) base64 text of a byte string.
pub uninterp spec fn base64(bytes: Seq<u8>) -> Seq<char>;

/// Calls `base64::Engine::encode` on the standard engine: the padded base64 text
/// of `bytes`, a function of the bytes alone.
#[verifier::external_body]
fn base64_encode(bytes: &[u8]) -> (s: String)
    ensures
        s@ == base64(bytes@),
{
    base64::Engine::encode(&base64::engine::general_purpose::STANDARD, bytes)
}

/// The text of account data in an encoding: base58 for `Base58`, base64 for every other.
pub open spec fn encoded_data(data: Seq<u8>, encoding: AccountEncoding) -> Seq<char> {
    if encoding == AccountEncoding::Base58 {
        base58(data)
    } else {
        base64(data)
    }
}

/// The RPC form of an account view.
pub fn account_view_to_rpc(view: &AccountView, encoding: AccountEncoding) -> (info: RpcAccountInfo)
    ensures
        info.pubkey@ == base58(view.pubkey.0@),
        info.lamports == view.lamports,
        info.data.encoding == encoding,
        info.data.data@ == encoded_data(view.data@, encoding),
        info.data.data_size == view.data@.len(),
        info.owner@ == base58(view.owner.0@),
        info.executable == view.executable,
        info.rent_epoch == view.rent_epoch,
        info.slot == view.slot,
{
    let data_str = match encoding {
        AccountEncoding::Base58 => crate::pubkey::base58_string(view.data.as_slice()),
        _ => base64_encode(view.data.as_slice()),
    };
    RpcAccountInfo {
        pubkey: view.pubkey.to_string(),
        lamports: view.lamports,
        data: RpcAccountData { encoding, data: data_str, data_size: view.data.len() },
        owner: view.owner.to_string(),
        executable: view.executable,
        rent_epoch: view.rent_epoch,
        slot: view.slot,
    }
}

} // verus!
