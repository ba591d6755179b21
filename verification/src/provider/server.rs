//! JSON-RPC error codes and the routing of HTTP requests.
use crate::provider::middleware::{allow_outcome, RateLimiter};
use vstd::prelude::*;
use vstd::string::StringExecFns;

verus! {

/// RPC errors.
#[derive(Debug, Clone, PartialEq, Eq)]
pub enum RpcError {
    MethodNotFound(String),
    InvalidParams(String),
    InternalError(String),
    RateLimited,
    ParseError(String),
}

/// The JSON-RPC code of each error.
pub open spec fn error_code(e: RpcError) -> i64 {
    match e {
        RpcError::MethodNotFound(_) => -32601i64,
        RpcError::InvalidParams(_) => -32602i64,
        RpcError::InternalError(_) => -32603i64,
        RpcError::RateLimited => -32005i64,
        RpcError::ParseError(_) => -32700i64,
    }
}

/// The JSON-RPC message of each error.
pub open spec fn error_message(e: RpcError) -> Seq<char> {
    match e {
        RpcError::MethodNotFound(_) => "Method not found"@,
        RpcError::InvalidParams(_) => "Invalid params"@,
        RpcError::InternalError(_) => "Internal error"@,
        RpcError::RateLimited => "Rate limited"@,
        RpcError::ParseError(_) => "Parse error"@,
    }
}

/// The text of each error: its message, and the detail it carries.
pub open spec fn error_text(e: RpcError) -> Seq<char> {
    match e {
        RpcError::MethodNotFound(d) => "Method not found: "@ + d@,
        RpcError::InvalidParams(d) => "Invalid params: "@ + d@,
        RpcError::InternalError(d) => "Internal error: "@ + d@,
        RpcError::RateLimited => "Rate limited"@,
        RpcError::ParseError(d) => "Parse error: "@ + d@,
    }
}

/// A JSON value of the `serde_json` crate, carried as the request id; opaque.
#[verifier::external_type_specification]
#[verifier::external_body]
pub struct ExJsonValue(serde_json::Value);

/// A JSON-RPC error response: version `2.0`, the error object, and the request's id
/// (none, written as `null`, when the request had none or could not be read).
#[derive(Debug, Clone)]
pub struct JsonRpcErrorResponse {
    pub jsonrpc: String,
    pub error: JsonRpcErrorFields,
    pub id: Option<serde_json::Value>,
}

/// The fields of a JSON-RPC error object.
#[derive(Debug, Clone, PartialEq, Eq)]
pub struct JsonRpcErrorFields {
    pub code: i64,
    pub message: String,
    pub data: String,
}

impl RpcError {
    /// The JSON-RPC error code.
    pub fn code(&self) -> (c: i64)
        ensures
            c == error_code(*self),
    {
        match self {
            RpcError::MethodNotFound(_) => -32601,
            RpcError::InvalidParams(_) => -32602,
            RpcError::InternalError(_) => -32603,
            RpcError::RateLimited => -32005,
            RpcError::ParseError(_) => -32700,
        }
    }

    /// The JSON-RPC error message.
    pub fn message(&self) -> (m: &'static str)
        ensures
            m@ == error_message(*self),
    {
        match self {
            RpcError::MethodNotFound(_) => "Method not found",
            RpcError::InvalidParams(_) => "Invalid params",
            RpcError::InternalError(_) => "Internal error",
            RpcError::RateLimited => "Rate limited",
            RpcError::ParseError(_) => "Parse error",
        }
    }

    /// The error's text.
    pub fn to_string(&self) -> (s: String)
        ensures
            s@ == error_text(*self),
    {
        match self {
            RpcError::MethodNotFound(d) => String::from_str("Method not found: ").concat(d.as_str()),
            RpcError::InvalidParams(d) => String::from_str("Invalid params: ").concat(d.as_str()),
            RpcError::InternalError(d) => String::from_str("Internal error: ").concat(d.as_str()),
            RpcError::RateLimited => String::from_str("Rate limited"),
            RpcError::ParseError(d) => String::from_str("Parse error: ").concat(d.as_str()),
        }
    }

    /// The JSON-RPC error response for a request with the given id: version `2.0`, the
    /// error's code, message and text, and the id echoed.
    pub fn to_json_rpc_error(&self, id: Option<serde_json::Value>) -> (r: JsonRpcErrorResponse)
        ensures
            r.jsonrpc@ == "2.0"@,
            r.error.code == error_code(*self),
            r.error.message@ == error_message(*self),
            r.error.data@ == error_text(*self),
            r.id == id,
    {
        JsonRpcErrorResponse {
            jsonrpc: String::from_str("2.0"),
            error: JsonRpcErrorFields {
                code: self.code(),
                message: String::from_str(self.message()),
                data: self.to_string(),
            },
            id,
        }
    }
}

/// The HTTP method of a request, as far as routing tells them apart.
#[derive(Debug, Clone, Copy, PartialEq, Eq, Structural)]
pub enum HttpMethod {
    Get,
    Post,
    Other,
}

/// What becomes of an HTTP request before its body is read.
#[derive(Debug, Clone, Copy, PartialEq, Eq, Structural)]
pub enum HttpRoute {
    /// `GET /health`.
    Health,
    /// `GET /metrics`.
    Metrics,
    /// Any other `GET`: 404.
    NotFound,
    /// Neither `GET` nor `POST`: 405.
    MethodNotAllowed,
    /// A `POST` over the address's rate limit: 429 with the rate-limited error.
    RateLimited,
    /// A `POST` to be parsed as a JSON-RPC request.
    JsonRpc,
}

/// The JSON-RPC methods served.
#[derive(Debug, Clone, PartialEq, Eq)]
pub enum RpcMethod {
    GetAccountInfo,
    GetMultipleAccounts,
    /// Any other method name.
    Unknown(String),
}

/// The route of a request, given whether the rate limiter allows it.
pub open spec fn route_spec(method: HttpMethod, path: Seq<char>, allowed: bool) -> HttpRoute {
    match method {
        HttpMethod::Get => if path == "/health"@ {
            HttpRoute::Health
        } else if path == "/metrics"@ {
            HttpRoute::Metrics
        } else {
            HttpRoute::NotFound
        },
        HttpMethod::Post => if allowed {
            HttpRoute::JsonRpc
        } else {
            HttpRoute::RateLimited
        },
        HttpMethod::Other => HttpRoute::MethodNotAllowed,
    }
}

/// Whether two strings hold the same text.
fn same_text(a: &str, b: &str) -> (r: bool)
    ensures
        r == (a@ == b@),
{
    String::from_str(a) == String::from_str(b)
}

/// Routes a request: `GET` serves the health and metrics endpoints, any other path
/// is not found; methods other than `GET` and `POST` are refused; a `POST` goes to
/// the rate limiter, keyed by the peer address, and on to JSON-RPC when allowed.
pub fn route_request(limiter: &mut RateLimiter, method: HttpMethod, path: &str, peer_ip: &str) -> (r: HttpRoute)
    requires
        old(limiter).wf(),
    ensures
        final(limiter).wf(),
        final(limiter).spec_limit() == old(limiter).spec_limit(),
        method != HttpMethod::Post ==> r == route_spec(method, path@, true) && final(limiter).windows()
            == old(limiter).windows(),
        method == HttpMethod::Post ==> exists|now: u64|
            (r == HttpRoute::JsonRpc, final(limiter).windows()) == #[trigger] allow_outcome(
                old(limiter).windows(),
                old(limiter).spec_limit(),
                peer_ip@,
                now,
            ) && r == route_spec(method, path@, r == HttpRoute::JsonRpc),
{
    match method {
        HttpMethod::Get => {
            if same_text(path, "/health") {
                HttpRoute::Health
            } else if same_text(path, "/metrics") {
                HttpRoute::Metrics
            } else {
                HttpRoute::NotFound
            }
        },
        HttpMethod::Post => {
            if limiter.allow(peer_ip) {
                HttpRoute::JsonRpc
            } else {
                HttpRoute::RateLimited
            }
        },
        HttpMethod::Other => HttpRoute::MethodNotAllowed,
    }
}

/// The method a JSON-RPC request names.
pub fn route_rpc_method(method: &str) -> (m: RpcMethod)
    ensures
        method@ == "getAccountInfo"@ ==> m == RpcMethod::GetAccountInfo,
        method@ == "getMultipleAccounts"@ ==> m == RpcMethod::GetMultipleAccounts,
        method@ != "getAccountInfo"@ && method@ != "getMultipleAccounts"@ ==> (m matches RpcMethod::Unknown(
            s,
        ) && s@ == method@),
{
    proof {
        reveal_strlit("getAccountInfo");
        reveal_strlit("getMultipleAccounts");
        assert("getAccountInfo"@.len() != "getMultipleAccounts"@.len());
    }
    if same_text(method, "getAccountInfo") {
        RpcMethod::GetAccountInfo
    } else if same_text(method, "getMultipleAccounts") {
        RpcMethod::GetMultipleAccounts
    } else {
        RpcMethod::Unknown(String::from_str(method))
    }
}

/// The error a request for an unknown method is answered with.
pub fn method_not_found(method: RpcMethod) -> (e: Option<RpcError>)
    ensures
        e matches Some(x) ==> method matches RpcMethod::Unknown(s) && x == RpcError::MethodNotFound(s),
        e is None <==> !(method is Unknown),
{
    match method {
        RpcMethod::Unknown(s) => Some(RpcError::MethodNotFound(s)),
        _ => None,
    }
}

/// The server's shared state: the request counter and the rate limiter.
pub struct RpcServerState {
    pub request_count: u64,
    pub rate_limiter: RateLimiter,
}

impl RpcServerState {
    pub open spec fn spec_count(&self) -> u64 {
        self.request_count
    }

    /// No request counted, and a limiter of `rate_limit_per_ip` requests a second.
    pub fn new(rate_limit_per_ip: usize) -> (s: Self)
        ensures
            s.spec_count() == 0,
            s.rate_limiter.wf(),
            s.rate_limiter.spec_limit() == rate_limit_per_ip,
            s.rate_limiter.windows() == Map::<Seq<char>, (Seq<u64>, u64)>::empty(),
    {
        RpcServerState { request_count: 0, rate_limiter: RateLimiter::new(rate_limit_per_ip) }
    }

    /// Counts a request, wrapping at `u64::MAX`; returns the count before it.
    pub fn increment_request_count(&mut self) -> (before: u64)
        ensures
            before == old(self).spec_count(),
            final(self).spec_count() == old(self).spec_count().wrapping_add(1),
            final(self).rate_limiter.windows() == old(self).rate_limiter.windows(),
            final(self).rate_limiter.spec_limit() == old(self).rate_limiter.spec_limit(),
            final(self).rate_limiter.wf() == old(self).rate_limiter.wf(),
    {
        let before = self.request_count;
        self.request_count = self.request_count.wrapping_add(1);
        before
    }

    /// Requests counted.
    pub fn get_request_count(&self) -> (n: u64)
        ensures
            n == self.spec_count(),
    {
        self.request_count
    }
}

} // verus!
