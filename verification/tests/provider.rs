use hyperplane::provider::middleware::{RateLimiter, RequestLogger, RequestReport};
use hyperplane::provider::server::{
    method_not_found, route_request, route_rpc_method, HttpMethod, HttpRoute, RpcError, RpcMethod,
    RpcServerState,
};

#[test]
fn test_rate_limiter() {
    let mut limiter = RateLimiter::new(5);

    for _ in 0..5 {
        assert!(limiter.allow("127.0.0.1"));
    }

    assert!(!limiter.allow("127.0.0.1"));

    assert!(limiter.allow("192.168.1.1"));
}

#[test]
fn test_rate_limiter_window_reset() {
    let mut limiter = RateLimiter::new(2);

    assert!(limiter.allow_at("127.0.0.1", 0));
    assert!(limiter.allow_at("127.0.0.1", 1));
    assert!(!limiter.allow_at("127.0.0.1", 2));

    // one second and a tenth later
    assert!(limiter.allow_at("127.0.0.1", 1_100_000_000));
}

#[test]
fn test_rate_limiter_sliding_window_counts() {
    let mut limiter = RateLimiter::new(3);
    assert!(limiter.allow_at("a", 0));
    assert!(limiter.allow_at("a", 500_000_000));
    assert_eq!(limiter.get_count_at("a", 600_000_000), 2);
    // the first request has left the one-second window
    assert_eq!(limiter.get_count_at("a", 1_000_000_000), 1);
    assert_eq!(limiter.get_count_at("b", 0), 0);
    limiter.clear();
    assert_eq!(limiter.get_count_at("a", 600_000_000), 0);
}

#[test]
fn test_rpc_error_serialization() {
    let error = RpcError::MethodNotFound("test".to_string());
    let json = error.to_json_rpc_error(Some(serde_json::Value::from(1)));

    assert_eq!(json.error.code, -32601);
    assert_eq!(json.error.message, "Method not found");
    assert_eq!(json.error.data, "Method not found: test");
    assert_eq!(json.jsonrpc, "2.0");
    assert_eq!(json.id, Some(serde_json::Value::from(1)));
}

#[test]
fn test_rpc_error_codes_and_text() {
    assert_eq!(RpcError::InvalidParams("x".to_string()).code(), -32602);
    assert_eq!(RpcError::InternalError("x".to_string()).code(), -32603);
    assert_eq!(RpcError::RateLimited.code(), -32005);
    assert_eq!(RpcError::ParseError("bad".to_string()).code(), -32700);
    assert_eq!(RpcError::ParseError("bad".to_string()).to_string(), "Parse error: bad");
    assert_eq!(RpcError::RateLimited.to_string(), "Rate limited");
    let r = RpcError::RateLimited.to_json_rpc_error(None);
    assert_eq!(r.error.data, "Rate limited");
    assert_eq!(r.id, None);
}

#[test]
fn test_routing() {
    let mut limiter = RateLimiter::new(1);
    assert_eq!(route_request(&mut limiter, HttpMethod::Get, "/health", "p"), HttpRoute::Health);
    assert_eq!(route_request(&mut limiter, HttpMethod::Get, "/metrics", "p"), HttpRoute::Metrics);
    assert_eq!(route_request(&mut limiter, HttpMethod::Get, "/other", "p"), HttpRoute::NotFound);
    assert_eq!(route_request(&mut limiter, HttpMethod::Other, "/", "p"), HttpRoute::MethodNotAllowed);
    assert_eq!(route_request(&mut limiter, HttpMethod::Post, "/", "p"), HttpRoute::JsonRpc);
    assert_eq!(route_request(&mut limiter, HttpMethod::Post, "/", "p"), HttpRoute::RateLimited);
}

#[test]
fn test_rpc_method_routing() {
    assert_eq!(route_rpc_method("getAccountInfo"), RpcMethod::GetAccountInfo);
    assert_eq!(route_rpc_method("getMultipleAccounts"), RpcMethod::GetMultipleAccounts);
    let unknown = route_rpc_method("getSlot");
    assert_eq!(unknown, RpcMethod::Unknown("getSlot".to_string()));
    match method_not_found(unknown) {
        Some(RpcError::MethodNotFound(m)) => assert_eq!(m, "getSlot"),
        _ => panic!("expected a method-not-found error"),
    }
    assert!(method_not_found(RpcMethod::GetAccountInfo).is_none());
}

#[test]
fn test_server_request_counter() {
    let mut state = RpcServerState::new(10);
    assert_eq!(state.increment_request_count(), 0);
    assert_eq!(state.increment_request_count(), 1);
    assert_eq!(state.get_request_count(), 2);
}

#[test]
fn test_request_reports() {
    let logger = RequestLogger::new(true, 100);
    let timer = logger.start();
    assert_eq!(timer.report_for(150), RequestReport::Slow(150));
    assert_eq!(timer.report_for(100), RequestReport::Completed(100));
    let quiet = RequestLogger::new(false, 100).start();
    assert_eq!(quiet.report_for(500), RequestReport::Silent);
    assert_eq!(quiet.finish(), RequestReport::Silent);
}
