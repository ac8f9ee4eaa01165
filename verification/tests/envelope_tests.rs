use web3_proxy::envelope::{
    build_error_response, build_success_response, escape_reason, should_broadcast, JsonRpcRequest,
};
use web3_proxy::watcher::parse_hex_u64;

#[test]
fn success_response_preserves_id_and_jsonrpc_bytes() {
    let body = build_success_response("\"2.0\"", "7", "\"0xabc\"");
    assert_eq!(body, "{\"jsonrpc\":\"2.0\",\"id\":7,\"result\":\"0xabc\"}");
}

#[test]
fn success_response_keeps_string_id_verbatim() {
    let body = build_success_response("\"2.0\"", "\"007\"", "null");
    assert_eq!(body, "{\"jsonrpc\":\"2.0\",\"id\":\"007\",\"result\":null}");
}

#[test]
fn error_response_wraps_reason() {
    let body = build_error_response("\"2.0\"", "1", "no successful responses");
    assert_eq!(
        body,
        "{\"jsonrpc\":\"2.0\",\"id\":1,\"error\":\"no successful responses\"}"
    );
}

#[test]
fn error_reason_is_json_escaped() {
    let body = build_error_response("\"2.0\"", "1", "quote \" inside");
    assert_eq!(
        body,
        "{\"jsonrpc\":\"2.0\",\"id\":1,\"error\":\"quote \\\" inside\"}"
    );
    let body = build_error_response("\"2.0\"", "1", "back \\ slash");
    assert_eq!(
        body,
        "{\"jsonrpc\":\"2.0\",\"id\":1,\"error\":\"back \\\\ slash\"}"
    );
}

#[test]
fn escaping_rewrites_exactly_the_unsafe_characters() {
    assert_eq!(escape_reason("plain text"), "plain text");
    assert_eq!(escape_reason(""), "");
    assert_eq!(escape_reason("a\"b"), "a\\\"b");
    assert_eq!(escape_reason("a\\b"), "a\\\\b");
    assert_eq!(escape_reason("line\nbreak"), "line\\u000abreak");
    assert_eq!(escape_reason("tab\there"), "tab\\u0009here");
    assert_eq!(escape_reason("\u{1f}"), "\\u001f");
}

#[test]
fn request_fields_flow_into_the_response_verbatim() {
    let req = JsonRpcRequest {
        jsonrpc: String::from("\"2.0\""),
        id: String::from("\"abc-001\""),
        method: String::from("eth_call"),
        params: String::from("[{\"to\":\"0x0\"}]"),
    };
    assert!(!should_broadcast(&req.method, true));
    let body = build_success_response(&req.jsonrpc, &req.id, "\"0x1\"");
    assert_eq!(body, "{\"jsonrpc\":\"2.0\",\"id\":\"abc-001\",\"result\":\"0x1\"}");
}

#[test]
fn broadcast_only_for_raw_transactions_with_private_tier() {
    let raw = String::from("eth_sendRawTransaction");
    let other = String::from("eth_blockNumber");
    assert!(should_broadcast(&raw, true));
    assert!(!should_broadcast(&raw, false));
    assert!(!should_broadcast(&other, true));
    assert!(!should_broadcast(&other, false));
}

#[test]
fn hex_block_numbers_parse_exactly() {
    assert_eq!(parse_hex_u64("0x0"), Some(0));
    assert_eq!(parse_hex_u64("0x10"), Some(16));
    assert_eq!(parse_hex_u64("0x10d4f"), Some(68943));
    assert_eq!(parse_hex_u64("ff"), Some(255));
    assert_eq!(parse_hex_u64("0xDeadBeef"), Some(0xdead_beef));
    assert_eq!(parse_hex_u64("0xffffffffffffffff"), Some(u64::MAX));
    assert_eq!(parse_hex_u64("0x00000000000000000001"), Some(1));
}

#[test]
fn bad_hex_numerals_are_rejected() {
    assert_eq!(parse_hex_u64(""), None);
    assert_eq!(parse_hex_u64("0x"), None);
    assert_eq!(parse_hex_u64("0xzz"), None);
    assert_eq!(parse_hex_u64("12 34"), None);
    assert_eq!(parse_hex_u64("0x10000000000000000"), None);
}
