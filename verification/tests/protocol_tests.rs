use trust_platform::protocol::{
    is_blank_line, lookup_method, parse_error_response, response_for, route_request, HirMethod, Request, Response,
    RpcError, INVALID_PARAMS, INVALID_REQUEST, METHOD_NOT_FOUND, NOT_INITIALIZED, PARSE_ERROR, PATH_ESCAPE,
};

fn request(jsonrpc: &str, method: &str) -> Request {
    Request {
        jsonrpc: jsonrpc.to_string(),
        id: Some(1),
        method: method.to_string(),
        params: serde_json::Value::Null,
    }
}

#[test]
fn method_not_found_error_code_is_correct() {
    assert_eq!(METHOD_NOT_FOUND, -32601);
}

#[test]
fn parse_error_code_is_correct() {
    assert_eq!(PARSE_ERROR, -32700);
}

#[test]
fn path_escape_error_code_is_correct() {
    assert_eq!(PATH_ESCAPE, -32001);
}

#[test]
fn remaining_error_codes() {
    assert_eq!(INVALID_REQUEST, -32600);
    assert_eq!(INVALID_PARAMS, -32602);
    assert_eq!(NOT_INITIALIZED, -32002);
}

#[test]
fn rpc_error_new_keeps_code_and_message() {
    let e = RpcError::new(PATH_ESCAPE, "Path escapes workspace root");
    assert_eq!(e.code, -32001);
    assert_eq!(e.message, "Path escapes workspace root");
}

#[test]
fn every_method_name_is_routed() {
    let names = [
        ("hir/initialize", HirMethod::Initialize),
        ("hir/getSymbols", HirMethod::GetSymbols),
        ("hir/getTypes", HirMethod::GetTypes),
        ("hir/getReferences", HirMethod::GetReferences),
        ("hir/getDiagnostics", HirMethod::GetDiagnostics),
        ("hir/index", HirMethod::Index),
        ("hir/snapshot", HirMethod::Snapshot),
        ("hir/updateFile", HirMethod::UpdateFile),
        ("hir/shutdown", HirMethod::Shutdown),
        ("hir/getCallHierarchy", HirMethod::GetCallHierarchy),
        ("hir/getFileSymbols", HirMethod::GetFileSymbols),
        ("hir/getProjectSymbols", HirMethod::GetProjectSymbols),
        ("hir/health", HirMethod::Health),
    ];
    for (name, method) in names {
        assert_eq!(lookup_method(name), Some(method));
        assert!(matches!(route_request(&request("2.0", name)), Ok(m) if m == method));
    }
    assert_eq!(lookup_method("hir/unknown"), None);
}

#[test]
fn wrong_version_is_an_invalid_request() {
    let e = route_request(&request("1.0", "hir/initialize")).err().unwrap();
    assert_eq!(e.code, INVALID_REQUEST);
    assert_eq!(e.message, "Invalid jsonrpc version");
}

#[test]
fn empty_method_is_an_invalid_request() {
    let e = route_request(&request("2.0", "")).err().unwrap();
    assert_eq!(e.code, INVALID_REQUEST);
    assert_eq!(e.message, "Missing method");
}

#[test]
fn unknown_method_is_not_found() {
    let e = route_request(&request("2.0", "hir/frobnicate")).err().unwrap();
    assert_eq!(e.code, METHOD_NOT_FOUND);
    assert_eq!(e.message, "Method not found: hir/frobnicate");
}

#[test]
fn success_response_carries_the_result() {
    let resp = Response::success(Some(1), serde_json::Value::Bool(true));
    assert_eq!(resp.jsonrpc, "2.0");
    assert_eq!(resp.id, Some(1));
    assert_eq!(resp.result, Some(serde_json::Value::Bool(true)));
    assert!(resp.error.is_none());
}

#[test]
fn error_response_carries_code_and_message() {
    let resp = Response::error(Some(1), METHOD_NOT_FOUND, "Method not found");
    assert_eq!(resp.jsonrpc, "2.0");
    assert!(resp.result.is_none());
    let err = resp.error.unwrap();
    assert_eq!(err.code, -32601);
    assert_eq!(err.message, "Method not found");
    assert!(err.data.is_none());
}

#[test]
fn response_for_maps_outcomes() {
    let ok = response_for(Some(7), Ok(serde_json::Value::Null));
    assert_eq!(ok.id, Some(7));
    assert_eq!(ok.result, Some(serde_json::Value::Null));
    let err = response_for(None, Err(RpcError::new(NOT_INITIALIZED, "Project not initialized")));
    assert!(err.result.is_none());
    let e = err.error.unwrap();
    assert_eq!(e.code, NOT_INITIALIZED);
    assert_eq!(e.message, "Project not initialized");
}

#[test]
fn parse_error_response_has_no_id() {
    let resp = parse_error_response("expected value at line 1 column 32");
    assert_eq!(resp.id, None);
    let e = resp.error.unwrap();
    assert_eq!(e.code, PARSE_ERROR);
    assert_eq!(e.message, "Parse error: expected value at line 1 column 32");
}

#[test]
fn blank_lines_are_skipped() {
    assert!(is_blank_line(""));
    assert!(is_blank_line("  \t \r"));
    assert!(is_blank_line("\u{3000}\u{a0}"));
    assert!(!is_blank_line(" {} "));
}
