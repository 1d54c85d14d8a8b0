//! JSON-RPC 2.0 protocol values and request routing for the HIR daemon.

use vstd::prelude::*;

verus! {

/// Standard JSON-RPC 2.0 error code: the line was not valid JSON.
pub const PARSE_ERROR: i32 = -32700;
/// Standard JSON-RPC 2.0 error code: the request object is not valid.
pub const INVALID_REQUEST: i32 = -32600;
/// Standard JSON-RPC 2.0 error code: no such method.
pub const METHOD_NOT_FOUND: i32 = -32601;
/// Standard JSON-RPC 2.0 error code: invalid method parameters.
pub const INVALID_PARAMS: i32 = -32602;
/// Custom error code: a path leaves the workspace root.
pub const PATH_ESCAPE: i32 = -32001;
/// Custom error code: the project (or an item of it) is not available.
pub const NOT_INITIALIZED: i32 = -32002;

/// Error type for handler failures.
#[derive(Debug, Clone)]
pub struct RpcError {
    pub code: i32,
    pub message: String,
}

impl RpcError {
    /// Build an error from a code and a message.
    pub fn new(code: i32, message: &str) -> (r: Self)
        ensures
            r.code == code,
            r.message@ == message@,
    {
        RpcError { code, message: String::from_str(message) }
    }
}

} // verus!

verus! {

/// `serde_json::Value`: the JSON payload of a request or a response. The
/// library carries it through without looking inside.
#[verifier::external_type_specification]
#[verifier::external_body]
pub struct ExJsonValue(serde_json::Value);

/// A JSON-RPC 2.0 request.
pub struct Request {
    pub jsonrpc: String,
    pub id: Option<u64>,
    pub method: String,
    pub params: serde_json::Value,
}

/// JSON-RPC 2.0 error object.
pub struct ErrorObject {
    pub code: i32,
    pub message: String,
    pub data: Option<serde_json::Value>,
}

/// A JSON-RPC 2.0 response.
pub struct Response {
    pub jsonrpc: String,
    pub id: Option<u64>,
    pub result: Option<serde_json::Value>,
    pub error: Option<ErrorObject>,
}

impl Response {
    /// Create a success response.
    pub fn success(id: Option<u64>, result: serde_json::Value) -> (r: Self)
        ensures
            r.jsonrpc@ == "2.0"@,
            r.id == id,
            r.result == Some(result),
            r.error is None,
    {
        Response { jsonrpc: String::from_str("2.0"), id, result: Some(result), error: None }
    }

    /// Create an error response.
    pub fn error(id: Option<u64>, code: i32, message: &str) -> (r: Self)
        ensures
            r.jsonrpc@ == "2.0"@,
            r.id == id,
            r.result is None,
            r.error matches Some(e) && e.code == code && e.message@ == message@ && e.data is None,
    {
        Response {
            jsonrpc: String::from_str("2.0"),
            id,
            result: None,
            error: Some(ErrorObject { code, message: String::from_str(message), data: None }),
        }
    }
}

/// The methods that the HIR daemon serves.
#[derive(PartialEq, Eq, Structural, Clone, Copy, Debug)]
pub enum HirMethod {
    Initialize,
    GetSymbols,
    GetTypes,
    GetReferences,
    GetDiagnostics,
    Index,
    Snapshot,
    UpdateFile,
    Shutdown,
    GetCallHierarchy,
    GetFileSymbols,
    GetProjectSymbols,
    Health,
}

/// The method that a method name selects.
pub open spec fn method_for_name(name: Seq<char>) -> Option<HirMethod> {
    if name == "hir/initialize"@ {
        Some(HirMethod::Initialize)
    } else if name == "hir/getSymbols"@ {
        Some(HirMethod::GetSymbols)
    } else if name == "hir/getTypes"@ {
        Some(HirMethod::GetTypes)
    } else if name == "hir/getReferences"@ {
        Some(HirMethod::GetReferences)
    } else if name == "hir/getDiagnostics"@ {
        Some(HirMethod::GetDiagnostics)
    } else if name == "hir/index"@ {
        Some(HirMethod::Index)
    } else if name == "hir/snapshot"@ {
        Some(HirMethod::Snapshot)
    } else if name == "hir/updateFile"@ {
        Some(HirMethod::UpdateFile)
    } else if name == "hir/shutdown"@ {
        Some(HirMethod::Shutdown)
    } else if name == "hir/getCallHierarchy"@ {
        Some(HirMethod::GetCallHierarchy)
    } else if name == "hir/getFileSymbols"@ {
        Some(HirMethod::GetFileSymbols)
    } else if name == "hir/getProjectSymbols"@ {
        Some(HirMethod::GetProjectSymbols)
    } else if name == "hir/health"@ {
        Some(HirMethod::Health)
    } else {
        None
    }
}

/// Looks a method name up.
pub fn lookup_method(name: &str) -> (r: Option<HirMethod>)
    ensures
        r == method_for_name(name@),
{
    if crate::text::str_eq(name, "hir/initialize") {
        Some(HirMethod::Initialize)
    } else if crate::text::str_eq(name, "hir/getSymbols") {
        Some(HirMethod::GetSymbols)
    } else if crate::text::str_eq(name, "hir/getTypes") {
        Some(HirMethod::GetTypes)
    } else if crate::text::str_eq(name, "hir/getReferences") {
        Some(HirMethod::GetReferences)
    } else if crate::text::str_eq(name, "hir/getDiagnostics") {
        Some(HirMethod::GetDiagnostics)
    } else if crate::text::str_eq(name, "hir/index") {
        Some(HirMethod::Index)
    } else if crate::text::str_eq(name, "hir/snapshot") {
        Some(HirMethod::Snapshot)
    } else if crate::text::str_eq(name, "hir/updateFile") {
        Some(HirMethod::UpdateFile)
    } else if crate::text::str_eq(name, "hir/shutdown") {
        Some(HirMethod::Shutdown)
    } else if crate::text::str_eq(name, "hir/getCallHierarchy") {
        Some(HirMethod::GetCallHierarchy)
    } else if crate::text::str_eq(name, "hir/getFileSymbols") {
        Some(HirMethod::GetFileSymbols)
    } else if crate::text::str_eq(name, "hir/getProjectSymbols") {
        Some(HirMethod::GetProjectSymbols)
    } else if crate::text::str_eq(name, "hir/health") {
        Some(HirMethod::Health)
    } else {
        None
    }
}

/// How a well-formed request is refused, if it is: `(code, message)`.
pub open spec fn route_spec(jsonrpc: Seq<char>, method: Seq<char>) -> Result<HirMethod, (i32, Seq<char>)> {
    if jsonrpc != "2.0"@ {
        Err((INVALID_REQUEST, "Invalid jsonrpc version"@))
    } else if method.len() == 0 {
        Err((INVALID_REQUEST, "Missing method"@))
    } else {
        match method_for_name(method) {
            Some(m) => Ok(m),
            None => Err((METHOD_NOT_FOUND, "Method not found: "@ + method)),
        }
    }
}

/// Checks the protocol version and the method of a decoded request and
/// selects the handler to run.
pub fn route_request(request: &Request) -> (r: Result<HirMethod, RpcError>)
    ensures
        match route_spec(request.jsonrpc@, request.method@) {
            Ok(m) => r == Ok::<HirMethod, RpcError>(m),
            Err((code, msg)) => r matches Err(e) && e.code == code && e.message@ == msg,
        },
{
    if !crate::text::str_eq(request.jsonrpc.as_str(), "2.0") {
        return Err(RpcError::new(INVALID_REQUEST, "Invalid jsonrpc version"));
    }
    if request.method.as_str().is_empty() {
        return Err(RpcError::new(INVALID_REQUEST, "Missing method"));
    }
    match lookup_method(request.method.as_str()) {
        Some(m) => Ok(m),
        None => {
            let message = crate::text::concat2("Method not found: ", request.method.as_str());
            Err(RpcError { code: METHOD_NOT_FOUND, message })
        },
    }
}

/// The response to a request whose handler ran: its value, or its error.
pub fn response_for(id: Option<u64>, outcome: Result<serde_json::Value, RpcError>) -> (r: Response)
    ensures
        r.jsonrpc@ == "2.0"@,
        r.id == id,
        match outcome {
            Ok(v) => r.result == Some(v) && r.error is None,
            Err(e) => r.result is None && (r.error matches Some(o) && o.code == e.code && o.message@ == e.message@ && o.data is None),
        },
{
    match outcome {
        Ok(v) => Response::success(id, v),
        Err(e) => Response::error(id, e.code, e.message.as_str()),
    }
}

/// The response to a line that is not a JSON-RPC request: code
/// `PARSE_ERROR`, no id, and the decoder's explanation after `Parse error: `.
pub fn parse_error_response(detail: &str) -> (r: Response)
    ensures
        r.jsonrpc@ == "2.0"@,
        r.id is None,
        r.result is None,
        r.error matches Some(o) && o.code == PARSE_ERROR && o.message@ == "Parse error: "@ + detail@,
{
    let message = crate::text::concat2("Parse error: ", detail);
    Response::error(None, PARSE_ERROR, message.as_str())
}

/// Lines of the daemon's input that hold only white space are skipped.
pub fn is_blank_line(line: &str) -> (r: bool)
    ensures
        r == (crate::workspace::trim_spec(line@).len() == 0),
{
    let t = crate::workspace::trim_text(line);
    t.as_str().is_empty()
}

} // verus!
