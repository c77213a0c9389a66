//! JSON-RPC 2.0 protocol objects.
//!
//! These are the already-decoded values that a server exchanges with its clients. The
//! batch engine moves them around but never looks inside a JSON value: parameters and
//! results are carried as opaque `serde_json` values.

use vstd::prelude::*;

verus! {

/// Trusted declaration of `serde_json::Value`. Nothing is claimed about its contents:
/// a value is only stored, moved and handed back.
#[verifier::external_type_specification]
#[verifier::external_body]
pub struct ExJsonValue(serde_json::Value);

/// Trusted declaration of `serde_json::Map`. Nothing is claimed about its contents:
/// a map is only stored, moved and handed back.
#[verifier::external_type_specification]
#[verifier::external_body]
#[verifier::reject_recursive_types(K)]
#[verifier::reject_recursive_types(V)]
pub struct ExJsonMap<K, V>(serde_json::Map<K, V>);

/// Trusted contract of `Clone::clone` for `serde_json::Value`: the copy equals the
/// value that was cloned.
pub assume_specification[ <serde_json::Value as Clone>::clone ](
    value: &serde_json::Value,
) -> (copy: serde_json::Value)
    ensures
        copy == *value,
;

/// Trusted contract of `Clone::clone` for `serde_json::Map`: the copy equals the map
/// that was cloned.
pub assume_specification[ <serde_json::Map<String, serde_json::Value> as Clone>::clone ](
    map: &serde_json::Map<String, serde_json::Value>,
) -> (copy: serde_json::Map<String, serde_json::Value>)
    ensures
        copy == *map,
;

/// An arbitrary JSON value.
pub type JsonValue = serde_json::Value;

/// A JSON object: member names with their values.
pub type JsonMap = serde_json::Map<String, serde_json::Value>;

/// Protocol version.
#[derive(Debug, Clone, Copy, PartialEq, Eq)]
pub enum Version {
    /// JSON-RPC 2.0.
    V2,
}

/// Request identifier chosen by the client.
#[derive(Debug, Clone, PartialEq, Eq)]
pub enum Id {
    /// No identifier.
    Null,
    /// Numeric identifier.
    Num(u64),
    /// String identifier.
    Str(String),
}

/// Parameters of a call.
#[derive(Debug, Clone, PartialEq)]
pub enum Params {
    /// The call carries no parameters.
    Omitted,
    /// Positional parameters.
    Array(Vec<JsonValue>),
    /// Named parameters.
    Object(JsonMap),
}

/// A call that expects an answer.
#[derive(Debug, Clone, PartialEq)]
pub struct MethodCall {
    /// Protocol version.
    pub jsonrpc: Version,
    /// Name of the method to invoke.
    pub method: String,
    /// Parameters of the invocation.
    pub params: Params,
    /// Identifier that the answer must repeat.
    pub id: Id,
}

/// A call that expects no answer.
#[derive(Debug, Clone, PartialEq)]
pub struct Notification {
    /// Protocol version.
    pub jsonrpc: Version,
    /// Name of the method to invoke.
    pub method: String,
    /// Parameters of the invocation.
    pub params: Params,
}

/// One call of a client message.
#[derive(Debug, Clone, PartialEq)]
pub enum Call {
    /// A call that must be answered.
    MethodCall(MethodCall),
    /// A call that is never answered.
    Notification(Notification),
}

/// A client message: one call, or a list of calls.
#[derive(Debug, Clone, PartialEq)]
pub enum Request {
    /// A single call.
    Single(Call),
    /// A list of calls, possibly empty.
    Batch(Vec<Call>),
}

/// Class of a protocol error.
#[derive(Debug, Clone, Copy, PartialEq, Eq)]
pub enum ErrorCode {
    /// The message is not valid JSON.
    ParseError,
    /// The message is not a valid request object.
    InvalidRequest,
    /// The method does not exist.
    MethodNotFound,
    /// The parameters do not fit the method.
    InvalidParams,
    /// Internal failure of the server.
    InternalError,
    /// Implementation-defined server error.
    ServerError(i64),
}

/// Error object carried by a failed answer.
#[derive(Debug, Clone, PartialEq)]
pub struct Error {
    /// Class of the error.
    pub code: ErrorCode,
    /// Short description.
    pub message: String,
    /// Additional information.
    pub data: Option<JsonValue>,
}

/// Successful answer to one request.
#[derive(Debug, Clone, PartialEq)]
pub struct Success {
    /// Protocol version.
    pub jsonrpc: Version,
    /// Value computed by the method.
    pub result: JsonValue,
    /// Identifier of the request that is answered.
    pub id: Id,
}

/// Failed answer to one request.
#[derive(Debug, Clone, PartialEq)]
pub struct Failure {
    /// Protocol version.
    pub jsonrpc: Version,
    /// What went wrong.
    pub error: Error,
    /// Identifier of the request that is answered.
    pub id: Id,
}

/// Answer to one request.
#[derive(Debug, Clone, PartialEq)]
pub enum Output {
    /// The method returned a value.
    Success(Success),
    /// The method failed.
    Failure(Failure),
}

/// What is sent back for one client message.
#[derive(Debug, Clone, PartialEq)]
pub enum Response {
    /// Answer to a single call.
    Single(Output),
    /// Answers to the requests of a list of calls.
    Batch(Vec<Output>),
}

/// Mathematical model of a [`Response`].
pub enum ResponseView {
    /// Answer to a single call.
    Single(Output),
    /// Answers to the requests of a list of calls.
    Batch(Seq<Output>),
}

impl View for Response {
    type V = ResponseView;

    open spec fn view(&self) -> ResponseView {
        match *self {
            Response::Single(output) => ResponseView::Single(output),
            Response::Batch(outputs) => ResponseView::Batch(outputs@),
        }
    }
}

/// The calls of a client message, in the order the client wrote them.
pub open spec fn request_calls(request: Request) -> Seq<Call> {
    match request {
        Request::Single(call) => seq![call],
        Request::Batch(calls) => calls@,
    }
}

/// The answer object for a request with identifier `id` whose execution gave `result`.
pub open spec fn output_of(result: Result<JsonValue, Error>, id: Id) -> Output {
    match result {
        Ok(value) => Output::Success(Success { jsonrpc: Version::V2, result: value, id }),
        Err(error) => Output::Failure(Failure { jsonrpc: Version::V2, error, id }),
    }
}

impl Error {
    /// The error that answers a call to a method the server does not have.
    pub fn method_not_found() -> (error: Error)
        ensures
            error.code == ErrorCode::MethodNotFound,
            error.message@ == "Method not found"@,
            error.data.is_none(),
    {
        Error {
            code: ErrorCode::MethodNotFound,
            message: "Method not found".to_owned(),
            data: None,
        }
    }
}

impl Output {
    /// Builds the answer object for the request `id` from the outcome of its execution.
    pub fn from(result: Result<JsonValue, Error>, id: Id, jsonrpc: Version) -> (output: Output)
        ensures
            output == output_of(result, id),
    {
        match result {
            Ok(value) => Output::Success(Success { jsonrpc, result: value, id }),
            Err(error) => Output::Failure(Failure { jsonrpc, error, id }),
        }
    }

    /// Identifier of the request that this object answers.
    pub fn id(&self) -> (id: &Id)
        ensures
            *id == output_id(*self),
    {
        match self {
            Output::Success(success) => &success.id,
            Output::Failure(failure) => &failure.id,
        }
    }
}

/// Identifier of the request that `output` answers.
pub open spec fn output_id(output: Output) -> Id {
    match output {
        Output::Success(success) => success.id,
        Output::Failure(failure) => failure.id,
    }
}

} // verus!
