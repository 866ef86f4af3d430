//! Errors as a WebSocket client is told of them.
use crate::json::{content_of, json_of_bytes, member, parse_bytes, text_of, JsonView};
use crate::text::{contains, decimal, has_prefix, join, occurs, same_text};
use axum::http::StatusCode;
use serde_json::Value;
use vstd::prelude::*;

verus! {

/// An error as a WebSocket client is told of it. Where there is no status, that of the transport's
/// own choice applies.
#[derive(Debug)]
pub struct WsClientError {
    pub code: String,
    pub message: String,
    pub status: Option<u16>,
    pub param: Option<String>,
}

/// What a [`WsClientError`] says.
pub struct WsErrorView {
    pub code: Seq<char>,
    pub message: Seq<char>,
    pub status: Option<u16>,
    pub param: Option<Seq<char>>,
}

impl DeepView for WsClientError {
    type V = WsErrorView;

    open spec fn deep_view(&self) -> WsErrorView {
        WsErrorView {
            code: self.code@,
            message: self.message@,
            status: self.status,
            param: self.param.deep_view(),
        }
    }
}

/// An error with neither a status nor a parameter.
pub open spec fn plain_error(code: Seq<char>, message: Seq<char>) -> WsErrorView {
    WsErrorView { code, message, status: None, param: None }
}

impl WsClientError {
    /// An error with neither a status nor a parameter.
    pub fn new(code: &str, message: &str) -> (res: WsClientError)
        ensures
            res.deep_view() == plain_error(code@, message@),
    {
        WsClientError {
            code: code.to_owned(),
            message: message.to_owned(),
            status: None,
            param: None,
        }
    }

    /// The error with the given status.
    pub fn with_status(self, status: u16) -> (res: WsClientError)
        ensures
            res.deep_view() == (WsErrorView { status: Some(status), ..self.deep_view() }),
    {
        WsClientError { status: Some(status), ..self }
    }

    /// The error with the given parameter.
    pub fn with_param(self, param: &str) -> (res: WsClientError)
        ensures
            res.deep_view() == (WsErrorView { param: Some(param@), ..self.deep_view() }),
    {
        WsClientError { param: Some(param.to_owned()), ..self }
    }
}

/// A response of the HTTP routes that reports a failure: its status, the bytes of its error code
/// header, where it has one, and its body, where it could be read.
#[derive(Debug)]
pub struct HttpFailure {
    pub status: u16,
    pub header_code: Option<Vec<u8>>,
    pub body: Option<Vec<u8>>,
}

/// What an [`HttpFailure`] says.
pub struct HttpFailureView {
    pub status: u16,
    pub header_code: Option<Seq<u8>>,
    pub body: Option<Seq<u8>>,
}

impl DeepView for HttpFailure {
    type V = HttpFailureView;

    open spec fn deep_view(&self) -> HttpFailureView {
        HttpFailureView {
            status: self.status,
            header_code: match self.header_code {
                Some(bytes) => Some(bytes@),
                None => None,
            },
            body: match self.body {
                Some(bytes) => Some(bytes@),
                None => None,
            },
        }
    }
}

/// How much of the body of a failure is read.
pub const BODY_LIMIT: usize = 1_048_576;

/// A byte that stands for a character in the text of a header.
pub open spec fn is_header_char(b: u8) -> bool {
    (32 <= b && b < 127) || b == 9
}

/// The text of a header; `None` where one of its bytes is no visible character.
pub open spec fn header_text(bytes: Seq<u8>) -> Option<Seq<char>> {
    if forall|i: int| 0 <= i < bytes.len() ==> is_header_char(#[trigger] bytes[i]) {
        Some(bytes.map_values(|b: u8| b as char))
    } else {
        None
    }
}

/// The text of a header.
pub fn read_header(bytes: &[u8]) -> (res: Option<String>)
    ensures
        res.deep_view() == header_text(bytes@),
{
    let ghost wanted = bytes@.map_values(|b: u8| b as char);
    let mut text = String::new();
    let mut i: usize = 0;
    while i < bytes.len()
        invariant
            i <= bytes@.len(),
            wanted == bytes@.map_values(|b: u8| b as char),
            forall|j: int| 0 <= j < i ==> is_header_char(#[trigger] bytes@[j]),
            text@ == wanted.take(i as int),
        decreases bytes@.len() - i,
    {
        let b: u8 = bytes[i];
        if !((32 <= b && b < 127) || b == 9) {
            assert(!is_header_char(bytes@[i as int]));
            return None;
        }
        text.push(b as char);
        proof {
            assert(wanted.take(i + 1) =~= wanted.take(i as int).push(b as char));
        }
        i += 1;
    }
    proof {
        assert(wanted.take(bytes@.len() as int) =~= wanted);
    }
    Some(text)
}

/// How `axum::http::StatusCode` displays a status.
pub uninterp spec fn status_text(status: u16) -> Seq<char>;

/// Calls `StatusCode::from_u16` and displays the result: the number, a blank and the reason, which
/// depends on the number alone. For a number that is no status it displays the error.
#[verifier::external_body]
fn display_status(status: u16) -> (res: String)
    ensures
        res@ == status_text(status),
        100 <= status <= 999 ==> has_prefix(res@, decimal(status as nat).push(' ')),
{
    match StatusCode::from_u16(status) {
        Ok(status) => status.to_string(),
        Err(error) => error.to_string(),
    }
}

/// The value under a key of an optional value.
pub open spec fn member_of(value: Option<JsonView>, key: Seq<char>) -> Option<JsonView> {
    match value {
        Some(value) => value.member(key),
        None => None,
    }
}

/// The text under a key of an optional value.
pub open spec fn text_at(value: Option<JsonView>, key: Seq<char>) -> Option<Seq<char>> {
    match member_of(value, key) {
        Some(value) => value.text(),
        None => None,
    }
}

/// The text under a key of an optional value.
fn find_text(value: &Option<Value>, key: &str) -> (res: Option<String>)
    ensures
        res.deep_view() == text_at(content_of(*value), key@),
{
    match value {
        Some(value) => match member(value, key) {
            Some(value) => text_of(&value),
            None => None,
        },
        None => None,
    }
}

/// What a failure's body holds as JSON.
pub open spec fn parsed_body(body: Option<Seq<u8>>) -> Option<JsonView> {
    match body {
        Some(bytes) => json_of_bytes(bytes),
        None => None,
    }
}

/// The error code that a failure's header gives.
pub open spec fn header_code(header: Option<Seq<u8>>) -> Seq<char> {
    match header {
        Some(bytes) => match header_text(bytes) {
            Some(text) => text,
            None => "responses_ws_error"@,
        },
        None => "responses_ws_error"@,
    }
}

/// The error for a failure whose body holds the given JSON. The body's error has the last word on
/// the code and the message.
pub open spec fn failure_error(failure: HttpFailureView, body: Option<JsonView>) -> WsErrorView {
    let error = member_of(body, "error"@);
    let code = match text_at(error, "code"@) {
        Some(code) => code,
        None => header_code(failure.header_code),
    };
    WsErrorView {
        code,
        message: match text_at(error, "message"@) {
            Some(message) => message,
            None => "WebSocket Responses request failed with status "@ + status_text(
                failure.status,
            ),
        },
        status: Some(failure.status),
        param: if code == "previous_response_not_found"@ {
            Some("previous_response_id"@)
        } else {
            None
        },
    }
}

/// The error for a failure, given what its body holds as JSON.
pub fn explain_failure(failure: &HttpFailure, body: &Option<Value>) -> (res: WsClientError)
    ensures
        res.deep_view() == failure_error(failure.deep_view(), content_of(*body)),
{
    let header = match &failure.header_code {
        Some(bytes) => read_header(bytes.as_slice()),
        None => None,
    };
    let error = match body {
        Some(value) => member(value, "error"),
        None => None,
    };
    let code = match find_text(&error, "code") {
        Some(code) => code,
        None => match header {
            Some(text) => text,
            None => "responses_ws_error".to_owned(),
        },
    };
    let message = match find_text(&error, "message") {
        Some(message) => message,
        None => {
            let status = display_status(failure.status);
            join("WebSocket Responses request failed with status ", status.as_str())
        },
    };
    let err = WsClientError::new(code.as_str(), message.as_str()).with_status(failure.status);
    if same_text(err.code.as_str(), "previous_response_not_found") {
        err.with_param("previous_response_id")
    } else {
        err
    }
}

/// The error for a failure.
pub fn response_to_ws_error(failure: &HttpFailure) -> (res: WsClientError)
    ensures
        res.deep_view() == failure_error(
            failure.deep_view(),
            parsed_body(failure.deep_view().body),
        ),
{
    let body = match &failure.body {
        Some(bytes) => parse_bytes(bytes.as_slice()),
        None => None,
    };
    explain_failure(failure, &body)
}

/// The error for a stream that failed for the given reason.
pub open spec fn stream_error(reason: Seq<char>) -> WsErrorView {
    if occurs(reason, "Client disconnected"@) || occurs(reason, "outbound buffer full"@) {
        WsErrorView {
            code: "client_disconnected"@,
            message:
                "WebSocket client disconnected or could not keep up with streamed events."@,
            status: Some(499),
            param: None,
        }
    } else {
        WsErrorView {
            code: "stream_execution_failed"@,
            message: reason,
            status: Some(502),
            param: None,
        }
    }
}

/// The error for a stream that failed for the given reason.
pub fn stream_error_to_ws_error(reason: String) -> (res: WsClientError)
    ensures
        res.deep_view() == stream_error(reason@),
{
    if contains(reason.as_str(), "Client disconnected") || contains(
        reason.as_str(),
        "outbound buffer full",
    ) {
        WsClientError::new(
            "client_disconnected",
            "WebSocket client disconnected or could not keep up with streamed events.",
        ).with_status(499)
    } else {
        WsClientError::new("stream_execution_failed", reason.as_str()).with_status(502)
    }
}

/// The error for a message that could not be sent.
pub open spec fn send_error() -> WsErrorView {
    WsErrorView {
        code: "client_disconnected"@,
        message: "WebSocket client disconnected or outbound buffer full."@,
        status: Some(499),
        param: None,
    }
}

/// The error for a message that could not be sent.
pub fn outbound_failure() -> (res: WsClientError)
    ensures
        res.deep_view() == send_error(),
{
    WsClientError::new(
        "client_disconnected",
        "WebSocket client disconnected or outbound buffer full.",
    ).with_status(499)
}

/// A failure whose body is no JSON, or holds no error object, is told by its header and its
/// status.
pub proof fn law_failures_without_an_error_body_fall_back(
    failure: HttpFailureView,
    body: Option<JsonView>,
)
    requires
        member_of(body, "error"@) is None,
    ensures
        failure_error(failure, body).code == header_code(failure.header_code),
        failure_error(failure, body).message
            == "WebSocket Responses request failed with status "@ + status_text(failure.status),
        failure_error(failure, body).status == Some(failure.status),
{
}

} // verus!
