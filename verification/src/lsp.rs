//! The messages that the server receives and sends, and the few responses it
//! builds itself.
use vstd::prelude::*;

use crate::protocol::{
    DefinitionParams, DidChangeTextDocumentParams, DidCloseTextDocumentParams,
    DidOpenTextDocumentParams, ErrorCodes, FoldingRangeParams, InitializeParams,
    InitializedParams, Location, LogTraceParams, NumberOrString, ProgressParams, ReferenceParams,
    RenameFilesParams, ResponseError, SemanticTokensParams, SemanticTokensRangeParams,
    SetTraceParams, WorkDoneProgressCancelParams, WorkDoneProgressCreateParams,
};
use crate::text::{decimal_text, push_decimal, push_text};

verus! {

#[derive(Debug, PartialEq)]
pub enum Request {
    FindReferences { id: NumberOrString, params: ReferenceParams },
    FoldingRange { id: NumberOrString, params: FoldingRangeParams },
    GoToDefinition { id: NumberOrString, params: DefinitionParams },
    InitializeRequest { id: NumberOrString, params: InitializeParams },
    SemanticTokensFull { id: NumberOrString, params: SemanticTokensParams },
    SemanticTokensRange { id: NumberOrString, params: SemanticTokensRangeParams },
    ShutdownRequest { id: NumberOrString },
    WindowWorkDoneProgressCreate { id: NumberOrString, params: WorkDoneProgressCreateParams },
}

#[derive(Debug, PartialEq)]
pub enum Notification {
    DidChangeTextDocumentNotification { params: DidChangeTextDocumentParams },
    DidCloseTextDocumentNotification { params: DidCloseTextDocumentParams },
    DidOpenTextDocumentNotification { params: DidOpenTextDocumentParams },
    DidRenameFilesNotification { params: RenameFilesParams },
    ExitNotification {},
    InitializedNotification { params: InitializedParams },
    LogTraceNotification { params: LogTraceParams },
    SetTraceNotification { params: SetTraceParams },
    WorkDoneProgressCancelNotification { params: WorkDoneProgressCancelParams },
    WorkDoneProgressNotification { params: ProgressParams },
}

#[derive(Debug, PartialEq)]
pub struct NullResponse {
    pub id: NumberOrString,
}

#[derive(Debug, PartialEq)]
pub struct ErrorResponse {
    pub id: Option<NumberOrString>,
    pub error: ResponseError,
}

#[derive(Debug, PartialEq)]
pub struct FindReferencesResponse {
    pub id: NumberOrString,
    pub result: Option<Vec<Location>>,
}

#[derive(Debug, PartialEq)]
pub enum Response {
    ErrorResponse(ErrorResponse),
    FindReferencesResponse(FindReferencesResponse),
    NullResponse(NullResponse),
}

#[derive(Debug, PartialEq)]
pub enum Message {
    Notification(Notification),
    Request(Request),
    Response(Response),
}

/// The identifier that a request carries.
pub open spec fn request_id(r: Request) -> NumberOrString {
    match r {
        Request::FindReferences { id, .. } => id,
        Request::FoldingRange { id, .. } => id,
        Request::GoToDefinition { id, .. } => id,
        Request::InitializeRequest { id, .. } => id,
        Request::SemanticTokensFull { id, .. } => id,
        Request::SemanticTokensRange { id, .. } => id,
        Request::ShutdownRequest { id } => id,
        Request::WindowWorkDoneProgressCreate { id, .. } => id,
    }
}

/// The text by which an identifier or token is shown in messages: a number in
/// decimal notation, a string as it is.
pub open spec fn id_text(id: NumberOrString) -> Seq<char> {
    match id {
        NumberOrString::Number(n) => decimal_text(n as int),
        NumberOrString::String(s) => s@,
    }
}

/// Two identifiers are the same number or the same characters.
pub open spec fn same_id(a: NumberOrString, b: NumberOrString) -> bool {
    match (a, b) {
        (NumberOrString::Number(x), NumberOrString::Number(y)) => x == y,
        (NumberOrString::String(x), NumberOrString::String(y)) => x@ == y@,
        _ => false,
    }
}

/// Compares two identifiers by value.
pub fn id_equal(a: &NumberOrString, b: &NumberOrString) -> (r: bool)
    ensures
        r == same_id(*a, *b),
{
    match (a, b) {
        (NumberOrString::Number(x), NumberOrString::Number(y)) => *x == *y,
        (NumberOrString::String(x), NumberOrString::String(y)) => *x == *y,
        _ => false,
    }
}

/// A copy of an identifier.
pub fn copy_id(id: &NumberOrString) -> (r: NumberOrString)
    ensures
        r == *id,
{
    match id {
        NumberOrString::Number(n) => NumberOrString::Number(*n),
        NumberOrString::String(s) => NumberOrString::String(s.clone()),
    }
}

/// Appends the text of an identifier to `s`.
pub fn push_id(s: &mut String, id: &NumberOrString)
    ensures
        final(s)@ == old(s)@ + id_text(*id),
{
    match id {
        NumberOrString::Number(n) => push_decimal(s, *n),
        NumberOrString::String(t) => push_text(s, t.as_str()),
    }
}

impl Request {
    /// The identifier of the request.
    pub fn get_id(&self) -> (id: &NumberOrString)
        ensures
            *id == request_id(*self),
    {
        match self {
            Request::FindReferences { id, .. } => id,
            Request::FoldingRange { id, .. } => id,
            Request::GoToDefinition { id, .. } => id,
            Request::InitializeRequest { id, .. } => id,
            Request::SemanticTokensFull { id, .. } => id,
            Request::SemanticTokensRange { id, .. } => id,
            Request::ShutdownRequest { id } => id,
            Request::WindowWorkDoneProgressCreate { id, .. } => id,
        }
    }
}

impl Message {
    /// The message is a request, which expects a response.
    pub fn is_request(&self) -> (r: bool)
        ensures
            r == (*self is Request),
    {
        matches!(self, Message::Request(_))
    }
}

/// A log message for the client.
pub open spec fn is_log_message(m: Message, text: Seq<char>) -> bool {
    m matches Message::Notification(Notification::LogTraceNotification { params })
        && params.message@ == text && params.verbose is None
}

/// Wraps a text into a log notification.
pub fn log_message(text: String) -> (m: Message)
    ensures
        is_log_message(m, text@),
{
    Message::Notification(Notification::LogTraceNotification {
        params: LogTraceParams { message: text, verbose: None },
    })
}

/// An error response that rejects an invalid request.
pub open spec fn is_invalid_request_error(m: Message, id: Option<NumberOrString>, text: Seq<char>) -> bool {
    m matches Message::Response(Response::ErrorResponse(ErrorResponse { id: rid, error }))
        && rid == id && error.code == -32600 && error.message@ == text && error.data is None
}

/// Builds an error response for an invalid request.
pub fn invalid_request_error(id: Option<NumberOrString>, text: String) -> (m: Message)
    ensures
        is_invalid_request_error(m, id, text@),
{
    Message::Response(Response::ErrorResponse(ErrorResponse {
        id,
        error: ResponseError { code: ErrorCodes::InvalidRequest.code(), message: text, data: None },
    }))
}

/// The text of the error that answers a request received after shutdown.
pub open spec fn shutdown_seq_text() -> Seq<char> {
    "Error: Server is shutting down, so it does not accept any further requests."@
}

/// Rejects a request that arrived after a shutdown request.
pub fn error_shutdown_seq(id: NumberOrString) -> (m: Message)
    ensures
        is_invalid_request_error(m, Some(id), shutdown_seq_text()),
{
    let text = String::from_str("Error: Server is shutting down, so it does not accept any further requests.");
    invalid_request_error(Some(id), text)
}

/// The note that a request of the given kind arrived.
pub open spec fn received_text(kind: Seq<char>, id: NumberOrString) -> Seq<char> {
    "INFO: Received "@ + kind + " request with ID \""@ + id_text(id) + "\"."@
}

/// Notes that a request of the given kind arrived.
pub fn received_note(kind: &str, id: &NumberOrString) -> (m: Message)
    ensures
        is_log_message(m, received_text(kind@, *id)),
{
    let mut text = String::from_str("INFO: Received ");
    push_text(&mut text, kind);
    push_text(&mut text, " request with ID \"");
    push_id(&mut text, id);
    push_text(&mut text, "\".");
    log_message(text)
}

} // verus!
