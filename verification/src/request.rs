//! The requests of the client that the server answers before it starts.
use vstd::prelude::*;

use crate::protocol::{InitializeParams, InitializedParams, NumberOrString};

verus! {

#[derive(Debug, PartialEq)]
pub enum Request {
    ExitNotification(ExitNotification),
    InitializedNotification(InitializedNotification),
    InitializeRequest(InitializeRequest),
    ShutdownRequest(ShutdownRequest),
}

#[derive(Debug, PartialEq)]
pub struct ExitNotification {}

#[derive(Debug, PartialEq)]
pub struct InitializedNotification {
    pub params: InitializedParams,
}

#[derive(Debug, PartialEq)]
pub struct InitializeRequest {
    pub id: NumberOrString,
    pub params: InitializeParams,
}

#[derive(Debug, PartialEq)]
pub struct ShutdownRequest {
    pub id: NumberOrString,
}

impl Request {
    /// The identifier of a request; notifications have none.
    pub fn get_id(self) -> (id: Option<NumberOrString>)
        ensures
            id == match self {
                Request::InitializeRequest(r) => Some(r.id),
                Request::ShutdownRequest(r) => Some(r.id),
                _ => None,
            },
    {
        match self {
            Request::ExitNotification(_) => None,
            Request::InitializedNotification(_) => None,
            Request::InitializeRequest(InitializeRequest { id, .. }) => Some(id),
            Request::ShutdownRequest(ShutdownRequest { id }) => Some(id),
        }
    }

    /// Whether the message expects a response.
    pub fn is_request(&self) -> (r: bool)
        ensures
            r == (*self is InitializeRequest || *self is ShutdownRequest),
    {
        match self {
            Request::InitializeRequest(_) | Request::ShutdownRequest(_) => true,
            _ => false,
        }
    }
}

} // verus!
