//! The request and response envelopes and their payloads.
use vstd::prelude::*;

pub mod client_message;
pub mod server_message;

verus! {

/// Text to be sent back unchanged; used both as a request and as a response.
#[derive(Clone, Debug, PartialEq, Eq, Default)]
pub struct EchoMessage {
    pub content: String,
}

/// Two operands whose sum is asked for.
#[derive(Clone, Copy, Debug, PartialEq, Eq, Default)]
pub struct AddRequest {
    pub a: i32,
    pub b: i32,
}

/// The sum of an `AddRequest`'s operands.
#[derive(Clone, Copy, Debug, PartialEq, Eq, Default)]
pub struct AddResponse {
    pub result: i32,
}

/// A request envelope: at most one payload.
#[derive(Clone, Debug, PartialEq, Eq, Default)]
pub struct ClientMessage {
    pub message: Option<client_message::Message>,
}

/// A response envelope: at most one payload.
#[derive(Clone, Debug, PartialEq, Eq, Default)]
pub struct ServerMessage {
    pub message: Option<server_message::Message>,
}

/// What a request payload means: the text to echo, or the two operands.
pub enum Request {
    Echo(Seq<char>),
    Add(i32, i32),
}

/// What a response payload means: the echoed text, or the sum.
pub enum Response {
    Echo(Seq<char>),
    Add(i32),
}

impl View for client_message::Message {
    type V = Request;

    open spec fn view(&self) -> Request {
        match self {
            client_message::Message::EchoMessage(e) => Request::Echo(e.content@),
            client_message::Message::AddRequest(r) => Request::Add(r.a, r.b),
        }
    }
}

impl View for server_message::Message {
    type V = Response;

    open spec fn view(&self) -> Response {
        match self {
            server_message::Message::EchoMessage(e) => Response::Echo(e.content@),
            server_message::Message::AddResponse(r) => Response::Add(r.result),
        }
    }
}

impl View for ClientMessage {
    type V = Option<Request>;

    open spec fn view(&self) -> Option<Request> {
        match self.message {
            Some(m) => Some(m@),
            None => None,
        }
    }
}

impl View for ServerMessage {
    type V = Option<Response>;

    open spec fn view(&self) -> Option<Response> {
        match self.message {
            Some(m) => Some(m@),
            None => None,
        }
    }
}

} // verus!
