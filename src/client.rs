//! The client's side of one exchange: the bytes it sends for a request and
//! what it makes of the bytes of one read.
use vstd::prelude::*;

use crate::message::client_message;
use crate::message::{ClientMessage, Request, Response, ServerMessage};
use crate::wire::{decode_response, encode_request, request_bytes, response_bytes};

verus! {

/// The size of the buffer the client reads a response into.
pub const RECEIVE_BUFFER_SIZE: usize = 1024;

/// Why a client operation failed.
#[derive(Clone, Copy, Debug, PartialEq, Eq, Structural)]
pub enum ClientError {
    /// The address resolved to no candidate.
    Unresolved,
    /// The operation needs a connection and none is held.
    NotConnected,
    /// The server closed the connection.
    PeerDisconnected,
    /// The bytes read are not an encoded response.
    Malformed,
}

/// The bytes sent for a request payload: its envelope, encoded.
pub fn request_frame(message: client_message::Message) -> (r: Vec<u8>)
    ensures
        r@ == request_bytes(Some(message@)),
{
    let envelope = ClientMessage { message: Some(message) };
    encode_request(&envelope)
}

/// Makes a response of the bytes of one read: zero bytes mean the server has
/// closed the connection; otherwise the bytes must encode one response.
pub fn read_response(data: &[u8]) -> (r: Result<ServerMessage, ClientError>)
    ensures
        data@.len() == 0 ==> r == Err::<ServerMessage, ClientError>(ClientError::PeerDisconnected),
        data@.len() > 0 && (forall|m: Option<Response>| response_bytes(m) != data@) ==> r == Err::<
            ServerMessage,
            ClientError,
        >(ClientError::Malformed),
        forall|m: Option<Response>|
            data@.len() > 0 && #[trigger] response_bytes(m) == data@ ==> (r matches Ok(x) && x@
                == m),
{
    if data.len() == 0 {
        return Err(ClientError::PeerDisconnected);
    }
    match decode_response(data) {
        Ok(m) => Ok(m),
        Err(_) => Err(ClientError::Malformed),
    }
}

} // verus!
