//! The service's decisions: what a connection's handler does with each read,
//! and what the accept loop does on each turn.
//!
//! The handler reads one buffer at a time and takes it as exactly one encoded
//! request (there is no framing). Sockets, threads and the shared phase are
//! the caller's: it performs the actions these functions choose.
use vstd::prelude::*;

use crate::message::client_message;
use crate::message::server_message;
use crate::message::{AddResponse, EchoMessage, Request, Response, ServerMessage};
use crate::wire::{
    decode_request, encode_response, lemma_response_bytes_unique, request_bytes, response_bytes,
    response_fits,
};
use vstd::utf8::encode_utf8;

verus! {

/// The size of the buffer a handler reads into.
pub const READ_BUFFER_SIZE: usize = 512;

/// How long the accept loop sleeps when no connection is pending.
pub const IDLE_SLEEP_MS: u64 = 10;

/// `a + b` with 32-bit wraparound.
pub open spec fn wrapped_sum(a: i32, b: i32) -> i32 {
    let s = a + b;
    if s > i32::MAX {
        (s - 0x1_0000_0000) as i32
    } else if s < i32::MIN {
        (s + 0x1_0000_0000) as i32
    } else {
        s as i32
    }
}

/// The answer to a request payload.
pub open spec fn answer(q: Request) -> Response {
    match q {
        Request::Echo(c) => Response::Echo(c),
        Request::Add(a, b) => Response::Add(wrapped_sum(a, b)),
    }
}

/// Answers a request payload: an echo with the same text, an addition with
/// the wrapped sum.
pub fn dispatch(request: client_message::Message) -> (r: server_message::Message)
    ensures
        r@ == answer(request@),
{
    match request {
        client_message::Message::EchoMessage(echo) => server_message::Message::EchoMessage(echo),
        client_message::Message::AddRequest(add) => {
            let result = add.a.wrapping_add(add.b);
            server_message::Message::AddResponse(AddResponse { result })
        },
    }
}

/// Why a read got no answer while the connection stays open.
#[derive(Clone, Copy, Debug, PartialEq, Eq, Structural)]
pub enum Skip {
    /// The bytes are not an encoded request.
    Malformed,
    /// The request carries no payload. Such an envelope is encoded as no
    /// bytes at all, so it is sent as nothing and no read ever holds it.
    NoPayload,
}

/// What a handler does after one read.
#[derive(Debug)]
pub enum HandlerAction {
    /// The peer closed the connection: the handler ends.
    Close,
    /// Nothing is written; the handler reads on.
    Ignore(Skip),
    /// These bytes are written back; the handler reads on.
    Reply(Vec<u8>),
}

/// Decides what to do with the bytes of one read: zero bytes mean the peer
/// has closed; bytes that encode a request with a payload are answered with
/// the encoded response; anything else is skipped and the connection stays.
pub fn handle_read(data: &[u8]) -> (r: HandlerAction)
    ensures
        data@.len() == 0 <==> r is Close,
        data@.len() > 0 && (forall|m: Option<Request>| request_bytes(m) != data@) ==> r
            == HandlerAction::Ignore(Skip::Malformed),
        forall|q: Request| #[trigger]
            request_bytes(Some(q)) == data@ ==> (r matches HandlerAction::Reply(bytes) && bytes@
                == response_bytes(Some(answer(q)))),
{
    if data.len() == 0 {
        proof {
            assert forall|q: Request| #[trigger] request_bytes(Some(q)) == data@ implies false by {
                assert(request_bytes(Some(q)).len() > 0);
            }
        }
        return HandlerAction::Close;
    }
    match decode_request(data) {
        Err(_) => HandlerAction::Ignore(Skip::Malformed),
        Ok(decoded) => match decoded.message {
            None => HandlerAction::Ignore(Skip::NoPayload),
            Some(request) => {
                let response = ServerMessage { message: Some(dispatch(request)) };
                HandlerAction::Reply(encode_response(&response))
            },
        },
    }
}

/// Where a server is in its life: bound, accepting, or stopped for good.
#[derive(Clone, Copy, Debug, PartialEq, Eq, Structural)]
pub enum Phase {
    Created,
    Running,
    Stopped,
}

/// What one attempt to accept a connection gave.
#[derive(Clone, Copy, Debug, PartialEq, Eq, Structural)]
pub enum AcceptOutcome {
    /// A connection was accepted.
    Accepted,
    /// No connection is pending.
    WouldBlock,
    /// Accepting failed.
    Failed,
}

/// What the accept loop does next.
#[derive(Clone, Copy, Debug, PartialEq, Eq, Structural)]
pub enum AcceptAction {
    /// Start a handler for the accepted connection, then accept again.
    Spawn,
    /// Sleep this many milliseconds, then accept again.
    Sleep(u64),
    /// Report the failure, then accept again.
    Retry,
    /// Leave the loop; the connection, if any, is dropped.
    Exit,
}

/// The phase after `run`: a created server starts running; otherwise
/// nothing changes (a stopped server never runs again).
pub open spec fn phase_after_run(p: Phase) -> Phase {
    match p {
        Phase::Created => Phase::Running,
        _ => p,
    }
}

/// The accept loop's choice in phase `p` after outcome `o`.
pub open spec fn accept_action(p: Phase, o: AcceptOutcome) -> AcceptAction {
    if p != Phase::Running {
        AcceptAction::Exit
    } else {
        match o {
            AcceptOutcome::Accepted => AcceptAction::Spawn,
            AcceptOutcome::WouldBlock => AcceptAction::Sleep(IDLE_SLEEP_MS),
            AcceptOutcome::Failed => AcceptAction::Retry,
        }
    }
}

/// The phase of a server, shared by its accept loop and its handlers.
pub struct ServerControl {
    pub phase: Phase,
}

impl ServerControl {
    /// A server that is bound but does not accept yet.
    pub fn new() -> (r: ServerControl)
        ensures
            r.phase == Phase::Created,
    {
        ServerControl { phase: Phase::Created }
    }

    /// Starts accepting, unless the server has been stopped.
    pub fn run(&mut self)
        ensures
            final(self).phase == phase_after_run(old(self).phase),
    {
        if self.phase == Phase::Created {
            self.phase = Phase::Running;
        }
    }

    /// Stops the server for good.
    pub fn stop(&mut self)
        ensures
            final(self).phase == Phase::Stopped,
    {
        self.phase = Phase::Stopped;
    }

    /// Whether the accept loop and the handlers are to go on.
    pub fn is_running(&self) -> (r: bool)
        ensures
            r == (self.phase == Phase::Running),
    {
        self.phase == Phase::Running
    }

    /// The accept loop's choice after one attempt to accept.
    pub fn on_accept(&self, outcome: AcceptOutcome) -> (r: AcceptAction)
        ensures
            r == accept_action(self.phase, outcome),
    {
        if self.phase != Phase::Running {
            return AcceptAction::Exit;
        }
        match outcome {
            AcceptOutcome::Accepted => AcceptAction::Spawn,
            AcceptOutcome::WouldBlock => AcceptAction::Sleep(IDLE_SLEEP_MS),
            AcceptOutcome::Failed => AcceptAction::Retry,
        }
    }
}

/// An addition is always answered, with the sum of its operands modulo
/// 2^32 as a 32-bit integer.
pub proof fn lemma_add_answer_wraps(a: i32, b: i32)
    ensures
        answer(Request::Add(a, b)) == Response::Add(wrapped_sum(a, b)),
        i32::MIN <= wrapped_sum(a, b) <= i32::MAX,
        (wrapped_sum(a, b) as int) % 0x1_0000_0000 == (a + b) % 0x1_0000_0000,
{
    let s = a + b;
    if s > i32::MAX {
        assert((s - 0x1_0000_0000) % 0x1_0000_0000 == s % 0x1_0000_0000) by (nonlinear_arith);
    } else if s < i32::MIN {
        assert((s + 0x1_0000_0000) % 0x1_0000_0000 == s % 0x1_0000_0000) by (nonlinear_arith);
    }
}

/// An echo is answered with its own text and nothing else: the reply is
/// the encoding of an echo of that text, and of no other response.
pub proof fn lemma_echo_answer_is_own(c: Seq<char>, other: Option<Response>)
    requires
        encode_utf8(c).len() <= isize::MAX,
        response_fits(other),
        response_bytes(other) == response_bytes(Some(answer(Request::Echo(c)))),
    ensures
        other == Some(Response::Echo(c)),
{
    lemma_response_bytes_unique(other, Some(answer(Request::Echo(c))));
}

/// Once stopped, a server accepts nothing: whatever an attempt to accept
/// gives, the loop exits, and running the server again leaves it stopped.
pub proof fn lemma_stopped_accepts_nothing(o: AcceptOutcome)
    ensures
        accept_action(Phase::Stopped, o) == AcceptAction::Exit,
        phase_after_run(Phase::Stopped) == Phase::Stopped,
{
}

} // verus!
