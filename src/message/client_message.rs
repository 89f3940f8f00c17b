//! The payload of a request envelope.
use vstd::prelude::*;

use super::{AddRequest, EchoMessage};

verus! {

/// The payload variants a client can send.
#[derive(Clone, Debug, PartialEq, Eq)]
pub enum Message {
    EchoMessage(EchoMessage),
    AddRequest(AddRequest),
}

} // verus!
