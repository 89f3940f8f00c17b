//! The payload of a response envelope.
use vstd::prelude::*;

use super::{AddResponse, EchoMessage};

verus! {

/// The payload variants the service answers with.
#[derive(Clone, Debug, PartialEq, Eq)]
pub enum Message {
    EchoMessage(EchoMessage),
    AddResponse(AddResponse),
}

} // verus!
