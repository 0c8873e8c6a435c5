//! Messages: a payload with the metadata that travels with it.
use crate::bridge::command::{Command, CommandResponse};
use vstd::prelude::*;

verus! {

/// The unit of communication on the bridge.
#[derive(Clone, Copy, Debug, PartialEq, Eq, Structural)]
pub struct Message {
    /// Identifier by which other messages, such as acknowledgements, refer
    /// to this one.
    pub id: u64,
    /// The payload.
    pub kind: MessageKind,
    /// The time at which the message was sent.
    pub send_time: u64,
    /// Flag bits.
    pub flags: u8,
}

/// The payload of a message.
#[derive(Clone, Copy, Debug, PartialEq, Eq, Structural)]
pub enum MessageKind {
    /// A command.
    Request(Command),
    /// The response to the command sent in the message with the given
    /// identifier.
    Response(u64, CommandResponse),
    /// A handshake between two parties, each named by its identifier.
    Handshake(u64, u64),
    /// An acknowledgement of the message with the given identifier.
    Ack(u64),
}

} // verus!
