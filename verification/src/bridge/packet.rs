//! Packets: the framing of a payload below the message layer.
use crate::bridge::command::{Command, CommandResponse};
use vstd::prelude::*;

verus! {

/// A payload with the metadata that travels with it.
#[derive(Clone, Copy, Debug, PartialEq, Eq, Structural)]
pub struct Packet {
    /// Identifier by which other packets, such as acknowledgements, refer to
    /// this one.
    pub id: u64,
    /// The payload.
    pub kind: PacketKind,
    /// The time at which the packet was sent.
    pub send_time: u64,
    /// Flag bits.
    pub flags: u8,
}

/// The payload of a packet.
#[derive(Clone, Copy, Debug, PartialEq, Eq, Structural)]
pub enum PacketKind {
    /// A command.
    Request(Command),
    /// The response to the command sent in the packet with the given
    /// identifier.
    Response(u64, CommandResponse),
    /// An acknowledgement of the packet with the given identifier.
    Ack(u64),
}

} // verus!
