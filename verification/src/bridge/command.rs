//! Commands that a control loop can issue.
use vstd::prelude::*;

verus! {

/// A request that can be sent through a packet.
#[derive(Clone, Copy, Debug, PartialEq, Eq, Structural)]
pub enum Command {
    /// Fire the given pyro channel.
    FirePyro(u16),
    /// Toggle the given pyro channel.
    TogglePyro(u16),
    /// Change the state of the rocket to the state with the given identifier.
    ChangeState(u32),
    /// Tell the other side that the bridge is still alive.
    Heartbeat,
    /// Ask for telemetry.
    Telemetry,
}

/// The response to a command.
#[derive(Clone, Copy, Debug, PartialEq, Eq, Structural)]
pub enum CommandResponse {
    /// The command was carried out.
    Done,
}

} // verus!
