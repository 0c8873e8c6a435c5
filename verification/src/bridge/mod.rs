//! The messages exchanged with the ground over the radio bridge.
pub mod command;
pub mod device;
pub mod message;
pub mod packet;
