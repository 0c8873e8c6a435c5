//! The sink and source of messages.
use crate::bridge::message::Message;
use vstd::prelude::*;

verus! {

/// Anything that can transmit and receive messages.
pub trait Device {
    /// Transmits a message.
    fn transmit(&self, message: Message) -> Result<(), DeviceError>;

    /// Polls for a message; `Ok(None)` when none has arrived.
    fn poll(&self) -> Result<Option<Message>, DeviceError>;

    /// Announces this device, under the identifier `id`, to all devices that
    /// listen on the frequency `freq`.
    fn ping(&self, id: u64, freq: u64) -> Result<(), DeviceError>;

    /// The frequency the device is tuned to.
    fn freq(&self) -> Result<u64, DeviceError>;

    /// Tunes the device to the frequency `freq`.
    fn set_freq(&mut self, freq: u64) -> Result<(), DeviceError>;
}

/// Why a device operation failed.
#[derive(Clone, Copy, Debug, PartialEq, Eq, Structural)]
pub enum DeviceError {
    /// The message is not valid.
    InvalidMessage,
    /// The frequency is not valid.
    InvalidFrequency,
    /// The receiver did not acknowledge a message that asked for it.
    NotAcknowledged,
    /// The physical device failed.
    Physical,
}

impl DeviceError {
    /// The text that describes the error.
    pub open spec fn text(self) -> Seq<char> {
        match self {
            DeviceError::InvalidFrequency => "invalid frequency provided"@,
            DeviceError::InvalidMessage => "invalid message provided"@,
            DeviceError::NotAcknowledged => "reciever did not acknowledge sent packet"@,
            DeviceError::Physical => "physical device error"@,
        }
    }

    /// The text that describes the error.
    pub fn to_string(&self) -> (r: String)
        ensures
            r@ == self.text(),
    {
        match self {
            DeviceError::InvalidFrequency => "invalid frequency provided".to_owned(),
            DeviceError::InvalidMessage => "invalid message provided".to_owned(),
            DeviceError::NotAcknowledged => "reciever did not acknowledge sent packet".to_owned(),
            DeviceError::Physical => "physical device error".to_owned(),
        }
    }
}

} // verus!
