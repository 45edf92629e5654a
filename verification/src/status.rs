//! The generic reply envelope: a two-part status and a typed payload.

use vstd::prelude::*;

verus! {

/// The reserved general status meaning "partial transfer, more data
/// available"; it is not a failure.
pub const STATUS_HAS_MORE: u8 = 0x06;

/// The two-part status of a message reply: a general status byte and
/// extended 16-bit status words.
#[derive(Debug, Clone, PartialEq)]
pub struct Status {
    pub general: u8,
    pub extended: Vec<u16>,
}

/// A reply that can signal "more data pending".
pub trait HasMore {
    /// What "more data pending" means for this type.
    spec fn spec_has_more(&self) -> bool;

    /// True when the device holds more data for this exchange.
    fn has_more(&self) -> (r: bool)
        ensures
            r == self.spec_has_more(),
    ;
}

impl HasMore for Status {
    open spec fn spec_has_more(&self) -> bool {
        self.general == STATUS_HAS_MORE
    }

    fn has_more(&self) -> (r: bool) {
        self.general == STATUS_HAS_MORE
    }
}

impl Status {
    /// True for a status the device reports as an error: a nonzero general
    /// status other than "more data pending".  Neither success (0) nor the
    /// partial-transfer status counts as a device error.
    pub fn is_device_error(&self) -> (r: bool)
        ensures
            r == (self.general != 0 && self.general != STATUS_HAS_MORE),
    {
        self.general != 0 && self.general != STATUS_HAS_MORE
    }
}

/// A message reply: the reply service code (request code with the reply
/// bit set), the status, and a payload of the caller's chosen type.
#[derive(Debug, Clone, PartialEq)]
pub struct MessageReply<D> {
    pub reply_service: u8,
    pub status: Status,
    pub data: D,
}

impl<D> HasMore for MessageReply<D> {
    open spec fn spec_has_more(&self) -> bool {
        self.status.spec_has_more()
    }

    fn has_more(&self) -> (r: bool) {
        self.status.has_more()
    }
}

} // verus!
