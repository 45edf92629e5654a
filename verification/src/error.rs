//! Error taxonomy of the transport core.
//!
//! Transport failures (refused connections, resets, timeouts) never arise
//! here: they belong to the I/O layer that carries the buffers this crate
//! builds and parses, and they are propagated by that layer unchanged.

use vstd::prelude::*;

verus! {

/// An error reported by the transport core.
#[derive(Debug, Clone, PartialEq)]
pub enum CipError {
    /// A malformed Common Packet envelope: short header, a declared length
    /// exceeding the remaining buffer, trailing bytes after the last item,
    /// a wrong item count, or an unexpected type code in a position that
    /// requires a specific one.
    DataFormat,
    /// A reply that does not match the request: a service-code mismatch, a
    /// sequence-number mismatch on a connection, or a malformed reply body.
    Protocol,
    /// A nonzero general status, other than the "more data pending" value,
    /// returned by the device; carried for the caller to interpret.
    Device { general: u8, extended: Vec<u16> },
}

} // verus!
