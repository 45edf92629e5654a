//! Client-side transport core for CIP explicit messaging over EtherNet/IP.
//!
//! The crate covers the binary layer shared by every higher-level service:
//! the Common Packet Format codec that frames each request/reply, the
//! reply-status model (success, error, "more data pending"), the framing
//! rules for unconnected and connected messaging, and the state machines
//! that drive fragmented reads and writes.  Network transports sit outside
//! this crate: they exchange the byte buffers produced and consumed here.

use vstd::prelude::*;

pub mod bytes_le;
pub mod client;
pub mod common_packet;
pub mod connection;
pub mod error;
pub mod fragment;
pub mod reply;
pub mod status;

verus! {

/// Service code: read a tag's value.
pub const SERVICE_READ_TAG: u8 = 0x4C;

/// Service code: write a tag's value.
pub const SERVICE_WRITE_TAG: u8 = 0x4D;

/// Service code: read a fragment of a tag's value at a byte offset.
pub const SERVICE_READ_TAG_FRAGMENTED: u8 = 0x52;

/// Service code: write a fragment of a tag's value at a byte offset.
pub const SERVICE_WRITE_TAG_FRAGMENTED: u8 = 0x53;

/// Service code: read-modify-write a tag's value.
pub const SERVICE_READ_MODIFY_WRITE_TAG: u8 = 0x4E;

/// Service code: read template metadata.
pub const SERVICE_TEMPLATE_READ: u8 = 0x4C;

/// The symbol class.
pub const CLASS_SYMBOL: u16 = 0x6B;

/// The template class.
pub const CLASS_TEMPLATE: u16 = 0x6C;

/// A reply's service code is the request's code with this bit set.
pub const REPLY_MASK: u8 = 0x80;

} // verus!
