//! Unconnected (UCMM) explicit messaging: framing a service request into a
//! Common Packet with a null address item and an unconnected data item, and
//! checking and unwrapping the matching reply envelope.
//!
//! Sending the encoded bytes and awaiting the reply bytes is the transport
//! layer's task; this module fixes what those bytes must be.

use vstd::prelude::*;

use crate::common_packet::{
    item_wf, packet_wf, spec_decode_packet, spec_encode_packet, CommonPacket, CommonPacketItem,
    ItemView, TYPE_NULL_ADDR, TYPE_UNCONNECTED_DATA,
};
use crate::error::CipError;
use crate::reply::{
    decode_message_reply, reply_body_wf, reply_model, reply_service_of, reply_view_of, ReplyView,
};
use crate::status::MessageReply;
use crate::REPLY_MASK;
use vstd::slice::slice_to_vec;

verus! {

/// The null address item.
pub open spec fn null_addr_view() -> ItemView {
    ItemView { type_code: TYPE_NULL_ADDR as u16, data: Seq::empty() }
}

/// An unconnected data item carrying `data`.
pub open spec fn unconnected_data_view(data: Seq<u8>) -> ItemView {
    ItemView { type_code: TYPE_UNCONNECTED_DATA as u16, data }
}

/// Builds an explicit-message request body: the service code, the request
/// path length in 16-bit words, the path bytes verbatim, then the request
/// payload.  The path comes from the address encoder already length-even
/// and at most 255 words long.
pub fn build_message_request(service_code: u8, path: &[u8], data: &[u8]) -> (r: Vec<u8>)
    requires
        path@.len() % 2 == 0,
        path@.len() <= 510,
    ensures
        r@ == seq![service_code, (path@.len() / 2) as u8] + path@ + data@,
{
    let mut out: Vec<u8> = Vec::new();
    out.push(service_code);
    out.push((path.len() / 2) as u8);
    let mut p = slice_to_vec(path);
    out.append(&mut p);
    let mut d = slice_to_vec(data);
    out.append(&mut d);
    proof {
        assert(out@ =~= seq![service_code, (path@.len() / 2) as u8] + path@ + data@);
    }
    out
}

/// Wraps a request body for unconnected messaging: a Common Packet holding
/// a null address item and an unconnected data item, encoded to its wire
/// form.
pub fn encode_unconnected_request(body: Vec<u8>) -> (r: Vec<u8>)
    requires
        body@.len() <= 0xFFFF,
    ensures
        r@ == spec_encode_packet(seq![null_addr_view(), unconnected_data_view(body@)]),
{
    let ghost items = seq![null_addr_view(), unconnected_data_view(body@)];
    let mut packet = CommonPacket::new();
    packet.push(CommonPacketItem::with_null_addr());
    packet.push(CommonPacketItem::with_unconnected_data(body));
    proof {
        assert(packet@ =~= items);
        assert forall|i: int| 0 <= i < items.len() implies item_wf(#[trigger] items[i]) by {
            assert(items[0].data.len() == 0);
        }
        assert(packet_wf(packet@));
    }
    packet.encode()
}

/// What an unconnected reply buffer means: the envelope must decode to
/// exactly two items, the first with the null address type code (else a
/// data-format error); the second item's payload must follow the reply
/// grammar and echo the request's service code with the reply bit set
/// (else a protocol error).
pub open spec fn spec_unconnected_reply(buf: Seq<u8>, service_code: u8) -> Result<
    ReplyView,
    CipError,
> {
    match spec_decode_packet(buf) {
        None => Err(CipError::DataFormat),
        Some(items) => if items.len() != 2 {
            Err(CipError::DataFormat)
        } else if items[0].type_code != TYPE_NULL_ADDR {
            Err(CipError::DataFormat)
        } else if !reply_body_wf(items[1].data) {
            Err(CipError::Protocol)
        } else if reply_service_of(items[1].data) != (service_code | REPLY_MASK) {
            Err(CipError::Protocol)
        } else {
            Ok(reply_view_of(items[1].data))
        },
    }
}

/// Decodes and checks an unconnected reply buffer against the request's
/// service code.
pub fn parse_unconnected_reply(buf: &[u8], service_code: u8) -> (r: Result<
    MessageReply<Vec<u8>>,
    CipError,
>)
    ensures
        match r {
            Ok(m) => spec_unconnected_reply(buf@, service_code) == Ok::<ReplyView, CipError>(
                reply_model(m),
            ),
            Err(e) => spec_unconnected_reply(buf@, service_code) == Err::<ReplyView, CipError>(e),
        },
{
    let packet = match CommonPacket::decode(buf) {
        Ok(p) => p,
        Err(e) => {
            return Err(e);
        },
    };
    if packet.len() != 2 {
        return Err(CipError::DataFormat);
    }
    let addr = packet.get(0);
    match addr.ensure_type_code(TYPE_NULL_ADDR) {
        Ok(()) => {},
        Err(e) => {
            return Err(e);
        },
    }
    let data_item = packet.get(1);
    let m = match decode_message_reply(data_item.data.as_slice()) {
        Ok(m) => m,
        Err(e) => {
            return Err(e);
        },
    };
    if m.reply_service != (service_code | REPLY_MASK) {
        return Err(CipError::Protocol);
    }
    Ok(m)
}

} // verus!
