//! Connected (Transport Class 3) explicit messaging: the connection-id
//! pair and sequence counter, the single connected data item that frames
//! each request, and the sequence check on each reply.
//!
//! The connection ids and the initial sequence value come from the forward
//! open negotiated outside this core; the ids travel in the transport
//! framing, not in the Common Packet.  A reply whose echoed sequence does
//! not equal the last sent value is a protocol error, and the connection
//! is desynchronized: it must be replaced, not repaired.  One request at a
//! time: the next request may be framed only after the previous reply was
//! accepted or the connection abandoned.

use vstd::prelude::*;

use crate::bytes_le::{read_u16_le, u16_bytes, u16_le, write_u16_le};
use crate::common_packet::{
    item_wf, packet_wf, spec_decode_packet, spec_encode_packet, CommonPacket, CommonPacketItem,
    ItemView, TYPE_CONNECTED_DATA,
};
use crate::error::CipError;
use crate::reply::{
    decode_message_reply, reply_body_wf, reply_model, reply_service_of, reply_view_of, ReplyView,
};
use crate::status::MessageReply;
use crate::REPLY_MASK;
use vstd::slice::{slice_subrange, slice_to_vec};

verus! {

/// A connected data item carrying `data`.
pub open spec fn connected_data_view(data: Seq<u8>) -> ItemView {
    ItemView { type_code: TYPE_CONNECTED_DATA as u16, data }
}

/// State of one Transport Class 3 connection: the originator/target id
/// pair and the sequence number most recently sent.
#[derive(Debug, Clone, PartialEq, Eq, Structural)]
pub struct Connection {
    pub originator_id: u32,
    pub target_id: u32,
    pub sequence: u16,
}

/// Frames a request body as the single connected data item of a Common
/// Packet: the sequence number, little-endian, then the body.
pub fn encode_connected_request(sequence: u16, body: &[u8]) -> (r: Vec<u8>)
    requires
        body@.len() + 2 <= 0xFFFF,
    ensures
        r@ == spec_encode_packet(seq![connected_data_view(u16_bytes(sequence) + body@)]),
{
    let ghost items = seq![connected_data_view(u16_bytes(sequence) + body@)];
    let mut payload: Vec<u8> = Vec::new();
    write_u16_le(&mut payload, sequence);
    let mut b = slice_to_vec(body);
    payload.append(&mut b);
    let mut packet = CommonPacket::new();
    packet.push(CommonPacketItem::with_connected_data(payload));
    proof {
        assert(packet@ =~= items);
        assert forall|i: int| 0 <= i < items.len() implies item_wf(#[trigger] items[i]) by {}
        assert(packet_wf(packet@));
    }
    packet.encode()
}

/// What a connected reply buffer means: the envelope must decode to
/// exactly one connected data item (else a data-format error) whose
/// payload starts with the echoed sequence number; an echo differing from
/// the last sent sequence, a broken reply grammar, or a service code not
/// matching the request are protocol errors.
pub open spec fn spec_connected_reply(
    buf: Seq<u8>,
    expected_sequence: u16,
    service_code: u8,
) -> Result<ReplyView, CipError> {
    match spec_decode_packet(buf) {
        None => Err(CipError::DataFormat),
        Some(items) => if items.len() != 1 {
            Err(CipError::DataFormat)
        } else if items[0].type_code != TYPE_CONNECTED_DATA {
            Err(CipError::DataFormat)
        } else if items[0].data.len() < 2 {
            Err(CipError::DataFormat)
        } else if u16_le(items[0].data[0], items[0].data[1]) != expected_sequence {
            Err(CipError::Protocol)
        } else if !reply_body_wf(items[0].data.skip(2)) {
            Err(CipError::Protocol)
        } else if reply_service_of(items[0].data.skip(2)) != (service_code | REPLY_MASK) {
            Err(CipError::Protocol)
        } else {
            Ok(reply_view_of(items[0].data.skip(2)))
        },
    }
}

/// Decodes and checks a connected reply buffer against the last sent
/// sequence number and the request's service code.
pub fn parse_connected_reply(buf: &[u8], expected_sequence: u16, service_code: u8) -> (r: Result<
    MessageReply<Vec<u8>>,
    CipError,
>)
    ensures
        match r {
            Ok(m) => spec_connected_reply(buf@, expected_sequence, service_code) == Ok::<
                ReplyView,
                CipError,
            >(reply_model(m)),
            Err(e) => spec_connected_reply(buf@, expected_sequence, service_code) == Err::<
                ReplyView,
                CipError,
            >(e),
        },
{
    let packet = match CommonPacket::decode(buf) {
        Ok(p) => p,
        Err(e) => {
            return Err(e);
        },
    };
    if packet.len() != 1 {
        return Err(CipError::DataFormat);
    }
    let item = packet.get(0);
    match item.ensure_type_code(TYPE_CONNECTED_DATA) {
        Ok(()) => {},
        Err(e) => {
            return Err(e);
        },
    }
    if item.data.len() < 2 {
        return Err(CipError::DataFormat);
    }
    let echoed = read_u16_le(item.data.as_slice(), 0);
    if echoed != expected_sequence {
        return Err(CipError::Protocol);
    }
    let body = slice_subrange(item.data.as_slice(), 2, item.data.len());
    proof {
        assert(body@ =~= packet@[0].data.skip(2));
    }
    let m = match decode_message_reply(body) {
        Ok(m) => m,
        Err(e) => {
            return Err(e);
        },
    };
    if m.reply_service != (service_code | REPLY_MASK) {
        return Err(CipError::Protocol);
    }
    Ok(m)
}

impl Connection {
    /// A connection over an established id pair, starting at the initial
    /// sequence value agreed at connection establishment.
    pub fn new(originator_id: u32, target_id: u32, initial_sequence: u16) -> (r: Self)
        ensures
            r == (Connection { originator_id, target_id, sequence: initial_sequence }),
    {
        Connection { originator_id, target_id, sequence: initial_sequence }
    }

    /// Frames the next request: increments the sequence counter, records
    /// the sent value, and wraps the body as a connected data item.
    pub fn next_request(&mut self, body: &[u8]) -> (r: Vec<u8>)
        requires
            body@.len() + 2 <= 0xFFFF,
        ensures
            final(self).originator_id == old(self).originator_id,
            final(self).target_id == old(self).target_id,
            final(self).sequence == (old(self).sequence + 1) % 0x10000,
            r@ == spec_encode_packet(
                seq![connected_data_view(u16_bytes(final(self).sequence) + body@)],
            ),
    {
        self.sequence = if self.sequence == 0xFFFF {
            0
        } else {
            self.sequence + 1
        };
        encode_connected_request(self.sequence, body)
    }

    /// Decodes a reply and requires it to echo the sequence number most
    /// recently sent on this connection.
    pub fn accept_reply(&self, buf: &[u8], service_code: u8) -> (r: Result<
        MessageReply<Vec<u8>>,
        CipError,
    >)
        ensures
            match r {
                Ok(m) => spec_connected_reply(buf@, self.sequence, service_code) == Ok::<
                    ReplyView,
                    CipError,
                >(reply_model(m)),
                Err(e) => spec_connected_reply(buf@, self.sequence, service_code) == Err::<
                    ReplyView,
                    CipError,
                >(e),
            },
    {
        parse_connected_reply(buf, self.sequence, service_code)
    }
}

/// Sequence enforcement: a reply that echoes any sequence number other
/// than the last sent one is rejected with a protocol error, whatever the
/// rest of the reply holds.
pub proof fn lemma_sequence_enforcement(
    buf: Seq<u8>,
    data: Seq<u8>,
    expected_sequence: u16,
    service_code: u8,
)
    requires
        spec_decode_packet(buf) == Some(seq![connected_data_view(data)]),
        data.len() >= 2,
        u16_le(data[0], data[1]) != expected_sequence,
    ensures
        spec_connected_reply(buf, expected_sequence, service_code) == Err::<ReplyView, CipError>(
            CipError::Protocol,
        ),
{
    let items = seq![connected_data_view(data)];
    assert(items[0].type_code == TYPE_CONNECTED_DATA);
    assert(items[0].data == data);
}

} // verus!
