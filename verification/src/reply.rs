//! The reply-body grammar shared by unconnected and connected messaging:
//! reply service code, a reserved byte, the general status, the count of
//! extended 16-bit status words, those words, then the response payload.

use vstd::prelude::*;

use crate::bytes_le::{read_u16_le, u16_le};
use crate::error::CipError;
use crate::status::{MessageReply, Status};
use vstd::slice::{slice_subrange, slice_to_vec};

verus! {

/// A reply body is well formed when its four fixed header bytes and all
/// the extended status words it declares are present.
pub open spec fn reply_body_wf(body: Seq<u8>) -> bool {
    &&& body.len() >= 4
    &&& body.len() >= 4 + 2 * (body[3] as int)
}

/// The reply service code: first byte of the body.
pub open spec fn reply_service_of(body: Seq<u8>) -> u8 {
    body[0]
}

/// The general status: third byte of the body.
pub open spec fn general_status_of(body: Seq<u8>) -> u8 {
    body[2]
}

/// The extended status words, little-endian, as declared by the fourth
/// byte of the body.
pub open spec fn extended_status_of(body: Seq<u8>) -> Seq<u16> {
    Seq::new(body[3] as nat, |i: int| u16_le(body[4 + 2 * i], body[5 + 2 * i]))
}

/// The response payload: everything after the extended status words.
pub open spec fn reply_payload_of(body: Seq<u8>) -> Seq<u8> {
    body.skip(4 + 2 * (body[3] as int))
}

/// Mathematical model of a decoded reply.
#[verifier::ext_equal]
pub struct ReplyView {
    pub reply_service: u8,
    pub general: u8,
    pub extended: Seq<u16>,
    pub data: Seq<u8>,
}

/// The reply described by a well-formed body.
pub open spec fn reply_view_of(body: Seq<u8>) -> ReplyView {
    ReplyView {
        reply_service: reply_service_of(body),
        general: general_status_of(body),
        extended: extended_status_of(body),
        data: reply_payload_of(body),
    }
}

/// The model of a decoded reply value with raw payload bytes.
pub open spec fn reply_model(m: MessageReply<Vec<u8>>) -> ReplyView {
    ReplyView {
        reply_service: m.reply_service,
        general: m.status.general,
        extended: m.status.extended@,
        data: m.data@,
    }
}

/// Decodes a reply body.  A body too short for its fixed header or its
/// declared extended status words is a protocol error: the device broke
/// the reply grammar.
pub fn decode_message_reply(body: &[u8]) -> (r: Result<MessageReply<Vec<u8>>, CipError>)
    ensures
        match r {
            Ok(m) => reply_body_wf(body@) && reply_model(m) == reply_view_of(body@),
            Err(e) => !reply_body_wf(body@) && e == CipError::Protocol,
        },
{
    if body.len() < 4 {
        return Err(CipError::Protocol);
    }
    let ext_count = body[3] as usize;
    if body.len() < 4 + 2 * ext_count {
        return Err(CipError::Protocol);
    }
    let mut extended: Vec<u16> = Vec::new();
    proof {
        assert(extended@ =~= extended_status_of(body@).take(0));
    }
    for i in 0..ext_count
        invariant
            ext_count == body@[3] as int,
            body@.len() >= 4 + 2 * ext_count,
            extended@ == extended_status_of(body@).take(i as int),
    {
        let word = read_u16_le(body, 4 + 2 * i);
        extended.push(word);
        proof {
            assert(extended@ =~= extended_status_of(body@).take(i + 1));
        }
    }
    proof {
        assert(extended_status_of(body@).take(ext_count as int) =~= extended_status_of(body@));
    }
    let data = slice_to_vec(slice_subrange(body, 4 + 2 * ext_count, body.len()));
    proof {
        assert(data@ =~= reply_payload_of(body@));
    }
    let m = MessageReply {
        reply_service: body[0],
        status: Status { general: body[2], extended },
        data,
    };
    proof {
        assert(reply_model(m) =~= reply_view_of(body@));
    }
    Ok(m)
}

} // verus!
