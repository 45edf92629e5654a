use cip_core::common_packet::{CommonPacket, CommonPacketIter, CommonPacketItem};
use cip_core::error::CipError;
use cip_core::reply::decode_message_reply;

fn sample_packet() -> CommonPacket {
    let mut p = CommonPacket::new();
    p.push(CommonPacketItem::with_null_addr());
    p.push(CommonPacketItem::with_unconnected_data(vec![0xDE, 0xAD, 0xBE]));
    p
}

#[test]
fn encode_exact_bytes() {
    let encoded = sample_packet().encode();
    assert_eq!(
        encoded,
        vec![
            0x02, 0x00, // item count
            0x00, 0x00, 0x00, 0x00, // null address item, empty payload
            0xB2, 0x00, 0x03, 0x00, 0xDE, 0xAD, 0xBE, // unconnected data item
        ]
    );
}

#[test]
fn decode_exact_bytes() {
    let buf = vec![0x01, 0x00, 0xB1, 0x00, 0x02, 0x00, 0x11, 0x22];
    let p = CommonPacket::decode(&buf).unwrap();
    assert_eq!(p.len(), 1);
    assert_eq!(p.get(0).type_code, 0xB1);
    assert_eq!(p.get(0).data, vec![0x11, 0x22]);
}

#[test]
fn round_trip_preserves_items() {
    let encoded = sample_packet().encode();
    let decoded = CommonPacket::decode(&encoded).unwrap();
    assert_eq!(decoded.len(), 2);
    assert_eq!(decoded.get(0).type_code, 0x0000);
    assert_eq!(decoded.get(0).data, Vec::<u8>::new());
    assert_eq!(decoded.get(1).type_code, 0xB2);
    assert_eq!(decoded.get(1).data, vec![0xDE, 0xAD, 0xBE]);
}

#[test]
fn round_trip_empty_packet() {
    let encoded = CommonPacket::new().encode();
    assert_eq!(encoded, vec![0x00, 0x00]);
    let decoded = CommonPacket::decode(&encoded).unwrap();
    assert_eq!(decoded.len(), 0);
}

#[test]
fn truncation_at_every_offset_fails() {
    let encoded = sample_packet().encode();
    for n in 0..encoded.len() {
        let r = CommonPacket::decode(&encoded[..n]);
        assert_eq!(r.unwrap_err(), CipError::DataFormat, "truncated at {n}");
    }
}

#[test]
fn one_missing_trailing_byte_fails() {
    let encoded = sample_packet().encode();
    let r = CommonPacket::decode(&encoded[..encoded.len() - 1]);
    assert_eq!(r.unwrap_err(), CipError::DataFormat);
}

#[test]
fn one_extra_trailing_byte_fails() {
    let mut encoded = sample_packet().encode();
    encoded.push(0x00);
    let r = CommonPacket::decode(&encoded);
    assert_eq!(r.unwrap_err(), CipError::DataFormat);
}

#[test]
fn declared_length_beyond_buffer_fails() {
    // one item declaring 4 payload bytes but carrying only 3
    let buf = vec![0x01, 0x00, 0xB2, 0x00, 0x04, 0x00, 0x01, 0x02, 0x03];
    assert_eq!(CommonPacket::decode(&buf).unwrap_err(), CipError::DataFormat);
}

#[test]
fn short_count_field_fails() {
    assert_eq!(CommonPacket::decode(&[]).unwrap_err(), CipError::DataFormat);
    assert_eq!(CommonPacket::decode(&[0x01]).unwrap_err(), CipError::DataFormat);
}

#[test]
fn push_remove_and_get() {
    let mut p = sample_packet();
    assert_eq!(p.len(), 2);
    let removed = p.remove(0);
    assert!(removed.is_null_addr());
    assert_eq!(p.len(), 1);
    assert_eq!(p.get(0).type_code, 0xB2);
}

#[test]
fn from_items_and_back() {
    let p = CommonPacket::from_items(vec![
        CommonPacketItem::with_null_addr(),
        CommonPacketItem::with_connected_data(vec![0x01]),
    ]);
    assert_eq!(p.len(), 2);
    let items = p.into_items();
    assert_eq!(items.len(), 2);
    assert_eq!(items[1].type_code, 0xB1);
    assert_eq!(items[1].data, vec![0x01]);
}

#[test]
fn null_addr_detection() {
    assert!(CommonPacketItem::with_null_addr().is_null_addr());
    let zero_byte = CommonPacketItem {
        type_code: 0,
        data: vec![0x00],
    };
    assert!(!zero_byte.is_null_addr());
    let wrong_type = CommonPacketItem {
        type_code: 1,
        data: vec![],
    };
    assert!(!wrong_type.is_null_addr());
}

#[test]
fn ensure_type_code_checks() {
    let item = CommonPacketItem::with_connected_data(vec![1, 2]);
    assert!(item.ensure_type_code(0xB1).is_ok());
    assert_eq!(item.ensure_type_code(0x00).unwrap_err(), CipError::DataFormat);
}

#[test]
fn stream_yields_items_in_order() {
    let encoded = sample_packet().encode();
    let mut iter = CommonPacketIter::new(encoded).unwrap();
    assert_eq!(iter.len(), 2);
    assert!(!iter.is_empty());
    let first = iter.next().unwrap().unwrap();
    assert!(first.is_null_addr());
    let second = iter.next().unwrap().unwrap();
    assert_eq!(second.type_code, 0xB2);
    assert_eq!(second.data, vec![0xDE, 0xAD, 0xBE]);
    assert!(iter.next().is_none());
}

#[test]
fn stream_tolerates_trailing_bytes() {
    // lazy decoding never looks past the declared count
    let mut encoded = sample_packet().encode();
    encoded.push(0x55);
    let mut iter = CommonPacketIter::new(encoded).unwrap();
    assert!(iter.next().unwrap().is_ok());
    assert!(iter.next().unwrap().is_ok());
    assert!(iter.next().is_none());
}

#[test]
fn stream_rejects_short_buffer() {
    assert_eq!(
        CommonPacketIter::new(vec![0x01]).unwrap_err(),
        CipError::DataFormat
    );
}

#[test]
fn stream_rejects_cut_item() {
    // declared item of 2 bytes, only 1 present
    let buf = vec![0x01, 0x00, 0xB1, 0x00, 0x02, 0x00, 0x11];
    let mut iter = CommonPacketIter::new(buf).unwrap();
    assert_eq!(iter.next().unwrap().unwrap_err(), CipError::DataFormat);
}

#[test]
fn reply_body_without_extended_status() {
    let body = vec![0xCC, 0x00, 0x00, 0x00, 0xAA, 0xBB];
    let m = decode_message_reply(&body).unwrap();
    assert_eq!(m.reply_service, 0xCC);
    assert_eq!(m.status.general, 0x00);
    assert_eq!(m.status.extended, Vec::<u16>::new());
    assert_eq!(m.data, vec![0xAA, 0xBB]);
}

#[test]
fn reply_body_with_extended_status() {
    let body = vec![0xD2, 0x00, 0xFF, 0x02, 0x07, 0x21, 0x04, 0x00, 0x99];
    let m = decode_message_reply(&body).unwrap();
    assert_eq!(m.reply_service, 0xD2);
    assert_eq!(m.status.general, 0xFF);
    assert_eq!(m.status.extended, vec![0x2107, 0x0004]);
    assert_eq!(m.data, vec![0x99]);
}

#[test]
fn reply_body_too_short_is_protocol_error() {
    assert_eq!(
        decode_message_reply(&[0xCC, 0x00, 0x00]).unwrap_err(),
        CipError::Protocol
    );
    // two extended words declared, one present
    assert_eq!(
        decode_message_reply(&[0xCC, 0x00, 0x00, 0x02, 0x07, 0x21]).unwrap_err(),
        CipError::Protocol
    );
}
