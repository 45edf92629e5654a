use cip_core::client::{build_message_request, encode_unconnected_request, parse_unconnected_reply};
use cip_core::connection::Connection;
use cip_core::error::CipError;
use cip_core::fragment::{FragmentRead, FragmentWrite};
use cip_core::status::{HasMore, Status};
use cip_core::{REPLY_MASK, SERVICE_READ_TAG, SERVICE_WRITE_TAG};

fn reply_body(service: u8, general: u8, payload: &[u8]) -> Vec<u8> {
    let mut body = vec![service | REPLY_MASK, 0x00, general, 0x00];
    body.extend_from_slice(payload);
    body
}

fn unconnected_reply(service: u8, general: u8, payload: &[u8]) -> Vec<u8> {
    let body = reply_body(service, general, payload);
    let mut buf = vec![0x02, 0x00, 0x00, 0x00, 0x00, 0x00, 0xB2, 0x00];
    buf.extend_from_slice(&(body.len() as u16).to_le_bytes());
    buf.extend_from_slice(&body);
    buf
}

fn connected_reply(sequence: u16, service: u8, general: u8, payload: &[u8]) -> Vec<u8> {
    let body = reply_body(service, general, payload);
    let mut buf = vec![0x01, 0x00, 0xB1, 0x00];
    buf.extend_from_slice(&((body.len() + 2) as u16).to_le_bytes());
    buf.extend_from_slice(&sequence.to_le_bytes());
    buf.extend_from_slice(&body);
    buf
}

#[test]
fn message_request_layout() {
    let r = build_message_request(SERVICE_READ_TAG, &[0x91, 0x01, 0x41, 0x00], &[0x01, 0x00]);
    assert_eq!(r, vec![0x4C, 0x02, 0x91, 0x01, 0x41, 0x00, 0x01, 0x00]);
}

#[test]
fn unconnected_request_envelope() {
    let r = encode_unconnected_request(vec![0x4C, 0x00]);
    assert_eq!(
        r,
        vec![0x02, 0x00, 0x00, 0x00, 0x00, 0x00, 0xB2, 0x00, 0x02, 0x00, 0x4C, 0x00]
    );
}

#[test]
fn unconnected_reply_accepted() {
    let buf = unconnected_reply(SERVICE_READ_TAG, 0x00, &[0xC4, 0x00, 0x2A, 0x00, 0x00, 0x00]);
    let m = parse_unconnected_reply(&buf, SERVICE_READ_TAG).unwrap();
    assert_eq!(m.reply_service, SERVICE_READ_TAG | REPLY_MASK);
    assert_eq!(m.status.general, 0x00);
    assert_eq!(m.data, vec![0xC4, 0x00, 0x2A, 0x00, 0x00, 0x00]);
    assert!(!m.has_more());
}

#[test]
fn unconnected_reply_service_mismatch() {
    let buf = unconnected_reply(SERVICE_WRITE_TAG, 0x00, &[]);
    assert_eq!(
        parse_unconnected_reply(&buf, SERVICE_READ_TAG).unwrap_err(),
        CipError::Protocol
    );
}

#[test]
fn unconnected_reply_wrong_address_item() {
    // first item carries a connected-data type code instead of the null address
    let body = reply_body(SERVICE_READ_TAG, 0x00, &[]);
    let mut buf = vec![0x02, 0x00, 0xB1, 0x00, 0x00, 0x00, 0xB2, 0x00];
    buf.extend_from_slice(&(body.len() as u16).to_le_bytes());
    buf.extend_from_slice(&body);
    assert_eq!(
        parse_unconnected_reply(&buf, SERVICE_READ_TAG).unwrap_err(),
        CipError::DataFormat
    );
}

#[test]
fn unconnected_reply_wrong_item_count() {
    let buf = vec![0x01, 0x00, 0x00, 0x00, 0x00, 0x00];
    assert_eq!(
        parse_unconnected_reply(&buf, SERVICE_READ_TAG).unwrap_err(),
        CipError::DataFormat
    );
}

#[test]
fn connection_increments_sequence() {
    let mut con = Connection::new(0x1111_2222, 0x3333_4444, 0);
    let r = con.next_request(&[0x4C, 0x00]);
    assert_eq!(con.sequence, 1);
    assert_eq!(
        r,
        vec![0x01, 0x00, 0xB1, 0x00, 0x04, 0x00, 0x01, 0x00, 0x4C, 0x00]
    );
    con.next_request(&[0x4C, 0x00]);
    assert_eq!(con.sequence, 2);
}

#[test]
fn connection_sequence_wraps() {
    let mut con = Connection::new(1, 2, 0xFFFF);
    con.next_request(&[]);
    assert_eq!(con.sequence, 0);
}

#[test]
fn connected_reply_accepted() {
    let mut con = Connection::new(1, 2, 4);
    con.next_request(&[0x4C, 0x00]);
    let buf = connected_reply(5, SERVICE_READ_TAG, 0x00, &[0x2A]);
    let m = con.accept_reply(&buf, SERVICE_READ_TAG).unwrap();
    assert_eq!(m.reply_service, SERVICE_READ_TAG | REPLY_MASK);
    assert_eq!(m.data, vec![0x2A]);
}

#[test]
fn stale_sequence_echo_rejected() {
    // the connection sent sequence 5; the reply echoes 4
    let mut con = Connection::new(1, 2, 4);
    con.next_request(&[0x4C, 0x00]);
    assert_eq!(con.sequence, 5);
    let buf = connected_reply(4, SERVICE_READ_TAG, 0x00, &[0x2A]);
    assert_eq!(
        con.accept_reply(&buf, SERVICE_READ_TAG).unwrap_err(),
        CipError::Protocol
    );
}

#[test]
fn connected_reply_service_mismatch() {
    let con = Connection::new(1, 2, 7);
    let buf = connected_reply(7, SERVICE_WRITE_TAG, 0x00, &[]);
    assert_eq!(
        con.accept_reply(&buf, SERVICE_READ_TAG).unwrap_err(),
        CipError::Protocol
    );
}

#[test]
fn status_has_more_is_not_a_device_error() {
    let partial = Status { general: 0x06, extended: vec![] };
    assert!(partial.has_more());
    assert!(!partial.is_device_error());
    let failed = Status { general: 0x04, extended: vec![] };
    assert!(!failed.has_more());
    assert!(failed.is_device_error());
    let ok = Status { general: 0x00, extended: vec![] };
    assert!(!ok.has_more());
    assert!(!ok.is_device_error());
}

#[test]
fn reply_has_more_follows_status() {
    let buf = unconnected_reply(SERVICE_READ_TAG, 0x06, &[0x01]);
    let m = parse_unconnected_reply(&buf, SERVICE_READ_TAG).unwrap();
    assert!(m.has_more());
    assert!(!m.status.is_device_error());
}

#[test]
fn fragmented_read_reassembles_in_rounds() {
    let value: Vec<u8> = (0u8..10).collect();
    let chunk = 4usize;
    let mut read = FragmentRead::new();
    let mut offsets = Vec::new();
    let mut rounds: usize = 0;
    while !read.is_complete() {
        let off = read.offset() as usize;
        offsets.push(off);
        let end = usize::min(off + chunk, value.len());
        let has_more = end < value.len();
        read.on_reply(&value[off..end], has_more).unwrap();
        rounds += 1;
    }
    assert_eq!(rounds, 3); // ceil(10 / 4)
    assert_eq!(offsets, vec![0, 4, 8]);
    assert_eq!(read.into_value(), value);
}

#[test]
fn fragmented_read_empty_value() {
    let mut read = FragmentRead::new();
    read.on_reply(&[], false).unwrap();
    assert!(read.is_complete());
    assert_eq!(read.into_value(), Vec::<u8>::new());
}

#[test]
fn fragmented_read_rejects_empty_continuation() {
    let mut read = FragmentRead::new();
    assert_eq!(read.on_reply(&[], true).unwrap_err(), CipError::Protocol);
    assert!(!read.is_complete());
    assert_eq!(read.offset(), 0);
}

#[test]
fn fragmented_write_slices_in_order() {
    let value: Vec<u8> = (0u8..10).collect();
    let ok = Status { general: 0x00, extended: vec![] };
    let mut write = FragmentWrite::new(value.clone(), 4);
    let mut sent = Vec::new();
    let mut offsets = Vec::new();
    while !write.is_complete() {
        offsets.push(write.offset() as usize);
        let chunk = write.next_chunk();
        sent.extend_from_slice(&chunk);
        write.on_ack(&ok).unwrap();
    }
    assert_eq!(offsets, vec![0, 4, 8]);
    assert_eq!(sent, value);
}

#[test]
fn fragmented_write_aborts_on_device_error() {
    let failed = Status { general: 0x1F, extended: vec![0x2107] };
    let mut write = FragmentWrite::new(vec![1, 2, 3], 2);
    let _ = write.next_chunk();
    let e = write.on_ack(&failed).unwrap_err();
    assert_eq!(
        e,
        CipError::Device { general: 0x1F, extended: vec![0x2107] }
    );
    assert_eq!(write.offset(), 0);
}

#[test]
fn fragmented_write_of_nothing_is_complete() {
    let write = FragmentWrite::new(Vec::new(), 16);
    assert!(write.is_complete());
}
