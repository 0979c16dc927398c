//! Wire-level behavior: tags, packing, framing, HTTP classification and
//! responses.

use publichat::codec::{
    classify_tag, decode_fetch, decode_send, pack_count, pad_buf, unpack_count, FrameKind,
    FETCH_FRAME_SIZE, SEND_FRAME_SIZE,
};
use publichat::http::{
    classify, http_action, http_data_response, http_guard_step, http_status_response, index_body,
    GuardAction, HttpAction, Protocol, HTTP_BUF_SIZE,
};
use publichat::wire::{be3_to_u32, u32_to_be3, u64_to_dec};

#[test]
fn test_classify_prefixes() {
    assert!(matches!(classify(&b"GET ".to_vec()), Protocol::Http));
    assert!(matches!(classify(&b"SMRT".to_vec()), Protocol::Smrt));
    assert!(matches!(classify(&b"POST".to_vec()), Protocol::Unknown));
    assert!(matches!(classify(&b"\x00\x00\x00\x00".to_vec()), Protocol::Unknown));
}

#[test]
fn test_classify_tags() {
    assert!(matches!(classify_tag(&b"fch".to_vec()), Some(FrameKind::Fetch)));
    assert!(matches!(classify_tag(&b"qry".to_vec()), Some(FrameKind::Query)));
    assert!(matches!(classify_tag(&b"msg".to_vec()), Some(FrameKind::Send)));
    assert!(classify_tag(&b"snd".to_vec()).is_none());
    assert!(classify_tag(&b"xyz".to_vec()).is_none());
}

#[test]
fn test_pack_count_bits() {
    assert_eq!(pack_count(true, 1), 0b1000_0001);
    assert_eq!(pack_count(false, 127), 0b0111_1111);
    assert_eq!(unpack_count(0b1000_0101), (true, 5));
    assert_eq!(unpack_count(0b0000_0101), (false, 5));
}

#[test]
fn test_be3_roundtrip() {
    assert_eq!(u32_to_be3(0x123456), vec![0x12, 0x34, 0x56]);
    assert_eq!(be3_to_u32(0x12, 0x34, 0x56), 0x123456);
    assert_eq!(u32_to_be3(0), vec![0, 0, 0]);
}

#[test]
fn test_decimal_rendering() {
    assert_eq!(u64_to_dec(200), b"200".to_vec());
    assert_eq!(u64_to_dec(0), b"0".to_vec());
    assert_eq!(u64_to_dec(413), b"413".to_vec());
    assert_eq!(u64_to_dec(1024), b"1024".to_vec());
}

#[test]
fn test_pad_buf_framing() {
    let buf = pad_buf(&b"fch".to_vec(), FETCH_FRAME_SIZE);
    assert_eq!(buf.len(), FETCH_FRAME_SIZE);
    assert_eq!(&buf[..3], b"fch");
    assert_eq!(&buf[FETCH_FRAME_SIZE - 3..], b"end");
    assert!(buf[3..FETCH_FRAME_SIZE - 3].iter().all(|&b| b == 0));
}

#[test]
fn test_decode_fetch_frame() {
    let mut frame = b"fch".to_vec();
    frame.extend_from_slice(&[7u8; 32]);
    frame.extend_from_slice(b"end");
    let f = decode_fetch(&frame).unwrap();
    assert_eq!(f.chat_id, vec![7u8; 32]);
}

#[test]
fn test_decode_rejects_bad_trailer() {
    let mut frame = b"fch".to_vec();
    frame.extend_from_slice(&[7u8; 32]);
    frame.extend_from_slice(b"enx");
    assert!(decode_fetch(&frame).is_none());

    let mut send = b"msg".to_vec();
    send.extend_from_slice(&[0u8; 32]);
    send.extend_from_slice(&[0xAA; 128]);
    send.extend_from_slice(&[0xBB; 64]);
    send.extend_from_slice(b"xxx");
    assert_eq!(send.len(), SEND_FRAME_SIZE);
    assert!(decode_send(&send).is_none());
}

fn request_buffer(line: &[u8]) -> Vec<u8> {
    let mut req = line.to_vec();
    req.resize(HTTP_BUF_SIZE, 0);
    req
}

#[test]
fn test_http_action_serves_index() {
    let req = request_buffer(b"GET / HTTP/1.1\r\nHost: localhost\r\n\r\n");
    assert!(matches!(http_action(&req), HttpAction::ServeIndex));
    let req = request_buffer(b"GET / ");
    assert!(matches!(http_action(&req), HttpAction::ServeIndex));
}

#[test]
fn test_http_action_oversized() {
    let req = vec![65u8; HTTP_BUF_SIZE];
    assert!(matches!(http_action(&req), HttpAction::TooLarge));
    assert_eq!(http_status_response(413), b"HTTP/1.1 413\r\n\r\n".to_vec());
}

#[test]
fn test_http_action_other_path() {
    let req = request_buffer(b"GET /favicon.ico HTTP/1.1\r\n\r\n");
    assert!(matches!(http_action(&req), HttpAction::UnknownPath));
}

#[test]
fn test_http_action_ws_key() {
    let req = request_buffer(
        b"GET /ws HTTP/1.1\r\nSec-WebSocket-Key: dGhlIHNhbXBsZSBub25jZQ==\r\n\r\n",
    );
    match http_action(&req) {
        HttpAction::WsUpgrade(key) => assert_eq!(key, b"dGhlIHNhbXBsZSBub25jZQ==".to_vec()),
        _ => panic!("expected an upgrade"),
    }
    let req = request_buffer(b"GET /ws HTTP/1.1\r\n\r\n");
    assert!(matches!(http_action(&req), HttpAction::WsKeyMissing));
}

#[test]
fn test_index_response_bytes() {
    let body = index_body();
    assert_eq!(body, b"<html><body>Running</body></html>".to_vec());
    let resp = http_data_response(200, &body);
    let mut expected = b"HTTP/1.1 200\r\nContent-Length: 33\r\n\r\n".to_vec();
    expected.extend_from_slice(&body);
    assert_eq!(resp, expected);
    let text = String::from_utf8(resp).unwrap();
    assert!(text.contains("200"));
    assert!(text.contains("<html><body>Running</body></html>"));
}

#[test]
fn test_http_guard_steps() {
    let (c, a) = http_guard_step(0);
    assert_eq!(c, 1);
    assert!(matches!(a, GuardAction::SetShortTimeout));
    let (c, a) = http_guard_step(c);
    assert_eq!(c, 2);
    assert!(matches!(a, GuardAction::KeepOpen));
    let (c, a) = http_guard_step(c);
    assert_eq!(c, 3);
    assert!(matches!(a, GuardAction::Close));
}
