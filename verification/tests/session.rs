//! Dispatcher-level scenarios: a raw-SMRT session sends a message and
//! fetches it back; malformed frames mutate nothing.

use publichat::codec::{classify_tag, FrameKind, QUERY_FRAME_SIZE, SEND_FRAME_SIZE};
use publichat::dispatch::{handle_frame, DispatchError};
use publichat::store::MessageStore;

fn msg_frame(chat: &[u8], cypher_byte: u8, signature_byte: u8) -> Vec<u8> {
    let mut frame = b"msg".to_vec();
    frame.extend_from_slice(chat);
    frame.extend_from_slice(&[cypher_byte; 128]);
    frame.extend_from_slice(&[signature_byte; 64]);
    frame.extend_from_slice(b"end");
    assert_eq!(frame.len(), SEND_FRAME_SIZE);
    frame
}

fn fch_frame(chat: &[u8]) -> Vec<u8> {
    let mut frame = b"fch".to_vec();
    frame.extend_from_slice(chat);
    frame.extend_from_slice(b"end");
    frame
}

#[test]
fn test_end_to_end_send_then_fetch() {
    // after the "SMRT" prefix is consumed, each frame is one dispatcher step
    let mut store = MessageStore::new();
    let chat = [0u8; 32];

    let send = msg_frame(&chat, 0xAA, 0xBB);
    let kind = classify_tag(&send[..3].to_vec()).unwrap();
    assert!(matches!(kind, FrameKind::Send));
    let r = handle_frame(&mut store, kind, &send, 42);
    assert_eq!(r, Ok(None));

    let (count, first, records) = store.fetch(&chat.to_vec(), 50);
    assert_eq!((count, first), (1, 0));
    assert_eq!(records[0].cypher, vec![0xAA; 128]);
    assert_eq!(records[0].signature, vec![0xBB; 64]);

    let fetch = fch_frame(&chat);
    let kind = classify_tag(&fetch[..3].to_vec()).unwrap();
    let resp = handle_frame(&mut store, kind, &fetch, 43).unwrap().unwrap();
    // header: "snd", 1-byte chat-id echo, 3-byte msg-id echo, packed byte
    assert_eq!(&resp[..3], b"snd");
    assert_eq!(resp[3], 0);
    assert_eq!(&resp[4..7], &[0, 0, 0]);
    assert_eq!(resp[7], 0b1000_0001); // forward, count = 1
    // one record: timestamp, cypher, signature
    assert_eq!(resp.len(), 8 + 200);
    assert_eq!(&resp[8..16], &42u64.to_be_bytes());
    assert!(resp[16..144].iter().all(|&b| b == 0xAA));
    assert!(resp[144..208].iter().all(|&b| b == 0xBB));
}

#[test]
fn test_malformed_send_never_appends() {
    let mut store = MessageStore::new();
    let chat = [1u8; 32];
    let mut bad = msg_frame(&chat, 0x11, 0x22);
    let n = bad.len();
    bad[n - 1] = b'x'; // break the trailer
    let r = handle_frame(&mut store, FrameKind::Send, &bad, 7);
    assert_eq!(r, Err(DispatchError::BadFrame));
    let (count, _, records) = store.fetch(&chat.to_vec(), 50);
    assert_eq!(count, 0);
    assert!(records.is_empty());
}

#[test]
fn test_query_frame_returns_window() {
    let mut store = MessageStore::new();
    let chat = [2u8; 32];
    for i in 0..4u8 {
        let frame = msg_frame(&chat, i, i);
        handle_frame(&mut store, FrameKind::Send, &frame, 100 + i as u64).unwrap();
    }
    // ask forward from id 1 for up to 2 records
    let mut frame = b"qry".to_vec();
    frame.extend_from_slice(&chat);
    frame.push(0b1000_0010); // forward, count = 2
    frame.extend_from_slice(&[0, 0, 1]); // msg_id = 1
    frame.extend_from_slice(b"end");
    assert_eq!(frame.len(), QUERY_FRAME_SIZE);
    let resp = handle_frame(&mut store, FrameKind::Query, &frame, 9).unwrap().unwrap();
    assert_eq!(&resp[..3], b"snd");
    assert_eq!(&resp[4..7], &[0, 0, 1]); // first id echo
    assert_eq!(resp[7], 0b1000_0010); // forward, count = 2
    assert_eq!(resp.len(), 8 + 2 * 200);
    assert_eq!(&resp[8..16], &101u64.to_be_bytes());
    assert_eq!(&resp[208..216], &102u64.to_be_bytes());
}

#[test]
fn test_mismatched_tag_is_rejected() {
    let mut store = MessageStore::new();
    // a buffer framed as a fetch but handed over as a send must be refused
    let chat = [3u8; 32];
    let mut frame = b"fch".to_vec();
    frame.extend_from_slice(&chat);
    frame.extend_from_slice(&[0u8; 128 + 64 - 32]);
    frame.extend_from_slice(&chat);
    frame.extend_from_slice(b"end");
    assert_eq!(frame.len(), SEND_FRAME_SIZE);
    let r = handle_frame(&mut store, FrameKind::Send, &frame, 1);
    assert_eq!(r, Err(DispatchError::BadFrame));
}
