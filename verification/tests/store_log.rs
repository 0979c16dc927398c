//! The message store: positional ids, fetch and query windows, isolation of
//! chats, and the file-naming key.

use publichat::codec::{decode_record, encode_record};
use publichat::store::{chat_file_name, MessageStore, Record};

fn filled(store: &mut MessageStore, chat: &Vec<u8>, n: u8) {
    let mut i: u8 = 0;
    while i < n {
        let id = store.append(chat, 1000 + i as u64, vec![i; 128], vec![i; 64]);
        assert_eq!(id, i as usize);
        i += 1;
    }
}

#[test]
fn test_append_assigns_positional_ids() {
    let mut store = MessageStore::new();
    let chat = vec![1u8; 32];
    filled(&mut store, &chat, 3);
    let (count, first, records) = store.fetch(&chat, 10);
    assert_eq!(count, 3);
    assert_eq!(first, 0);
    assert_eq!(records.len(), 3);
    assert_eq!(records[0].timestamp, 1000);
    assert_eq!(records[2].timestamp, 1002);
    assert_eq!(records[1].cypher, vec![1u8; 128]);
}

#[test]
fn test_fetch_clamps_to_log() {
    let mut store = MessageStore::new();
    let chat = vec![2u8; 32];
    filled(&mut store, &chat, 5);
    let (count, first, records) = store.fetch(&chat, 2);
    assert_eq!(count, 2);
    assert_eq!(first, 3);
    assert_eq!(records[0].timestamp, 1003);
    assert_eq!(records[1].timestamp, 1004);
}

#[test]
fn test_fetch_on_missing_chat_is_empty() {
    let store = MessageStore::new();
    let (count, first, records) = store.fetch(&vec![9u8; 32], 10);
    assert_eq!(count, 0);
    assert_eq!(first, 0);
    assert!(records.is_empty());
}

#[test]
fn test_query_forward_window() {
    let mut store = MessageStore::new();
    let chat = vec![3u8; 32];
    filled(&mut store, &chat, 5);
    // min(c, L - k) records starting at k
    let (count, first, records) = store.query(&chat, 1, 2, true);
    assert_eq!((count, first), (2, 1));
    assert_eq!(records[0].timestamp, 1001);
    assert_eq!(records[1].timestamp, 1002);
    let (count, first, _) = store.query(&chat, 3, 100, true);
    assert_eq!((count, first), (2, 3));
    let (count, _, records) = store.query(&chat, 7, 2, true);
    assert_eq!(count, 0);
    assert!(records.is_empty());
}

#[test]
fn test_query_backward_window() {
    let mut store = MessageStore::new();
    let chat = vec![4u8; 32];
    filled(&mut store, &chat, 5);
    // min(c, k + 1) records ending at k
    let (count, first, records) = store.query(&chat, 3, 2, false);
    assert_eq!((count, first), (2, 2));
    assert_eq!(records[0].timestamp, 1002);
    assert_eq!(records[1].timestamp, 1003);
    let (count, first, _) = store.query(&chat, 1, 100, false);
    assert_eq!((count, first), (2, 0));
}

#[test]
fn test_chats_do_not_contend() {
    let mut store = MessageStore::new();
    let a = vec![5u8; 32];
    let b = vec![6u8; 32];
    assert_eq!(store.append(&a, 1, vec![1; 128], vec![1; 64]), 0);
    assert_eq!(store.append(&b, 2, vec![2; 128], vec![2; 64]), 0);
    assert_eq!(store.append(&a, 3, vec![3; 128], vec![3; 64]), 1);
    assert_eq!(store.append(&b, 4, vec![4; 128], vec![4; 64]), 1);
    let (count_a, _, _) = store.fetch(&a, 10);
    let (count_b, _, _) = store.fetch(&b, 10);
    assert_eq!(count_a, 2);
    assert_eq!(count_b, 2);
}

#[test]
fn test_interleaved_appends_never_duplicate_ids() {
    // appends from distinct connections are serialized by the store; the
    // assigned ids of n appends are exactly 0..n-1
    let mut store = MessageStore::new();
    let chat = vec![7u8; 32];
    let mut ids = Vec::new();
    for i in 0..10u8 {
        ids.push(store.append(&chat, i as u64, vec![i; 128], vec![i; 64]));
    }
    let mut sorted = ids.clone();
    sorted.sort();
    sorted.dedup();
    assert_eq!(sorted.len(), 10);
    assert_eq!(ids, (0..10usize).collect::<Vec<_>>());
}

#[test]
fn test_record_bytes_roundtrip() {
    let r = Record { timestamp: 0x0102030405060708, cypher: vec![0xAA; 128], signature: vec![0xBB; 64] };
    let bytes = encode_record(&r);
    assert_eq!(bytes.len(), 200);
    assert_eq!(&bytes[..8], &[1, 2, 3, 4, 5, 6, 7, 8]);
    let back = decode_record(&bytes);
    assert_eq!(back.timestamp, r.timestamp);
    assert_eq!(back.cypher, r.cypher);
    assert_eq!(back.signature, r.signature);
}

#[test]
fn test_chat_file_name_is_urlsafe_base64() {
    let name = chat_file_name(&vec![0u8; 32]);
    assert_eq!(name, "A".repeat(43));
    let name = chat_file_name(&vec![0xFFu8; 32]);
    let expected = format!("{}8", "_".repeat(42));
    assert_eq!(name, expected);
    // spot-check against the plain alphabet: 0xFB 0xEF 0xBE encodes to "----"
    let mut id = vec![0xFBu8, 0xEF, 0xBE].repeat(10);
    id.extend_from_slice(&[0xFB, 0xEF]);
    let name = chat_file_name(&id);
    assert_eq!(&name[..40], "----".repeat(10).as_str());
}
