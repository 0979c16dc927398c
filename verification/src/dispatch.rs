//! Session Dispatcher: one synchronous step per client frame. The caller
//! reads the 3-byte tag, reads the rest of the fixed-size frame the tag
//! selects, and hands the whole frame here; it gets back the response bytes
//! to write, or a fatal error that must close the connection.

use vstd::prelude::*;
use crate::codec::{
    decode_fetch, decode_query, decode_send, encode_messages_response, spec_msg_head,
    spec_records_bytes, well_framed, FrameKind,
};
use crate::constants::{CHAT_ID_SIZE, CYPHER_SIZE, DEFAULT_FETCH_AMOUNT, PADDING_SIZE};
use crate::store::{query_count, query_first, fetch_count, fetch_first, MessageStore, Record, RecordView};

verus! {

/// A fatal per-connection error: the connection must be closed, and the
/// store was left untouched.
#[derive(Debug, PartialEq, Eq, Structural)]
pub enum DispatchError {
    /// The frame's tag or trailer did not match: a malformed or desynced
    /// stream.
    BadFrame,
}

/// The message id echoed in a response header: the low 24 bits of the
/// store's positional id.
pub open spec fn spec_echo_id(first: nat) -> u32 {
    (first % 0x1000000) as u32
}

/// Truncate a positional message id to its 24-bit wire echo.
pub fn echo_id(first: usize) -> (r: u32)
    ensures
        r == spec_echo_id(first as nat),
        r < 0x1000000,
{
    (first % 0x1000000) as u32
}

/// The whole response to a window request on `log`: the `snd` header with
/// the truncated first-id echo and the packed forward/count byte, followed
/// by the returned records in id order.
pub open spec fn spec_window_response(
    chat_id: Seq<u8>,
    log: Seq<RecordView>,
    msg_id: nat,
    count: nat,
    forward: bool,
) -> Seq<u8> {
    let cnt = query_count(log.len(), msg_id, count, forward);
    let first = query_first(log.len(), msg_id, count, forward);
    spec_msg_head(chat_id, spec_echo_id(first), forward, cnt as u8) + spec_records_bytes(
        log.subrange(first as int, first + cnt as int),
    )
}

/// The whole response to a fetch of the last `amount` records of `log`.
pub open spec fn spec_fetch_response(chat_id: Seq<u8>, log: Seq<RecordView>, amount: nat) -> Seq<
    u8,
> {
    let cnt = fetch_count(log.len(), amount);
    let first = fetch_first(log.len(), amount);
    spec_msg_head(chat_id, spec_echo_id(first), true, cnt as u8) + spec_records_bytes(
        log.subrange(first as int, first + cnt as int),
    )
}

/// The chat id carried by a client frame.
pub open spec fn frame_chat_id(frame: Seq<u8>) -> Seq<u8> {
    frame.subrange(PADDING_SIZE as int, PADDING_SIZE + CHAT_ID_SIZE)
}

/// The record a valid `msg` frame appends, with the server clock reading.
pub open spec fn frame_record(frame: Seq<u8>, timestamp: u64) -> RecordView {
    RecordView {
        timestamp,
        cypher: frame.subrange(PADDING_SIZE + CHAT_ID_SIZE, PADDING_SIZE + CHAT_ID_SIZE
            + CYPHER_SIZE),
        signature: frame.subrange(PADDING_SIZE + CHAT_ID_SIZE + CYPHER_SIZE, frame.len()
            - PADDING_SIZE),
    }
}

/// The query window a valid `qry` frame asks for: message id, count,
/// forward flag, as packed by the codec.
pub open spec fn frame_query_args(frame: Seq<u8>) -> (nat, nat, bool) {
    let packed = frame[PADDING_SIZE + CHAT_ID_SIZE];
    let id_bytes = frame.subrange(
        PADDING_SIZE + CHAT_ID_SIZE + 1,
        PADDING_SIZE + CHAT_ID_SIZE + 4,
    );
    let msg_id = id_bytes[0] * 0x10000 + id_bytes[1] * 0x100 + id_bytes[2];
    let count = if packed >= 128 {
        (packed - 128) as nat
    } else {
        packed as nat
    };
    (msg_id as nat, count, packed >= 128)
}

/// Execute one whole client frame against the store: decode it, run it,
/// and return the response bytes (a `msg` frame is fire-and-forget and gets
/// none). Any tag or trailer mismatch is fatal and mutates nothing.
pub fn handle_frame(
    store: &mut MessageStore,
    kind: FrameKind,
    frame: &Vec<u8>,
    timestamp: u64,
) -> (r: Result<Option<Vec<u8>>, DispatchError>)
    requires
        old(store).wf(),
        frame@.len() == match kind {
            FrameKind::Fetch => crate::codec::FETCH_FRAME_SIZE as int,
            FrameKind::Query => crate::codec::QUERY_FRAME_SIZE as int,
            FrameKind::Send => crate::codec::SEND_FRAME_SIZE as int,
        },
    ensures
        final(store).wf(),
        r is Ok <==> well_framed(crate::codec::spec_tag_of(kind), frame@),
        r is Err ==> *final(store) == *old(store) && r == Err::<Option<Vec<u8>>, _>(
            DispatchError::BadFrame,
        ),
        match kind {
            FrameKind::Send => r is Ok ==> {
                &&& r == Ok::<_, DispatchError>(None::<Vec<u8>>)
                &&& final(store).log_of(frame_chat_id(frame@)) == old(store).log_of(
                    frame_chat_id(frame@),
                ).push(frame_record(frame@, timestamp))
                &&& forall|other: Seq<u8>|
                    other != frame_chat_id(frame@) ==> final(store).log_of(other) == old(
                        store,
                    ).log_of(other)
            },
            FrameKind::Fetch => {
                &&& *final(store) == *old(store)
                &&& r is Ok ==> (r matches Ok(Some(resp)) && resp@ == spec_fetch_response(
                    frame_chat_id(frame@),
                    old(store).log_of(frame_chat_id(frame@)),
                    DEFAULT_FETCH_AMOUNT as nat,
                ))
            },
            FrameKind::Query => {
                &&& *final(store) == *old(store)
                &&& r is Ok ==> (r matches Ok(Some(resp)) && resp@ == spec_window_response(
                    frame_chat_id(frame@),
                    old(store).log_of(frame_chat_id(frame@)),
                    frame_query_args(frame@).0,
                    frame_query_args(frame@).1,
                    frame_query_args(frame@).2,
                ))
            },
        },
{
    match kind {
        FrameKind::Fetch => {
            match decode_fetch(frame) {
                Some(f) => {
                    let (cnt, first, records) = store.fetch(&f.chat_id, DEFAULT_FETCH_AMOUNT);
                    proof {
                        assert(records@.map_values(|rec: Record| rec@).len() == records@.len());
                    }
                    let echo = echo_id(first);
                    let resp = encode_messages_response(&f.chat_id, echo, true, cnt, &records);
                    proof {
                        assert(resp@ =~= spec_fetch_response(
                            frame_chat_id(frame@),
                            store.log_of(frame_chat_id(frame@)),
                            DEFAULT_FETCH_AMOUNT as nat,
                        ));
                    }
                    Ok(Some(resp))
                },
                None => Err(DispatchError::BadFrame),
            }
        },
        FrameKind::Query => {
            match decode_query(frame) {
                Some(q) => {
                    proof {
                        let (mid, c, fwd) = frame_query_args(frame@);
                        assert(q.msg_id as nat == mid) by {
                            crate::wire::lemma_be3_value(q.msg_id);
                        }
                        assert(q.count as nat == c && q.forward == fwd);
                    }
                    let (cnt, first, records) = store.query(
                        &q.chat_id,
                        q.msg_id as usize,
                        q.count,
                        q.forward,
                    );
                    proof {
                        assert(records@.map_values(|rec: Record| rec@).len() == records@.len());
                    }
                    let echo = echo_id(first);
                    let resp = encode_messages_response(
                        &q.chat_id,
                        echo,
                        q.forward,
                        cnt,
                        &records,
                    );
                    proof {
                        assert(resp@ =~= spec_window_response(
                            frame_chat_id(frame@),
                            store.log_of(frame_chat_id(frame@)),
                            frame_query_args(frame@).0,
                            frame_query_args(frame@).1,
                            frame_query_args(frame@).2,
                        ));
                    }
                    Ok(Some(resp))
                },
                None => Err(DispatchError::BadFrame),
            }
        },
        FrameKind::Send => {
            match decode_send(frame) {
                Some(s) => {
                    let _msg_id = store.append(&s.chat_id, timestamp, s.cypher, s.signature);
                    proof {
                        assert(store.log_of(frame_chat_id(frame@)) =~= old(store).log_of(
                            frame_chat_id(frame@),
                        ).push(frame_record(frame@, timestamp)));
                    }
                    Ok(None)
                },
                None => Err(DispatchError::BadFrame),
            }
        },
    }
}

} // verus!
