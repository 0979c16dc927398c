//! Frame Codec: padding-tag based framing on top of Record Layout. A frame
//! kind is selected by a 3-byte leading ASCII tag; every client-to-server
//! frame must end in the `end` trailer tag, and any mismatch is a fatal
//! frame error. The server-to-client message header packs the forward flag
//! into the high bit of its count byte.

use vstd::prelude::*;
use crate::constants::{
    CHAT_ID_SIZE, CYPHER_SIZE, MSG_ID_SIZE, PADDING_SIZE, SIGNATURE_SIZE, TIME_SIZE,
};
use crate::layout::{offset_of, push_range, total_of, PaddedLayout, RecordLayout};
use crate::wire::{be3_to_u32, spec_be3, spec_be8, u32_to_be3, u64_to_be8};
use crate::store::{Record, RecordView};

verus! {

/// Total width of a `fch` frame: tag, chat id, trailer.
pub const FETCH_FRAME_SIZE: usize = PADDING_SIZE + CHAT_ID_SIZE + PADDING_SIZE;

/// Total width of a `qry` frame: tag, chat id, packed forward/count byte,
/// message id, trailer.
pub const QUERY_FRAME_SIZE: usize = PADDING_SIZE + CHAT_ID_SIZE + 1 + MSG_ID_SIZE + PADDING_SIZE;

/// Total width of a `msg` frame: tag, chat id, cypher, signature, trailer.
pub const SEND_FRAME_SIZE: usize = PADDING_SIZE + CHAT_ID_SIZE + CYPHER_SIZE + SIGNATURE_SIZE
    + PADDING_SIZE;

/// Width of the server-to-client `snd` response header: tag, 1-byte chat-id
/// echo, truncated message id, packed forward/count byte.
pub const MSG_HEAD_SIZE: usize = PADDING_SIZE + 1 + MSG_ID_SIZE + 1;

/// Width of one stored message record: timestamp, cypher, signature.
pub const RECORD_SIZE: usize = TIME_SIZE + CYPHER_SIZE + SIGNATURE_SIZE;

/// The `fch` tag: a client asks for the most recent messages of a chat.
pub open spec fn fetch_tag() -> Seq<u8> {
    seq![102u8, 99u8, 104u8]
}

/// The `qry` tag: a client asks for a message window by position.
pub open spec fn query_tag() -> Seq<u8> {
    seq![113u8, 114u8, 121u8]
}

/// The `msg` tag: a client submits one message.
pub open spec fn msg_tag() -> Seq<u8> {
    seq![109u8, 115u8, 103u8]
}

/// The `snd` tag: the server sends a message-response header.
pub open spec fn send_tag() -> Seq<u8> {
    seq![115u8, 110u8, 100u8]
}

/// The `end` tag: the mandatory trailer of every client-to-server frame.
pub open spec fn end_tag() -> Seq<u8> {
    seq![101u8, 110u8, 100u8]
}

pub fn make_end_tag() -> (r: Vec<u8>)
    ensures
        r@ == end_tag(),
{
    let r = vec![101u8, 110u8, 100u8];
    assert(r@ =~= end_tag());
    r
}

/// The client-to-server frame kinds, as selected by the leading tag.
#[derive(Clone, Copy, Debug)]
pub enum FrameKind {
    Fetch,
    Query,
    Send,
}

/// The tag bytes that select each client-to-server frame kind.
pub open spec fn spec_tag_of(k: FrameKind) -> Seq<u8> {
    match k {
        FrameKind::Fetch => fetch_tag(),
        FrameKind::Query => query_tag(),
        FrameKind::Send => msg_tag(),
    }
}

/// Select a frame kind from a leading tag; an unrecognized tag is a fatal
/// protocol error for the caller.
pub fn classify_tag(tag: &Vec<u8>) -> (r: Option<FrameKind>)
    requires
        tag@.len() == PADDING_SIZE,
    ensures
        match r {
            Some(k) => tag@ == spec_tag_of(k),
            None => tag@ != fetch_tag() && tag@ != query_tag() && tag@ != msg_tag(),
        },
{
    let b0 = tag[0];
    let b1 = tag[1];
    let b2 = tag[2];
    proof {
        assert(tag@ =~= seq![b0, b1, b2]);
    }
    if b0 == 102 && b1 == 99 && b2 == 104 {
        assert(tag@ =~= fetch_tag());
        Some(FrameKind::Fetch)
    } else if b0 == 113 && b1 == 114 && b2 == 121 {
        assert(tag@ =~= query_tag());
        Some(FrameKind::Query)
    } else if b0 == 109 && b1 == 115 && b2 == 103 {
        assert(tag@ =~= msg_tag());
        Some(FrameKind::Send)
    } else {
        proof {
            assert(fetch_tag()[0] == 102 && fetch_tag()[1] == 99 && fetch_tag()[2] == 104);
            assert(query_tag()[0] == 113 && query_tag()[1] == 114 && query_tag()[2] == 121);
            assert(msg_tag()[0] == 109 && msg_tag()[1] == 115 && msg_tag()[2] == 103);
        }
        None
    }
}

/// The whole fixed frame width selected by a leading tag: how many bytes one
/// read must deliver before the frame can be decoded.
pub fn frame_total_len(kind: FrameKind) -> (r: usize)
    ensures
        r == match kind {
            FrameKind::Fetch => FETCH_FRAME_SIZE as int,
            FrameKind::Query => QUERY_FRAME_SIZE as int,
            FrameKind::Send => SEND_FRAME_SIZE as int,
        },
{
    match kind {
        FrameKind::Fetch => FETCH_FRAME_SIZE,
        FrameKind::Query => QUERY_FRAME_SIZE,
        FrameKind::Send => SEND_FRAME_SIZE,
    }
}

/// True of a whole client-to-server frame that starts with `tag` and ends
/// with the mandatory `end` trailer.
pub open spec fn well_framed(tag: Seq<u8>, frame: Seq<u8>) -> bool {
    &&& frame.subrange(0, PADDING_SIZE as int) == tag
    &&& frame.subrange(frame.len() - PADDING_SIZE, frame.len() as int) == end_tag()
}

/// The packed forward/count byte of a `qry` frame and of the `snd` response
/// header: the forward flag in the high bit, the count in the low 7 bits.
pub open spec fn spec_pack_count(forward: bool, count: u8) -> u8 {
    if forward {
        (128 + count) as u8
    } else {
        count
    }
}

/// Pack a forward flag and a count (at most 127) into one byte.
pub fn pack_count(forward: bool, count: u8) -> (r: u8)
    requires
        count < 128,
    ensures
        r == spec_pack_count(forward, count),
{
    if forward {
        128 + count
    } else {
        count
    }
}

/// Unpack a forward/count byte.
pub fn unpack_count(b: u8) -> (r: (bool, u8))
    ensures
        r.1 < 128,
        spec_pack_count(r.0, r.1) == b,
{
    if b >= 128 {
        (true, b - 128)
    } else {
        (false, b)
    }
}

fn build_padded(tag: Vec<u8>, sizes: Vec<usize>, total: Ghost<int>) -> (r: PaddedLayout)
    requires
        tag@.len() == PADDING_SIZE,
        total@ == total_of(sizes@),
        0 <= total@,
        total@ + 2 * PADDING_SIZE <= usize::MAX,
    ensures
        r.wf(),
        r.inner.sizes@ == sizes@,
        r.prefix@ == tag@,
        r.suffix@ == end_tag(),
        r.spec_pad_total() == total@ + 2 * PADDING_SIZE,
{
    let ghost sizes_view = sizes@;
    let inner = match RecordLayout::new(sizes) {
        Some(l) => l,
        None => vstd::pervasive::unreached(),
    };
    PaddedLayout { inner, prefix: tag, suffix: make_end_tag() }
}

/// The layout of a `fch` frame: one chat-id field.
fn fetch_layout() -> (r: PaddedLayout)
    ensures
        r.wf(),
        r.inner.sizes@ == seq![CHAT_ID_SIZE],
        r.prefix@ == fetch_tag(),
        r.suffix@ == end_tag(),
        r.spec_pad_total() == FETCH_FRAME_SIZE,
{
    let tag = vec![102u8, 99u8, 104u8];
    assert(tag@ =~= fetch_tag());
    let sizes = vec![CHAT_ID_SIZE];
    proof {
        assert(sizes@ =~= seq![CHAT_ID_SIZE]);
        assert(offset_of(sizes@, 0) == 0);
        assert(offset_of(sizes@, 1) == CHAT_ID_SIZE);
    }
    build_padded(tag, sizes, Ghost(CHAT_ID_SIZE as int))
}

/// The layout of a `qry` frame: chat id, packed forward/count byte,
/// big-endian message id.
fn query_layout() -> (r: PaddedLayout)
    ensures
        r.wf(),
        r.inner.sizes@ == seq![CHAT_ID_SIZE, 1usize, MSG_ID_SIZE],
        r.prefix@ == query_tag(),
        r.suffix@ == end_tag(),
        r.spec_pad_total() == QUERY_FRAME_SIZE,
{
    let tag = vec![113u8, 114u8, 121u8];
    assert(tag@ =~= query_tag());
    let sizes = vec![CHAT_ID_SIZE, 1usize, MSG_ID_SIZE];
    proof {
        assert(sizes@ =~= seq![CHAT_ID_SIZE, 1usize, MSG_ID_SIZE]);
        assert(offset_of(sizes@, 0) == 0);
        assert(offset_of(sizes@, 1) == CHAT_ID_SIZE);
        assert(offset_of(sizes@, 2) == CHAT_ID_SIZE + 1);
        assert(offset_of(sizes@, 3) == CHAT_ID_SIZE + 1 + MSG_ID_SIZE);
    }
    build_padded(tag, sizes, Ghost((CHAT_ID_SIZE + 1 + MSG_ID_SIZE) as int))
}

/// The layout of a `msg` frame: chat id, cypher, signature.
fn send_layout() -> (r: PaddedLayout)
    ensures
        r.wf(),
        r.inner.sizes@ == seq![CHAT_ID_SIZE, CYPHER_SIZE, SIGNATURE_SIZE],
        r.prefix@ == msg_tag(),
        r.suffix@ == end_tag(),
        r.spec_pad_total() == SEND_FRAME_SIZE,
{
    let tag = vec![109u8, 115u8, 103u8];
    assert(tag@ =~= msg_tag());
    let sizes = vec![CHAT_ID_SIZE, CYPHER_SIZE, SIGNATURE_SIZE];
    proof {
        assert(sizes@ =~= seq![CHAT_ID_SIZE, CYPHER_SIZE, SIGNATURE_SIZE]);
        assert(offset_of(sizes@, 0) == 0);
        assert(offset_of(sizes@, 1) == CHAT_ID_SIZE);
        assert(offset_of(sizes@, 2) == CHAT_ID_SIZE + CYPHER_SIZE);
        assert(offset_of(sizes@, 3) == CHAT_ID_SIZE + CYPHER_SIZE + SIGNATURE_SIZE);
    }
    build_padded(tag, sizes, Ghost((CHAT_ID_SIZE + CYPHER_SIZE + SIGNATURE_SIZE) as int))
}

/// A decoded `fch` frame.
pub struct FetchFrame {
    pub chat_id: Vec<u8>,
}

/// A decoded `qry` frame.
pub struct QueryFrame {
    pub chat_id: Vec<u8>,
    pub msg_id: u32,
    pub count: u8,
    pub forward: bool,
}

/// A decoded `msg` frame.
pub struct SendFrame {
    pub chat_id: Vec<u8>,
    pub cypher: Vec<u8>,
    pub signature: Vec<u8>,
}

/// Decode a whole `fch` frame. Succeeds exactly when the leading tag and
/// the `end` trailer match.
pub fn decode_fetch(frame: &Vec<u8>) -> (r: Option<FetchFrame>)
    requires
        frame@.len() == FETCH_FRAME_SIZE,
    ensures
        r is Some <==> well_framed(fetch_tag(), frame@),
        match r {
            Some(f) => f.chat_id@ == frame@.subrange(
                PADDING_SIZE as int,
                PADDING_SIZE + CHAT_ID_SIZE,
            ),
            None => true,
        },
{
    let layout = fetch_layout();
    match layout.pad_split(frame) {
        Some(mut fields) => {
            proof {
                assert(offset_of(layout.inner.sizes@, 0) == 0);
            }
            let chat_id = fields.pop().unwrap();
            Some(FetchFrame { chat_id })
        },
        None => None,
    }
}

/// Decode a whole `qry` frame. Succeeds exactly when the leading tag and
/// the `end` trailer match; the decoded window arguments satisfy the packed
/// encodings stated here.
pub fn decode_query(frame: &Vec<u8>) -> (r: Option<QueryFrame>)
    requires
        frame@.len() == QUERY_FRAME_SIZE,
    ensures
        r is Some <==> well_framed(query_tag(), frame@),
        match r {
            Some(q) => {
                &&& q.chat_id@ == frame@.subrange(
                    PADDING_SIZE as int,
                    PADDING_SIZE + CHAT_ID_SIZE,
                )
                &&& q.count < 128
                &&& spec_pack_count(q.forward, q.count) == frame@[PADDING_SIZE + CHAT_ID_SIZE]
                &&& q.msg_id < 0x1000000
                &&& spec_be3(q.msg_id) == frame@.subrange(
                    PADDING_SIZE + CHAT_ID_SIZE + 1,
                    PADDING_SIZE + CHAT_ID_SIZE + 1 + MSG_ID_SIZE,
                )
            },
            None => true,
        },
{
    let layout = query_layout();
    match layout.pad_split(frame) {
        Some(fields) => {
            proof {
                assert(offset_of(layout.inner.sizes@, 0) == 0);
                assert(offset_of(layout.inner.sizes@, 1) == CHAT_ID_SIZE);
                assert(offset_of(layout.inner.sizes@, 2) == CHAT_ID_SIZE + 1);
            }
            let mut fields = fields;
            let id_bytes = fields.pop().unwrap();
            let packed_field = fields.pop().unwrap();
            let chat_id = fields.pop().unwrap();
            let packed = packed_field[0];
            proof {
                assert(frame@.subrange(
                    PADDING_SIZE + CHAT_ID_SIZE,
                    PADDING_SIZE + CHAT_ID_SIZE + 1,
                )[0] == frame@[PADDING_SIZE + CHAT_ID_SIZE]);
            }
            let (forward, count) = unpack_count(packed);
            let msg_id = be3_to_u32(id_bytes[0], id_bytes[1], id_bytes[2]);
            proof {
                assert(seq![id_bytes@[0], id_bytes@[1], id_bytes@[2]] =~= id_bytes@);
            }
            Some(QueryFrame { chat_id, msg_id, count, forward })
        },
        None => None,
    }
}

/// Decode a whole `msg` frame. Succeeds exactly when the leading tag and
/// the `end` trailer match.
pub fn decode_send(frame: &Vec<u8>) -> (r: Option<SendFrame>)
    requires
        frame@.len() == SEND_FRAME_SIZE,
    ensures
        r is Some <==> well_framed(msg_tag(), frame@),
        match r {
            Some(s) => {
                &&& s.chat_id@ == frame@.subrange(
                    PADDING_SIZE as int,
                    PADDING_SIZE + CHAT_ID_SIZE,
                )
                &&& s.cypher@ == frame@.subrange(
                    PADDING_SIZE + CHAT_ID_SIZE,
                    PADDING_SIZE + CHAT_ID_SIZE + CYPHER_SIZE,
                )
                &&& s.signature@ == frame@.subrange(
                    PADDING_SIZE + CHAT_ID_SIZE + CYPHER_SIZE,
                    PADDING_SIZE + CHAT_ID_SIZE + CYPHER_SIZE + SIGNATURE_SIZE,
                )
            },
            None => true,
        },
{
    let layout = send_layout();
    match layout.pad_split(frame) {
        Some(fields) => {
            proof {
                assert(offset_of(layout.inner.sizes@, 0) == 0);
                assert(offset_of(layout.inner.sizes@, 1) == CHAT_ID_SIZE);
                assert(offset_of(layout.inner.sizes@, 2) == CHAT_ID_SIZE + CYPHER_SIZE);
            }
            let mut fields = fields;
            let signature = fields.pop().unwrap();
            let cypher = fields.pop().unwrap();
            let chat_id = fields.pop().unwrap();
            Some(SendFrame { chat_id, cypher, signature })
        },
        None => None,
    }
}

/// The bytes of the `snd` response header: tag, 1-byte chat-id echo,
/// 3-byte truncated message-id echo, packed forward/count byte. The echoes
/// are for framing and debugging only, not authoritative identifiers.
pub open spec fn spec_msg_head(chat_id: Seq<u8>, msg_id: u32, forward: bool, count: u8) -> Seq<
    u8,
> {
    send_tag() + seq![chat_id[0]] + spec_be3(msg_id) + seq![spec_pack_count(forward, count)]
}

/// Build a `snd` response header.
pub fn encode_msg_head(chat_id: &Vec<u8>, msg_id: u32, forward: bool, count: u8) -> (r: Vec<u8>)
    requires
        chat_id@.len() == CHAT_ID_SIZE,
        count < 128,
    ensures
        r@ == spec_msg_head(chat_id@, msg_id, forward, count),
        r@.len() == MSG_HEAD_SIZE,
{
    let id_bytes = u32_to_be3(msg_id);
    let packed = pack_count(forward, count);
    let mut r = vec![115u8, 110u8, 100u8];
    assert(r@ =~= send_tag());
    r.push(chat_id[0]);
    push_range(&mut r, &id_bytes, 0, 3);
    r.push(packed);
    proof {
        assert(id_bytes@.subrange(0, 3) =~= id_bytes@);
        assert(r@ =~= spec_msg_head(chat_id@, msg_id, forward, count));
    }
    r
}

/// The stored/wire bytes of one message record: big-endian timestamp, then
/// the cypher and signature blobs.
pub open spec fn spec_record_bytes(r: RecordView) -> Seq<u8> {
    spec_be8(r.timestamp) + r.cypher + r.signature
}

/// The concatenation of the wire bytes of the first `i` records.
pub open spec fn spec_records_prefix(rs: Seq<RecordView>, i: int) -> Seq<u8>
    decreases i,
{
    if i <= 0 {
        Seq::empty()
    } else {
        spec_records_prefix(rs, i - 1) + spec_record_bytes(rs[i - 1])
    }
}

/// The concatenation of the wire bytes of all records of `rs`.
pub open spec fn spec_records_bytes(rs: Seq<RecordView>) -> Seq<u8> {
    spec_records_prefix(rs, rs.len() as int)
}

/// Encode one record in the combined stored layout (the cypher and the
/// signature are one opaque region to the server).
pub fn encode_record(r: &Record) -> (out: Vec<u8>)
    requires
        r.wf(),
    ensures
        out@ == spec_record_bytes(r@),
        out@.len() == RECORD_SIZE,
{
    let mut out = u64_to_be8(r.timestamp);
    let clen = r.cypher.len();
    let slen = r.signature.len();
    push_range(&mut out, &r.cypher, 0, clen);
    push_range(&mut out, &r.signature, 0, slen);
    proof {
        assert(r.cypher@.subrange(0, clen as int) =~= r.cypher@);
        assert(r.signature@.subrange(0, slen as int) =~= r.signature@);
        assert(out@ =~= spec_record_bytes(r@));
    }
    out
}

/// Decode one stored record; every byte pattern of the right width is a
/// valid record, since the blobs are opaque.
pub fn decode_record(bytes: &Vec<u8>) -> (r: Record)
    requires
        bytes@.len() == RECORD_SIZE,
    ensures
        r.wf(),
        spec_record_bytes(r@) == bytes@,
{
    let mut time_bytes: Vec<u8> = Vec::new();
    push_range(&mut time_bytes, bytes, 0, TIME_SIZE);
    let timestamp = crate::wire::be8_to_u64(&time_bytes);
    let mut cypher: Vec<u8> = Vec::new();
    push_range(&mut cypher, bytes, TIME_SIZE, CYPHER_SIZE);
    let mut signature: Vec<u8> = Vec::new();
    push_range(&mut signature, bytes, TIME_SIZE + CYPHER_SIZE, SIGNATURE_SIZE);
    let r = Record { timestamp, cypher, signature };
    proof {
        assert(spec_record_bytes(r@) =~= bytes@);
    }
    r
}

/// Build the whole response to a fetch or a query: the `snd` header
/// followed by the returned records, in id order, in the combined layout.
/// A response can carry at most 127 messages.
pub fn encode_messages_response(
    chat_id: &Vec<u8>,
    msg_id: u32,
    forward: bool,
    count: u8,
    records: &Vec<Record>,
) -> (r: Vec<u8>)
    requires
        chat_id@.len() == CHAT_ID_SIZE,
        count < 128,
        records@.len() == count,
        forall|i: int| 0 <= i < records@.len() ==> (#[trigger] records@[i]).wf(),
    ensures
        r@ == spec_msg_head(chat_id@, msg_id, forward, count) + spec_records_bytes(
            records@.map_values(|rec: Record| rec@),
        ),
        r@.len() == MSG_HEAD_SIZE + count * RECORD_SIZE,
{
    let ghost views = records@.map_values(|rec: Record| rec@);
    let mut r = encode_msg_head(chat_id, msg_id, forward, count);
    let mut i: usize = 0;
    while i < records.len()
        invariant
            forall|j: int| 0 <= j < records@.len() ==> (#[trigger] records@[j]).wf(),
            views == records@.map_values(|rec: Record| rec@),
            0 <= i <= records@.len(),
            r@ == spec_msg_head(chat_id@, msg_id, forward, count) + spec_records_prefix(
                views,
                i as int,
            ),
            r@.len() == MSG_HEAD_SIZE + i * RECORD_SIZE,
        decreases records@.len() - i,
    {
        let rec_bytes = encode_record(&records[i]);
        push_range(&mut r, &rec_bytes, 0, RECORD_SIZE);
        proof {
            assert(rec_bytes@.subrange(0, RECORD_SIZE as int) =~= rec_bytes@);
            assert((i + 1) as int * RECORD_SIZE == i as int * RECORD_SIZE + RECORD_SIZE)
                by (nonlinear_arith);
        }
        i += 1;
        assert(r@ =~= spec_msg_head(chat_id@, msg_id, forward, count) + spec_records_prefix(
            views,
            i as int,
        ));
    }
    r
}

/// Build a zeroed buffer framed as a client-to-server frame: the given tag
/// at the front and the `end` trailer at the back.
pub fn pad_buf(pad: &Vec<u8>, total: usize) -> (r: Vec<u8>)
    requires
        pad@.len() == PADDING_SIZE,
        total >= 2 * PADDING_SIZE,
    ensures
        r@.len() == total,
        well_framed(pad@, r@),
        forall|i: int| PADDING_SIZE <= i < total - PADDING_SIZE ==> r@[i] == 0u8,
{
    let mut r: Vec<u8> = Vec::new();
    push_range(&mut r, pad, 0, PADDING_SIZE);
    proof {
        assert(pad@.subrange(0, PADDING_SIZE as int) =~= pad@);
    }
    let mut i: usize = PADDING_SIZE;
    while i < total - PADDING_SIZE
        invariant
            total >= 2 * PADDING_SIZE,
            PADDING_SIZE <= i <= total - PADDING_SIZE,
            r@.len() == i,
            r@.subrange(0, PADDING_SIZE as int) == pad@,
            forall|j: int| PADDING_SIZE <= j < i ==> r@[j] == 0u8,
        decreases total - PADDING_SIZE - i,
    {
        r.push(0u8);
        i += 1;
        assert(r@.subrange(0, PADDING_SIZE as int) =~= pad@);
    }
    let tail = make_end_tag();
    push_range(&mut r, &tail, 0, PADDING_SIZE);
    proof {
        assert(tail@.subrange(0, PADDING_SIZE as int) =~= tail@);
        assert(r@.subrange(0, PADDING_SIZE as int) =~= pad@);
        assert(r@.subrange(r@.len() - PADDING_SIZE, r@.len() as int) =~= end_tag());
    }
    r
}

} // verus!
