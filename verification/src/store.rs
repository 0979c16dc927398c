//! Message Store: a per-chat append-only log with positional fetch/query.
//! Record `i` of a chat is the message with id `i`; the id assigned to the
//! `n`-th appended message is `n-1`, with no gaps, no reordering and no
//! deletion. A chat that was never appended to is a valid empty log.

use vstd::prelude::*;
use crate::constants::{CHAT_ID_SIZE, CYPHER_SIZE, SIGNATURE_SIZE};
use crate::layout::push_range;

verus! {

/// One stored message: a server-observed timestamp and two opaque blobs,
/// immutable once appended.
pub struct Record {
    pub timestamp: u64,
    pub cypher: Vec<u8>,
    pub signature: Vec<u8>,
}

/// The mathematical value of a stored message.
pub struct RecordView {
    pub timestamp: u64,
    pub cypher: Seq<u8>,
    pub signature: Seq<u8>,
}

impl View for Record {
    type V = RecordView;

    open spec fn view(&self) -> RecordView {
        RecordView { timestamp: self.timestamp, cypher: self.cypher@, signature: self.signature@ }
    }
}

impl Record {
    /// The blobs have exactly their declared wire widths.
    pub open spec fn wf(&self) -> bool {
        self.cypher@.len() == CYPHER_SIZE && self.signature@.len() == SIGNATURE_SIZE
    }
}

/// Copy a byte vector.
fn copy_bytes(src: &Vec<u8>) -> (r: Vec<u8>)
    ensures
        r@ == src@,
{
    let mut r: Vec<u8> = Vec::new();
    let n = src.len();
    push_range(&mut r, src, 0, n);
    proof {
        assert(src@.subrange(0, n as int) =~= src@);
    }
    r
}

/// Copy a record.
fn copy_record(src: &Record) -> (r: Record)
    ensures
        r@ == src@,
        r.wf() <==> src.wf(),
{
    Record {
        timestamp: src.timestamp,
        cypher: copy_bytes(&src.cypher),
        signature: copy_bytes(&src.signature),
    }
}

/// Compare two byte vectors for equality.
pub fn bytes_eq(a: &Vec<u8>, b: &Vec<u8>) -> (r: bool)
    ensures
        r <==> a@ == b@,
{
    if a.len() != b.len() {
        proof {
            assert(a@.len() != b@.len());
        }
        return false;
    }
    let n = a.len();
    let mut i: usize = 0;
    while i < n
        invariant
            a@.len() == n,
            b@.len() == n,
            0 <= i <= n,
            forall|j: int| 0 <= j < i ==> a@[j] == b@[j],
        decreases n - i,
    {
        if a[i] != b[i] {
            return false;
        }
        i += 1;
    }
    proof {
        assert(a@ =~= b@);
    }
    true
}

/// The ordered, append-only log of one chat.
pub struct ChatLog {
    pub chat_id: Vec<u8>,
    pub records: Vec<Record>,
}

impl ChatLog {
    pub open spec fn wf(&self) -> bool {
        &&& self.chat_id@.len() == CHAT_ID_SIZE
        &&& forall|i: int| 0 <= i < self.records@.len() ==> (#[trigger] self.records@[i]).wf()
    }
}

/// Some chat of `chats` carries this id.
pub open spec fn has_chat(chats: Seq<ChatLog>, id: Seq<u8>) -> bool {
    exists|i: int| 0 <= i < chats.len() && chats[i].chat_id@ == id
}

/// The position of the chat that carries this id (meaningful only when
/// `has_chat` holds; unique under the store's invariant).
pub open spec fn chat_index(chats: Seq<ChatLog>, id: Seq<u8>) -> int {
    choose|i: int| 0 <= i < chats.len() && chats[i].chat_id@ == id
}

/// Under distinct chat ids, any matching position is the chat's position.
pub proof fn lemma_chat_index(chats: Seq<ChatLog>, id: Seq<u8>, i: int)
    requires
        forall|p: int, q: int|
            0 <= p < q < chats.len() ==> chats[p].chat_id@ != chats[q].chat_id@,
        0 <= i < chats.len(),
        chats[i].chat_id@ == id,
    ensures
        has_chat(chats, id),
        chat_index(chats, id) == i,
{
    assert(has_chat(chats, id));
    let j = chat_index(chats, id);
    assert(0 <= j < chats.len() && chats[j].chat_id@ == id);
    if i < j {
        assert(chats[i].chat_id@ != chats[j].chat_id@);
    } else if j < i {
        assert(chats[j].chat_id@ != chats[i].chat_id@);
    }
}

/// The smaller of two naturals.
pub open spec fn min_nat(a: nat, b: nat) -> nat {
    if a <= b {
        a
    } else {
        b
    }
}

/// How many records a query returns: scanning from `msg_id` forward or
/// backward for up to `count` records, stopping at the log boundary.
pub open spec fn query_count(len: nat, msg_id: nat, count: nat, forward: bool) -> nat {
    if forward {
        if msg_id < len {
            min_nat(count, (len - msg_id) as nat)
        } else {
            0
        }
    } else {
        if len == 0 {
            0
        } else {
            min_nat(count, min_nat(msg_id, (len - 1) as nat) + 1)
        }
    }
}

/// The id of the first record of the returned window.
pub open spec fn query_first(len: nat, msg_id: nat, count: nat, forward: bool) -> nat {
    if forward {
        min_nat(msg_id, len)
    } else {
        if len == 0 {
            0
        } else {
            (min_nat(msg_id, (len - 1) as nat) + 1 - query_count(len, msg_id, count, forward))
                as nat
        }
    }
}

/// How many records a fetch of the last `amount` returns.
pub open spec fn fetch_count(len: nat, amount: nat) -> nat {
    min_nat(amount, len)
}

/// The id of the first record a fetch returns.
pub open spec fn fetch_first(len: nat, amount: nat) -> nat {
    (len - fetch_count(len, amount)) as nat
}

/// The windows a query returns lie inside the log.
pub proof fn lemma_query_window_in_log(len: nat, msg_id: nat, count: nat, forward: bool)
    ensures
        query_first(len, msg_id, count, forward) + query_count(len, msg_id, count, forward)
            <= len,
{
}

/// The store: all per-chat logs, keyed by chat id. Appends to one chat are
/// serialized by exclusive access to the store; appends to distinct chats
/// never touch each other's logs.
pub struct MessageStore {
    pub chats: Vec<ChatLog>,
}

impl MessageStore {
    /// Every chat is well-formed and chat ids are distinct.
    pub open spec fn wf(&self) -> bool {
        &&& forall|i: int| 0 <= i < self.chats@.len() ==> (#[trigger] self.chats@[i]).wf()
        &&& forall|i: int, j: int|
            0 <= i < j < self.chats@.len() ==> self.chats@[i].chat_id@
                != self.chats@[j].chat_id@
    }

    /// The log of the chat with this id; a chat never appended to is a
    /// valid empty log.
    pub open spec fn log_of(&self, id: Seq<u8>) -> Seq<RecordView> {
        if has_chat(self.chats@, id) {
            self.chats@[chat_index(self.chats@, id)].records@.map_values(|r: Record| r@)
        } else {
            Seq::empty()
        }
    }

    /// A fresh store: every log is empty.
    pub fn new() -> (r: MessageStore)
        ensures
            r.wf(),
            forall|id: Seq<u8>| r.log_of(id) == Seq::<RecordView>::empty(),
    {
        MessageStore { chats: Vec::new() }
    }

    /// Find the position of a chat by id.
    fn find_chat(&self, chat_id: &Vec<u8>) -> (r: Option<usize>)
        requires
            self.wf(),
        ensures
            match r {
                Some(i) => {
                    &&& i < self.chats@.len()
                    &&& self.chats@[i as int].chat_id@ == chat_id@
                    &&& has_chat(self.chats@, chat_id@)
                    &&& chat_index(self.chats@, chat_id@) == i
                },
                None => !has_chat(self.chats@, chat_id@),
            },
    {
        let mut i: usize = 0;
        while i < self.chats.len()
            invariant
                self.wf(),
                0 <= i <= self.chats@.len(),
                forall|j: int| 0 <= j < i ==> self.chats@[j].chat_id@ != chat_id@,
            decreases self.chats@.len() - i,
        {
            if bytes_eq(&self.chats[i].chat_id, chat_id) {
                proof {
                    lemma_chat_index(self.chats@, chat_id@, i as int);
                }
                return Some(i);
            }
            i += 1;
        }
        None
    }

    /// Append one message to a chat's log, creating the log if the chat was
    /// never seen; the assigned id is the log's previous length, and no
    /// other chat's log changes.
    pub fn append(
        &mut self,
        chat_id: &Vec<u8>,
        timestamp: u64,
        cypher: Vec<u8>,
        signature: Vec<u8>,
    ) -> (msg_id: usize)
        requires
            old(self).wf(),
            chat_id@.len() == CHAT_ID_SIZE,
            cypher@.len() == CYPHER_SIZE,
            signature@.len() == SIGNATURE_SIZE,
        ensures
            final(self).wf(),
            msg_id == old(self).log_of(chat_id@).len(),
            final(self).log_of(chat_id@) == old(self).log_of(chat_id@).push(
                RecordView { timestamp, cypher: cypher@, signature: signature@ },
            ),
            forall|other: Seq<u8>|
                other != chat_id@ ==> final(self).log_of(other) == old(self).log_of(other),
    {
        let ghost rv = RecordView { timestamp, cypher: cypher@, signature: signature@ };
        let record = Record { timestamp, cypher, signature };
        match self.find_chat(chat_id) {
            Some(i) => {
                let ghost old_chats = self.chats@;
                let chat = &mut self.chats[i];
                let msg_id = chat.records.len();
                chat.records.push(record);
                proof {
                    let new_chats = self.chats@;
                    assert(new_chats =~= old_chats.update(
                        i as int,
                        ChatLog {
                            chat_id: old_chats[i as int].chat_id,
                            records: new_chats[i as int].records,
                        },
                    ));
                    lemma_chat_index(new_chats, chat_id@, i as int);
                    assert(self.log_of(chat_id@) =~= old(self).log_of(chat_id@).push(rv));
                    assert forall|other: Seq<u8>| other != chat_id@ implies self.log_of(other)
                        == old(self).log_of(other) by {
                        if has_chat(old_chats, other) {
                            let j = chat_index(old_chats, other);
                            assert(0 <= j < old_chats.len() && old_chats[j].chat_id@ == other);
                            lemma_chat_index(new_chats, other, j);
                            assert(self.log_of(other) =~= old(self).log_of(other));
                        } else {
                            if has_chat(new_chats, other) {
                                let j = chat_index(new_chats, other);
                                assert(0 <= j < new_chats.len() && new_chats[j].chat_id@
                                    == other);
                                assert(old_chats[j].chat_id@ == other);
                            }
                        }
                    }
                }
                msg_id
            },
            None => {
                let ghost old_chats = self.chats@;
                let new_chat = ChatLog { chat_id: copy_bytes(chat_id), records: vec![record] };
                let ghost n = self.chats@.len();
                self.chats.push(new_chat);
                proof {
                    let new_chats = self.chats@;
                    assert forall|p: int, q: int|
                        0 <= p < q < new_chats.len() implies new_chats[p].chat_id@
                        != new_chats[q].chat_id@ by {
                        if q < n {
                        } else {
                            assert(new_chats[q].chat_id@ == chat_id@);
                            assert(0 <= p < old_chats.len() && new_chats[p] == old_chats[p]);
                            if old_chats[p].chat_id@ == chat_id@ {
                                assert(has_chat(old_chats, chat_id@));
                            }
                        }
                    }
                    lemma_chat_index(new_chats, chat_id@, n as int);
                    assert(new_chats[n as int].records@ =~= seq![record]);
                    assert(self.log_of(chat_id@) =~= Seq::<RecordView>::empty().push(rv));
                    assert forall|other: Seq<u8>| other != chat_id@ implies self.log_of(other)
                        == old(self).log_of(other) by {
                        if has_chat(old_chats, other) {
                            let j = chat_index(old_chats, other);
                            assert(0 <= j < old_chats.len() && old_chats[j].chat_id@ == other);
                            lemma_chat_index(new_chats, other, j);
                            assert(self.log_of(other) =~= old(self).log_of(other));
                        } else {
                            if has_chat(new_chats, other) {
                                let j = chat_index(new_chats, other);
                                assert(0 <= j < new_chats.len() && new_chats[j].chat_id@
                                    == other);
                                assert(j < n ==> old_chats[j].chat_id@ == other);
                            }
                        }
                    }
                }
                0
            },
        }
    }

    /// Scan a chat's log from `msg_id`, forward (increasing ids) or
    /// backward (decreasing ids), for up to `count` records, stopping at
    /// the log boundary. Returns how many records came back, the id of the
    /// first returned record, and the records in id order.
    pub fn query(&self, chat_id: &Vec<u8>, msg_id: usize, count: u8, forward: bool) -> (r: (
        u8,
        usize,
        Vec<Record>,
    ))
        requires
            self.wf(),
            count < 128,
        ensures
            ({
                let log = self.log_of(chat_id@);
                let cnt = query_count(log.len(), msg_id as nat, count as nat, forward);
                let first = query_first(log.len(), msg_id as nat, count as nat, forward);
                &&& r.0 == cnt
                &&& r.1 == first
                &&& r.2@.map_values(|rec: Record| rec@) == log.subrange(
                    first as int,
                    first + cnt as int,
                )
                &&& forall|i: int| 0 <= i < r.2@.len() ==> (#[trigger] r.2@[i]).wf()
            }),
    {
        let (len, idx) = match self.find_chat(chat_id) {
            Some(i) => (self.chats[i].records.len(), Some(i)),
            None => (0usize, None),
        };
        let ghost log = self.log_of(chat_id@);
        proof {
            if idx is Some {
                assert(log =~= self.chats@[idx->0 as int].records@.map_values(|r: Record| r@));
            }
            assert(log.len() == len);
        }
        let (first, cnt): (usize, usize) = if forward {
            if msg_id < len {
                let avail = len - msg_id;
                let c = if (count as usize) <= avail {
                    count as usize
                } else {
                    avail
                };
                (msg_id, c)
            } else {
                (len, 0)
            }
        } else {
            if len == 0 {
                (0, 0)
            } else {
                let top = if msg_id < len {
                    msg_id
                } else {
                    len - 1
                };
                let c = if (count as usize) <= top + 1 {
                    count as usize
                } else {
                    top + 1
                };
                (top + 1 - c, c)
            }
        };
        proof {
            assert(cnt == query_count(log.len(), msg_id as nat, count as nat, forward));
            assert(first == query_first(log.len(), msg_id as nat, count as nat, forward));
        }
        proof {
            lemma_query_window_in_log(log.len(), msg_id as nat, count as nat, forward);
        }
        let mut out: Vec<Record> = Vec::new();
        match idx {
            Some(i) => {
                let chat = &self.chats[i];
                let mut j: usize = 0;
                while j < cnt
                    invariant
                        chat.wf(),
                        first + cnt <= usize::MAX,
                        first + cnt <= chat.records@.len(),
                        log == chat.records@.map_values(|r: Record| r@),
                        0 <= j <= cnt,
                        out@.len() == j,
                        out@.map_values(|rec: Record| rec@) == log.subrange(
                            first as int,
                            first + j,
                        ),
                        forall|p: int| 0 <= p < out@.len() ==> (#[trigger] out@[p]).wf(),
                    decreases cnt - j,
                {
                    out.push(copy_record(&chat.records[first + j]));
                    j += 1;
                    assert(out@.map_values(|rec: Record| rec@) =~= log.subrange(
                        first as int,
                        first + j,
                    ));
                }
            },
            None => {
                proof {
                    assert(cnt == 0);
                }
            },
        }
        proof {
            assert(out@.map_values(|rec: Record| rec@) =~= log.subrange(first as int, first
                + cnt));
        }
        (cnt as u8, first, out)
    }

    /// Return the last `amount` records of a chat's log (fewer if the log
    /// is shorter): the count, the id of the first returned record, and the
    /// records in id order.
    pub fn fetch(&self, chat_id: &Vec<u8>, amount: u8) -> (r: (u8, usize, Vec<Record>))
        requires
            self.wf(),
            amount < 128,
        ensures
            ({
                let log = self.log_of(chat_id@);
                let cnt = fetch_count(log.len(), amount as nat);
                let first = fetch_first(log.len(), amount as nat);
                &&& r.0 == cnt
                &&& r.1 == first
                &&& r.2@.map_values(|rec: Record| rec@) == log.subrange(
                    first as int,
                    first + cnt as int,
                )
                &&& forall|i: int| 0 <= i < r.2@.len() ==> (#[trigger] r.2@[i]).wf()
            }),
    {
        let (len, _) = match self.find_chat(chat_id) {
            Some(i) => (self.chats[i].records.len(), 0usize),
            None => (0usize, 0usize),
        };
        let ghost log = self.log_of(chat_id@);
        proof {
            if has_chat(self.chats@, chat_id@) {
                let i = chat_index(self.chats@, chat_id@);
                assert(log =~= self.chats@[i].records@.map_values(|r: Record| r@));
            }
            assert(log.len() == len);
        }
        let start = if len > amount as usize {
            len - amount as usize
        } else {
            0
        };
        let r = self.query(chat_id, start, amount, true);
        proof {
            assert(query_count(log.len(), start as nat, amount as nat, true) == fetch_count(
                log.len(),
                amount as nat,
            ));
            assert(query_first(log.len(), start as nat, amount as nat, true) == fetch_first(
                log.len(),
                amount as nat,
            ));
        }
        r
    }
}

/// A fetch of the last `amount` records is the forward query that starts
/// `amount` records before the end of the log, clamped at zero.
pub proof fn lemma_fetch_is_query(len: nat, amount: nat)
    ensures
        ({
            let start = if len > amount {
                (len - amount) as nat
            } else {
                0
            };
            &&& fetch_count(len, amount) == query_count(len, start, amount, true)
            &&& fetch_first(len, amount) == query_first(len, start, amount, true)
        }),
{
}

/// A fetch of at least the whole log returns the whole log: after `n`
/// appends to a fresh chat, a fetch of `amount >= n` returns exactly `n`
/// records and the first returned id is `0`.
pub proof fn lemma_fetch_returns_fresh_log(len: nat, amount: nat)
    requires
        len <= amount,
    ensures
        fetch_count(len, amount) == len,
        fetch_first(len, amount) == 0,
{
}

/// A forward query from a valid position `k` on a log of length `len`
/// returns `min(count, len - k)` records and the window starts at `k`.
pub proof fn lemma_query_forward_window(len: nat, k: nat, count: nat)
    requires
        k < len,
    ensures
        query_count(len, k, count, true) == min_nat(count, (len - k) as nat),
        query_first(len, k, count, true) == k,
{
}

/// A backward query from a valid position `k` returns `min(count, k + 1)`
/// records, and the returned window (when not empty) ends at `k`.
pub proof fn lemma_query_backward_window(len: nat, k: nat, count: nat)
    requires
        k < len,
    ensures
        query_count(len, k, count, false) == min_nat(count, k + 1),
        0 < query_count(len, k, count, false) ==> query_first(len, k, count, false)
            + query_count(len, k, count, false) - 1 == k,
{
}

/// Chained logs grow by one record at each step, so the log's length at
/// step `i` is `i`.
proof fn lemma_chain_len(logs: Seq<Seq<RecordView>>, n: nat, i: int)
    requires
        logs.len() == n + 1,
        logs[0].len() == 0,
        forall|p: int| 0 <= p < n ==> (#[trigger] logs[p + 1]).len() == logs[p].len() + 1,
        0 <= i <= n,
    ensures
        logs[i].len() == i,
    decreases i,
{
    if i > 0 {
        lemma_chain_len(logs, n, i - 1);
        assert(logs[(i - 1) + 1].len() == logs[i - 1].len() + 1);
    }
}

/// Appends to one chat are serialized by the store, and each append is
/// assigned the log's length at its turn. So the ids assigned by `n`
/// serialized appends to one fresh chat are exactly `0, ..., n-1`: never a
/// duplicate, whichever connections the appends came from.
pub proof fn lemma_serialized_append_ids(logs: Seq<Seq<RecordView>>, ids: Seq<int>, n: nat)
    requires
        logs.len() == n + 1,
        ids.len() == n,
        logs[0].len() == 0,
        forall|p: int| 0 <= p < n ==> (#[trigger] logs[p + 1]).len() == logs[p].len() + 1,
        forall|p: int| 0 <= p < n ==> #[trigger] ids[p] == logs[p].len(),
    ensures
        forall|p: int| 0 <= p < n ==> #[trigger] ids[p] == p,
        forall|p: int, q: int| 0 <= p < q < n ==> ids[p] != ids[q],
        forall|x: int| ids.contains(x) <==> 0 <= x < n,
{
    assert forall|p: int| 0 <= p < n implies #[trigger] ids[p] == p by {
        lemma_chain_len(logs, n, p);
    }
    assert forall|x: int| ids.contains(x) <==> 0 <= x < n by {
        if 0 <= x < n {
            assert(ids[x] == x);
        }
        if ids.contains(x) {
            let p = choose|p: int| 0 <= p < ids.len() && ids[p] == x;
            assert(ids[p] == p);
        }
    }
}


/// The URL-safe base64 encoding, without padding, of a byte string: the
/// store's file-naming key. A pure function of the bytes.
pub uninterp spec fn urlsafe_b64(bytes: Seq<u8>) -> Seq<char>;

/// Relies on base64::encode_config with URL_SAFE_NO_PAD: the URL-safe
/// base64 alphabet, no padding; the result depends on the input bytes
/// alone, four characters per three input bytes and two or three
/// characters for a trailing partial group.
#[verifier::external_body]
fn b64_encode(bytes: &Vec<u8>) -> (r: String)
    ensures
        r@ == urlsafe_b64(bytes@),
        bytes@.len() % 3 == 0 ==> r@.len() == bytes@.len() / 3 * 4,
        bytes@.len() % 3 == 1 ==> r@.len() == bytes@.len() / 3 * 4 + 2,
        bytes@.len() % 3 == 2 ==> r@.len() == bytes@.len() / 3 * 4 + 3,
{
    base64::encode_config(bytes.as_slice(), base64::URL_SAFE_NO_PAD)
}

/// The store's file key for a chat: the chat lives in one file named by the
/// URL-safe base64 encoding of its id, under the data directory.
pub fn chat_file_name(chat_id: &Vec<u8>) -> (r: String)
    requires
        chat_id@.len() == CHAT_ID_SIZE,
    ensures
        r@ == urlsafe_b64(chat_id@),
        r@.len() == 43,
{
    b64_encode(chat_id)
}

} // verus!
