//! Wire field widths. These are interoperability constants: every frame's
//! total size is the sum of its declared fields plus leading/trailing
//! padding where applicable.

use vstd::prelude::*;

verus! {

/// Width of a padding tag: a 3-byte ASCII marker used both as the
/// frame-kind discriminant and as the framing-integrity trailer.
pub const PADDING_SIZE: usize = 3;

/// Width of a chat identifier (a content hash), also the store's file key.
pub const CHAT_ID_SIZE: usize = 32;

/// Width of a content hash.
pub const HASH_SIZE: usize = 32;

/// Width of the server-observed timestamp stored with each message
/// (milliseconds, big-endian).
pub const TIME_SIZE: usize = 8;

/// Width of a message id on the wire (big-endian, truncated from the
/// store's full positional id).
pub const MSG_ID_SIZE: usize = 3;

/// Width of the opaque cypher blob carried by each message.
pub const CYPHER_SIZE: usize = 128;

/// Width of the opaque signature blob carried by each message.
pub const SIGNATURE_SIZE: usize = 64;

/// Width of the query-argument field of a `qry` frame: one packed
/// forward/count byte followed by a `MSG_ID_SIZE`-byte message id.
pub const QUERY_ARG_SIZE: usize = 4;

/// Most messages a single response may carry; the count is packed into the
/// low 7 bits of the response header's count byte, so it cannot pass 127.
pub const MAX_FETCH_AMOUNT: u8 = 127;

/// How many trailing messages a `fch` frame asks for.
pub const DEFAULT_FETCH_AMOUNT: u8 = 50;

} // verus!
