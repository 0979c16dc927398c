//! Small verified encodings used on the wire: big-endian integers and
//! decimal ASCII rendering.

use vstd::prelude::*;

verus! {

/// The 3-byte big-endian encoding of a message id (only the low 24 bits of
/// the id reach the wire).
pub open spec fn spec_be3(x: u32) -> Seq<u8> {
    seq![((x >> 16) & 0xff) as u8, ((x >> 8) & 0xff) as u8, (x & 0xff) as u8]
}

/// The 8-byte big-endian encoding of a timestamp.
pub open spec fn spec_be8(x: u64) -> Seq<u8> {
    seq![
        ((x >> 56) & 0xff) as u8,
        ((x >> 48) & 0xff) as u8,
        ((x >> 40) & 0xff) as u8,
        ((x >> 32) & 0xff) as u8,
        ((x >> 24) & 0xff) as u8,
        ((x >> 16) & 0xff) as u8,
        ((x >> 8) & 0xff) as u8,
        (x & 0xff) as u8,
    ]
}

/// Encode the low 24 bits of `x` as 3 big-endian bytes.
pub fn u32_to_be3(x: u32) -> (r: Vec<u8>)
    ensures
        r@ == spec_be3(x),
{
    let b0: u8 = ((x >> 16) & 0xff) as u8;
    let b1: u8 = ((x >> 8) & 0xff) as u8;
    let b2: u8 = (x & 0xff) as u8;
    let r = vec![b0, b1, b2];
    assert(r@ =~= spec_be3(x));
    r
}

/// Decode 3 big-endian bytes into a `u32`.
pub fn be3_to_u32(b0: u8, b1: u8, b2: u8) -> (r: u32)
    ensures
        r < 0x1000000,
        spec_be3(r) == seq![b0, b1, b2],
{
    let r: u32 = ((b0 as u32) << 16) | ((b1 as u32) << 8) | (b2 as u32);
    proof {
        let x = r;
        assert(((b0 as u32) << 16u32) | ((b1 as u32) << 8u32) | (b2 as u32) < 0x1000000u32)
            by (bit_vector);
        assert({
            let x = ((b0 as u32) << 16u32) | ((b1 as u32) << 8u32) | (b2 as u32);
            ((x >> 16u32) & 0xff) as u8 == b0 && ((x >> 8u32) & 0xff) as u8 == b1 && (x
                & 0xff) as u8 == b2
        }) by (bit_vector);
        assert(spec_be3(r) =~= seq![b0, b1, b2]);
    }
    r
}

/// Encode `x` as 8 big-endian bytes.
pub fn u64_to_be8(x: u64) -> (r: Vec<u8>)
    ensures
        r@ == spec_be8(x),
{
    let b0: u8 = ((x >> 56) & 0xff) as u8;
    let b1: u8 = ((x >> 48) & 0xff) as u8;
    let b2: u8 = ((x >> 40) & 0xff) as u8;
    let b3: u8 = ((x >> 32) & 0xff) as u8;
    let b4: u8 = ((x >> 24) & 0xff) as u8;
    let b5: u8 = ((x >> 16) & 0xff) as u8;
    let b6: u8 = ((x >> 8) & 0xff) as u8;
    let b7: u8 = (x & 0xff) as u8;
    let r = vec![b0, b1, b2, b3, b4, b5, b6, b7];
    assert(r@ =~= spec_be8(x));
    r
}

/// Decode 8 big-endian bytes into a `u64`.
pub fn be8_to_u64(b: &Vec<u8>) -> (r: u64)
    requires
        b@.len() == 8,
    ensures
        spec_be8(r) == b@,
{
    let b0 = b[0];
    let b1 = b[1];
    let b2 = b[2];
    let b3 = b[3];
    let b4 = b[4];
    let b5 = b[5];
    let b6 = b[6];
    let b7 = b[7];
    let r: u64 = ((b0 as u64) << 56) | ((b1 as u64) << 48) | ((b2 as u64) << 40) | ((b3 as u64)
        << 32) | ((b4 as u64) << 24) | ((b5 as u64) << 16) | ((b6 as u64) << 8) | (b7 as u64);
    proof {
        assert({
            let x = ((b0 as u64) << 56u64) | ((b1 as u64) << 48u64) | ((b2 as u64) << 40u64) | ((
            b3 as u64) << 32u64) | ((b4 as u64) << 24u64) | ((b5 as u64) << 16u64) | ((b6 as u64)
                << 8u64) | (b7 as u64);
            ((x >> 56u64) & 0xff) as u8 == b0 && ((x >> 48u64) & 0xff) as u8 == b1 && ((x >> 40u64)
                & 0xff) as u8 == b2 && ((x >> 32u64) & 0xff) as u8 == b3 && ((x >> 24u64)
                & 0xff) as u8 == b4 && ((x >> 16u64) & 0xff) as u8 == b5 && ((x >> 8u64)
                & 0xff) as u8 == b6 && (x & 0xff) as u8 == b7
        }) by (bit_vector);
        assert(spec_be8(r) =~= b@);
    }
    r
}

/// Reading the three big-endian bytes of `x` back as a base-256 numeral
/// gives `x` itself.
pub proof fn lemma_be3_value(x: u32)
    requires
        x < 0x1000000,
    ensures
        spec_be3(x)[0] * 0x10000 + spec_be3(x)[1] * 0x100 + spec_be3(x)[2] == x,
{
    assert(((x >> 16u32) & 0xff) * 0x10000 + ((x >> 8u32) & 0xff) * 0x100 + (x & 0xff) == x
        && (x >> 16u32) & 0xff < 256 && (x >> 8u32) & 0xff < 256 && x & 0xff < 256)
        by (bit_vector)
        requires
            x < 0x1000000u32,
    ;
    assert(spec_be3(x)[0] == ((x >> 16u32) & 0xff) as u8);
    assert(spec_be3(x)[1] == ((x >> 8u32) & 0xff) as u8);
    assert(spec_be3(x)[2] == (x & 0xff) as u8);
}

/// The decimal ASCII rendering of `n`, without leading zeros.
pub open spec fn spec_dec(n: nat) -> Seq<u8>
    decreases n,
{
    if n < 10 {
        seq![(48 + n) as u8]
    } else {
        spec_dec(n / 10).push((48 + n % 10) as u8)
    }
}

/// Render `n` as decimal ASCII digits.
pub fn u64_to_dec(n: u64) -> (r: Vec<u8>)
    ensures
        r@ == spec_dec(n as nat),
    decreases n,
{
    if n < 10 {
        let d: u8 = 48 + (n as u8);
        let r = vec![d];
        assert(r@ =~= spec_dec(n as nat));
        r
    } else {
        let mut r = u64_to_dec(n / 10);
        r.push(48 + ((n % 10) as u8));
        assert(r@ =~= spec_dec(n as nat));
        r
    }
}

} // verus!
