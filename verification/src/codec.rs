//! Wire framing of partial signatures.
//!
//! A partial signature travels as one byte string: the 64-bit share index in
//! big-endian order, followed by the share payload. A batch of partial
//! signatures is framed as a sequence of self-delimiting records, each
//! carrying its index and payload length. Malformed bytes decode to `None`;
//! the actor treats them as protocol-invalid input from the sender.

use vstd::prelude::*;

verus! {

/// One partial signature: a share payload tagged by its share index.
///
/// The index names the share's fixed position in the threshold scheme and
/// must match a share owned by the sending party.
#[derive(Debug)]
pub struct PartialSignature {
    pub index: u64,
    pub payload: Vec<u8>,
}

/// The eight big-endian bytes of a 64-bit value.
pub open spec fn u64_be_bytes(x: u64) -> Seq<u8> {
    seq![
        (x >> 56) as u8,
        (x >> 48) as u8,
        (x >> 40) as u8,
        (x >> 32) as u8,
        (x >> 24) as u8,
        (x >> 16) as u8,
        (x >> 8) as u8,
        x as u8,
    ]
}

/// The 64-bit value read back from eight big-endian bytes.
pub open spec fn u64_from_be_bytes(s: Seq<u8>) -> u64
    recommends
        s.len() == 8,
{
    ((s[0] as u64) << 56) | ((s[1] as u64) << 48) | ((s[2] as u64) << 40)
        | ((s[3] as u64) << 32) | ((s[4] as u64) << 24) | ((s[5] as u64) << 16)
        | ((s[6] as u64) << 8) | (s[7] as u64)
}

/// Reading back the bytes of a value yields the value: the byte order is a
/// faithful encoding of 64-bit integers.
pub proof fn lemma_u64_be_bytes_round_trip(x: u64)
    ensures
        u64_from_be_bytes(u64_be_bytes(x)) == x,
{
    assert((((((x >> 56) as u8) as u64) << 56) | ((((x >> 48) as u8) as u64) << 48)
        | ((((x >> 40) as u8) as u64) << 40) | ((((x >> 32) as u8) as u64) << 32)
        | ((((x >> 24) as u8) as u64) << 24) | ((((x >> 16) as u8) as u64) << 16)
        | ((((x >> 8) as u8) as u64) << 8) | ((x as u8) as u64)) == x) by (bit_vector);
}

/// Writes a 64-bit value as eight big-endian bytes.
pub fn u64_to_be_bytes(x: u64) -> (r: Vec<u8>)
    ensures
        r@ == u64_be_bytes(x),
{
    let mut r: Vec<u8> = Vec::new();
    r.push((x >> 56) as u8);
    r.push((x >> 48) as u8);
    r.push((x >> 40) as u8);
    r.push((x >> 32) as u8);
    r.push((x >> 24) as u8);
    r.push((x >> 16) as u8);
    r.push((x >> 8) as u8);
    r.push(x as u8);
    proof {
        assert(r@ =~= u64_be_bytes(x));
    }
    r
}

/// The encoded form of a partial signature: big-endian index, then payload.
pub open spec fn encoded_partial_signature(index: u64, payload: Seq<u8>) -> Seq<u8> {
    u64_be_bytes(index) + payload
}

/// Encodes a partial signature for the wire.
pub fn encode_partial_signature(sig: &PartialSignature) -> (r: Vec<u8>)
    ensures
        r@ == encoded_partial_signature(sig.index, sig.payload@),
{
    let mut r = u64_to_be_bytes(sig.index);
    let mut i: usize = 0;
    while i < sig.payload.len()
        invariant
            i <= sig.payload.len(),
            r@ == u64_be_bytes(sig.index) + sig.payload@.subrange(0, i as int),
        decreases sig.payload.len() - i,
    {
        r.push(sig.payload[i]);
        i = i + 1;
        proof {
            assert(r@ =~= u64_be_bytes(sig.index) + sig.payload@.subrange(0, i as int));
        }
    }
    proof {
        assert(sig.payload@.subrange(0, sig.payload@.len() as int) =~= sig.payload@);
    }
    r
}

/// Decodes one partial signature from the wire.
///
/// Fails exactly on inputs too short to carry an index; otherwise the result
/// is the unique signature whose encoding is the input.
pub fn decode_partial_signature(bytes: &Vec<u8>) -> (r: Option<PartialSignature>)
    ensures
        r is None <==> bytes@.len() < 8,
        r matches Some(sig) ==> {
            &&& sig.index == u64_from_be_bytes(bytes@.subrange(0, 8))
            &&& sig.payload@ == bytes@.subrange(8, bytes@.len() as int)
            &&& bytes@ == encoded_partial_signature(sig.index, sig.payload@)
        },
{
    if bytes.len() < 8 {
        return None;
    }
    let index: u64 = ((bytes[0] as u64) << 56) | ((bytes[1] as u64) << 48)
        | ((bytes[2] as u64) << 40) | ((bytes[3] as u64) << 32) | ((bytes[4] as u64) << 24)
        | ((bytes[5] as u64) << 16) | ((bytes[6] as u64) << 8) | (bytes[7] as u64);
    let mut payload: Vec<u8> = Vec::new();
    let mut i: usize = 8;
    while i < bytes.len()
        invariant
            8 <= i <= bytes@.len(),
            payload@ == bytes@.subrange(8, i as int),
        decreases bytes.len() - i,
    {
        payload.push(bytes[i]);
        i = i + 1;
        proof {
            assert(payload@ =~= bytes@.subrange(8, i as int));
        }
    }
    proof {
        assert(index == u64_from_be_bytes(bytes@.subrange(0, 8)));
        lemma_u64_be_bytes_round_trip(index);
        assert(u64_be_bytes(index) =~= bytes@.subrange(0, 8)) by {
            lemma_u64_from_be_bytes_inverse(bytes@.subrange(0, 8));
        }
        assert(bytes@ =~= u64_be_bytes(index) + bytes@.subrange(8, bytes@.len() as int));
    }
    Some(PartialSignature { index, payload })
}

/// Eight bytes are the byte encoding of the value read from them.
proof fn lemma_u64_from_be_bytes_inverse(s: Seq<u8>)
    requires
        s.len() == 8,
    ensures
        u64_be_bytes(u64_from_be_bytes(s)) =~= s,
{
    let b0 = s[0];
    let b1 = s[1];
    let b2 = s[2];
    let b3 = s[3];
    let b4 = s[4];
    let b5 = s[5];
    let b6 = s[6];
    let b7 = s[7];
    let x = ((b0 as u64) << 56) | ((b1 as u64) << 48) | ((b2 as u64) << 40)
        | ((b3 as u64) << 32) | ((b4 as u64) << 24) | ((b5 as u64) << 16)
        | ((b6 as u64) << 8) | (b7 as u64);
    assert((x >> 56) as u8 == b0 && (x >> 48) as u8 == b1 && (x >> 40) as u8 == b2
        && (x >> 32) as u8 == b3 && (x >> 24) as u8 == b4 && (x >> 16) as u8 == b5
        && (x >> 8) as u8 == b6 && x as u8 == b7) by (bit_vector)
        requires
            x == ((b0 as u64) << 56) | ((b1 as u64) << 48) | ((b2 as u64) << 40)
                | ((b3 as u64) << 32) | ((b4 as u64) << 24) | ((b5 as u64) << 16)
                | ((b6 as u64) << 8) | (b7 as u64),
    ;
}

} // verus!
