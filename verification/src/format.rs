//! Byte-level primitives of the wire format: the fixed tags, the archive
//! identifier, and big-endian integer fields.

use vstd::prelude::*;

verus! {

/// The three tag bytes that open a path box: `PTH`.
pub open spec fn spec_path_tag() -> Seq<u8> {
    seq![0x50u8, 0x54u8, 0x48u8]
}

/// The three tag bytes that open a data box: `DAT`.
pub open spec fn spec_data_tag() -> Seq<u8> {
    seq![0x44u8, 0x41u8, 0x54u8]
}

/// The eight identifier bytes that open every archive: `<!BKAR!>`.
pub open spec fn spec_identifier() -> Seq<u8> {
    seq![0x3Cu8, 0x21u8, 0x42u8, 0x4Bu8, 0x41u8, 0x52u8, 0x21u8, 0x3Eu8]
}

/// The two bytes of a path-box length field, most significant first.
pub open spec fn spec_u16_be(n: u16) -> Seq<u8> {
    seq![((n >> 8) & 0xff) as u8, (n & 0xff) as u8]
}

/// The value carried by a two-byte big-endian length field.
pub open spec fn spec_u16_from_be(b0: u8, b1: u8) -> u16 {
    (b0 as u16) << 8 | (b1 as u16)
}

/// The eight bytes of a data-box length field, most significant first.
pub open spec fn spec_u64_be(n: u64) -> Seq<u8> {
    seq![
        ((n >> 56) & 0xff) as u8,
        ((n >> 48) & 0xff) as u8,
        ((n >> 40) & 0xff) as u8,
        ((n >> 32) & 0xff) as u8,
        ((n >> 24) & 0xff) as u8,
        ((n >> 16) & 0xff) as u8,
        ((n >> 8) & 0xff) as u8,
        (n & 0xff) as u8,
    ]
}

/// The value carried by an eight-byte big-endian length field.
pub open spec fn spec_u64_from_be(b: Seq<u8>) -> u64
    recommends
        b.len() == 8,
{
    (b[0] as u64) << 56 | (b[1] as u64) << 48 | (b[2] as u64) << 40 | (b[3] as u64) << 32 | (
    b[4] as u64) << 24 | (b[5] as u64) << 16 | (b[6] as u64) << 8 | (b[7] as u64)
}

/// Reading back the two bytes written for a value yields that value.
pub proof fn lemma_u16_be_round_trip(n: u16)
    ensures
        spec_u16_from_be(spec_u16_be(n)[0], spec_u16_be(n)[1]) == n,
{
    let b0 = ((n >> 8) & 0xff) as u8;
    let b1 = (n & 0xff) as u8;
    assert(b0 == ((n >> 8) & 0xff) as u8 && b1 == (n & 0xff) as u8 ==> (b0 as u16) << 8 | (
    b1 as u16) == n) by (bit_vector);
}

/// Reading back the eight bytes written for a value yields that value.
pub proof fn lemma_u64_be_round_trip(n: u64)
    ensures
        spec_u64_from_be(spec_u64_be(n)) == n,
{
    let b = spec_u64_be(n);
    let b0 = ((n >> 56) & 0xff) as u8;
    let b1 = ((n >> 48) & 0xff) as u8;
    let b2 = ((n >> 40) & 0xff) as u8;
    let b3 = ((n >> 32) & 0xff) as u8;
    let b4 = ((n >> 24) & 0xff) as u8;
    let b5 = ((n >> 16) & 0xff) as u8;
    let b6 = ((n >> 8) & 0xff) as u8;
    let b7 = (n & 0xff) as u8;
    assert(b0 == ((n >> 56) & 0xff) as u8 && b1 == ((n >> 48) & 0xff) as u8 && b2 == ((n >> 40)
        & 0xff) as u8 && b3 == ((n >> 32) & 0xff) as u8 && b4 == ((n >> 24) & 0xff) as u8 && b5 == (
    (n >> 16) & 0xff) as u8 && b6 == ((n >> 8) & 0xff) as u8 && b7 == (n & 0xff) as u8 ==> (
    b0 as u64) << 56 | (b1 as u64) << 48 | (b2 as u64) << 40 | (b3 as u64) << 32 | (b4 as u64) << 24
        | (b5 as u64) << 16 | (b6 as u64) << 8 | (b7 as u64) == n) by (bit_vector);
    assert(b =~= seq![b0, b1, b2, b3, b4, b5, b6, b7]);
}

/// Writing back the value read from two bytes yields those bytes.
pub proof fn lemma_u16_from_be_round_trip(b0: u8, b1: u8)
    ensures
        spec_u16_be(spec_u16_from_be(b0, b1)) == seq![b0, b1],
{
    let n = spec_u16_from_be(b0, b1);
    assert(n == (b0 as u16) << 8 | (b1 as u16) ==> ((n >> 8) & 0xff) as u8 == b0 && (n
        & 0xff) as u8 == b1) by (bit_vector);
    assert(spec_u16_be(n) =~= seq![b0, b1]);
}

/// Writing back the value read from eight bytes yields those bytes.
pub proof fn lemma_u64_from_be_round_trip(s: Seq<u8>)
    requires
        s.len() == 8,
    ensures
        spec_u64_be(spec_u64_from_be(s)) == s,
{
    let b0 = s[0];
    let b1 = s[1];
    let b2 = s[2];
    let b3 = s[3];
    let b4 = s[4];
    let b5 = s[5];
    let b6 = s[6];
    let b7 = s[7];
    let n = spec_u64_from_be(s);
    assert(n == (b0 as u64) << 56 | (b1 as u64) << 48 | (b2 as u64) << 40 | (b3 as u64) << 32 | (
    b4 as u64) << 24 | (b5 as u64) << 16 | (b6 as u64) << 8 | (b7 as u64) ==> ((n >> 56)
        & 0xff) as u8 == b0 && ((n >> 48) & 0xff) as u8 == b1 && ((n >> 40) & 0xff) as u8 == b2 && (
    (n >> 32) & 0xff) as u8 == b3 && ((n >> 24) & 0xff) as u8 == b4 && ((n >> 16) & 0xff) as u8
        == b5 && ((n >> 8) & 0xff) as u8 == b6 && (n & 0xff) as u8 == b7) by (bit_vector);
    assert(spec_u64_be(n) =~= s);
}

/// Appends the two-byte big-endian form of `n`.
pub fn push_u16_be(out: &mut Vec<u8>, n: u16)
    ensures
        final(out)@ == old(out)@ + spec_u16_be(n),
{
    proof {
        assert((n >> 8) & 0xff < 256 && n & 0xff < 256) by (bit_vector);
    }
    out.push(((n >> 8) & 0xff) as u8);
    out.push((n & 0xff) as u8);
    assert(out@ =~= old(out)@ + spec_u16_be(n));
}

/// Appends the eight-byte big-endian form of `n`.
pub fn push_u64_be(out: &mut Vec<u8>, n: u64)
    ensures
        final(out)@ == old(out)@ + spec_u64_be(n),
{
    proof {
        assert((n >> 56) & 0xff < 256 && (n >> 48) & 0xff < 256 && (n >> 40) & 0xff < 256 && (n
            >> 32) & 0xff < 256 && (n >> 24) & 0xff < 256 && (n >> 16) & 0xff < 256 && (n >> 8)
            & 0xff < 256 && n & 0xff < 256) by (bit_vector);
    }
    out.push(((n >> 56) & 0xff) as u8);
    out.push(((n >> 48) & 0xff) as u8);
    out.push(((n >> 40) & 0xff) as u8);
    out.push(((n >> 32) & 0xff) as u8);
    out.push(((n >> 24) & 0xff) as u8);
    out.push(((n >> 16) & 0xff) as u8);
    out.push(((n >> 8) & 0xff) as u8);
    out.push((n & 0xff) as u8);
    assert(out@ =~= old(out)@ + spec_u64_be(n));
}

/// Reads the two-byte big-endian length field at `pos`.
pub fn read_u16_be(bytes: &Vec<u8>, pos: usize) -> (n: u16)
    requires
        pos + 2 <= bytes.len(),
    ensures
        n == spec_u16_from_be(bytes@[pos as int], bytes@[pos as int + 1]),
{
    let b0 = bytes[pos];
    let b1 = bytes[pos + 1];
    (b0 as u16) << 8 | (b1 as u16)
}

/// Reads the eight-byte big-endian length field at `pos`.
pub fn read_u64_be(bytes: &Vec<u8>, pos: usize) -> (n: u64)
    requires
        pos + 8 <= bytes.len(),
    ensures
        n == spec_u64_from_be(bytes@.subrange(pos as int, pos as int + 8)),
{
    let b0 = bytes[pos];
    let b1 = bytes[pos + 1];
    let b2 = bytes[pos + 2];
    let b3 = bytes[pos + 3];
    let b4 = bytes[pos + 4];
    let b5 = bytes[pos + 5];
    let b6 = bytes[pos + 6];
    let b7 = bytes[pos + 7];
    proof {
        let s = bytes@.subrange(pos as int, pos as int + 8);
        assert(s =~= seq![b0, b1, b2, b3, b4, b5, b6, b7]);
    }
    (b0 as u64) << 56 | (b1 as u64) << 48 | (b2 as u64) << 40 | (b3 as u64) << 32 | (b4 as u64)
        << 24 | (b5 as u64) << 16 | (b6 as u64) << 8 | (b7 as u64)
}

} // verus!
