//! Hexadecimal encoding and decoding for the monitor's wire format.
//!
//! Commands address memory in ASCII hexadecimal and memory-dump responses
//! carry two lowercase hexadecimal digits per byte.  The encoders are
//! verified against the spec-level digit functions below; decoding reuses
//! the `hex` crate through a trusted wrapper.

use vstd::prelude::*;

use crate::M65Error;

verus! {

/// The lowercase hexadecimal digit for a value below 16.
pub open spec fn spec_hex_digit(v: u8) -> u8
    recommends
        v < 16,
{
    if v < 10 {
        (0x30 + v) as u8
    } else {
        (0x61 + (v - 10)) as u8
    }
}

/// Whether a byte is an ASCII hexadecimal digit (either case).
pub open spec fn is_hex_digit(c: u8) -> bool {
    (0x30 <= c && c <= 0x39) || (0x61 <= c && c <= 0x66) || (0x41 <= c && c <= 0x46)
}

/// The value of an ASCII hexadecimal digit.
pub open spec fn spec_hex_val(c: u8) -> u8
    recommends
        is_hex_digit(c),
{
    if 0x30 <= c && c <= 0x39 {
        (c - 0x30) as u8
    } else if 0x61 <= c && c <= 0x66 {
        (c - 0x61 + 10) as u8
    } else if 0x41 <= c && c <= 0x46 {
        (c - 0x41 + 10) as u8
    } else {
        0
    }
}

/// The two lowercase digits encoding one byte.
pub open spec fn spec_hex_pair(b: u8) -> Seq<u8> {
    seq![spec_hex_digit(b / 16), spec_hex_digit(b % 16)]
}

/// The lowercase hexadecimal encoding of a byte sequence, two digits per
/// byte, most significant digit first.
pub open spec fn spec_hex_of_bytes(bs: Seq<u8>) -> Seq<u8> {
    Seq::new(
        2 * bs.len(),
        |i: int|
            if i % 2 == 0 {
                spec_hex_digit(bs[i / 2] / 16)
            } else {
                spec_hex_digit(bs[i / 2] % 16)
            },
    )
}

/// Whether a byte sequence is a well-formed hexadecimal string: even
/// length, hexadecimal digits only.
pub open spec fn hex_seq_valid(s: Seq<u8>) -> bool {
    s.len() % 2 == 0 && forall|i: int| 0 <= i < s.len() ==> is_hex_digit(#[trigger] s[i])
}

/// The bytes a hexadecimal string decodes to, one byte per digit pair.
pub open spec fn spec_hex_decode(s: Seq<u8>) -> Seq<u8>
    recommends
        hex_seq_valid(s),
{
    Seq::new(s.len() / 2, |i: int| (16 * spec_hex_val(s[2 * i]) + spec_hex_val(s[2 * i + 1])) as u8)
}

/// Decoding inverts encoding: the hexadecimal form of a byte sequence
/// decodes to the sequence itself.
pub proof fn lemma_hex_decode_of_encode(bs: Seq<u8>)
    ensures
        spec_hex_decode(spec_hex_of_bytes(bs)) == bs,
{
    let enc = spec_hex_of_bytes(bs);
    assert forall|i: int| 0 <= i < bs.len() implies spec_hex_decode(enc)[i] == bs[i] by {
        let b = bs[i];
        assert(enc[2 * i] == spec_hex_digit(b / 16));
        assert(enc[2 * i + 1] == spec_hex_digit(b % 16));
        assert(spec_hex_val(spec_hex_digit(b / 16)) == b / 16);
        assert(spec_hex_val(spec_hex_digit(b % 16)) == b % 16);
    }
    assert(spec_hex_decode(enc) =~= bs);
}

/// The lowercase hexadecimal digit for a value below 16.
pub fn hex_digit(v: u8) -> (r: u8)
    requires
        v < 16,
    ensures
        r == spec_hex_digit(v),
{
    if v < 10 {
        0x30 + v
    } else {
        0x61 + (v - 10)
    }
}

/// Append the two-digit encoding of one byte to a buffer.
pub fn push_hex_pair(out: &mut Vec<u8>, b: u8)
    ensures
        final(out)@ == old(out)@ + spec_hex_pair(b),
{
    out.push(hex_digit(b / 16));
    out.push(hex_digit(b % 16));
    assert(final(out)@ =~= old(out)@ + spec_hex_pair(b));
}

/// The lowercase hexadecimal encoding of a byte sequence, as a monitor
/// memory dump emits it: two digits per byte.
pub fn encode_hex_pairs(bytes: &[u8]) -> (r: Vec<u8>)
    ensures
        r@ == spec_hex_of_bytes(bytes@),
{
    let mut out: Vec<u8> = Vec::new();
    let mut i: usize = 0;
    while i < bytes.len()
        invariant
            i <= bytes@.len(),
            out@ == spec_hex_of_bytes(bytes@.take(i as int)),
        decreases bytes@.len() - i,
    {
        proof {
            assert(spec_hex_of_bytes(bytes@.take(i + 1)) =~= spec_hex_of_bytes(
                bytes@.take(i as int),
            ) + spec_hex_pair(bytes@[i as int]));
        }
        push_hex_pair(&mut out, bytes[i]);
        i += 1;
    }
    proof {
        assert(bytes@.take(bytes@.len() as int) =~= bytes@);
    }
    out
}

/// The seven-digit lowercase hexadecimal form of a dump address,
/// most significant nibble first.
pub open spec fn spec_hex7(a: u32) -> Seq<u8>
    recommends
        a < 0x10000000,
{
    seq![
        spec_hex_digit(((a >> 24u32) & 0xf) as u8),
        spec_hex_digit(((a >> 20u32) & 0xf) as u8),
        spec_hex_digit(((a >> 16u32) & 0xf) as u8),
        spec_hex_digit(((a >> 12u32) & 0xf) as u8),
        spec_hex_digit(((a >> 8u32) & 0xf) as u8),
        spec_hex_digit(((a >> 4u32) & 0xf) as u8),
        spec_hex_digit((a & 0xf) as u8),
    ]
}

/// The minimal-width lowercase hexadecimal form of a value, as `%x`
/// formatting produces it.
pub open spec fn spec_hex_min(a: u32) -> Seq<u8>
    decreases a,
{
    if a < 16 {
        seq![spec_hex_digit((a % 16) as u8)]
    } else {
        spec_hex_min(a / 16).push(spec_hex_digit((a % 16) as u8))
    }
}

/// Distinct values below 16 encode to distinct digits.
pub proof fn lemma_hex_digit_injective(v1: u8, v2: u8)
    requires
        v1 < 16,
        v2 < 16,
        spec_hex_digit(v1) == spec_hex_digit(v2),
    ensures
        v1 == v2,
{
}

/// All nibbles of a 32-bit value are below 16.
proof fn lemma_nibble_bound(a: u32)
    ensures
        (a >> 24u32) & 0xf < 16,
        (a >> 20u32) & 0xf < 16,
        (a >> 16u32) & 0xf < 16,
        (a >> 12u32) & 0xf < 16,
        (a >> 8u32) & 0xf < 16,
        (a >> 4u32) & 0xf < 16,
        a & 0xf < 16,
{
    assert((a >> 24u32) & 0xf < 16 && (a >> 20u32) & 0xf < 16 && (a >> 16u32) & 0xf < 16 && (a
        >> 12u32) & 0xf < 16 && (a >> 8u32) & 0xf < 16 && (a >> 4u32) & 0xf < 16 && a & 0xf
        < 16) by (bit_vector);
}

/// The seven-digit address encoding is injective on the 28-bit domain.
pub proof fn lemma_hex7_injective(a: u32, b: u32)
    requires
        a < 0x10000000,
        b < 0x10000000,
        spec_hex7(a) == spec_hex7(b),
    ensures
        a == b,
{
    lemma_nibble_bound(a);
    lemma_nibble_bound(b);
    assert(spec_hex7(a)[0] == spec_hex7(b)[0]);
    assert(spec_hex7(a)[1] == spec_hex7(b)[1]);
    assert(spec_hex7(a)[2] == spec_hex7(b)[2]);
    assert(spec_hex7(a)[3] == spec_hex7(b)[3]);
    assert(spec_hex7(a)[4] == spec_hex7(b)[4]);
    assert(spec_hex7(a)[5] == spec_hex7(b)[5]);
    assert(spec_hex7(a)[6] == spec_hex7(b)[6]);
    lemma_hex_digit_injective(((a >> 24u32) & 0xf) as u8, ((b >> 24u32) & 0xf) as u8);
    lemma_hex_digit_injective(((a >> 20u32) & 0xf) as u8, ((b >> 20u32) & 0xf) as u8);
    lemma_hex_digit_injective(((a >> 16u32) & 0xf) as u8, ((b >> 16u32) & 0xf) as u8);
    lemma_hex_digit_injective(((a >> 12u32) & 0xf) as u8, ((b >> 12u32) & 0xf) as u8);
    lemma_hex_digit_injective(((a >> 8u32) & 0xf) as u8, ((b >> 8u32) & 0xf) as u8);
    lemma_hex_digit_injective(((a >> 4u32) & 0xf) as u8, ((b >> 4u32) & 0xf) as u8);
    lemma_hex_digit_injective((a & 0xf) as u8, (b & 0xf) as u8);
    assert(((a >> 24u32) & 0xf == (b >> 24u32) & 0xf && (a >> 20u32) & 0xf == (b >> 20u32) & 0xf
        && (a >> 16u32) & 0xf == (b >> 16u32) & 0xf && (a >> 12u32) & 0xf == (b >> 12u32) & 0xf
        && (a >> 8u32) & 0xf == (b >> 8u32) & 0xf && (a >> 4u32) & 0xf == (b >> 4u32) & 0xf && a
        & 0xf == b & 0xf && a < 0x10000000 && b < 0x10000000) ==> a == b) by (bit_vector);
}

/// Every character of a minimal-width encoding is a hexadecimal digit.
pub proof fn lemma_hex_min_digits(a: u32)
    ensures
        spec_hex_min(a).len() >= 1,
        forall|i: int|
            0 <= i < spec_hex_min(a).len() ==> is_hex_digit(#[trigger] spec_hex_min(a)[i]),
    decreases a,
{
    if a >= 16 {
        lemma_hex_min_digits(a / 16);
        assert forall|i: int| 0 <= i < spec_hex_min(a).len() implies is_hex_digit(
            #[trigger] spec_hex_min(a)[i],
        ) by {
            if i < spec_hex_min(a / 16).len() {
                assert(spec_hex_min(a)[i] == spec_hex_min(a / 16)[i]);
            }
        }
    }
}

/// The minimal-width encoding is injective.
pub proof fn lemma_hex_min_injective(a: u32, b: u32)
    requires
        spec_hex_min(a) == spec_hex_min(b),
    ensures
        a == b,
    decreases a,
{
    if a < 16 && b < 16 {
        assert(spec_hex_min(a)[0] == spec_hex_digit((a % 16) as u8));
        assert(spec_hex_min(b)[0] == spec_hex_digit((b % 16) as u8));
        lemma_hex_digit_injective((a % 16) as u8, (b % 16) as u8);
    } else if a < 16 {
        lemma_hex_min_digits(b / 16);
        assert(spec_hex_min(b).len() >= 2);
    } else if b < 16 {
        lemma_hex_min_digits(a / 16);
        assert(spec_hex_min(a).len() >= 2);
    } else {
        let pa = spec_hex_min(a / 16);
        let pb = spec_hex_min(b / 16);
        assert(pa =~= spec_hex_min(a).drop_last());
        assert(pb =~= spec_hex_min(b).drop_last());
        lemma_hex_min_injective(a / 16, b / 16);
        assert(spec_hex_min(a).last() == spec_hex_digit((a % 16) as u8));
        assert(spec_hex_min(b).last() == spec_hex_digit((b % 16) as u8));
        lemma_hex_digit_injective((a % 16) as u8, (b % 16) as u8);
        assert(a == 16 * (a / 16) + a % 16);
    }
}

/// The seven-digit dump-address encoding of a 28-bit address.
pub fn encode_hex7(a: u32) -> (r: Vec<u8>)
    requires
        a < 0x10000000,
    ensures
        r@ == spec_hex7(a),
{
    proof {
        lemma_nibble_bound(a);
    }
    let mut out: Vec<u8> = Vec::new();
    out.push(hex_digit(((a >> 24u32) & 0xf) as u8));
    out.push(hex_digit(((a >> 20u32) & 0xf) as u8));
    out.push(hex_digit(((a >> 16u32) & 0xf) as u8));
    out.push(hex_digit(((a >> 12u32) & 0xf) as u8));
    out.push(hex_digit(((a >> 8u32) & 0xf) as u8));
    out.push(hex_digit(((a >> 4u32) & 0xf) as u8));
    out.push(hex_digit((a & 0xf) as u8));
    proof {
        assert(out@ =~= spec_hex7(a));
    }
    out
}

/// The minimal-width hexadecimal encoding of a value.
pub fn encode_hex_min(a: u32) -> (r: Vec<u8>)
    ensures
        r@ == spec_hex_min(a),
    decreases a,
{
    if a < 16 {
        let mut out: Vec<u8> = Vec::new();
        out.push(hex_digit((a % 16) as u8));
        proof {
            assert(out@ =~= spec_hex_min(a));
        }
        out
    } else {
        let mut out = encode_hex_min(a / 16);
        out.push(hex_digit((a % 16) as u8));
        out
    }
}

/// Decode a hexadecimal string into raw bytes.
///
/// Relies on `hex::decode`: it accepts an even-length string of
/// hexadecimal digits of either case and turns each digit pair into one
/// byte, most significant digit first; an odd length or any other
/// character is an error.
#[verifier::external_body]
pub fn decode_hex_bytes(data: &[u8]) -> (r: Result<Vec<u8>, M65Error>)
    ensures
        r is Ok <==> hex_seq_valid(data@),
        r is Ok ==> r->Ok_0@ == spec_hex_decode(data@),
        r is Err ==> r->Err_0 == M65Error::Protocol,
{
    match hex::decode(data) {
        Ok(v) => Ok(v),
        Err(_) => Err(M65Error::Protocol),
    }
}

} // verus!
