//! What a checksum is: the CRC-32 of a byte sequence in terms of the shift
//! register, and the laws that follow.

use vstd::prelude::*;
use crate::gf2::{lemma_shift_bits_add, lemma_shift_bits_linear, shift_bits};

verus! {

/// The register after the byte `b` has been fed into it.
pub open spec fn byte_step(c: u32, b: u8) -> u32 {
    shift_bits(c ^ (b as u32), 8)
}

/// The register after all of `data` has been fed into it, first byte first.
pub open spec fn register_after(c: u32, data: Seq<u8>) -> u32
    decreases data.len(),
{
    if data.len() == 0 {
        c
    } else {
        byte_step(register_after(c, data.drop_last()), data.last())
    }
}

/// The checksum of a stream that continues with `data`, where `prev` is
/// the checksum of what came before.
pub open spec fn spec_update(prev: u32, data: Seq<u8>) -> u32 {
    !register_after(!prev, data)
}

/// The CRC-32 checksum of `data`.
pub open spec fn spec_checksum(data: Seq<u8>) -> u32 {
    spec_update(0, data)
}

/// The checksum of a stream with checksum `crc1` followed by `len2` bytes
/// whose own checksum is `crc2`.
pub open spec fn spec_combine(crc1: u32, crc2: u32, len2: nat) -> u32 {
    if len2 == 0 {
        crc1
    } else {
        shift_bits(crc1, 8 * len2) ^ crc2
    }
}

proof fn lemma_not_not(a: u32)
    by (bit_vector)
    ensures
        !!a == a,
        !a == a ^ 0xFFFF_FFFF,
{
}

proof fn lemma_xor_regroup(a: u32, b: u32, c: u32)
    by (bit_vector)
    ensures
        (a ^ b) ^ c == (a ^ c) ^ b,
        (a ^ b) ^ c == a ^ (b ^ c),
        a ^ (b ^ a) == b,
        !(a ^ b) == b ^ !a,
{
}

proof fn lemma_combine_algebra(r: u32, x: u32, m: u32)
    by (bit_vector)
    ensures
        !0u32 == 0xFFFF_FFFFu32,
        0xFFFF_FFFFu32 ^ !r == r,
        m ^ !x == !(x ^ m),
{
}

/// Feeding one more byte extends the register by one step.
pub proof fn lemma_register_push(c: u32, data: Seq<u8>, b: u8)
    ensures
        register_after(c, data.push(b)) == byte_step(register_after(c, data), b),
{
    assert(data.push(b).drop_last() =~= data);
}

/// Feeding `a` and then `b` is feeding `a + b`.
pub proof fn lemma_register_split(c: u32, a: Seq<u8>, b: Seq<u8>)
    ensures
        register_after(c, a + b) == register_after(register_after(c, a), b),
    decreases b.len(),
{
    if b.len() == 0 {
        assert(a + b =~= a);
    } else {
        lemma_register_split(c, a, b.drop_last());
        assert((a + b).drop_last() =~= a + b.drop_last());
    }
}

/// A change of the starting register passes through the data as through
/// as many zero bytes.
pub proof fn lemma_register_affine(c: u32, d: u32, data: Seq<u8>)
    ensures
        register_after(c ^ d, data) == register_after(c, data) ^ shift_bits(d, 8 * data.len()),
    decreases data.len(),
{
    if data.len() == 0 {
    } else {
        let rest = data.drop_last();
        let b = data.last() as u32;
        let r = register_after(c, rest);
        let s = shift_bits(d, 8 * rest.len());
        lemma_register_affine(c, d, rest);
        lemma_xor_regroup(r, s, b);
        lemma_shift_bits_linear(r ^ b, s, 8);
        lemma_shift_bits_add(d, 8 * rest.len(), 8);
    }
}

/// The checksum of nothing is zero, and appending nothing changes no
/// checksum.
pub proof fn law_empty(prev: u32)
    ensures
        spec_checksum(Seq::<u8>::empty()) == 0,
        spec_update(prev, Seq::<u8>::empty()) == prev,
{
    lemma_not_not(prev);
    lemma_not_not(0);
}

/// A stream may be cut anywhere: updating with the first part and then
/// with the second gives the checksum of the whole.
pub proof fn law_update_split(prev: u32, a: Seq<u8>, b: Seq<u8>)
    ensures
        spec_update(prev, a + b) == spec_update(spec_update(prev, a), b),
{
    lemma_register_split(!prev, a, b);
    lemma_not_not(register_after(!prev, a));
}

/// Cutting `data` at any place `k` gives the same checksum as taking it
/// whole.
pub proof fn law_update_at(prev: u32, data: Seq<u8>, k: int)
    requires
        0 <= k <= data.len(),
    ensures
        spec_update(prev, data) == spec_update(
            spec_update(prev, data.subrange(0, k)),
            data.subrange(k, data.len() as int),
        ),
{
    assert(data =~= data.subrange(0, k) + data.subrange(k, data.len() as int));
    law_update_split(prev, data.subrange(0, k), data.subrange(k, data.len() as int));
}

/// Hashing a tag and its payload as one stream is seeding with the
/// checksum of the tag and then appending the payload.
pub proof fn law_seed_chain(tag: Seq<u8>, payload: Seq<u8>)
    ensures
        spec_update(spec_checksum(tag), payload) == spec_checksum(tag + payload),
{
    law_update_split(0, tag, payload);
}

/// Combining the checksums of two adjacent ranges gives the checksum of
/// their concatenation.
pub proof fn law_combine(a: Seq<u8>, b: Seq<u8>)
    ensures
        spec_combine(spec_checksum(a), spec_checksum(b), b.len()) == spec_checksum(a + b),
{
    if b.len() == 0 {
        assert(a + b =~= a);
    } else {
        let ones: u32 = 0xFFFF_FFFF;
        let r = register_after(ones, a);
        let rb = register_after(ones, b);
        let moved = shift_bits(!r, 8 * b.len());
        lemma_combine_algebra(r, rb, moved);
        lemma_register_split(ones, a, b);
        lemma_register_affine(ones, !r, b);
        assert(register_after(r, b) == rb ^ moved);
    }
}

} // verus!
