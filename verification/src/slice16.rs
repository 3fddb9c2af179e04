//! Sixteen bytes in one step: the register after a block of sixteen bytes
//! as a sum of sixteen table entries.

use vstd::prelude::*;
use crate::gf2::{lemma_shift_bits_add, lemma_shift_bits_linear, shift_bits};
use crate::model::register_after;
use crate::table::{lemma_shift_byte, step8, table_entry};

verus! {

/// The register after the first `n` bytes of `data` and `e` zero bits
/// more, as the moved starting register plus each byte moved through
/// what followed it.
pub open spec fn folded(c: u32, data: Seq<u8>, n: nat, e: nat) -> u32
    decreases n,
{
    if n == 0 {
        shift_bits(c, e)
    } else {
        folded(c, data, (n - 1) as nat, e + 8) ^ shift_bits(data[n - 1] as u32, e + 8)
    }
}

/// Byte `i` of the register, lowest first.
pub open spec fn register_byte(c: u32, i: u32) -> u32 {
    (c >> (8 * i) as u32) & 0xFF
}

/// The index into a table for a data byte that meets byte `i` of the
/// register.
pub open spec fn mixed_index(c: u32, b: u8, i: u32) -> nat {
    ((b as u32) ^ register_byte(c, i)) as nat
}

/// The slice-by-16 sum for the register `c` and the block `d`.
pub open spec fn block16(c: u32, d: Seq<u8>) -> u32 {
    table_entry(0, d[15] as nat) ^ table_entry(1, d[14] as nat) ^ table_entry(2, d[13] as nat)
        ^ table_entry(3, d[12] as nat) ^ table_entry(4, d[11] as nat) ^ table_entry(
        5,
        d[10] as nat,
    ) ^ table_entry(6, d[9] as nat) ^ table_entry(7, d[8] as nat) ^ table_entry(8, d[7] as nat)
        ^ table_entry(9, d[6] as nat) ^ table_entry(10, d[5] as nat) ^ table_entry(
        11,
        d[4] as nat,
    ) ^ table_entry(12, mixed_index(c, d[3], 3)) ^ table_entry(13, mixed_index(c, d[2], 2))
        ^ table_entry(14, mixed_index(c, d[1], 1)) ^ table_entry(15, mixed_index(c, d[0], 0))
}

proof fn lemma_folded(c: u32, data: Seq<u8>, n: nat, e: nat)
    requires
        n <= data.len(),
    ensures
        shift_bits(register_after(c, data.take(n as int)), e) == folded(c, data, n, e),
    decreases n,
{
    if n > 0 {
        let head = data.take(n as int);
        let x = register_after(c, data.take(n - 1));
        let b = data[n - 1] as u32;
        assert(head.drop_last() =~= data.take(n - 1));
        assert(head.last() == data[n - 1]);
        assert(register_after(c, head) == shift_bits(x ^ b, 8));
        lemma_shift_bits_add(x ^ b, 8, e);
        lemma_shift_bits_linear(x, b, e + 8);
        lemma_folded(c, data, (n - 1) as nat, e + 8);
    }
}

proof fn lemma_register_bytes(c: u32)
    by (bit_vector)
    ensures
        c == register_byte(c, 0) ^ (register_byte(c, 1) << 8) ^ (register_byte(c, 2) << 16) ^ (
        register_byte(c, 3) << 24),
        register_byte(c, 0) < 256,
        register_byte(c, 1) < 256,
        register_byte(c, 2) < 256,
        register_byte(c, 3) < 256,
{
}

proof fn lemma_step8_lowered(z: u32)
    by (bit_vector)
    requires
        z & 0xFF == 0,
    ensures
        step8(z) == z >> 8,
{
}

proof fn lemma_raised_shifts(y: u32)
    by (bit_vector)
    requires
        y < 256,
    ensures
        (y << 8) & 0xFF == 0,
        (y << 16) & 0xFF == 0,
        (y << 24) & 0xFF == 0,
        (y << 8) >> 8 == y,
        (y << 16) >> 8 == y << 8,
        (y << 24) >> 8 == y << 16,
{
}

/// A byte that stands `i` bytes up in the register comes down to the
/// lowest byte after `i` zero bytes.
proof fn lemma_raised_byte(y: u32)
    requires
        y < 256,
    ensures
        shift_bits(y << 8, 8) == y,
        shift_bits(y << 16, 16) == y,
        shift_bits(y << 24, 24) == y,
{
    lemma_raised_shifts(y);
    lemma_step8_lowered(y << 8);
    lemma_step8_lowered(y << 16);
    lemma_step8_lowered(y << 24);
    lemma_shift_byte(y << 8);
    lemma_shift_byte(y << 16);
    lemma_shift_byte(y << 24);
    lemma_shift_bits_add(y << 16, 8, 8);
    lemma_shift_bits_add(y << 24, 8, 8);
    lemma_shift_bits_add(y << 24, 16, 8);
}

/// Sixteen zero bytes take the register to the sum of the entries of
/// the four highest tables at its four bytes.
proof fn lemma_register_moved(c: u32)
    ensures
        shift_bits(c, 128) == table_entry(15, register_byte(c, 0) as nat) ^ table_entry(
            14,
            register_byte(c, 1) as nat,
        ) ^ table_entry(13, register_byte(c, 2) as nat) ^ table_entry(
            12,
            register_byte(c, 3) as nat,
        ),
{
    let c0 = register_byte(c, 0);
    let c1 = register_byte(c, 1);
    let c2 = register_byte(c, 2);
    let c3 = register_byte(c, 3);
    lemma_register_bytes(c);
    lemma_shift_bits_linear(c0 ^ (c1 << 8) ^ (c2 << 16), c3 << 24, 128);
    lemma_shift_bits_linear(c0 ^ (c1 << 8), c2 << 16, 128);
    lemma_shift_bits_linear(c0, c1 << 8, 128);
    lemma_raised_byte(c1);
    lemma_raised_byte(c2);
    lemma_raised_byte(c3);
    lemma_shift_bits_add(c1 << 8, 8, 120);
    lemma_shift_bits_add(c2 << 16, 16, 112);
    lemma_shift_bits_add(c3 << 24, 24, 104);
}

proof fn lemma_mixed_index(c: u32, b: u8, i: u32)
    by (bit_vector)
    requires
        i < 4,
    ensures
        (b as u32) ^ register_byte(c, i) < 256,
{
}

/// The entry at a mixed index is the sum of the entries at the data byte
/// and at the register byte.
proof fn lemma_mixed_entry(k: nat, c: u32, b: u8, i: u32)
    requires
        i < 4,
    ensures
        mixed_index(c, b, i) < 256,
        table_entry(k, mixed_index(c, b, i)) == table_entry(k, b as nat) ^ table_entry(
            k,
            register_byte(c, i) as nat,
        ),
{
    lemma_mixed_index(c, b, i);
    lemma_shift_bits_linear(b as u32, register_byte(c, i), 8 * (k + 1));
}

proof fn lemma_regroup(
    s0: u32,
    s1: u32,
    s2: u32,
    s3: u32,
    a0: u32,
    a1: u32,
    a2: u32,
    a3: u32,
    a4: u32,
    a5: u32,
    a6: u32,
    a7: u32,
    a8: u32,
    a9: u32,
    a10: u32,
    a11: u32,
    a12: u32,
    a13: u32,
    a14: u32,
    a15: u32,
)
    by (bit_vector)
    ensures
        (s0 ^ s1 ^ s2 ^ s3) ^ a0 ^ a1 ^ a2 ^ a3 ^ a4 ^ a5 ^ a6 ^ a7 ^ a8 ^ a9 ^ a10 ^ a11 ^ a12
            ^ a13 ^ a14 ^ a15 == a15 ^ a14 ^ a13 ^ a12 ^ a11 ^ a10 ^ a9 ^ a8 ^ a7 ^ a6 ^ a5 ^ a4
            ^ (a3 ^ s3) ^ (a2 ^ s2) ^ (a1 ^ s1) ^ (a0 ^ s0),
{
}

/// The register after a block of sixteen bytes is the slice-by-16 sum.
pub proof fn lemma_block16(c: u32, d: Seq<u8>)
    requires
        d.len() == 16,
    ensures
        register_after(c, d) == block16(c, d),
{
    assert(d.take(16) =~= d);
    lemma_folded(c, d, 16, 0);
    reveal_with_fuel(folded, 17);
    lemma_register_moved(c);
    lemma_mixed_entry(12, c, d[3], 3);
    lemma_mixed_entry(13, c, d[2], 2);
    lemma_mixed_entry(14, c, d[1], 1);
    lemma_mixed_entry(15, c, d[0], 0);
    lemma_regroup(
        table_entry(15, register_byte(c, 0) as nat),
        table_entry(14, register_byte(c, 1) as nat),
        table_entry(13, register_byte(c, 2) as nat),
        table_entry(12, register_byte(c, 3) as nat),
        table_entry(15, d[0] as nat),
        table_entry(14, d[1] as nat),
        table_entry(13, d[2] as nat),
        table_entry(12, d[3] as nat),
        table_entry(11, d[4] as nat),
        table_entry(10, d[5] as nat),
        table_entry(9, d[6] as nat),
        table_entry(8, d[7] as nat),
        table_entry(7, d[8] as nat),
        table_entry(6, d[9] as nat),
        table_entry(5, d[10] as nat),
        table_entry(4, d[11] as nat),
        table_entry(3, d[12] as nat),
        table_entry(2, d[13] as nat),
        table_entry(1, d[14] as nat),
        table_entry(0, d[15] as nat),
    );
}

} // verus!
