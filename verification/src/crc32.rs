//! CRC-32 (ISO/IEC 3309, reflected polynomial 0xEDB88320): byte-wise and
//! slice-by-16 updates, a running hasher, and the combination of the
//! checksums of two adjacent byte ranges.

use vstd::prelude::*;
use vstd::slice::slice_subrange;
use crate::gf2::{
    bit_step, gf2_matrix_square, gf2_matrix_times, lemma_represents_times, lemma_shift_bits_add,
    lemma_square_represents, represents, shift_bits, unit_vector, GF2_DIM, POLY,
};
use crate::model::{
    lemma_register_push, lemma_register_split, register_after, spec_checksum, spec_combine,
    spec_update,
};
use crate::slice16::{lemma_block16, register_byte};
use crate::table::{lemma_zero_byte, table_entry, Tables};

verus! {

/// The checksum of an empty stream.
pub const DEFAULT_INIT_STATE: u32 = 0;

/// Sixteen-byte steps taken in a row before the length is looked at again.
pub const UNROLL: usize = 4;

/// Bytes taken by one turn of the bulk loop.
pub const BYTES_AT_ONCE: usize = 64;

proof fn lemma_unit_rows(n: u32)
    by (bit_vector)
    requires
        n < 32,
    ensures
        n == 0 ==> bit_step(unit_vector(n)) == POLY,
        n > 0 ==> bit_step(unit_vector(n)) == unit_vector((n - 1) as u32),
        n < 31 ==> unit_vector(n) << 1 == unit_vector((n + 1) as u32),
        unit_vector(0) == 1,
{
}

proof fn lemma_halve(len: u64)
    by (bit_vector)
    ensures
        len == 2 * (len >> 1) + (len & 1),
        len & 1 == 0 || len & 1 == 1,
        len > 0 ==> (len >> 1) < len,
{
}

proof fn lemma_consume_bit(done: nat, len: nat, unit: nat, total: nat, half: nat, bit: nat)
    by (nonlinear_arith)
    requires
        done + len * unit == total,
        len == 2 * half + bit,
        bit == 0 || bit == 1,
    ensures
        bit == 0 ==> done + half * (2 * unit) == total,
        bit == 1 ==> done + unit + half * (2 * unit) == total,
{
}

/// Combines the checksum `crc1` of a byte range with the checksum `crc2`
/// of the `len2` bytes that follow it into the checksum of both ranges
/// together.
///
/// The two ranges must be adjacent and in this order; nothing here can
/// tell whether they are.
pub fn combine(crc1: u32, crc2: u32, len2: u64) -> (crc: u32)
    ensures
        crc == spec_combine(crc1, crc2, len2 as nat),
{
    let mut even = [0u32; GF2_DIM];
    let mut odd = [0u32; GF2_DIM];

    if len2 == 0 {
        return crc1;
    }
    // the operator for one zero bit
    odd[0] = POLY;
    let mut row: u32 = 1;
    let mut n: usize = 1;
    proof {
        lemma_unit_rows(0);
        reveal_with_fuel(shift_bits, 2);
    }
    while n < GF2_DIM
        invariant
            1 <= n <= 32,
            n < 32 ==> row == unit_vector((n - 1) as u32),
            forall|i: int| 0 <= i < n ==> #[trigger] odd@[i] == shift_bits(unit_vector(i as u32), 1),
        decreases 32 - n,
    {
        proof {
            lemma_unit_rows(n as u32);
            lemma_unit_rows((n - 1) as u32);
            reveal_with_fuel(shift_bits, 2);
        }
        odd[n] = row;
        row <<= 1;
        n += 1;
    }
    assert(represents(odd@, 1));
    // two zero bits, then four
    gf2_matrix_square(&mut even, &odd);
    proof {
        lemma_square_represents(even@, odd@, 1);
    }
    gf2_matrix_square(&mut odd, &even);
    proof {
        lemma_square_represents(odd@, even@, 2);
    }

    let mut crc: u32 = crc1;
    let mut len: u64 = len2;
    let ghost mut done: nat = 0;
    let ghost mut unit: nat = 1;
    // each turn squares the operator and applies it where the bit of the
    // length is set; `odd` and `even` take turns
    loop
        invariant_except_break
            len > 0,
            represents(odd@, 4 * unit),
        invariant
            unit > 0,
            done + len * unit == len2,
            crc == shift_bits(crc1, 8 * done),
        ensures
            len == 0,
            done == len2,
            crc == shift_bits(crc1, 8 * done),
        decreases len,
    {
        gf2_matrix_square(&mut even, &odd);
        proof {
            lemma_square_represents(even@, odd@, 4 * unit);
            lemma_halve(len);
            lemma_consume_bit(done, len as nat, unit, len2 as nat, (len >> 1) as nat, (len & 1) as nat);
        }
        if len & 1 == 1 {
            proof {
                lemma_represents_times(even@, 8 * unit, crc);
                lemma_shift_bits_add(crc1, 8 * done, 8 * unit);
                done = done + unit;
            }
            crc = gf2_matrix_times(&even, crc);
        }
        len >>= 1;
        proof {
            unit = 2 * unit;
        }
        if len == 0 {
            assert(len * unit == 0) by (nonlinear_arith)
                requires
                    len == 0,
            ;
            break;
        }
        gf2_matrix_square(&mut odd, &even);
        proof {
            lemma_square_represents(odd@, even@, 4 * unit);
            lemma_halve(len);
            lemma_consume_bit(done, len as nat, unit, len2 as nat, (len >> 1) as nat, (len & 1) as nat);
        }
        if len & 1 == 1 {
            proof {
                lemma_represents_times(odd@, 8 * unit, crc);
                lemma_shift_bits_add(crc1, 8 * done, 8 * unit);
                done = done + unit;
            }
            crc = gf2_matrix_times(&odd, crc);
        }
        len >>= 1;
        proof {
            unit = 2 * unit;
        }
        if len == 0 {
            assert(len * unit == 0) by (nonlinear_arith)
                requires
                    len == 0,
            ;
            break;
        }
    }
    crc ^ crc2
}

proof fn lemma_byte_index(c: u32, b: u8)
    by (bit_vector)
    ensures
        (((c as u8) ^ b) as u32) == (c ^ (b as u32)) & 0xFF,
        (c ^ (b as u32)) >> 8 == c >> 8,
{
}

proof fn lemma_xor_commutes(a: u32, b: u32)
    by (bit_vector)
    ensures
        a ^ b == b ^ a,
        !!a == a,
{
}

proof fn lemma_mixed_in_range(c: u32, b: u8)
    by (bit_vector)
    ensures
        (b as u32) ^ ((c >> 24) & 0xFF) < 256,
        (b as u32) ^ ((c >> 16) & 0xFF) < 256,
        (b as u32) ^ ((c >> 8) & 0xFF) < 256,
        (b as u32) ^ (c & 0xFF) < 256,
        (c >> 24) & 0xFF == register_byte(c, 3),
        (c >> 16) & 0xFF == register_byte(c, 2),
        (c >> 8) & 0xFF == register_byte(c, 1),
        c & 0xFF == register_byte(c, 0),
{
}

impl Tables {
    /// Continues the checksum `prev` with the bytes of `buf`, one table
    /// lookup for each byte.
    pub fn update_slow(&self, prev: u32, buf: &[u8]) -> (crc: u32)
        ensures
            crc == spec_update(prev, buf@),
    {
        let mut crc: u32 = !prev;
        let mut i: usize = 0;
        while i < buf.len()
            invariant
                i <= buf@.len(),
                crc == register_after(!prev, buf@.take(i as int)),
            decreases buf@.len() - i,
        {
            let byte: u8 = buf[i];
            proof {
                lemma_byte_index(crc, byte);
                lemma_zero_byte(crc ^ (byte as u32));
                lemma_xor_commutes(
                    crc >> 8,
                    table_entry(0, ((crc ^ (byte as u32)) & 0xFF) as nat),
                );
                lemma_register_push(!prev, buf@.take(i as int), byte);
                assert(buf@.take(i as int).push(byte) =~= buf@.take(i + 1));
            }
            crc = self.entry(0, ((crc as u8) ^ byte) as usize) ^ (crc >> 8);
            i += 1;
        }
        proof {
            assert(buf@.take(i as int) =~= buf@);
        }
        !crc
    }

    /// Continues the checksum `prev` with the bytes of `buf`, sixteen
    /// bytes to a step while at least sixty-four remain, and the rest byte
    /// by byte.
    pub fn update_fast_16(&self, prev: u32, buf: &[u8]) -> (crc: u32)
        ensures
            crc == spec_update(prev, buf@),
    {
        let mut crc: u32 = !prev;
        let mut pos: usize = 0;
        while buf.len() - pos >= BYTES_AT_ONCE
            invariant
                pos <= buf@.len(),
                crc == register_after(!prev, buf@.take(pos as int)),
            decreases buf@.len() - pos,
        {
            let ghost start: usize = pos;
            let mut round: usize = 0;
            while round < UNROLL
                invariant
                    round <= 4,
                    start + 64 <= buf@.len() <= usize::MAX,
                    pos == start + 16 * round,
                    crc == register_after(!prev, buf@.take(pos as int)),
                decreases 4 - round,
            {
                proof {
                    let block = buf@.subrange(pos as int, pos + 16);
                    lemma_block16(crc, block);
                    lemma_mixed_in_range(crc, buf@[pos + 3]);
                    lemma_mixed_in_range(crc, buf@[pos + 2]);
                    lemma_mixed_in_range(crc, buf@[pos + 1]);
                    lemma_mixed_in_range(crc, buf@[pos + 0]);
                    lemma_register_split(!prev, buf@.take(pos as int), block);
                    assert(buf@.take(pos as int) + block =~= buf@.take(pos + 16));
                }
                crc = self.entry(0x0, buf[pos + 0xf] as usize)
                    ^ self.entry(0x1, buf[pos + 0xe] as usize)
                    ^ self.entry(0x2, buf[pos + 0xd] as usize)
                    ^ self.entry(0x3, buf[pos + 0xc] as usize)
                    ^ self.entry(0x4, buf[pos + 0xb] as usize)
                    ^ self.entry(0x5, buf[pos + 0xa] as usize)
                    ^ self.entry(0x6, buf[pos + 0x9] as usize)
                    ^ self.entry(0x7, buf[pos + 0x8] as usize)
                    ^ self.entry(0x8, buf[pos + 0x7] as usize)
                    ^ self.entry(0x9, buf[pos + 0x6] as usize)
                    ^ self.entry(0xa, buf[pos + 0x5] as usize)
                    ^ self.entry(0xb, buf[pos + 0x4] as usize)
                    ^ self.entry(0xc, ((buf[pos + 0x3] as u32) ^ ((crc >> 0x18) & 0xFF)) as usize)
                    ^ self.entry(0xd, ((buf[pos + 0x2] as u32) ^ ((crc >> 0x10) & 0xFF)) as usize)
                    ^ self.entry(0xe, ((buf[pos + 0x1] as u32) ^ ((crc >> 0x08) & 0xFF)) as usize)
                    ^ self.entry(0xf, ((buf[pos + 0x0] as u32) ^ (crc & 0xFF)) as usize);
                pos += 16;
                round += 1;
            }
        }
        let rest = slice_subrange(buf, pos, buf.len());
        proof {
            lemma_xor_commutes(crc, crc);
            lemma_register_split(!prev, buf@.take(pos as int), rest@);
            assert(buf@.take(pos as int) + rest@ =~= buf@);
        }
        self.update_slow(!crc, rest)
    }
}

/// Continues the checksum `prev` with the bytes of `buf`, sixteen bytes to
/// a step. The tables are built for this one call.
pub fn update_fast_16(prev: u32, buf: &[u8]) -> (crc: u32)
    ensures
        crc == spec_update(prev, buf@),
{
    let tables = Tables::new();
    tables.update_fast_16(prev, buf)
}

/// Continues the checksum `prev` with the bytes of `buf`, byte by byte.
/// The tables are built for this one call.
pub fn update_slow(prev: u32, buf: &[u8]) -> (crc: u32)
    ensures
        crc == spec_update(prev, buf@),
{
    let tables = Tables::new();
    tables.update_slow(prev, buf)
}

/// What a hasher stands for: the checksum so far and the number of bytes
/// that went into it.
pub ghost struct HasherState {
    pub value: u32,
    pub bytes: nat,
}

impl HasherState {
    /// The state of a hasher that has seen no bytes.
    pub open spec fn fresh() -> HasherState {
        HasherState { value: 0, bytes: 0 }
    }
}

/// A running CRC-32 over the bytes appended so far.
pub struct Hasher {
    amount: u64,
    state: u32,
    tables: Tables,
}

impl View for Hasher {
    type V = HasherState;

    closed spec fn view(&self) -> HasherState {
        HasherState { value: self.state, bytes: self.amount as nat }
    }
}

impl Clone for Hasher {
    /// A second hasher that stands where this one stands.
    fn clone(&self) -> (copy: Self)
        ensures
            copy@ == self@,
    {
        Self { amount: self.amount, state: self.state, tables: self.tables.clone() }
    }
}

impl Hasher {
    /// A hasher that has seen no bytes.
    pub fn new() -> (hasher: Self)
        ensures
            hasher@ == HasherState::fresh(),
    {
        Self { amount: 0, state: DEFAULT_INIT_STATE, tables: Tables::new() }
    }

    /// Sets the checksum so far to `seed` and leaves the count of bytes as
    /// it is.
    pub fn seed(&mut self, seed: u32)
        ensures
            final(self)@ == (HasherState { value: seed, bytes: old(self)@.bytes }),
    {
        self.state = seed;
    }

    /// Continues the stream with the bytes of `buf`.
    pub fn append(&mut self, buf: &[u8])
        requires
            old(self)@.bytes + buf@.len() <= u64::MAX,
        ensures
            final(self)@ == (HasherState {
                value: spec_update(old(self)@.value, buf@),
                bytes: old(self)@.bytes + buf@.len(),
            }),
    {
        self.amount += buf.len() as u64;
        self.state = self.tables.update_fast_16(self.state, buf);
    }

    /// The checksum of the bytes so far.
    pub fn checksum(&self) -> (crc: u32)
        ensures
            crc == self@.value,
    {
        self.state
    }

    /// Forgets everything: the hasher stands where a new one stands, and
    /// whatever is done with it from here on gives what it gives with a
    /// new one.
    pub fn reset(&mut self)
        ensures
            final(self)@ == HasherState::fresh(),
    {
        self.amount = 0;
        self.state = 0;
    }

    /// Continues the stream with the bytes that `other` has seen, without
    /// reading them again.
    ///
    /// The bytes of `other` must be the ones that follow the bytes of
    /// `self`; nothing here can tell whether they are.
    pub fn combine(&mut self, other: &Self)
        requires
            old(self)@.bytes + other@.bytes <= u64::MAX,
        ensures
            final(self)@ == (HasherState {
                value: spec_combine(old(self)@.value, other@.value, other@.bytes),
                bytes: old(self)@.bytes + other@.bytes,
            }),
    {
        self.amount += other.amount;
        self.state = combine(self.checksum(), other.checksum(), other.amount);
    }
}

/// The CRC-32 checksum of `buf`.
pub fn hash(buf: &[u8]) -> (crc: u32)
    ensures
        crc == spec_checksum(buf@),
{
    let mut h = Hasher::new();
    assert(buf@.len() == buf.len());
    h.append(buf);
    h.checksum()
}

} // verus!
