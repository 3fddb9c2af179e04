//! The sixteen lookup tables of the slice-by-16 update, built once and
//! read many times.

use vstd::prelude::*;
use crate::gf2::{bit_step, lemma_shift_bits_add, shift_bits, POLY};

verus! {

/// Number of tables.
pub const TABLE_COUNT: usize = 16;

/// Number of entries of each table.
pub const TABLE_SIZE: usize = 256;

/// Entry `i` of table `k`: the register that held `i` after `k + 1` zero
/// bytes.
pub open spec fn table_entry(k: nat, i: nat) -> u32 {
    shift_bits(i as u32, 8 * (k + 1))
}

/// The sixteen tables, one after the other in one allocation.
pub struct Tables {
    words: Vec<u32>,
}

/// Eight steps of the shift register, written out.
pub open spec fn step8(c: u32) -> u32 {
    bit_step(bit_step(bit_step(bit_step(bit_step(bit_step(bit_step(bit_step(c))))))))
}

pub proof fn lemma_shift_byte(c: u32)
    ensures
        shift_bits(c, 8) == step8(c),
{
    reveal_with_fuel(shift_bits, 9);
}

proof fn lemma_step8_split(c: u32)
    by (bit_vector)
    ensures
        step8(c) == (c >> 8) ^ step8(c & 0xFF),
        c & 0xFF < 256,
{
}

/// A zero byte moves the register down by eight bits and brings in the
/// table entry of the eight bits that fall out.
pub proof fn lemma_zero_byte(c: u32)
    ensures
        c & 0xFF < 256,
        shift_bits(c, 8) == (c >> 8) ^ table_entry(0, (c & 0xFF) as nat),
{
    lemma_shift_byte(c);
    lemma_shift_byte(c & 0xFF);
    lemma_step8_split(c);
}

impl Tables {
    /// Every word is the entry that its place calls for.
    #[verifier::type_invariant]
    pub closed spec fn wf(&self) -> bool {
        &&& self.words@.len() == 4096
        &&& forall|m: int|
            0 <= m < 4096 ==> #[trigger] self.words@[m] == table_entry(
                (m / 256) as nat,
                (m % 256) as nat,
            )
    }

    /// Builds the tables from the generator polynomial.
    pub fn new() -> (tables: Self)
        ensures
            tables.wf(),
    {
        let mut words: Vec<u32> = Vec::with_capacity(TABLE_COUNT * TABLE_SIZE);
        let mut i: u32 = 0;
        while i < 256
            invariant
                i <= 256,
                words@.len() == i,
                forall|m: int| 0 <= m < i ==> #[trigger] words@[m] == table_entry(0, m as nat),
            decreases 256 - i,
        {
            let mut c: u32 = i;
            let mut bit: usize = 0;
            while bit < 8
                invariant
                    bit <= 8,
                    c == shift_bits(i, bit as nat),
                decreases 8 - bit,
            {
                c = if c & 1 == 1 {
                    (c >> 1) ^ POLY
                } else {
                    c >> 1
                };
                bit += 1;
            }
            words.push(c);
            i += 1;
        }
        let mut n: usize = TABLE_SIZE;
        while n < TABLE_COUNT * TABLE_SIZE
            invariant
                256 <= n <= 4096,
                words@.len() == n,
                forall|m: int|
                    0 <= m < n ==> #[trigger] words@[m] == table_entry(
                        (m / 256) as nat,
                        (m % 256) as nat,
                    ),
            decreases 4096 - n,
        {
            let prev: u32 = words[n - TABLE_SIZE];
            proof {
                let k = (n / 256) as nat;
                let i = (n % 256) as nat;
                assert(prev == table_entry((k - 1) as nat, i));
                lemma_zero_byte(prev);
                assert(words@[(prev & 0xFF) as int] == table_entry(0, (prev & 0xFF) as nat));
                lemma_shift_bits_add(i as u32, 8 * k, 8);
            }
            let low: usize = (prev & 0xFF) as usize;
            words.push((prev >> 8) ^ words[low]);
            n += 1;
        }
        Tables { words }
    }

    /// Entry `i` of table `k`.
    pub fn entry(&self, k: usize, i: usize) -> (word: u32)
        requires
            k < 16,
            i < 256,
        ensures
            word == table_entry(k as nat, i as nat),
    {
        proof {
            use_type_invariant(self);
        }
        self.words[k * TABLE_SIZE + i]
    }
}

impl Clone for Tables {
    /// A copy of the tables in an allocation of its own.
    fn clone(&self) -> (copy: Self)
        ensures
            copy.wf(),
    {
        proof {
            use_type_invariant(self);
        }
        let words = self.words.clone();
        assert(words@ =~= self.words@);
        Tables { words }
    }
}

} // verus!
