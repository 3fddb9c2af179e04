//! The CRC-32 shift register as a linear operator over GF(2), and the
//! 32x32 bit matrices that stand for its powers.

use vstd::prelude::*;

verus! {

/// The reflected CRC-32 generator polynomial.
pub const POLY: u32 = 0xEDB8_8320;

/// Number of rows (and columns) of an operator matrix.
pub const GF2_DIM: usize = 32;

/// One step of the shift register with a zero input bit.
pub open spec fn bit_step(c: u32) -> u32 {
    if c & 1 == 1 {
        (c >> 1) ^ POLY
    } else {
        c >> 1
    }
}

/// The register after `n` zero input bits.
pub open spec fn shift_bits(c: u32, n: nat) -> u32
    decreases n,
{
    if n == 0 {
        c
    } else {
        bit_step(shift_bits(c, (n - 1) as nat))
    }
}

/// Whether bit `i` of `v` is set.
pub open spec fn bit_is_set(v: u32, i: u32) -> bool {
    (v >> i) & 1 == 1
}

/// The vector with only bit `i` set.
pub open spec fn unit_vector(i: u32) -> u32 {
    1u32 << i
}

/// The bits of `v` below position `k`.
pub open spec fn low_bits(v: u32, k: u32) -> u32 {
    if k >= 32 {
        v
    } else {
        v & !(0xFFFF_FFFFu32 << k)
    }
}

/// The sum over GF(2) of the rows of `mat` selected by the bits of `v`
/// below position `k`.
pub open spec fn xor_rows(mat: Seq<u32>, v: u32, k: nat) -> u32
    decreases k,
{
    if k == 0 {
        0
    } else if bit_is_set(v, (k - 1) as u32) {
        xor_rows(mat, v, (k - 1) as nat) ^ mat[k - 1]
    } else {
        xor_rows(mat, v, (k - 1) as nat)
    }
}

/// The product of the matrix `mat` and the vector `v` over GF(2).
pub open spec fn mat_times(mat: Seq<u32>, v: u32) -> u32 {
    xor_rows(mat, v, 32)
}

/// `sq` is the product of `mat` with itself.
pub open spec fn is_square_of(sq: Seq<u32>, mat: Seq<u32>) -> bool {
    &&& sq.len() == 32
    &&& mat.len() == 32
    &&& forall|i: int| 0 <= i < 32 ==> #[trigger] sq[i] == mat_times(mat, mat[i])
}

/// `mat` is the operator that feeds `n` zero bits into the register.
pub open spec fn represents(mat: Seq<u32>, n: nat) -> bool {
    &&& mat.len() == 32
    &&& forall|i: int| 0 <= i < 32 ==> #[trigger] mat[i] == shift_bits(unit_vector(i as u32), n)
}

pub proof fn lemma_bit_step_linear(a: u32, b: u32)
    by (bit_vector)
    ensures
        bit_step(a ^ b) == bit_step(a) ^ bit_step(b),
{
}

pub proof fn lemma_bit_step_zero()
    by (bit_vector)
    ensures
        bit_step(0) == 0,
{
}

/// Feeding zero bits is linear: it commutes with the sum over GF(2).
pub proof fn lemma_shift_bits_linear(a: u32, b: u32, n: nat)
    ensures
        shift_bits(a ^ b, n) == shift_bits(a, n) ^ shift_bits(b, n),
    decreases n,
{
    if n > 0 {
        lemma_shift_bits_linear(a, b, (n - 1) as nat);
        lemma_bit_step_linear(shift_bits(a, (n - 1) as nat), shift_bits(b, (n - 1) as nat));
    }
}

pub proof fn lemma_shift_bits_zero(n: nat)
    ensures
        shift_bits(0, n) == 0,
    decreases n,
{
    if n > 0 {
        lemma_shift_bits_zero((n - 1) as nat);
        lemma_bit_step_zero();
    }
}

/// Feeding `m` zero bits and then `n` more is feeding `m + n`.
pub proof fn lemma_shift_bits_add(c: u32, m: nat, n: nat)
    ensures
        shift_bits(shift_bits(c, m), n) == shift_bits(c, m + n),
    decreases n,
{
    if n > 0 {
        lemma_shift_bits_add(c, m, (n - 1) as nat);
    }
}

proof fn lemma_low_bits_step(v: u32, k: u32)
    by (bit_vector)
    requires
        k < 32,
    ensures
        low_bits(v, 0) == 0,
        bit_is_set(v, k) ==> low_bits(v, (k + 1) as u32) == low_bits(v, k) ^ unit_vector(k),
        !bit_is_set(v, k) ==> low_bits(v, (k + 1) as u32) == low_bits(v, k),
{
}

proof fn lemma_represents_rows(mat: Seq<u32>, n: nat, v: u32, k: nat)
    requires
        represents(mat, n),
        k <= 32,
    ensures
        xor_rows(mat, v, k) == shift_bits(low_bits(v, k as u32), n),
    decreases k,
{
    if k == 0 {
        lemma_low_bits_step(v, 0);
        lemma_shift_bits_zero(n);
    } else {
        let j = (k - 1) as u32;
        lemma_represents_rows(mat, n, v, (k - 1) as nat);
        lemma_low_bits_step(v, j);
        if bit_is_set(v, j) {
            assert(mat[j as int] == shift_bits(unit_vector(j), n));
            lemma_shift_bits_linear(low_bits(v, j), unit_vector(j), n);
        }
    }
}

/// A matrix that stands for `n` zero bits takes every vector to the
/// register after `n` zero bits.
pub proof fn lemma_represents_times(mat: Seq<u32>, n: nat, v: u32)
    requires
        represents(mat, n),
    ensures
        mat_times(mat, v) == shift_bits(v, n),
{
    lemma_represents_rows(mat, n, v, 32);
}

/// The square of the operator for `n` zero bits is the operator for `2 n`.
pub proof fn lemma_square_represents(sq: Seq<u32>, mat: Seq<u32>, n: nat)
    requires
        represents(mat, n),
        is_square_of(sq, mat),
    ensures
        represents(sq, 2 * n),
{
    assert forall|i: int| 0 <= i < 32 implies #[trigger] sq[i] == shift_bits(
        unit_vector(i as u32),
        2 * n,
    ) by {
        assert(sq[i] == mat_times(mat, mat[i]));
        assert(mat[i] == shift_bits(unit_vector(i as u32), n));
        lemma_represents_times(mat, n, mat[i]);
        lemma_shift_bits_add(unit_vector(i as u32), n, n);
    }
}

proof fn lemma_high_bits_clear(v: u32, k: u32, j: u32)
    by (bit_vector)
    requires
        k <= j < 32,
        v >> k == 0,
    ensures
        !bit_is_set(v, j),
{
}

proof fn lemma_xor_rows_rest(mat: Seq<u32>, v: u32, k: nat, j: nat)
    requires
        k <= j <= 32,
        k < 32 ==> v >> (k as u32) == 0,
    ensures
        xor_rows(mat, v, j) == xor_rows(mat, v, k),
    decreases j,
{
    if j > k {
        lemma_xor_rows_rest(mat, v, k, (j - 1) as nat);
        lemma_high_bits_clear(v, k as u32, (j - 1) as u32);
    }
}

proof fn lemma_shr_step(v: u32, k: u32)
    by (bit_vector)
    requires
        k < 32,
    ensures
        v >> 0 == v,
        k < 31 ==> (v >> k) >> 1 == v >> ((k + 1) as u32),
        k == 31 ==> (v >> k) >> 1 == 0,
        ((v >> k) & 1 == 1) == bit_is_set(v, k),
{
}

/// Multiplies the matrix `mat` by the vector `vec` over GF(2).
pub fn gf2_matrix_times(mat: &[u32; 32], vec: u32) -> (sum: u32)
    ensures
        sum == mat_times(mat@, vec),
{
    let mut rest: u32 = vec;
    let mut sum: u32 = 0;
    let mut idx: usize = 0;
    proof {
        lemma_shr_step(vec, 0);
    }
    while rest > 0
        invariant
            idx <= 32,
            idx < 32 ==> rest == vec >> (idx as u32),
            idx == 32 ==> rest == 0,
            sum == xor_rows(mat@, vec, idx as nat),
        decreases 32 - idx,
    {
        proof {
            lemma_shr_step(vec, idx as u32);
        }
        if rest & 1 == 1 {
            sum ^= mat[idx];
        }
        rest >>= 1;
        idx += 1;
    }
    proof {
        lemma_xor_rows_rest(mat@, vec, idx as nat, 32);
    }
    sum
}

/// Stores in `square` the product of the matrix `mat` with itself.
pub fn gf2_matrix_square(square: &mut [u32; 32], mat: &[u32; 32])
    ensures
        is_square_of(final(square)@, mat@),
{
    let mut n: usize = 0;
    while n < GF2_DIM
        invariant
            n <= 32,
            forall|i: int| 0 <= i < n ==> #[trigger] square@[i] == mat_times(mat@, mat@[i]),
        decreases 32 - n,
    {
        square[n] = gf2_matrix_times(mat, mat[n]);
        n += 1;
    }
}

} // verus!
