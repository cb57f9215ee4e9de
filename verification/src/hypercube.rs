//! A multilinear polynomial takes the values of its table on the boolean
//! hypercube.
//!
//! The table of a polynomial in `l` variables lists its values at the `2^l`
//! points with coordinates zero and one, the last variable being the lowest
//! bit of the index. Evaluation by folding gives these values back.

use crate::algebra::{lemma_fadd, lemma_fmul, lemma_fsub, residue};
use crate::field::{fmul, fsub, lemma_scalar_modulus, scalar_modulus};
use crate::poly::{fold, fold_entry, fold_level, mle_eval};
use crate::consistency::lemma_fold_level_len;
use vstd::arithmetic::div_mod::lemma_mod_twice;
use vstd::arithmetic::power2::{lemma_pow2_pos, lemma_pow2_unfold, pow2};
use vstd::prelude::*;

verus! {

/// Whether every coordinate of the point is zero or one.
pub open spec fn is_boolean(x: Seq<int>) -> bool {
    forall|k: int| 0 <= k < x.len() ==> x[k] == 0 || x[k] == 1
}

/// The number whose binary digits are the last `i` coordinates of `x`, the
/// last coordinate being the lowest digit.
pub open spec fn tail_index(x: Seq<int>, i: nat) -> int
    decreases i,
{
    if i == 0 {
        0
    } else {
        x[x.len() - i] * pow2((i - 1) as nat) + tail_index(x, (i - 1) as nat)
    }
}

/// The index in the table of the point `x` of the hypercube.
pub open spec fn hypercube_index(x: Seq<int>) -> int {
    tail_index(x, x.len())
}

/// The number made of `i` binary digits is below `2^i`.
pub proof fn lemma_tail_index_bound(x: Seq<int>, i: nat)
    requires
        is_boolean(x),
        i <= x.len(),
    ensures
        0 <= tail_index(x, i) < pow2(i),
    decreases i,
{
    if i > 0 {
        lemma_tail_index_bound(x, (i - 1) as nat);
        lemma_pow2_unfold(i);
        let bit = x[x.len() - i];
        let half = pow2((i - 1) as nat) as int;
        assert(bit * half == 0 || bit * half == half) by (nonlinear_arith)
            requires
                bit == 0 || bit == 1,
        ;
    } else {
        lemma_pow2_pos(0);
    }
}

/// A fold at zero keeps the entries with even index, and a fold at one
/// those with odd index.
pub proof fn lemma_fold_entry_at_bit(lo: int, hi: int, bit: int)
    requires
        bit == 0 || bit == 1,
    ensures
        fold_entry(lo, hi, bit) == residue(if bit == 0 { lo } else { hi }),
{
    lemma_scalar_modulus();
    lemma_fsub(hi, lo, hi, lo);
    lemma_fmul(bit, fsub(hi, lo), bit, hi - lo);
    lemma_fadd(fmul(bit, fsub(hi, lo)), lo, bit * (hi - lo), lo);
    assert(bit * (hi - lo) + lo == if bit == 0 { lo } else { hi }) by (nonlinear_arith)
        requires
            bit == 0 || bit == 1,
    ;
}

/// After binding the last `i` variables to the last `i` coordinates of a
/// point of the hypercube, entry `j` of the table is the entry of the
/// first table at `j 2^i` plus the number that the coordinates make.
pub proof fn lemma_fold_level_on_hypercube(z: Seq<int>, x: Seq<int>, i: nat, j: int)
    requires
        is_boolean(x),
        i <= x.len(),
        z.len() == pow2(x.len()),
        0 <= j < pow2((x.len() - i) as nat),
    ensures
        0 <= j * pow2(i) + tail_index(x, i) < z.len(),
        residue(fold_level(z, x, i)[j]) == residue(z[j * pow2(i) + tail_index(x, i)]),
    decreases i,
{
    let ell = x.len();
    lemma_tail_index_bound(x, i);
    vstd::arithmetic::power2::lemma_pow2_adds(i, (ell - i) as nat);
    assert(j * pow2(i) + pow2(i) <= pow2((ell - i) as nat) * pow2(i)) by (nonlinear_arith)
        requires
            0 <= j < pow2((ell - i) as nat),
            pow2(i) > 0,
    ;
    assert(0 <= j * pow2(i)) by (nonlinear_arith)
        requires
            0 <= j,
            pow2(i) > 0,
    ;
    assert(pow2((ell - i) as nat) * pow2(i) == pow2(i) * pow2((ell - i) as nat))
        by (nonlinear_arith);
    if i == 0 {
        lemma_pow2_pos(0);
        assert(pow2(0) == 1) by {
            vstd::arithmetic::power2::lemma2_to64();
        }
        assert(j * 1 == j);
    } else {
        let before = fold_level(z, x, (i - 1) as nat);
        let bit = x[ell - i];
        let half = pow2((i - 1) as nat) as int;
        lemma_pow2_unfold(i);
        lemma_pow2_unfold((ell - i + 1) as nat);
        lemma_fold_level_len(z, x, (i - 1) as nat);
        lemma_fold_level_len(z, x, i);
        assert(fold_level(z, x, i) == fold(before, bit));
        assert(fold_level(z, x, i)[j] == fold_entry(before[2 * j], before[2 * j + 1], bit));
        lemma_fold_entry_at_bit(before[2 * j], before[2 * j + 1], bit);
        lemma_scalar_modulus();
        lemma_mod_twice(before[2 * j + bit], scalar_modulus());
        lemma_fold_level_on_hypercube(z, x, (i - 1) as nat, 2 * j + bit);
        assert((2 * j + bit) * half + tail_index(x, (i - 1) as nat) == j * (2 * half) + (bit
            * half + tail_index(x, (i - 1) as nat))) by (nonlinear_arith);
    }
}

/// A multilinear polynomial takes the values of its table on the
/// hypercube: at the point whose coordinates are the binary digits of an
/// index, the polynomial has the value that the table holds at the index.
pub proof fn lemma_mle_eval_on_hypercube(z: Seq<int>, x: Seq<int>)
    requires
        is_boolean(x),
        z.len() == pow2(x.len()),
    ensures
        0 <= hypercube_index(x) < z.len(),
        residue(mle_eval(z, x)) == residue(z[hypercube_index(x)]),
{
    lemma_pow2_pos(0);
    assert(pow2(0) == 1) by {
        vstd::arithmetic::power2::lemma2_to64();
    }
    lemma_fold_level_on_hypercube(z, x, x.len(), 0);
    assert(0 * pow2(x.len()) == 0) by (nonlinear_arith);
}

} // verus!
