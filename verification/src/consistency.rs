//! The values of an honest proof pass the consistency check.
//!
//! The verifier of HyperKZG asks that the value of every folded table at
//! `r^2` fits the values of the table before it at `r` and `-r`. The values
//! that the prover computes do, whatever the polynomial and the point: the
//! verifier then goes on to the pairing check.

use crate::algebra::{
    int_eval, int_fold, lemma_fadd, lemma_fmul, lemma_fneg, lemma_fold_is_residue, lemma_fsub,
    lemma_int_eval_residue, lemma_uni_eval_is_residue, residue,
};
use crate::field::{fadd, fmul, fneg, fsub, lemma_scalar_modulus, scalar_modulus};
use crate::curve::{G1, G2};
use crate::fold_identity::lemma_int_fold_identity;
use crate::hyperkzg::{
    accepts, batched_left, batched_right, challenge_d, challenge_q, challenge_r, consistent,
    consistent_at, eval_points, evaluations, fold_tower, honest_proof, pairing_equation,
    reaches_pairing_check, tower_commitments, well_shaped,
};
use crate::poly::{fold, fold_level, mle_eval, uni_eval};
use vstd::arithmetic::div_mod::{lemma_mod_twice, lemma_small_mod};
use vstd::arithmetic::power2::{lemma_pow2_unfold, pow2};
use vstd::prelude::*;

verus! {

/// The fold identity in the field: for a table of even length, the value
/// `next` of the fold at `r^2` ties the values of the table at `r` and `-r`
/// together as the consistency check asks. It is enough that `next` has the
/// residue of the value of the fold.
pub proof fn lemma_fold_identity(p: Seq<int>, x: int, r: int, next: int)
    requires
        p.len() % 2 == 0,
        residue(next) == residue(uni_eval(fold(p, x), fmul(r, r))),
    ensures
        fmul(fmul(2, r), next) == fadd(
            fmul(fmul(r, fsub(1, x)), fadd(uni_eval(p, r), uni_eval(p, fneg(r)))),
            fmul(x, fsub(uni_eval(p, r), uni_eval(p, fneg(r)))),
        ),
{
    let m = scalar_modulus();
    lemma_scalar_modulus();
    let pos = uni_eval(p, r);
    let neg = uni_eval(p, fneg(r));
    let int_pos = int_eval(p, r);
    let int_neg = int_eval(p, -r);
    let int_next = int_eval(int_fold(p, x), r * r);

    // The values at `r` and `-r`.
    lemma_uni_eval_is_residue(p, r);
    lemma_mod_twice(int_pos, m);
    lemma_uni_eval_is_residue(p, fneg(r));
    lemma_fneg(r, r);
    lemma_int_eval_residue(p, p, fneg(r), -r);
    lemma_mod_twice(int_eval(p, fneg(r)), m);
    assert(residue(pos) == residue(int_pos));
    assert(residue(neg) == residue(int_neg));

    // The value of the fold at `r^2`.
    lemma_uni_eval_is_residue(fold(p, x), fmul(r, r));
    lemma_fold_is_residue(p, x);
    lemma_fmul(r, r, r, r);
    assert forall|k: int| 0 <= k < fold(p, x).len() implies residue(fold(p, x)[k]) == residue(
        int_fold(p, x)[k],
    ) by {
        lemma_mod_twice(int_fold(p, x)[k], m);
    }
    lemma_int_eval_residue(fold(p, x), int_fold(p, x), fmul(r, r), r * r);
    lemma_mod_twice(int_eval(fold(p, x), fmul(r, r)), m);
    assert(residue(next) == residue(int_next));

    // The left side.
    lemma_fmul(2, r, 2, r);
    lemma_fmul(fmul(2, r), next, 2 * r, int_next);

    // The right side.
    lemma_fsub(1, x, 1, x);
    lemma_fmul(r, fsub(1, x), r, 1 - x);
    lemma_fadd(pos, neg, int_pos, int_neg);
    lemma_fmul(fmul(r, fsub(1, x)), fadd(pos, neg), r * (1 - x), int_pos + int_neg);
    lemma_fsub(pos, neg, int_pos, int_neg);
    lemma_fmul(x, fsub(pos, neg), x, int_pos - int_neg);
    lemma_fadd(
        fmul(fmul(r, fsub(1, x)), fadd(pos, neg)),
        fmul(x, fsub(pos, neg)),
        r * (1 - x) * (int_pos + int_neg),
        x * (int_pos - int_neg),
    );

    lemma_int_fold_identity(p, x, r);
    assert(2 * r * int_next == r * (1 - x) * (int_pos + int_neg) + x * (int_pos - int_neg));
}

/// The table after binding `i` of `l` variables has `2^(l-i)` entries.
pub proof fn lemma_fold_level_len(z: Seq<int>, x: Seq<int>, i: nat)
    requires
        i <= x.len(),
        z.len() == pow2(x.len()),
    ensures
        fold_level(z, x, i).len() == pow2((x.len() - i) as nat),
    decreases i,
{
    if i > 0 {
        lemma_fold_level_len(z, x, (i - 1) as nat);
        lemma_pow2_unfold((x.len() - i + 1) as nat);
    }
}

/// A polynomial with one coefficient takes the residue of the coefficient
/// everywhere.
pub proof fn lemma_constant_polynomial(f: Seq<int>, u: int)
    requires
        f.len() == 1,
    ensures
        uni_eval(f, u) == residue(f[0]),
{
    lemma_scalar_modulus();
    assert(f.drop_first().len() == 0);
    assert(uni_eval(f.drop_first(), u) == 0);
    assert(u * 0 == 0) by (nonlinear_arith);
    lemma_small_mod(0, scalar_modulus() as nat);
    assert(fmul(u, 0) == 0);
}

/// The values of an honest proof have the shape that the verifier asks
/// for, and fit together at every level: for every polynomial with at least
/// one variable and every point, the proof that `open` makes for the value
/// of the polynomial at the point passes the consistency check of `verify`.
pub proof fn lemma_honest_values_are_consistent(
    pk: Seq<G1>,
    state: Seq<u8>,
    z: Seq<int>,
    x: Seq<int>,
)
    requires
        x.len() >= 1,
        z.len() == pow2(x.len()),
    ensures
        well_shaped(honest_proof(pk, state, z, x).v, x.len()),
        consistent(
            x,
            challenge_r(state, honest_proof(pk, state, z, x).com),
            mle_eval(z, x),
            honest_proof(pk, state, z, x).v,
        ),
{
    let ell = x.len();
    let polys = fold_tower(z, x);
    let com = tower_commitments(pk, polys);
    let r = challenge_r(state, com);
    let u = eval_points(r);
    let v = evaluations(polys, u);
    let y = mle_eval(z, x);
    assert(honest_proof(pk, state, z, x).v == v);
    assert(honest_proof(pk, state, z, x).com == com);
    assert(well_shaped(v, ell));
    assert forall|i: int| 0 <= i < ell implies consistent_at(x, r, y, v, i) by {
        let p = fold_level(z, x, i as nat);
        let xi = x[ell - i - 1];
        let folded = fold(p, xi);
        assert(polys[i] == p);
        assert(fold_level(z, x, (i + 1) as nat) == folded);
        lemma_fold_level_len(z, x, i as nat);
        lemma_pow2_unfold((ell - i) as nat);
        assert(p.len() % 2 == 0);
        let next = v[2].push(y)[i + 1];
        if i + 1 < ell {
            assert(polys[i + 1] == folded);
            assert(next == uni_eval(folded, fmul(r, r)));
        } else {
            lemma_fold_level_len(z, x, ell);
            assert(pow2(0) == 1) by {
                vstd::arithmetic::power2::lemma2_to64();
            }
            assert(folded.len() == 1);
            assert(next == folded[0]);
            lemma_constant_polynomial(folded, fmul(r, r));
            lemma_scalar_modulus();
            lemma_mod_twice(folded[0], scalar_modulus());
        }
        lemma_fold_identity(p, xi, r, next);
        assert(v[0][i] == uni_eval(p, r));
        assert(v[1][i] == uni_eval(p, fneg(r)));
    }
}

/// An honest proof reaches the pairing check unless the challenge or the
/// commitment is trivial: the verifier accepts the proof that `open` makes
/// for the value of the polynomial at the point exactly when the challenge
/// `r` is not zero, the commitment is not the point at infinity, and the
/// pairing equation holds.
pub proof fn lemma_honest_proof_reaches_pairing_check(
    g1: G1,
    g2: G2,
    beta_g2: G2,
    pk: Seq<G1>,
    state: Seq<u8>,
    c: G1,
    z: Seq<int>,
    x: Seq<int>,
)
    requires
        x.len() >= 1,
        z.len() == pow2(x.len()),
    ensures
        ({
            let pi = honest_proof(pk, state, z, x);
            let r = challenge_r(state, pi.com);
            let d0 = challenge_d(state, pi.com, pi.v, pi.w);
            &&& reaches_pairing_check(state, c, x, mle_eval(z, x), pi) == (r != 0 && !c.infinity)
            &&& accepts(g1, g2, beta_g2, state, c, x, mle_eval(z, x), pi) == (r != 0
                && !c.infinity && pairing_equation(
                batched_left(
                    g1,
                    seq![c] + pi.com,
                    pi.w,
                    eval_points(r),
                    pi.v,
                    challenge_q(state, pi.com, pi.v),
                    d0,
                ),
                g2,
                batched_right(pi.w, d0),
                beta_g2,
            ))
        }),
{
    lemma_honest_values_are_consistent(pk, state, z, x);
}

} // verus!
