//! The witness polynomial of a KZG opening is a quotient.
//!
//! For a polynomial `f` and a point `u`, the witness polynomial `h` that the
//! prover commits to satisfies `f(t) - f(u) = (t - u) h(t)` at every `t`:
//! `X - u` divides `f(X) - f(u)` without rest, and `h` is the quotient.

use crate::algebra::{
    int_eval, lemma_fadd, lemma_fmul, lemma_fsub, lemma_int_eval_residue,
    lemma_uni_eval_is_residue, residue,
};
use crate::field::{fmul, fsub, lemma_scalar_modulus, scalar_modulus};
use crate::poly::{uni_eval, witness, witness_coeff};
use vstd::arithmetic::div_mod::{lemma_mod_twice, lemma_small_mod};
use vstd::prelude::*;

verus! {

/// The quotient of `f(X) - f(u)` by `X - u` over the integers: coefficient
/// `i` is the value at `u` of what is left of `f` above degree `i`.
pub open spec fn int_witness(f: Seq<int>, u: int) -> Seq<int> {
    Seq::new(f.len(), |i: int| int_eval(f.skip(i + 1), u))
}

/// The coefficients of the witness polynomial in the field are the residues
/// of those over the integers.
pub proof fn lemma_witness_is_residue(f: Seq<int>, u: int, i: int)
    requires
        0 <= i < f.len(),
    ensures
        witness_coeff(f, u, i) == residue(int_witness(f, u)[i]),
    decreases f.len() - i,
{
    lemma_scalar_modulus();
    let m = scalar_modulus();
    if i + 1 >= f.len() {
        assert(f.skip(i + 1).len() == 0);
        lemma_small_mod(0, m as nat);
    } else {
        lemma_witness_is_residue(f, u, i + 1);
        let above = int_eval(f.skip(i + 2), u);
        assert(f.skip(i + 1).drop_first() =~= f.skip(i + 2));
        assert(f.skip(i + 1)[0] == f[i + 1]);
        assert(int_eval(f.skip(i + 1), u) == f[i + 1] + u * above);
        lemma_mod_twice(above, m);
        lemma_fmul(witness_coeff(f, u, i + 1), u, above, u);
        lemma_fadd(f[i + 1], fmul(witness_coeff(f, u, i + 1), u), f[i + 1], above * u);
        assert(above * u == u * above) by (nonlinear_arith);
    }
}

/// One step of the division: what holds of the polynomials above degree
/// `k` holds of those above degree `k - 1`.
proof fn lemma_division_step(c: int, t: int, u: int, ft: int, fu: int, ht: int)
    requires
        ft - fu == (t - u) * ht,
    ensures
        (c + t * ft) - (c + u * fu) == (t - u) * (fu + t * ht),
{
    assert(t * ft - t * fu == t * ((t - u) * ht)) by (nonlinear_arith)
        requires
            ft - fu == (t - u) * ht,
    ;
    assert(t * ((t - u) * ht) == (t - u) * (t * ht)) by (nonlinear_arith);
    assert((t - u) * (fu + t * ht) == (t - u) * fu + (t - u) * (t * ht)) by (nonlinear_arith);
    assert((t - u) * fu == t * fu - u * fu) by (nonlinear_arith);
}

/// Over the integers, `f(t) - f(u) = (t - u) h(t)` for the parts of `f` and
/// of its witness polynomial `h` from degree `k` up.
pub proof fn lemma_int_division(f: Seq<int>, u: int, t: int, k: int)
    requires
        0 <= k <= f.len(),
    ensures
        int_eval(f.skip(k), t) - int_eval(f.skip(k), u) == (t - u) * int_eval(
            int_witness(f, u).skip(k),
            t,
        ),
    decreases f.len() - k,
{
    let h = int_witness(f, u);
    if k == f.len() {
        assert(f.skip(k).len() == 0);
        assert(h.skip(k).len() == 0);
        assert((t - u) * 0 == 0) by (nonlinear_arith);
    } else {
        lemma_int_division(f, u, t, k + 1);
        assert(f.skip(k).drop_first() =~= f.skip(k + 1));
        assert(h.skip(k).drop_first() =~= h.skip(k + 1));
        assert(f.skip(k)[0] == f[k]);
        assert(h.skip(k)[0] == int_eval(f.skip(k + 1), u));
        let ft = int_eval(f.skip(k + 1), t);
        let fu = int_eval(f.skip(k + 1), u);
        let ht = int_eval(h.skip(k + 1), t);
        assert(int_eval(f.skip(k), t) == f[k] + t * ft);
        assert(int_eval(f.skip(k), u) == f[k] + u * fu);
        assert(int_eval(h.skip(k), t) == fu + t * ht);
        lemma_division_step(f[k], t, u, ft, fu, ht);
    }
}

/// The witness polynomial is the quotient: for every polynomial `f` and all
/// points `u` and `t`, `f(t) - f(u) = (t - u) h(t)` in the field, where `h`
/// is the witness polynomial of `f` at `u`.
pub proof fn lemma_witness_is_quotient(f: Seq<int>, u: int, t: int)
    ensures
        fsub(uni_eval(f, t), uni_eval(f, u)) == fmul(fsub(t, u), uni_eval(witness(f, u), t)),
{
    lemma_scalar_modulus();
    let m = scalar_modulus();
    let h = witness(f, u);
    let int_h = int_witness(f, u);
    assert(f.skip(0) =~= f);
    assert(int_h.skip(0) =~= int_h);
    lemma_int_division(f, u, t, 0);

    lemma_uni_eval_is_residue(f, t);
    lemma_uni_eval_is_residue(f, u);
    lemma_mod_twice(int_eval(f, t), m);
    lemma_mod_twice(int_eval(f, u), m);
    lemma_fsub(uni_eval(f, t), uni_eval(f, u), int_eval(f, t), int_eval(f, u));

    lemma_uni_eval_is_residue(h, t);
    assert forall|k: int| 0 <= k < h.len() implies residue(h[k]) == residue(int_h[k]) by {
        lemma_witness_is_residue(f, u, k);
        lemma_mod_twice(int_h[k], m);
    }
    lemma_int_eval_residue(h, int_h, t, t);
    lemma_mod_twice(int_eval(h, t), m);
    lemma_fsub(t, u, t, u);
    lemma_fmul(fsub(t, u), uni_eval(h, t), t - u, int_eval(int_h, t));
}

} // verus!
