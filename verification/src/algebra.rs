//! Polynomial identities behind the consistency check of HyperKZG.
//!
//! The field operations reduce modulo the field order after every step. The
//! identities are first shown for polynomials over the integers, where no
//! reduction takes place, and then carried over: an expression in the field
//! operations is the residue of the same expression over the integers.

use crate::field::{fadd, fmul, fneg, fsub, lemma_scalar_modulus, scalar_modulus};
use crate::poly::{fold, fold_entry, uni_eval};
use vstd::arithmetic::div_mod::{
    lemma_add_mod_noop, lemma_mod_twice, lemma_mul_mod_noop, lemma_small_mod,
    lemma_sub_mod_noop,
};
use vstd::prelude::*;

verus! {

/// The residue of `a` modulo the field order.
pub open spec fn residue(a: int) -> int {
    a % scalar_modulus()
}

/// The value at `u` of the polynomial with coefficients `f`, over the
/// integers.
pub open spec fn int_eval(f: Seq<int>, u: int) -> int
    decreases f.len(),
{
    if f.len() == 0 {
        0
    } else {
        f[0] + u * int_eval(f.drop_first(), u)
    }
}

/// The table after binding the last variable to `x`, over the integers.
pub open spec fn int_fold(p: Seq<int>, x: int) -> Seq<int> {
    Seq::new((p.len() / 2) as nat, |j: int| x * (p[2 * j + 1] - p[2 * j]) + p[2 * j])
}

/// A sum in the field is the residue of the sum of any integers with the
/// residues of the terms.
pub proof fn lemma_fadd(a: int, b: int, ia: int, ib: int)
    requires
        residue(a) == residue(ia),
        residue(b) == residue(ib),
    ensures
        fadd(a, b) == residue(ia + ib),
        residue(fadd(a, b)) == residue(ia + ib),
{
    let m = scalar_modulus();
    lemma_scalar_modulus();
    lemma_add_mod_noop(a, b, m);
    lemma_add_mod_noop(ia, ib, m);
    lemma_mod_twice(ia + ib, m);
}

/// A difference in the field is the residue of the difference of any
/// integers with the residues of the terms.
pub proof fn lemma_fsub(a: int, b: int, ia: int, ib: int)
    requires
        residue(a) == residue(ia),
        residue(b) == residue(ib),
    ensures
        fsub(a, b) == residue(ia - ib),
        residue(fsub(a, b)) == residue(ia - ib),
{
    let m = scalar_modulus();
    lemma_scalar_modulus();
    lemma_sub_mod_noop(a, b, m);
    lemma_sub_mod_noop(ia, ib, m);
    lemma_mod_twice(ia - ib, m);
}

/// A product in the field is the residue of the product of any integers
/// with the residues of the factors.
pub proof fn lemma_fmul(a: int, b: int, ia: int, ib: int)
    requires
        residue(a) == residue(ia),
        residue(b) == residue(ib),
    ensures
        fmul(a, b) == residue(ia * ib),
        residue(fmul(a, b)) == residue(ia * ib),
{
    let m = scalar_modulus();
    lemma_scalar_modulus();
    lemma_mul_mod_noop(a, b, m);
    lemma_mul_mod_noop(ia, ib, m);
    lemma_mod_twice(ia * ib, m);
}

/// A negation in the field is the residue of the negation of any integer
/// with the residue of the term.
pub proof fn lemma_fneg(a: int, ia: int)
    requires
        residue(a) == residue(ia),
    ensures
        fneg(a) == residue(-ia),
        residue(fneg(a)) == residue(-ia),
{
    let m = scalar_modulus();
    lemma_scalar_modulus();
    lemma_sub_mod_noop(0, a, m);
    lemma_sub_mod_noop(0, ia, m);
    lemma_mod_twice(-ia, m);
}

/// The residue of the value of a polynomial over the integers depends only
/// on the residues of the coefficients and of the point.
pub proof fn lemma_int_eval_residue(f: Seq<int>, g: Seq<int>, u: int, v: int)
    requires
        f.len() == g.len(),
        forall|k: int| 0 <= k < f.len() ==> residue(f[k]) == residue(g[k]),
        residue(u) == residue(v),
    ensures
        residue(int_eval(f, u)) == residue(int_eval(g, v)),
    decreases f.len(),
{
    if f.len() > 0 {
        let m = scalar_modulus();
        lemma_scalar_modulus();
        let ft = f.drop_first();
        let gt = g.drop_first();
        assert forall|k: int| 0 <= k < ft.len() implies residue(ft[k]) == residue(gt[k]) by {
            assert(ft[k] == f[k + 1] && gt[k] == g[k + 1]);
        }
        lemma_int_eval_residue(ft, gt, u, v);
        lemma_mul_mod_noop(u, int_eval(ft, u), m);
        lemma_mul_mod_noop(v, int_eval(gt, v), m);
        lemma_add_mod_noop(f[0], u * int_eval(ft, u), m);
        lemma_add_mod_noop(g[0], v * int_eval(gt, v), m);
    }
}

/// The value of a polynomial in the field is the residue of its value over
/// the integers.
pub proof fn lemma_uni_eval_is_residue(f: Seq<int>, u: int)
    ensures
        uni_eval(f, u) == residue(int_eval(f, u)),
    decreases f.len(),
{
    if f.len() > 0 {
        let ft = f.drop_first();
        lemma_uni_eval_is_residue(ft, u);
        let m = scalar_modulus();
        lemma_scalar_modulus();
        lemma_mod_twice(int_eval(ft, u), m);
        lemma_fmul(u, uni_eval(ft, u), u, int_eval(ft, u));
        lemma_fadd(f[0], fmul(u, uni_eval(ft, u)), f[0], u * int_eval(ft, u));
    } else {
        lemma_scalar_modulus();
        lemma_small_mod(0, scalar_modulus() as nat);
    }
}

/// The entries of a fold in the field are the residues of the entries of
/// the fold over the integers.
pub proof fn lemma_fold_is_residue(p: Seq<int>, x: int)
    ensures
        fold(p, x).len() == int_fold(p, x).len(),
        forall|j: int|
            0 <= j < fold(p, x).len() ==> #[trigger] fold(p, x)[j] == residue(int_fold(p, x)[j]),
{
    assert forall|j: int| 0 <= j < fold(p, x).len() implies #[trigger] fold(p, x)[j] == residue(
        int_fold(p, x)[j],
    ) by {
        let lo = p[2 * j];
        let hi = p[2 * j + 1];
        lemma_fsub(hi, lo, hi, lo);
        lemma_fmul(x, fsub(hi, lo), x, hi - lo);
        lemma_fadd(fmul(x, fsub(hi, lo)), lo, x * (hi - lo), lo);
        assert(fold(p, x)[j] == fold_entry(lo, hi, x));
    }
}

} // verus!
