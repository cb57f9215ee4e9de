//! The fold identity over the integers.

use crate::algebra::{int_eval, int_fold};
use vstd::prelude::*;

verus! {

/// One step of the fold identity over the integers: the identity for a
/// table follows from the identity for the table without its first two
/// entries `a` and `b`.
pub proof fn lemma_int_fold_step(
    a: int,
    b: int,
    x: int,
    u: int,
    t: int,
    rest_fold: int,
    rest_pos: int,
    rest_neg: int,
)
    requires
        t == u * u,
        2 * u * rest_fold == u * (1 - x) * (rest_pos + rest_neg) + x * (rest_pos - rest_neg),
    ensures
        2 * u * (x * (b - a) + a + t * rest_fold) == u * (1 - x) * ((a + u * (b + u * rest_pos))
            + (a + (-u) * (b + (-u) * rest_neg))) + x * ((a + u * (b + u * rest_pos)) - (a + (-u)
            * (b + (-u) * rest_neg))),
{
    let pos = a + u * (b + u * rest_pos);
    let neg = a + (-u) * (b + (-u) * rest_neg);
    let w = u * (1 - x);
    let s = rest_pos + rest_neg;
    let d = rest_pos - rest_neg;
    assert(u * (b + u * rest_pos) == u * b + t * rest_pos) by (nonlinear_arith)
        requires
            t == u * u,
    ;
    assert((-u) * (b + (-u) * rest_neg) == -(u * b) + t * rest_neg) by (nonlinear_arith)
        requires
            t == u * u,
    ;
    assert(t * s == t * rest_pos + t * rest_neg) by (nonlinear_arith)
        requires
            s == rest_pos + rest_neg,
    ;
    assert(t * d == t * rest_pos - t * rest_neg) by (nonlinear_arith)
        requires
            d == rest_pos - rest_neg,
    ;
    assert(pos + neg == 2 * a + t * s);
    assert(pos - neg == 2 * (u * b) + t * d);
    assert(w * (2 * a + t * s) == 2 * (w * a) + t * (w * s)) by (nonlinear_arith);
    assert(x * (2 * (u * b) + t * d) == 2 * (x * (u * b)) + t * (x * d)) by (nonlinear_arith);
    assert(w * a == u * a - x * (u * a)) by (nonlinear_arith)
        requires
            w == u * (1 - x),
    ;
    let y1 = x * (b - a);
    let y3 = t * rest_fold;
    assert(2 * u * (y1 + a + y3) == 2 * u * y1 + 2 * u * a + 2 * u * y3) by (nonlinear_arith);
    assert(2 * u * y1 == 2 * (x * (u * b)) - 2 * (x * (u * a))) by (nonlinear_arith)
        requires
            y1 == x * (b - a),
    ;
    assert(2 * u * y3 == t * (2 * u * rest_fold)) by (nonlinear_arith)
        requires
            y3 == t * rest_fold,
    ;
    assert(2 * u * a == 2 * (u * a)) by (nonlinear_arith);
    assert(2 * u * (x * (b - a) + a + t * rest_fold) == 2 * (x * (u * b)) - 2 * (x * (u * a)) + 2
        * (u * a) + t * (2 * u * rest_fold));
    assert(t * (w * s + x * d) == t * (w * s) + t * (x * d)) by (nonlinear_arith);
    assert(2 * u * rest_fold == w * s + x * d);
    assert(w * (pos + neg) + x * (pos - neg) == 2 * (w * a) + t * (w * s) + 2 * (x * (u * b)) + t
        * (x * d));
}

/// The fold identity over the integers: for a table of even length, twice
/// `u` times the value of the fold at `u^2` is made of the values of the
/// table at `u` and `-u`.
pub proof fn lemma_int_fold_identity(p: Seq<int>, x: int, u: int)
    requires
        p.len() % 2 == 0,
    ensures
        2 * u * int_eval(int_fold(p, x), u * u) == u * (1 - x) * (int_eval(p, u) + int_eval(
            p,
            -u,
        )) + x * (int_eval(p, u) - int_eval(p, -u)),
    decreases p.len(),
{
    if p.len() == 0 {
        assert(int_fold(p, x).len() == 0);
        assert(int_eval(p, u) == 0 && int_eval(p, -u) == 0);
        assert(int_eval(int_fold(p, x), u * u) == 0);
        assert(2 * u * 0 == u * (1 - x) * (0 + 0) + x * (0 - 0)) by (nonlinear_arith);
    } else {
        let a = p[0];
        let b = p[1];
        let rest = p.skip(2);
        let t = u * u;
        assert(p.drop_first().drop_first() =~= rest);
        assert(p.drop_first()[0] == b);
        lemma_int_fold_identity(rest, x, u);
        let folded = int_fold(p, x);
        assert(folded.len() >= 1);
        assert(folded.drop_first() =~= int_fold(rest, x)) by {
            assert forall|j: int| 0 <= j < int_fold(rest, x).len() implies folded.drop_first()[j]
                == int_fold(rest, x)[j] by {
                assert(rest[2 * j] == p[2 * (j + 1)]);
                assert(rest[2 * j + 1] == p[2 * (j + 1) + 1]);
            }
        }
        let rest_fold = int_eval(int_fold(rest, x), t);
        let rest_pos = int_eval(rest, u);
        let rest_neg = int_eval(rest, -u);
        assert(folded[0] == x * (b - a) + a);
        assert(int_eval(folded, t) == x * (b - a) + a + t * rest_fold);
        assert(int_eval(p.drop_first(), u) == b + u * rest_pos);
        assert(int_eval(p.drop_first(), -u) == b + (-u) * rest_neg);
        assert(int_eval(p, u) == a + u * (b + u * rest_pos));
        assert(int_eval(p, -u) == a + (-u) * (b + (-u) * rest_neg));
        lemma_int_fold_step(a, b, x, u, t, rest_fold, rest_pos, rest_neg);
    }
}

} // verus!
