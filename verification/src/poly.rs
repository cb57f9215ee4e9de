//! Polynomials over the scalar field.
//!
//! A univariate polynomial is the sequence of its coefficients, lowest
//! degree first. A multilinear polynomial in `l` variables is the sequence of
//! its `2^l` values on the boolean hypercube, the last variable being the
//! lowest bit of the index.

use crate::field::{fadd, fmul, fsub, values, Scalar};
use vstd::arithmetic::power2::{lemma_pow2_pos, lemma_pow2_unfold, pow2};
use vstd::prelude::*;

verus! {

/// The value at `u` of the polynomial with coefficients `f`.
pub open spec fn uni_eval(f: Seq<int>, u: int) -> int
    decreases f.len(),
{
    if f.len() == 0 {
        0
    } else {
        fadd(f[0], fmul(u, uni_eval(f.drop_first(), u)))
    }
}

/// One entry of a fold: the line through `lo` at 0 and `hi` at 1, taken at `x`.
pub open spec fn fold_entry(lo: int, hi: int, x: int) -> int {
    fadd(fmul(x, fsub(hi, lo)), lo)
}

/// The table after binding the last variable to `x`: entry `j` joins the
/// entries `2j` and `2j + 1`.
pub open spec fn fold(p: Seq<int>, x: int) -> Seq<int> {
    Seq::new((p.len() / 2) as nat, |j: int| fold_entry(p[2 * j], p[2 * j + 1], x))
}

/// The table after binding the last `i` variables to the last `i` entries of
/// `x`.
pub open spec fn fold_level(z: Seq<int>, x: Seq<int>, i: nat) -> Seq<int>
    decreases i,
{
    if i == 0 {
        z
    } else {
        fold(fold_level(z, x, (i - 1) as nat), x[x.len() - i])
    }
}

/// The value at the point `x` of the multilinear polynomial with table `z`.
pub open spec fn mle_eval(z: Seq<int>, x: Seq<int>) -> int {
    fold_level(z, x, x.len())[0]
}

/// Coefficient `i` of the quotient of `f(X) - f(u)` by `X - u`.
pub open spec fn witness_coeff(f: Seq<int>, u: int, i: int) -> int
    decreases f.len() - i,
{
    if i + 1 >= f.len() {
        0
    } else {
        fadd(f[i + 1], fmul(witness_coeff(f, u, i + 1), u))
    }
}

/// The quotient of `f(X) - f(u)` by `X - u`, with as many coefficients as `f`;
/// the highest is zero.
pub open spec fn witness(f: Seq<int>, u: int) -> Seq<int> {
    Seq::new(f.len(), |i: int| witness_coeff(f, u, i))
}

/// The power `q^i`.
pub open spec fn power(q: int, i: nat) -> int
    decreases i,
{
    if i == 0 {
        1
    } else {
        fmul(power(q, (i - 1) as nat), q)
    }
}

/// The powers `1, q, .., q^(k-1)`.
pub open spec fn powers(q: int, k: nat) -> Seq<int> {
    Seq::new(k, |i: int| power(q, i as nat))
}

/// The sequence `a + s * v`, where `v` is not longer than `a`.
pub open spec fn mul_add(a: Seq<int>, v: Seq<int>, s: int) -> Seq<int> {
    Seq::new(a.len(), |j: int| if j < v.len() { fadd(a[j], fmul(s, v[j])) } else { a[j] })
}

/// The sum of `q^i * polys[i]` over the first `k` polynomials.
pub open spec fn batch(polys: Seq<Seq<int>>, q: int, k: nat) -> Seq<int>
    decreases k,
{
    if k <= 1 {
        polys[0]
    } else {
        mul_add(batch(polys, q, (k - 1) as nat), polys[k - 1], power(q, (k - 1) as nat))
    }
}

/// The inner product of the first `k` entries of `a` and `b`, summed from
/// index zero up.
pub open spec fn inner_product(a: Seq<int>, b: Seq<int>, k: nat) -> int
    decreases k,
{
    if k == 0 {
        0
    } else {
        fadd(inner_product(a, b, (k - 1) as nat), fmul(a[k - 1], b[k - 1]))
    }
}

/// The value of a univariate polynomial at `u`.
pub fn evaluate_univariate(f: &[Scalar], u: &Scalar) -> (r: Scalar)
    ensures
        r@ == uni_eval(values(f@), u@),
{
    let ghost c = values(f@);
    let mut acc = Scalar::zero();
    let mut i: usize = f.len();
    assert(c.skip(i as int) =~= Seq::<int>::empty());
    while i > 0
        invariant
            i <= f@.len(),
            c == values(f@),
            acc@ == uni_eval(c.skip(i as int), u@),
        decreases i,
    {
        i -= 1;
        let t = u.mul(&acc);
        proof {
            assert(c.skip(i as int).drop_first() =~= c.skip(i + 1));
            assert(c.skip(i as int)[0] == f@[i as int]@);
        }
        acc = f[i].add(&t);
    }
    assert(c.skip(0) =~= c);
    acc
}

/// The table after binding the last variable to `x`.
pub fn fold_table(p: &[Scalar], x: &Scalar) -> (r: Vec<Scalar>)
    ensures
        values(r@) == fold(values(p@), x@),
{
    let half = p.len() / 2;
    let mut out: Vec<Scalar> = Vec::new();
    let mut j: usize = 0;
    while j < half
        invariant
            half == p@.len() / 2,
            p@.len() <= usize::MAX,
            j <= half,
            out@.len() == j,
            forall|k: int|
                0 <= k < j ==> out@[k]@ == fold_entry(p@[2 * k]@, p@[2 * k + 1]@, x@),
        decreases half - j,
    {
        let lo = &p[2 * j];
        let hi = &p[2 * j + 1];
        let e = x.mul(&hi.sub(lo)).add(lo);
        out.push(e);
        j += 1;
    }
    assert(values(out@) =~= fold(values(p@), x@));
    out
}

/// The quotient of `f(X) - f(u)` by `X - u`.
pub fn witness_polynomial(f: &[Scalar], u: &Scalar) -> (r: Vec<Scalar>)
    ensures
        values(r@) == witness(values(f@), u@),
{
    let d = f.len();
    let ghost c = values(f@);
    let mut h: Vec<Scalar> = Vec::new();
    let mut k: usize = 0;
    while k < d
        invariant
            k <= d,
            h@.len() == k,
            forall|j: int| 0 <= j < k ==> h@[j]@ == 0,
        decreases d - k,
    {
        h.push(Scalar::zero());
        k += 1;
    }
    if d == 0 {
        assert(values(h@) =~= witness(c, u@));
        return h;
    }
    let mut i: usize = d - 1;
    while i > 0
        invariant
            d == f@.len(),
            c == values(f@),
            i < d,
            h@.len() == d,
            forall|j: int| i <= j < d ==> h@[j]@ == witness_coeff(c, u@, j),
        decreases i,
    {
        let t = h[i].mul(u);
        let e = f[i].add(&t);
        proof {
            assert(c.len() == d);
            assert(c[i as int] == f@[i as int]@);
            assert(h@[i as int]@ == witness_coeff(c, u@, i as int));
            assert(e@ == witness_coeff(c, u@, i - 1));
        }
        h[i - 1] = e;
        i -= 1;
    }
    assert(values(h@) =~= witness(c, u@));
    h
}

/// The powers `1, q, .., q^(k-1)`.
pub fn challenge_powers(q: &Scalar, k: usize) -> (r: Vec<Scalar>)
    ensures
        values(r@) == powers(q@, k as nat),
{
    let mut out: Vec<Scalar> = Vec::new();
    let mut i: usize = 0;
    while i < k
        invariant
            i <= k,
            out@.len() == i,
            forall|j: int| 0 <= j < i ==> out@[j]@ == power(q@, j as nat),
        decreases k - i,
    {
        if i == 0 {
            out.push(Scalar::one());
        } else {
            let e = out[i - 1].mul(q);
            out.push(e);
        }
        i += 1;
    }
    assert(values(out@) =~= powers(q@, k as nat));
    out
}

/// The views of a sequence of coefficient vectors.
pub open spec fn tables(polys: Seq<Vec<Scalar>>) -> Seq<Seq<int>> {
    Seq::new(polys.len(), |i: int| values(polys[i]@))
}

/// A copy of a vector of scalars.
pub fn copy_scalars(v: &[Scalar]) -> (r: Vec<Scalar>)
    ensures
        r@ == v@,
{
    let mut out: Vec<Scalar> = Vec::new();
    let mut i: usize = 0;
    while i < v.len()
        invariant
            i <= v@.len(),
            out@ == v@.subrange(0, i as int),
        decreases v@.len() - i,
    {
        out.push(v[i]);
        i += 1;
        assert(out@ =~= v@.subrange(0, i as int));
    }
    assert(v@.subrange(0, v@.len() as int) =~= v@);
    out
}

/// The sum of `q^i * polys[i]`, none of the polynomials being longer than the
/// first.
pub fn batch_polynomial(polys: &Vec<Vec<Scalar>>, q: &Scalar) -> (r: Vec<Scalar>)
    requires
        polys@.len() >= 1,
        forall|i: int| 0 <= i < polys@.len() ==> (#[trigger] polys@[i])@.len() <= polys@[0]@.len(),
    ensures
        values(r@) == batch(tables(polys@), q@, polys@.len()),
{
    let k = polys.len();
    let ghost t = tables(polys@);
    let q_powers = challenge_powers(q, k);
    assert(q_powers@.len() == values(q_powers@).len());
    let mut b = copy_scalars(polys[0].as_slice());
    assert(values(b@) =~= t[0]);
    let mut i: usize = 1;
    while i < k
        invariant
            k == polys@.len(),
            t == tables(polys@),
            1 <= i <= k,
            values(q_powers@) == powers(q@, k as nat),
            q_powers@.len() == k,
            b@.len() == polys@[0]@.len(),
            forall|i: int| 0 <= i < polys@.len() ==> (#[trigger] polys@[i])@.len() <= polys@[0]@.len(),
            values(b@) == batch(t, q@, i as nat),
        decreases k - i,
    {
        let ghost before = values(b@);
        let v = &polys[i];
        let s = &q_powers[i];
        assert(s@ == power(q@, i as nat)) by {
            assert(values(q_powers@)[i as int] == s@);
        }
        let mut j: usize = 0;
        while j < v.len()
            invariant
                j <= v@.len(),
                v@.len() <= b@.len(),
                b@.len() == before.len(),
                forall|m: int| 0 <= m < j ==> b@[m]@ == fadd(before[m], fmul(s@, v@[m]@)),
                forall|m: int| j <= m < b@.len() ==> b@[m]@ == before[m],
            decreases v@.len() - j,
        {
            let e = b[j].add(&s.mul(&v[j]));
            b[j] = e;
            j += 1;
        }
        proof {
            assert(t[i as int] == values(v@));
            assert(values(b@) =~= mul_add(before, t[i as int], power(q@, i as nat)));
        }
        i += 1;
    }
    b
}

/// The inner product of `a` and `b` over the indices that both have.
pub fn inner_product_of(a: &[Scalar], b: &[Scalar]) -> (r: Scalar)
    ensures
        r@ == inner_product(
            values(a@),
            values(b@),
            if a@.len() <= b@.len() {
                a@.len()
            } else {
                b@.len()
            },
        ),
{
    let n = if a.len() <= b.len() {
        a.len()
    } else {
        b.len()
    };
    let mut acc = Scalar::zero();
    let mut i: usize = 0;
    while i < n
        invariant
            i <= n,
            n <= a@.len(),
            n <= b@.len(),
            acc@ == inner_product(values(a@), values(b@), i as nat),
        decreases n - i,
    {
        let t = a[i].mul(&b[i]);
        acc = acc.add(&t);
        i += 1;
    }
    acc
}

/// Whether `n` is a power of two.
pub open spec fn is_power_of_two(n: nat) -> bool {
    exists|l: nat| n == pow2(l)
}

/// A multilinear polynomial, held by its values on the boolean hypercube.
#[derive(Debug)]
pub struct DensePolynomial {
    num_vars: usize,
    z: Vec<Scalar>,
}

impl View for DensePolynomial {
    type V = Seq<int>;

    /// The table of values.
    closed spec fn view(&self) -> Seq<int> {
        values(self.z@)
    }
}

impl DensePolynomial {
    /// The table has `2^l` entries, `l` being the number of variables.
    #[verifier::type_invariant]
    pub closed spec fn wf(self) -> bool {
        self.z@.len() == pow2(self.num_vars as nat)
    }

    /// The number of variables.
    pub closed spec fn spec_num_vars(self) -> nat {
        self.num_vars as nat
    }

    /// The polynomial with the table `z`, whose length is a power of two.
    pub fn new(z: Vec<Scalar>) -> (p: DensePolynomial)
        requires
            is_power_of_two(z@.len()),
        ensures
            p@ == values(z@),
            p@.len() == pow2(p.spec_num_vars()),
    {
        let ghost l = choose|l: nat| z@.len() == pow2(l);
        let mut num_vars: usize = 0;
        let mut size: usize = 1;
        proof {
            lemma_pow2_pos(l);
            assert(pow2(0) == 1) by {
                vstd::arithmetic::power2::lemma2_to64();
            }
        }
        while size < z.len()
            invariant
                size == pow2(num_vars as nat),
                z@.len() == pow2(l),
                size <= z@.len(),
                num_vars <= l,
                num_vars < size,
            decreases z@.len() - size,
        {
            proof {
                lemma_pow2_unfold((num_vars + 1) as nat);
                assert(num_vars < l) by {
                    if num_vars >= l {
                        assert(num_vars == l);
                    }
                }
                lemma_pow2_monotone((num_vars + 1) as nat, l);
            }
            size = size * 2;
            num_vars += 1;
        }
        DensePolynomial { num_vars, z }
    }

    /// The number of table entries.
    pub fn len(&self) -> (n: usize)
        ensures
            n == self@.len(),
            n == pow2(self.spec_num_vars()),
    {
        proof {
            use_type_invariant(self);
        }
        self.z.len()
    }

    /// The number of variables.
    pub fn get_num_vars(&self) -> (n: usize)
        ensures
            n == self.spec_num_vars(),
            self@.len() == pow2(n as nat),
    {
        proof {
            use_type_invariant(self);
        }
        self.num_vars
    }

    /// The table of values.
    pub fn evals(&self) -> (r: &Vec<Scalar>)
        ensures
            values(r@) == self@,
    {
        &self.z
    }

    /// The value of the polynomial at `point`, which has one entry for each
    /// variable.
    pub fn evaluate(&self, point: &[Scalar]) -> (r: Scalar)
        requires
            point@.len() == self.spec_num_vars(),
        ensures
            r@ == mle_eval(self@, values(point@)),
    {
        proof {
            use_type_invariant(self);
        }
        let ell = point.len();
        let ghost x = values(point@);
        let mut table = copy_scalars(self.z.as_slice());
        assert(values(table@) =~= self@);
        let mut i: usize = 0;
        while i < ell
            invariant
                ell == point@.len(),
                x == values(point@),
                i <= ell,
                table@.len() == pow2((ell - i) as nat),
                values(table@) == fold_level(self@, x, i as nat),
            decreases ell - i,
        {
            proof {
                lemma_pow2_unfold((ell - i) as nat);
                assert(x[x.len() - (i + 1)] == point@[ell - i - 1]@);
            }
            let next = fold_table(table.as_slice(), &point[ell - i - 1]);
            proof {
                assert(values(next@).len() == table@.len() / 2);
                assert(next@.len() == values(next@).len());
            }
            table = next;
            i += 1;
        }
        proof {
            assert(pow2(0) == 1) by {
                vstd::arithmetic::power2::lemma2_to64();
            }
            assert(values(table@)[0] == table@[0]@);
        }
        table[0]
    }
}

/// Powers of two grow with the exponent.
pub proof fn lemma_pow2_monotone(a: nat, b: nat)
    requires
        a <= b,
    ensures
        pow2(a) <= pow2(b),
    decreases b - a,
{
    if a < b {
        lemma_pow2_monotone(a, (b - 1) as nat);
        lemma_pow2_unfold(b);
        lemma_pow2_pos((b - 1) as nat);
    }
}

} // verus!
