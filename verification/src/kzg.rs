//! The univariate KZG commitment scheme over BN254.

use crate::curve::{
    g1_msm, g1_scalar_mul, g2_scalar_mul, msm, points, random_g1, random_g2, G1Point, G2Point,
    G1, G2,
};
use crate::errors::ProofVerifyError;
use crate::field::{random_scalar, values, Scalar};
use rand_chacha::ChaCha20Rng;
use rayon::iter::{IntoParallelRefIterator, ParallelIterator};
use crate::poly::{power, witness, witness_polynomial};
use std::sync::Arc;
use vstd::prelude::*;
use vstd::slice::slice_subrange;

verus! {

/// The powers of the secret in `G1` that an honest setup yields: `g1` itself,
/// then `tau^i * g1`.
pub open spec fn g1_powers_of(tau: int, g1: G1, n: nat) -> Seq<G1> {
    Seq::new(n, |i: int| if i == 0 { g1 } else { g1_scalar_mul(g1, power(tau, i as nat)) })
}

/// The two elements of `G2` that an honest setup yields.
pub open spec fn g2_powers_of(tau: int, g2: G2) -> Seq<G2> {
    seq![g2, g2_scalar_mul(g2, tau)]
}

/// The commitment to the polynomial with coefficients `f` under the powers
/// `pk`: the sum of `f[i] * pk[i]`.
pub open spec fn commit_spec(pk: Seq<G1>, f: Seq<int>) -> G1 {
    g1_msm(pk.subrange(0, f.len() as int), f)
}

/// The witness that `f` takes its value at `u`: the commitment to the
/// quotient of `f(X) - f(u)` by `X - u`.
pub open spec fn open_spec(pk: Seq<G1>, f: Seq<int>, u: int) -> G1 {
    commit_spec(pk, witness(f, u))
}

/// `ChaCha20Rng` of `rand_chacha`, the generator of pseudo-random numbers
/// that a setup draws from. It is handed on to the samplers as it is.
#[verifier::external_type_specification]
#[verifier::external_body]
pub struct ExChaCha20Rng(ChaCha20Rng);

/// A structured reference string.
#[derive(Debug)]
pub struct SRS {
    g1_powers: Vec<G1Point>,
    g2_powers: Vec<G2Point>,
}

impl SRS {
    /// There is at least one power in `G1`, and there are two in `G2`.
    #[verifier::type_invariant]
    pub closed spec fn wf(self) -> bool {
        self.g1_powers@.len() >= 1 && self.g2_powers@.len() == 2
    }

    /// The powers in `G1`.
    pub closed spec fn g1(self) -> Seq<G1> {
        points(self.g1_powers@)
    }

    /// The powers in `G2`.
    pub closed spec fn g2(self) -> Seq<G2> {
        Seq::new(self.g2_powers@.len(), |i: int| self.g2_powers@[i]@)
    }

    /// The string for the secret `tau` and the generators `g1`, `g2`, with
    /// the powers of `tau` up to `max_degree`.
    pub fn from_secret(tau: &Scalar, g1: &G1Point, g2: &G2Point, max_degree: usize) -> (srs: SRS)
        requires
            max_degree < usize::MAX,
        ensures
            srs.made_from(tau@, g1@, g2@, max_degree as nat),
    {
        let mut g1_powers: Vec<G1Point> = Vec::new();
        g1_powers.push(*g1);
        let mut tau_power = Scalar::one();
        let mut i: usize = 1;
        while i <= max_degree
            invariant
                1 <= i <= max_degree + 1,
                max_degree < usize::MAX,
                g1_powers@.len() == i,
                tau_power@ == power(tau@, (i - 1) as nat),
                g1_powers@[0]@ == g1@,
                forall|j: int|
                    1 <= j < i ==> g1_powers@[j]@ == g1_scalar_mul(g1@, power(tau@, j as nat)),
            decreases max_degree + 1 - i,
        {
            tau_power = tau_power.mul(tau);
            g1_powers.push(g1.mul(&tau_power));
            i += 1;
        }
        let mut g2_powers: Vec<G2Point> = Vec::new();
        g2_powers.push(*g2);
        g2_powers.push(g2.mul(tau));
        let srs = SRS { g1_powers, g2_powers };
        assert(srs.g1() =~= g1_powers_of(tau@, g1@, (max_degree + 1) as nat));
        assert(srs.g2() =~= g2_powers_of(tau@, g2@));
        srs
    }

    /// Whether the string is the one that an honest setup yields for some
    /// secret and some generators, with the powers up to `max_degree`.
    pub open spec fn honest(self, max_degree: nat) -> bool {
        exists|tau: int, g1: G1, g2: G2| #[trigger] self.made_from(tau, g1, g2, max_degree)
    }

    /// Whether the string is the one that an honest setup yields for the
    /// secret `tau` and the generators `g1`, `g2`.
    pub open spec fn made_from(self, tau: int, g1: G1, g2: G2, max_degree: nat) -> bool {
        self.g1() == g1_powers_of(tau, g1, max_degree + 1) && self.g2() == g2_powers_of(tau, g2)
    }

    /// A string for a secret and generators drawn from `rng`, with the
    /// powers of the secret up to `max_degree`. The secret is dropped.
    pub fn setup(rng: &mut ChaCha20Rng, max_degree: usize) -> (srs: SRS)
        requires
            max_degree < usize::MAX,
        ensures
            srs.honest(max_degree as nat),
            srs.g1().len() == max_degree + 1,
    {
        let tau = random_scalar(rng);
        let g1 = random_g1(rng);
        let g2 = random_g2(rng);
        let srs = SRS::from_secret(&tau, &g1, &g2, max_degree);
        assert(srs.made_from(tau@, g1@, g2@, max_degree as nat));
        srs
    }

    /// The number of powers in `G1`.
    pub fn g1_len(&self) -> (n: usize)
        ensures
            n == self.g1().len(),
            n >= 1,
    {
        proof {
            use_type_invariant(self);
        }
        self.g1_powers.len()
    }

    /// The prover key over the first `max_degree + 1` powers and the
    /// verifier key.
    pub fn trim(params: Arc<SRS>, max_degree: usize) -> (keys: (KZGProverKey, KZGVerifierKey))
        requires
            max_degree < params.g1().len(),
        ensures
            keys.0@ == params.g1().subrange(0, max_degree + 1),
            keys.1.g1@ == params.g1()[0],
            keys.1.g2@ == params.g2()[0],
            keys.1.beta_g2@ == params.g2()[1],
    {
        proof {
            use_type_invariant(&*params);
        }
        let n = params.g1_powers.len();
        assert(params.g1().len() == n);
        let g1 = params.g1_powers[0];
        let g2 = params.g2_powers[0];
        let beta_g2 = params.g2_powers[1];
        let pk = KZGProverKey::new(params, 0, max_degree + 1);
        let vk = KZGVerifierKey { g1, g2, beta_g2 };
        (pk, vk)
    }
}

/// The part of a reference string that a prover commits with.
#[derive(Debug)]
pub struct KZGProverKey {
    srs: Arc<SRS>,
    offset: usize,
    supported_size: usize,
}

impl View for KZGProverKey {
    type V = Seq<G1>;

    /// The powers that the key holds.
    closed spec fn view(&self) -> Seq<G1> {
        self.srs.g1().subrange(self.offset as int, self.offset + self.supported_size)
    }
}

impl KZGProverKey {
    /// The key lies within the reference string.
    #[verifier::type_invariant]
    pub closed spec fn wf(self) -> bool {
        self.offset + self.supported_size <= self.srs.g1_powers@.len()
    }

    /// The key over `supported_size` powers of `srs` from `offset` on.
    pub fn new(srs: Arc<SRS>, offset: usize, supported_size: usize) -> (pk: KZGProverKey)
        requires
            offset + supported_size <= srs.g1().len(),
        ensures
            pk@ == srs.g1().subrange(offset as int, offset + supported_size),
    {
        assert(srs.g1().len() == srs.g1_powers@.len());
        KZGProverKey { srs, offset, supported_size }
    }

    /// The powers that the key holds.
    pub fn g1_powers(&self) -> (r: &[G1Point])
        ensures
            points(r@) == self@,
    {
        proof {
            use_type_invariant(self);
        }
        let n = self.srs.g1_powers.len();
        let r = slice_subrange(
            self.srs.g1_powers.as_slice(),
            self.offset,
            self.offset + self.supported_size,
        );
        assert(points(r@) =~= self@);
        r
    }

    /// The number of powers that the key holds.
    pub fn len(&self) -> (n: usize)
        ensures
            n == self@.len(),
    {
        proof {
            use_type_invariant(self);
        }
        self.supported_size
    }
}

/// What a verifier needs of a reference string.
#[derive(Clone, Copy, Debug)]
pub struct KZGVerifierKey {
    pub g1: G1Point,
    pub g2: G2Point,
    pub beta_g2: G2Point,
}

/// A univariate polynomial, held by its coefficients, lowest degree first.
#[derive(Debug)]
pub struct UniPoly {
    pub coeffs: Vec<Scalar>,
}

impl View for UniPoly {
    type V = Seq<int>;

    /// The values of the coefficients.
    open spec fn view(&self) -> Seq<int> {
        values(self.coeffs@)
    }
}

impl UniPoly {
    /// The polynomial with the given coefficients, lowest degree first.
    pub fn from_coeff(coeffs: Vec<Scalar>) -> (p: UniPoly)
        ensures
            p@ == values(coeffs@),
    {
        UniPoly { coeffs }
    }
}

/// The commitment scheme.
pub struct UnivariateKZG;

impl UnivariateKZG {
    /// The commitment to `poly`, or `KeyLengthError` where the key holds
    /// fewer powers than the polynomial has coefficients.
    pub fn commit(pk: &KZGProverKey, poly: &UniPoly) -> (r: Result<G1Point, ProofVerifyError>)
        ensures
            poly@.len() <= pk@.len() ==> r.is_ok() && r.unwrap()@ == commit_spec(pk@, poly@),
            poly@.len() > pk@.len() ==> r == Err::<G1Point, ProofVerifyError>(
                ProofVerifyError::KeyLengthError(pk@.len() as usize, poly@.len() as usize),
            ),
    {
        commit_coefficients(pk, poly.coeffs.as_slice())
    }

    /// The witness that `poly` takes its value at `point`, or
    /// `KeyLengthError` where the key is too short.
    pub fn open(pk: &KZGProverKey, poly: &UniPoly, point: &Scalar) -> (r: Result<
        G1Point,
        ProofVerifyError,
    >)
        ensures
            poly@.len() <= pk@.len() ==> r.is_ok() && r.unwrap()@ == open_spec(
                pk@,
                poly@,
                point@,
            ),
            poly@.len() > pk@.len() ==> r == Err::<G1Point, ProofVerifyError>(
                ProofVerifyError::KeyLengthError(pk@.len() as usize, poly@.len() as usize),
            ),
    {
        open_coefficients(pk, poly.coeffs.as_slice(), point)
    }
}

/// The commitment to the polynomial with coefficients `f`, of which the key
/// holds enough powers.
pub fn commit_within(pk: &KZGProverKey, f: &[Scalar]) -> (c: G1Point)
    requires
        f@.len() <= pk@.len(),
    ensures
        c@ == commit_spec(pk@, values(f@)),
{
    let powers = pk.g1_powers();
    assert(powers@.len() == points(powers@).len());
    let bases = slice_subrange(powers, 0, f.len());
    assert(points(bases@) =~= pk@.subrange(0, f@.len() as int));
    assert(values(f@).len() == f@.len());
    msm(bases, f)
}

/// The witness that the polynomial with coefficients `f`, of which the key
/// holds enough powers, takes its value at `u`.
pub fn open_within(pk: &KZGProverKey, f: &[Scalar], u: &Scalar) -> (w: G1Point)
    requires
        f@.len() <= pk@.len(),
    ensures
        w@ == open_spec(pk@, values(f@), u@),
{
    let h = witness_polynomial(f, u);
    assert(h@.len() == values(h@).len());
    assert(values(f@).len() == f@.len());
    commit_within(pk, h.as_slice())
}

/// The commitments to the polynomials, each of which the key holds enough
/// powers of. The polynomials are shared out to the threads of the pool.
pub fn commit_each(pk: &KZGProverKey, polys: &[Vec<Scalar>]) -> (com: Vec<G1Point>)
    requires
        forall|i: int| 0 <= i < polys@.len() ==> (#[trigger] polys@[i])@.len() <= pk@.len(),
    ensures
        com@.len() == polys@.len(),
        forall|i: int|
            0 <= i < polys@.len() ==> (#[trigger] com@[i])@ == commit_spec(
                pk@,
                values(polys@[i]@),
            ),
{
    par_commit(pk, polys)
}

/// The witnesses that the polynomial with coefficients `f`, of which the
/// key holds enough powers, takes its values at the points `u`. The points
/// are shared out to the threads of the pool.
pub fn open_each(pk: &KZGProverKey, f: &[Scalar], u: &[Scalar]) -> (w: Vec<G1Point>)
    requires
        f@.len() <= pk@.len(),
    ensures
        w@.len() == u@.len(),
        forall|j: int|
            0 <= j < u@.len() ==> (#[trigger] w@[j])@ == open_spec(pk@, values(f@), u@[j]@),
{
    par_open(pk, f, u)
}

/// `par_iter`, `map` and `collect` of `rayon` on a slice: the results of
/// `commit_within` on the items, in the order of the items.
#[verifier::external_body]
fn par_commit(pk: &KZGProverKey, polys: &[Vec<Scalar>]) -> (com: Vec<G1Point>)
    requires
        forall|i: int| 0 <= i < polys@.len() ==> (#[trigger] polys@[i])@.len() <= pk@.len(),
    ensures
        com@.len() == polys@.len(),
        forall|i: int|
            0 <= i < polys@.len() ==> (#[trigger] com@[i])@ == commit_spec(
                pk@,
                values(polys@[i]@),
            ),
{
    polys.par_iter().map(|f| commit_within(pk, f.as_slice())).collect()
}

/// `par_iter`, `map` and `collect` of `rayon` on a slice: the results of
/// `open_within` on the items, in the order of the items.
#[verifier::external_body]
fn par_open(pk: &KZGProverKey, f: &[Scalar], u: &[Scalar]) -> (w: Vec<G1Point>)
    requires
        f@.len() <= pk@.len(),
    ensures
        w@.len() == u@.len(),
        forall|j: int|
            0 <= j < u@.len() ==> (#[trigger] w@[j])@ == open_spec(pk@, values(f@), u@[j]@),
{
    u.par_iter().map(|point| open_within(pk, f, point)).collect()
}

/// The commitment to the polynomial with coefficients `f`.
pub fn commit_coefficients(pk: &KZGProverKey, f: &[Scalar]) -> (r: Result<
    G1Point,
    ProofVerifyError,
>)
    ensures
        f@.len() <= pk@.len() ==> r.is_ok() && r.unwrap()@ == commit_spec(pk@, values(f@)),
        f@.len() > pk@.len() ==> r == Err::<G1Point, ProofVerifyError>(
            ProofVerifyError::KeyLengthError(pk@.len() as usize, f@.len() as usize),
        ),
{
    if pk.len() < f.len() {
        return Err(ProofVerifyError::KeyLengthError(pk.len(), f.len()));
    }
    Ok(commit_within(pk, f))
}

/// The witness that the polynomial with coefficients `f` takes its value at
/// `u`.
pub fn open_coefficients(pk: &KZGProverKey, f: &[Scalar], u: &Scalar) -> (r: Result<
    G1Point,
    ProofVerifyError,
>)
    ensures
        f@.len() <= pk@.len() ==> r.is_ok() && r.unwrap()@ == open_spec(pk@, values(f@), u@),
        f@.len() > pk@.len() ==> r == Err::<G1Point, ProofVerifyError>(
            ProofVerifyError::KeyLengthError(pk@.len() as usize, f@.len() as usize),
        ),
{
    if pk.len() < f.len() {
        return Err(ProofVerifyError::KeyLengthError(pk.len(), f.len()));
    }
    Ok(open_within(pk, f, u))
}

} // verus!
