//! The groups `G1` and `G2` of the BN254 curve and its pairing.
//!
//! Points are held by their affine coordinates, as canonical integers of the
//! base field. What `ark_ec` computes on them (sums of scalar multiples, the
//! pairing) is given a name here; the contracts of the library speak of
//! these names.

use crate::field::{
    le_bytes, lemma_limbs_injective, limbs_equal, limbs_value, values, Scalar, U256,
};
use ark_bn254::{Bn254, Fq, Fq2, G1Affine, G1Projective, G2Affine};
use ark_ec::pairing::Pairing;
use ark_ec::{CurveGroup, VariableBaseMSM};
use ark_ff::{BigInt, Field, PrimeField};
use vstd::prelude::*;

verus! {

/// The order `q` of the base field.
pub open spec fn base_modulus() -> int {
    21888242871839275222246405745257275088696311157297823662689037894645226208583int
}

/// An affine point of `G1`: two elements of the base field, or the point at
/// infinity.
pub struct G1 {
    pub x: int,
    pub y: int,
    pub infinity: bool,
}

/// An affine point of `G2`: two elements `x0 + x1 u`, `y0 + y1 u` of the
/// quadratic extension of the base field, or the point at infinity.
pub struct G2 {
    pub x0: int,
    pub x1: int,
    pub y0: int,
    pub y1: int,
    pub infinity: bool,
}

/// The point at infinity of `G1`.
pub open spec fn g1_identity() -> G1 {
    G1 { x: 0, y: 0, infinity: true }
}

/// Whether the coordinates satisfy `y^2 = x^3 + 3` over the base field.
pub open spec fn g1_curve_equation(x: int, y: int) -> bool {
    (y * y) % base_modulus() == (x * x * x + 3) % base_modulus()
}

/// The points of `G1`: the point at infinity, held with zero coordinates, and
/// the canonical solutions of the curve equation.
pub open spec fn g1_on_curve(p: G1) -> bool {
    if p.infinity {
        p.x == 0 && p.y == 0
    } else {
        &&& 0 <= p.x < base_modulus()
        &&& 0 <= p.y < base_modulus()
        &&& g1_curve_equation(p.x, p.y)
    }
}

/// Whether `ark_ec` accepts the finite point with these coordinates as an
/// element of `G2`: it lies on the twist and in the subgroup of prime order.
pub uninterp spec fn g2_in_group(p: G2) -> bool;

/// The sum of `scalars[i] * bases[i]` over all `i`, as `ark_ec` computes it.
pub uninterp spec fn g1_msm(bases: Seq<G1>, scalars: Seq<int>) -> G1;

/// The multiple `s * p` in `G1`, as `ark_ec` computes it.
pub uninterp spec fn g1_scalar_mul(p: G1, s: int) -> G1;

/// The multiple `s * p` in `G2`, as `ark_ec` computes it.
pub uninterp spec fn g2_scalar_mul(p: G2, s: int) -> G2;

/// The pairing `e(p, q)`, as the limbs of its twelve base-field
/// coefficients; `None` where the Miller loop yields zero.
pub uninterp spec fn pairing(p: G1, q: G2) -> Option<Seq<u64>>;

/// The integer that the compressed encoding of a point of `G1` writes: the
/// `x` coordinate, with bit 254 set for the point at infinity and bit 255 set
/// when `y` is the larger of the two roots.
pub open spec fn g1_compressed_value(p: G1) -> int {
    if p.infinity {
        0x4000_0000_0000_0000_0000_0000_0000_0000_0000_0000_0000_0000_0000_0000_0000_0000int
    } else if p.y <= (-p.y) % base_modulus() {
        p.x
    } else {
        p.x + 0x8000_0000_0000_0000_0000_0000_0000_0000_0000_0000_0000_0000_0000_0000_0000_0000int
    }
}

/// The 32 bytes of the compressed encoding of a point of `G1`.
pub open spec fn g1_compressed(p: G1) -> Seq<u8> {
    le_bytes(g1_compressed_value(p), 32)
}

/// A point of `G1`.
#[derive(Clone, Copy, Debug, PartialEq, Eq)]
pub struct G1Point {
    x: [u64; 4],
    y: [u64; 4],
    infinity: bool,
}

impl View for G1Point {
    type V = G1;

    /// The coordinates as integers.
    closed spec fn view(&self) -> G1 {
        G1 { x: limbs_value(self.x), y: limbs_value(self.y), infinity: self.infinity }
    }
}

impl G1Point {
    /// Every point lies on the curve.
    #[verifier::type_invariant]
    pub open spec fn wf(self) -> bool {
        g1_on_curve(self@)
    }

    /// Points are equal exactly when their coordinates are.
    pub proof fn lemma_eq_by_view(a: G1Point, b: G1Point)
        ensures
            (a == b) <==> (a@ == b@),
    {
        if a@ == b@ {
            lemma_limbs_injective(a.x, b.x);
            lemma_limbs_injective(a.y, b.y);
        }
    }

    /// The point at infinity.
    pub fn identity() -> (r: G1Point)
        ensures
            r@ == g1_identity(),
    {
        G1Point { x: [0, 0, 0, 0], y: [0, 0, 0, 0], infinity: true }
    }

    /// The finite point with the given coordinates; `None` unless both are
    /// canonical and satisfy the curve equation.
    pub fn from_coordinates(x: U256, y: U256) -> (r: Option<G1Point>)
        ensures
            r.is_some() == g1_on_curve(G1 { x: x.value(), y: y.value(), infinity: false }),
            r.is_some() ==> r.unwrap()@ == (G1 { x: x.value(), y: y.value(), infinity: false }),
    {
        if base_repr_is_canonical(&x) && base_repr_is_canonical(&y) && g1_satisfies_equation(
            &x,
            &y,
        ) {
            Some(G1Point { x: x.limbs(), y: y.limbs(), infinity: false })
        } else {
            None
        }
    }

    /// Whether the point is the point at infinity.
    pub fn is_identity(&self) -> (b: bool)
        ensures
            b == self@.infinity,
            b == (self@ == g1_identity()),
    {
        proof {
            use_type_invariant(self);
        }
        self.infinity
    }

    /// The `x` coordinate; zero for the point at infinity.
    pub fn x(&self) -> (r: U256)
        ensures
            r.value() == self@.x,
    {
        U256::from_limbs(self.x)
    }

    /// The `y` coordinate; zero for the point at infinity.
    pub fn y(&self) -> (r: U256)
        ensures
            r.value() == self@.y,
    {
        U256::from_limbs(self.y)
    }

    /// Whether the two points have the same coordinates.
    pub fn equals(&self, other: &G1Point) -> (b: bool)
        ensures
            b == (self@ == other@),
    {
        proof {
            G1Point::lemma_eq_by_view(*self, *other);
        }
        limbs_equal(&self.x, &other.x) && limbs_equal(&self.y, &other.y) && self.infinity
            == other.infinity
    }

    /// The multiple `s * self`.
    pub fn mul(&self, s: &Scalar) -> (r: G1Point)
        ensures
            r@ == g1_scalar_mul(self@, s@),
    {
        g1_mul(self, s)
    }

    /// The compressed encoding of the point.
    pub fn to_compressed_bytes(&self) -> (r: Vec<u8>)
        ensures
            r@ == g1_compressed(self@),
    {
        g1_serialize(self)
    }
}

/// A point of `G2`.
#[derive(Clone, Copy, Debug, PartialEq, Eq)]
pub struct G2Point {
    x0: [u64; 4],
    x1: [u64; 4],
    y0: [u64; 4],
    y1: [u64; 4],
    infinity: bool,
}

impl View for G2Point {
    type V = G2;

    /// The coordinates as integers.
    closed spec fn view(&self) -> G2 {
        G2 {
            x0: limbs_value(self.x0),
            x1: limbs_value(self.x1),
            y0: limbs_value(self.y0),
            y1: limbs_value(self.y1),
            infinity: self.infinity,
        }
    }
}

/// Whether all four coordinates are canonical integers of the base field.
pub open spec fn g2_canonical(p: G2) -> bool {
    &&& 0 <= p.x0 < base_modulus()
    &&& 0 <= p.x1 < base_modulus()
    &&& 0 <= p.y0 < base_modulus()
    &&& 0 <= p.y1 < base_modulus()
}

impl G2Point {
    /// Every point has canonical coordinates; a finite one is an element of
    /// the group, and the point at infinity is held with zero coordinates.
    #[verifier::type_invariant]
    pub open spec fn wf(self) -> bool {
        &&& g2_canonical(self@)
        &&& !self@.infinity ==> g2_in_group(self@)
        &&& self@.infinity ==> self@.x0 == 0 && self@.x1 == 0 && self@.y0 == 0 && self@.y1 == 0
    }

    /// The finite point with the given coordinates `x0 + x1 u`, `y0 + y1 u`;
    /// `None` unless all four are canonical and the point is in the group.
    pub fn from_coordinates(x0: U256, x1: U256, y0: U256, y1: U256) -> (r: Option<G2Point>)
        ensures
            ({
                let p = G2 {
                    x0: x0.value(),
                    x1: x1.value(),
                    y0: y0.value(),
                    y1: y1.value(),
                    infinity: false,
                };
                &&& r.is_some() == (g2_canonical(p) && g2_in_group(p))
                &&& r.is_some() ==> r.unwrap()@ == p
            }),
    {
        if base_repr_is_canonical(&x0) && base_repr_is_canonical(&x1) && base_repr_is_canonical(
            &y0,
        ) && base_repr_is_canonical(&y1) {
            if g2_check(&x0, &x1, &y0, &y1) {
                Some(
                    G2Point {
                        x0: x0.limbs(),
                        x1: x1.limbs(),
                        y0: y0.limbs(),
                        y1: y1.limbs(),
                        infinity: false,
                    },
                )
            } else {
                None
            }
        } else {
            None
        }
    }

    /// The four coordinates `(x0, x1, y0, y1)`.
    pub fn coordinates(&self) -> (r: (U256, U256, U256, U256))
        ensures
            r.0.value() == self@.x0,
            r.1.value() == self@.x1,
            r.2.value() == self@.y0,
            r.3.value() == self@.y1,
    {
        (
            U256::from_limbs(self.x0),
            U256::from_limbs(self.x1),
            U256::from_limbs(self.y0),
            U256::from_limbs(self.y1),
        )
    }

    /// Whether the point is the point at infinity.
    pub fn is_identity(&self) -> (b: bool)
        ensures
            b == self@.infinity,
    {
        self.infinity
    }

    /// The multiple `s * self`.
    pub fn mul(&self, s: &Scalar) -> (r: G2Point)
        ensures
            r@ == g2_scalar_mul(self@, s@),
    {
        g2_mul(self, s)
    }
}

/// The views of a sequence of points.
pub open spec fn points(s: Seq<G1Point>) -> Seq<G1> {
    Seq::new(s.len(), |i: int| s[i]@)
}

/// The sum of `scalars[i] * bases[i]`.
pub fn msm(bases: &[G1Point], scalars: &[Scalar]) -> (r: G1Point)
    requires
        bases@.len() == scalars@.len(),
    ensures
        r@ == g1_msm(points(bases@), values(scalars@)),
{
    g1_msm_of(bases, scalars)
}

/// Whether `e(a, b) = e(c, d)`, both pairings being defined.
pub fn pairings_agree(a: &G1Point, b: &G2Point, c: &G1Point, d: &G2Point) -> (r: bool)
    ensures
        r == (pairing(a@, b@).is_some() && pairing(a@, b@) == pairing(c@, d@)),
{
    let left = pairing_of(a, b);
    let right = pairing_of(c, d);
    match (left, right) {
        (Some(l), Some(r)) => {
            if l.len() != r.len() {
                return false;
            }
            let mut i: usize = 0;
            while i < l.len()
                invariant
                    l.len() == r.len(),
                    i <= l.len(),
                    forall|k: int| 0 <= k < i ==> l@[k] == r@[k],
                    pairing(a@, b@) == Some(l@),
                    pairing(c@, d@) == Some(r@),
                decreases l.len() - i,
            {
                if l[i] != r[i] {
                    return false;
                }
                i += 1;
            }
            assert(l@ =~= r@);
            true
        },
        _ => false,
    }
}

/// `UniformRand::rand` of `ark_std` on BN254 `G1`, brought to affine form: a
/// point of the group, drawn from `rng`.
#[verifier::external_body]
pub(crate) fn random_g1(rng: &mut rand_chacha::ChaCha20Rng) -> (r: G1Point)
    ensures
        r.wf(),
{
    let m = <G1Projective as ark_std::UniformRand>::rand(rng).into_affine();
    G1Point { x: m.x.into_bigint().0, y: m.y.into_bigint().0, infinity: m.infinity }
}

/// `UniformRand::rand` of `ark_std` on BN254 `G2`, brought to affine form: a
/// point of the group, drawn from `rng`.
#[verifier::external_body]
pub(crate) fn random_g2(rng: &mut rand_chacha::ChaCha20Rng) -> (r: G2Point)
    ensures
        r.wf(),
{
    let m = <ark_bn254::G2Projective as ark_std::UniformRand>::rand(rng).into_affine();
    G2Point {
        x0: m.x.c0.into_bigint().0,
        x1: m.x.c1.into_bigint().0,
        y0: m.y.c0.into_bigint().0,
        y1: m.y.c1.into_bigint().0,
        infinity: m.infinity,
    }
}

/// `PrimeField::from_bigint` of `ark_ff` on the BN254 base field: it accepts
/// exactly the integers below the field order.
#[verifier::external_body]
fn base_repr_is_canonical(repr: &U256) -> (b: bool)
    ensures
        b == (repr.value() < base_modulus()),
{
    Fq::from_bigint(BigInt(repr.limbs())).is_some()
}

/// `Affine::is_on_curve` of `ark_ec` on a finite point of BN254 `G1`:
/// whether `y^2 = x^3 + 3` in the base field.
#[verifier::external_body]
fn g1_satisfies_equation(x: &U256, y: &U256) -> (b: bool)
    requires
        x.value() < base_modulus(),
        y.value() < base_modulus(),
    ensures
        b == g1_curve_equation(x.value(), y.value()),
{
    G1Affine::new_unchecked(Fq::new(BigInt(x.limbs())), Fq::new(BigInt(y.limbs()))).is_on_curve()
}

/// `Valid::check` of `ark_serialize` on a finite point of BN254 `G2`: whether
/// the point is on the twist and in the subgroup of prime order.
#[verifier::external_body]
fn g2_check(x0: &U256, x1: &U256, y0: &U256, y1: &U256) -> (b: bool)
    requires
        x0.value() < base_modulus(),
        x1.value() < base_modulus(),
        y0.value() < base_modulus(),
        y1.value() < base_modulus(),
    ensures
        b == g2_in_group(
            G2 {
                x0: x0.value(),
                x1: x1.value(),
                y0: y0.value(),
                y1: y1.value(),
                infinity: false,
            },
        ),
{
    let x = Fq2::new(Fq::new(BigInt(x0.limbs())), Fq::new(BigInt(x1.limbs())));
    let y = Fq2::new(Fq::new(BigInt(y0.limbs())), Fq::new(BigInt(y1.limbs())));
    ark_serialize::Valid::check(&G2Affine::new_unchecked(x, y)).is_ok()
}

/// `VariableBaseMSM::msm` of `ark_ec` on BN254 `G1`, brought to affine form:
/// the inner product of the scalars and the points, a point of the group.
#[verifier::external_body]
fn g1_msm_of(bases: &[G1Point], scalars: &[Scalar]) -> (r: G1Point)
    requires
        bases@.len() == scalars@.len(),
    ensures
        r@ == g1_msm(points(bases@), values(scalars@)),
        r.wf(),
{
    let b: Vec<G1Affine> = bases.iter().map(
        |p| G1Affine { x: Fq::new(BigInt(p.x)), y: Fq::new(BigInt(p.y)), infinity: p.infinity },
    ).collect();
    let s: Vec<ark_bn254::Fr> = scalars.iter().map(
        |s| ark_bn254::Fr::new(BigInt(s.into_repr().limbs())),
    ).collect();
    let m = G1Projective::msm(&b, &s).unwrap().into_affine();
    G1Point { x: m.x.into_bigint().0, y: m.y.into_bigint().0, infinity: m.infinity }
}

/// Multiplication of an affine point of BN254 `G1` by a scalar in `ark_ec`,
/// brought to affine form: a point of the group.
#[verifier::external_body]
fn g1_mul(p: &G1Point, s: &Scalar) -> (r: G1Point)
    ensures
        r@ == g1_scalar_mul(p@, s@),
        r.wf(),
{
    let a = G1Affine { x: Fq::new(BigInt(p.x)), y: Fq::new(BigInt(p.y)), infinity: p.infinity };
    let m = (a * ark_bn254::Fr::new(BigInt(s.into_repr().limbs()))).into_affine();
    G1Point { x: m.x.into_bigint().0, y: m.y.into_bigint().0, infinity: m.infinity }
}

/// Multiplication of an affine point of BN254 `G2` by a scalar in `ark_ec`,
/// brought to affine form: a point of the group.
#[verifier::external_body]
fn g2_mul(p: &G2Point, s: &Scalar) -> (r: G2Point)
    ensures
        r@ == g2_scalar_mul(p@, s@),
        r.wf(),
{
    let x = Fq2::new(Fq::new(BigInt(p.x0)), Fq::new(BigInt(p.x1)));
    let y = Fq2::new(Fq::new(BigInt(p.y0)), Fq::new(BigInt(p.y1)));
    let a = G2Affine { x, y, infinity: p.infinity };
    let m = (a * ark_bn254::Fr::new(BigInt(s.into_repr().limbs()))).into_affine();
    G2Point {
        x0: m.x.c0.into_bigint().0,
        x1: m.x.c1.into_bigint().0,
        y0: m.y.c0.into_bigint().0,
        y1: m.y.c1.into_bigint().0,
        infinity: m.infinity,
    }
}

/// `Pairing::miller_loop` and `Pairing::final_exponentiation` of `ark_ec` on
/// BN254, the result written as the limbs of its base-field coefficients.
#[verifier::external_body]
fn pairing_of(p: &G1Point, q: &G2Point) -> (r: Option<Vec<u64>>)
    ensures
        match r {
            Some(v) => pairing(p@, q@) == Some(v@),
            None => pairing(p@, q@).is_none(),
        },
{
    let a = G1Affine { x: Fq::new(BigInt(p.x)), y: Fq::new(BigInt(p.y)), infinity: p.infinity };
    let x = Fq2::new(Fq::new(BigInt(q.x0)), Fq::new(BigInt(q.x1)));
    let y = Fq2::new(Fq::new(BigInt(q.y0)), Fq::new(BigInt(q.y1)));
    let b = G2Affine { x, y, infinity: q.infinity };
    Bn254::final_exponentiation(Bn254::miller_loop(a, b)).map(
        |e| e.0.to_base_prime_field_elements().flat_map(|c| c.into_bigint().0).collect(),
    )
}

/// `CanonicalSerialize::serialize_compressed` of `ark_serialize` on a point
/// of BN254 `G1`: the `x` coordinate in 32 bytes, least significant first,
/// with the two flag bits in the top of the last byte.
#[verifier::external_body]
fn g1_serialize(p: &G1Point) -> (r: Vec<u8>)
    ensures
        r@ == g1_compressed(p@),
{
    let a = G1Affine { x: Fq::new(BigInt(p.x)), y: Fq::new(BigInt(p.y)), infinity: p.infinity };
    let mut out = Vec::new();
    ark_serialize::CanonicalSerialize::serialize_compressed(&a, &mut out).unwrap();
    out
}

} // verus!
