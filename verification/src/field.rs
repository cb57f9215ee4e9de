//! The scalar field of the BN254 curve.
//!
//! A [`Scalar`] holds the canonical integer of a field element in four 64-bit
//! limbs. Contracts speak of its value, an `int` in `[0, r)`, and of the ring
//! operations modulo `r` on such values. The arithmetic itself is done by
//! `ark_ff`, behind the private functions at the end of this file.

use vstd::prelude::*;

verus! {

/// A 256-bit unsigned integer in four 64-bit limbs, least significant first.
#[derive(Clone, Copy, Debug, PartialEq, Eq, Structural)]
pub struct U256 {
    pub l0: u64,
    pub l1: u64,
    pub l2: u64,
    pub l3: u64,
}

impl U256 {
    /// The integer that the four limbs denote.
    pub open spec fn value(self) -> int {
        self.l0 + self.l1 * 0x1_0000_0000_0000_0000int + self.l2
            * 0x1_0000_0000_0000_0000_0000_0000_0000_0000int + self.l3
            * 0x1_0000_0000_0000_0000_0000_0000_0000_0000_0000_0000_0000_0000int
    }

    /// The four limbs, least significant first.
    pub fn limbs(&self) -> (r: [u64; 4])
        ensures
            r@ =~= seq![self.l0, self.l1, self.l2, self.l3],
            limbs_value(r) == self.value(),
    {
        [self.l0, self.l1, self.l2, self.l3]
    }

    /// The integer with the given limbs, least significant first.
    pub fn from_limbs(limbs: [u64; 4]) -> (r: U256)
        ensures
            r == (U256 { l0: limbs@[0], l1: limbs@[1], l2: limbs@[2], l3: limbs@[3] }),
            r.value() == limbs_value(limbs),
    {
        U256 { l0: limbs[0], l1: limbs[1], l2: limbs[2], l3: limbs[3] }
    }

    /// Two limb vectors that denote the same integer are the same.
    pub proof fn lemma_value_injective(a: U256, b: U256)
        requires
            a.value() == b.value(),
        ensures
            a == b,
    {
        let base = 0x1_0000_0000_0000_0000int;
        let ha = a.l1 + a.l2 * base + a.l3 * (base * base);
        let hb = b.l1 + b.l2 * base + b.l3 * (base * base);
        assert(a.value() == a.l0 + base * ha) by (nonlinear_arith)
            requires
                base == 0x1_0000_0000_0000_0000int,
                ha == a.l1 + a.l2 * base + a.l3 * (base * base),
                a.value() == a.l0 + a.l1 * 0x1_0000_0000_0000_0000int + a.l2
                    * 0x1_0000_0000_0000_0000_0000_0000_0000_0000int + a.l3
                    * 0x1_0000_0000_0000_0000_0000_0000_0000_0000_0000_0000_0000_0000int,
        ;
        assert(b.value() == b.l0 + base * hb) by (nonlinear_arith)
            requires
                base == 0x1_0000_0000_0000_0000int,
                hb == b.l1 + b.l2 * base + b.l3 * (base * base),
                b.value() == b.l0 + b.l1 * 0x1_0000_0000_0000_0000int + b.l2
                    * 0x1_0000_0000_0000_0000_0000_0000_0000_0000int + b.l3
                    * 0x1_0000_0000_0000_0000_0000_0000_0000_0000_0000_0000_0000_0000int,
        ;
        lemma_split_unique(a.l0 as int, ha, b.l0 as int, hb, base);
        let ka = a.l2 + a.l3 * base;
        let kb = b.l2 + b.l3 * base;
        assert(ha == a.l1 + base * ka) by (nonlinear_arith)
            requires
                ha == a.l1 + a.l2 * base + a.l3 * (base * base),
                ka == a.l2 + a.l3 * base,
        ;
        assert(hb == b.l1 + base * kb) by (nonlinear_arith)
            requires
                hb == b.l1 + b.l2 * base + b.l3 * (base * base),
                kb == b.l2 + b.l3 * base,
        ;
        lemma_split_unique(a.l1 as int, ka, b.l1 as int, kb, base);
        assert(ka == a.l2 + base * a.l3) by (nonlinear_arith)
            requires
                ka == a.l2 + a.l3 * base,
        ;
        assert(kb == b.l2 + base * b.l3) by (nonlinear_arith)
            requires
                kb == b.l2 + b.l3 * base,
        ;
        lemma_split_unique(a.l2 as int, a.l3 as int, b.l2 as int, b.l3 as int, base);
    }
}

/// The integer that four limbs denote, least significant first.
pub open spec fn limbs_value(limbs: [u64; 4]) -> int {
    (U256 { l0: limbs@[0], l1: limbs@[1], l2: limbs@[2], l3: limbs@[3] }).value()
}

/// Two limb arrays that denote the same integer are the same.
pub proof fn lemma_limbs_injective(a: [u64; 4], b: [u64; 4])
    requires
        limbs_value(a) == limbs_value(b),
    ensures
        a == b,
{
    U256::lemma_value_injective(
        U256 { l0: a@[0], l1: a@[1], l2: a@[2], l3: a@[3] },
        U256 { l0: b@[0], l1: b@[1], l2: b@[2], l3: b@[3] },
    );
    assert(a@ =~= b@);
}

/// Whether two limb arrays hold the same limbs.
pub fn limbs_equal(a: &[u64; 4], b: &[u64; 4]) -> (r: bool)
    ensures
        r == (a@ == b@),
{
    let r = a[0] == b[0] && a[1] == b[1] && a[2] == b[2] && a[3] == b[3];
    proof {
        if r {
            assert(a@ =~= b@);
        } else {
            assert(a@[0] != b@[0] || a@[1] != b@[1] || a@[2] != b@[2] || a@[3] != b@[3]);
        }
    }
    r
}

/// A number below `base` plus a multiple of `base` determines both parts.
proof fn lemma_split_unique(lo1: int, hi1: int, lo2: int, hi2: int, base: int)
    requires
        0 <= lo1 < base,
        0 <= lo2 < base,
        lo1 + base * hi1 == lo2 + base * hi2,
    ensures
        lo1 == lo2,
        hi1 == hi2,
{
    assert(hi1 == hi2) by (nonlinear_arith)
        requires
            0 <= lo1 < base,
            0 <= lo2 < base,
            lo1 + base * hi1 == lo2 + base * hi2,
    {
        if hi1 < hi2 {
            assert(base * hi2 >= base * hi1 + base);
        } else if hi2 < hi1 {
            assert(base * hi1 >= base * hi2 + base);
        }
    }
}

/// The order `r` of the scalar field.
#[verifier::opaque]
pub open spec fn scalar_modulus() -> int {
    21888242871839275222246405745257275088548364400416034343698204186575808495617int
}

/// The order of the scalar field is a number of 254 bits.
pub proof fn lemma_scalar_modulus()
    ensures
        scalar_modulus()
            == 21888242871839275222246405745257275088548364400416034343698204186575808495617int,
        0x1_0000_0000_0000_0000 < scalar_modulus(),
{
    reveal(scalar_modulus);
}

/// Addition modulo `r`.
pub open spec fn fadd(a: int, b: int) -> int {
    (a + b) % scalar_modulus()
}

/// Subtraction modulo `r`.
pub open spec fn fsub(a: int, b: int) -> int {
    (a - b) % scalar_modulus()
}

/// Multiplication modulo `r`.
pub open spec fn fmul(a: int, b: int) -> int {
    (a * b) % scalar_modulus()
}

/// Negation modulo `r`.
pub open spec fn fneg(a: int) -> int {
    (-a) % scalar_modulus()
}

/// The integer that a byte string denotes, least significant byte first.
pub open spec fn le_value(bytes: Seq<u8>) -> int
    decreases bytes.len(),
{
    if bytes.len() == 0 {
        0
    } else {
        bytes[0] + 256 * le_value(bytes.drop_first())
    }
}

/// The `n` low bytes of `v`, least significant first.
pub open spec fn le_bytes(v: int, n: nat) -> Seq<u8>
    decreases n,
{
    if n == 0 {
        Seq::empty()
    } else {
        seq![(v % 256) as u8] + le_bytes(v / 256, (n - 1) as nat)
    }
}

/// An element of the scalar field, in canonical form.
#[derive(Clone, Copy, Debug, PartialEq, Eq, Structural)]
pub struct Scalar {
    repr: U256,
}

impl View for Scalar {
    type V = int;

    /// The value of the element, in `[0, r)`.
    closed spec fn view(&self) -> int {
        self.repr.value()
    }
}

impl Scalar {
    /// Every scalar is canonical: its value lies in `[0, r)`.
    #[verifier::type_invariant]
    pub open spec fn wf(self) -> bool {
        0 <= self@ < scalar_modulus()
    }

    /// The limbs of the value.
    pub closed spec fn repr(self) -> U256 {
        self.repr
    }

    /// Scalars are equal exactly when their values are.
    pub proof fn lemma_eq_by_value(a: Scalar, b: Scalar)
        ensures
            (a == b) <==> (a@ == b@),
    {
        if a@ == b@ {
            U256::lemma_value_injective(a.repr, b.repr);
        }
    }

    /// The zero of the field.
    pub fn zero() -> (r: Scalar)
        ensures
            r@ == 0,
    {
        proof {
            lemma_scalar_modulus();
        }
        Scalar { repr: U256 { l0: 0, l1: 0, l2: 0, l3: 0 } }
    }

    /// The one of the field.
    pub fn one() -> (r: Scalar)
        ensures
            r@ == 1,
    {
        proof {
            lemma_scalar_modulus();
        }
        Scalar { repr: U256 { l0: 1, l1: 0, l2: 0, l3: 0 } }
    }

    /// The element with the value `x`.
    pub fn from_u64(x: u64) -> (r: Scalar)
        ensures
            r@ == x,
    {
        proof {
            lemma_scalar_modulus();
        }
        Scalar { repr: U256 { l0: x, l1: 0, l2: 0, l3: 0 } }
    }

    /// The element with the given canonical integer; `None` when the integer
    /// is not below `r`.
    pub fn from_repr(repr: U256) -> (r: Option<Scalar>)
        ensures
            match r {
                Some(s) => repr.value() < scalar_modulus() && s@ == repr.value() && s.repr()
                    == repr,
                None => repr.value() >= scalar_modulus(),
            },
    {
        if scalar_repr_is_canonical(&repr) {
            Some(Scalar { repr })
        } else {
            None
        }
    }

    /// The canonical integer of the element.
    pub fn into_repr(&self) -> (r: U256)
        ensures
            r == self.repr(),
            r.value() == self@,
            0 <= r.value() < scalar_modulus(),
    {
        proof {
            use_type_invariant(self);
        }
        self.repr
    }

    /// The sum in the field.
    pub fn add(&self, other: &Scalar) -> (r: Scalar)
        ensures
            r@ == fadd(self@, other@),
    {
        scalar_add(self, other)
    }

    /// The difference in the field.
    pub fn sub(&self, other: &Scalar) -> (r: Scalar)
        ensures
            r@ == fsub(self@, other@),
    {
        scalar_sub(self, other)
    }

    /// The product in the field.
    pub fn mul(&self, other: &Scalar) -> (r: Scalar)
        ensures
            r@ == fmul(self@, other@),
    {
        scalar_mul(self, other)
    }

    /// The negation in the field.
    pub fn neg(&self) -> (r: Scalar)
        ensures
            r@ == fneg(self@),
    {
        scalar_neg(self)
    }

    /// Whether the element is zero.
    pub fn is_zero(&self) -> (b: bool)
        ensures
            b == (self@ == 0),
    {
        let z = Scalar::zero();
        proof {
            Scalar::lemma_eq_by_value(*self, z);
        }
        *self == z
    }

    /// Whether the two elements have the same value.
    pub fn equals(&self, other: &Scalar) -> (b: bool)
        ensures
            b == (self@ == other@),
    {
        proof {
            Scalar::lemma_eq_by_value(*self, *other);
        }
        *self == *other
    }

    /// The element that a little-endian byte string denotes, reduced modulo `r`.
    pub fn from_le_bytes_mod_order(bytes: &[u8]) -> (r: Scalar)
        ensures
            r@ == le_value(bytes@) % scalar_modulus(),
    {
        scalar_from_le_bytes_mod_order(bytes)
    }

    /// The 32 bytes of the value, least significant first.
    pub fn to_le_bytes(&self) -> (r: Vec<u8>)
        ensures
            r@ == le_bytes(self@, 32),
    {
        scalar_serialize(self)
    }
}

/// The values of a sequence of scalars.
pub open spec fn values(s: Seq<Scalar>) -> Seq<int> {
    Seq::new(s.len(), |i: int| s[i]@)
}

/// `UniformRand::rand` of `ark_std` on the BN254 scalar field: an element of
/// the field, in canonical form, drawn from `rng`.
#[verifier::external_body]
pub(crate) fn random_scalar(rng: &mut rand_chacha::ChaCha20Rng) -> (r: Scalar)
    ensures
        r.wf(),
{
    let x: ark_bn254::Fr = ark_std::UniformRand::rand(rng);
    Scalar { repr: U256::from_limbs(ark_ff::PrimeField::into_bigint(x).0) }
}

/// `PrimeField::from_bigint` of `ark_ff` on the BN254 scalar field: it accepts
/// exactly the integers below the field order.
#[verifier::external_body]
fn scalar_repr_is_canonical(repr: &U256) -> (b: bool)
    ensures
        b == (repr.value() < scalar_modulus()),
{
    let x: Option<ark_bn254::Fr> = ark_ff::PrimeField::from_bigint(
        ark_ff::BigInt::new(repr.limbs()),
    );
    x.is_some()
}

/// Addition of `ark_ff` on the BN254 scalar field: the sum of the two values
/// modulo the field order, in canonical form.
#[verifier::external_body]
fn scalar_add(a: &Scalar, b: &Scalar) -> (r: Scalar)
    ensures
        r@ == fadd(a@, b@),
        r.wf(),
{
    let x = ark_bn254::Fr::new(ark_ff::BigInt::new(a.repr.limbs()));
    let y = ark_bn254::Fr::new(ark_ff::BigInt::new(b.repr.limbs()));
    Scalar { repr: U256::from_limbs(ark_ff::PrimeField::into_bigint(x + y).0) }
}

/// Subtraction of `ark_ff` on the BN254 scalar field: the difference of the
/// two values modulo the field order, in canonical form.
#[verifier::external_body]
fn scalar_sub(a: &Scalar, b: &Scalar) -> (r: Scalar)
    ensures
        r@ == fsub(a@, b@),
        r.wf(),
{
    let x = ark_bn254::Fr::new(ark_ff::BigInt::new(a.repr.limbs()));
    let y = ark_bn254::Fr::new(ark_ff::BigInt::new(b.repr.limbs()));
    Scalar { repr: U256::from_limbs(ark_ff::PrimeField::into_bigint(x - y).0) }
}

/// Multiplication of `ark_ff` on the BN254 scalar field: the product of the
/// two values modulo the field order, in canonical form.
#[verifier::external_body]
fn scalar_mul(a: &Scalar, b: &Scalar) -> (r: Scalar)
    ensures
        r@ == fmul(a@, b@),
        r.wf(),
{
    let x = ark_bn254::Fr::new(ark_ff::BigInt::new(a.repr.limbs()));
    let y = ark_bn254::Fr::new(ark_ff::BigInt::new(b.repr.limbs()));
    Scalar { repr: U256::from_limbs(ark_ff::PrimeField::into_bigint(x * y).0) }
}

/// Negation of `ark_ff` on the BN254 scalar field: zero for zero, else the
/// field order minus the value.
#[verifier::external_body]
fn scalar_neg(a: &Scalar) -> (r: Scalar)
    ensures
        r@ == fneg(a@),
        r.wf(),
{
    let x = ark_bn254::Fr::new(ark_ff::BigInt::new(a.repr.limbs()));
    Scalar { repr: U256::from_limbs(ark_ff::PrimeField::into_bigint(-x).0) }
}

/// `PrimeField::from_le_bytes_mod_order` of `ark_ff` on the BN254 scalar
/// field: the integer that the bytes denote, least significant byte first,
/// reduced modulo the field order.
#[verifier::external_body]
fn scalar_from_le_bytes_mod_order(bytes: &[u8]) -> (r: Scalar)
    ensures
        r@ == le_value(bytes@) % scalar_modulus(),
        r.wf(),
{
    let x: ark_bn254::Fr = ark_ff::PrimeField::from_le_bytes_mod_order(bytes);
    Scalar { repr: U256::from_limbs(ark_ff::PrimeField::into_bigint(x).0) }
}

/// `CanonicalSerialize::serialize_compressed` of `ark_serialize` on a BN254
/// scalar: the 32 bytes of the canonical integer, least significant first.
#[verifier::external_body]
fn scalar_serialize(a: &Scalar) -> (r: Vec<u8>)
    ensures
        r@ == le_bytes(a@, 32),
{
    let x = ark_bn254::Fr::new(ark_ff::BigInt::new(a.repr.limbs()));
    let mut out = Vec::new();
    ark_serialize::CanonicalSerialize::serialize_compressed(&x, &mut out).unwrap();
    out
}

} // verus!
