use ark_bn254::{Fq, G1Affine, G2Affine};
use ark_ec::{AffineRepr, CurveGroup};
use ark_ff::PrimeField;
use jolt_core::curve::{msm, pairings_agree, G1Point, G2Point};
use jolt_core::field::{Scalar, U256};

fn u256(x: Fq) -> U256 {
    U256::from_limbs(x.into_bigint().0)
}

fn g1() -> G1Point {
    G1Point::from_coordinates(
        U256::from_limbs([1, 0, 0, 0]),
        U256::from_limbs([2, 0, 0, 0]),
    )
    .unwrap()
}

fn g2() -> G2Point {
    let g = G2Affine::generator();
    G2Point::from_coordinates(u256(g.x.c0), u256(g.x.c1), u256(g.y.c0), u256(g.y.c1)).unwrap()
}

fn from_affine(p: G1Affine) -> G1Point {
    G1Point::from_coordinates(u256(p.x), u256(p.y)).unwrap()
}

#[test]
fn only_points_of_the_curve_are_points() {
    // y^2 = x^3 + 3: (1, 2) is on the curve, (1, 3) is not
    assert!(G1Point::from_coordinates(
        U256::from_limbs([1, 0, 0, 0]),
        U256::from_limbs([2, 0, 0, 0])
    )
    .is_some());
    assert!(G1Point::from_coordinates(
        U256::from_limbs([1, 0, 0, 0]),
        U256::from_limbs([3, 0, 0, 0])
    )
    .is_none());
    assert!(G1Point::from_coordinates(
        U256::from_limbs([0, 0, 0, 0]),
        U256::from_limbs([0, 0, 0, 0])
    )
    .is_none());
    // a coordinate that is not below the modulus
    let q = U256::from_limbs(Fq::MODULUS.0);
    assert!(G1Point::from_coordinates(q, U256::from_limbs([2, 0, 0, 0])).is_none());
    assert!(G1Point::from_coordinates(U256::from_limbs([u64::MAX; 4]), q).is_none());
    let g = g1();
    assert_eq!(g.x(), U256::from_limbs([1, 0, 0, 0]));
    assert_eq!(g.y(), U256::from_limbs([2, 0, 0, 0]));
    assert!(!g.is_identity());
    assert!(G1Point::identity().is_identity());
    assert!(g.equals(&g1()));
    assert!(!g.equals(&G1Point::identity()));
}

#[test]
fn only_points_of_the_group_are_points_of_g2() {
    let g = G2Affine::generator();
    assert!(
        G2Point::from_coordinates(u256(g.x.c0), u256(g.x.c1), u256(g.y.c0), u256(g.y.c1))
            .is_some()
    );
    // the coordinates the other way round are not on the twist
    assert!(
        G2Point::from_coordinates(u256(g.y.c0), u256(g.y.c1), u256(g.x.c0), u256(g.x.c1))
            .is_none()
    );
    let q = U256::from_limbs(Fq::MODULUS.0);
    assert!(G2Point::from_coordinates(q, u256(g.x.c1), u256(g.y.c0), u256(g.y.c1)).is_none());
    let p = g2();
    let c = p.coordinates();
    assert_eq!(
        (c.0, c.1, c.2, c.3),
        (u256(g.x.c0), u256(g.x.c1), u256(g.y.c0), u256(g.y.c1))
    );
    assert!(!p.is_identity());
}

#[test]
fn multiples_are_those_of_the_curve() {
    let g = g1();
    let expected = (G1Affine::generator() * ark_bn254::Fr::from(5u64)).into_affine();
    assert_eq!(g.mul(&Scalar::from_u64(5)), from_affine(expected));
    assert!(g.mul(&Scalar::zero()).is_identity());
    assert_eq!(g.mul(&Scalar::one()), g);
    let h = G2Affine::generator();
    let doubled = (h * ark_bn254::Fr::from(2u64)).into_affine();
    let expected =
        G2Point::from_coordinates(u256(doubled.x.c0), u256(doubled.x.c1), u256(doubled.y.c0), u256(doubled.y.c1))
            .unwrap();
    assert_eq!(g2().mul(&Scalar::from_u64(2)), expected);
    assert!(g2().mul(&Scalar::zero()).is_identity());
}

#[test]
fn a_multi_scalar_multiplication_is_the_sum_of_the_multiples() {
    let g = g1();
    let two_g = g.mul(&Scalar::from_u64(2));
    // 3 g + 4 (2 g) = 11 g
    let sum = msm(&[g, two_g], &[Scalar::from_u64(3), Scalar::from_u64(4)]);
    assert_eq!(sum, g.mul(&Scalar::from_u64(11)));
    assert!(msm(&[], &[]).is_identity());
    assert_eq!(msm(&[g], &[Scalar::one()]), g);
    // g - g
    assert!(msm(&[g, g], &[Scalar::one(), Scalar::one().neg()]).is_identity());
}

#[test]
fn the_compressed_encoding_is_that_of_the_curve_library() {
    let g = g1();
    let mut expected = vec![0u8; 32];
    expected[0] = 1;
    assert_eq!(g.to_compressed_bytes(), expected);
    let mut infinity = vec![0u8; 32];
    infinity[31] = 0x40;
    assert_eq!(G1Point::identity().to_compressed_bytes(), infinity);
    // (1, -2) has the larger root
    let minus_g = g.mul(&Scalar::one().neg());
    let mut negative = vec![0u8; 32];
    negative[0] = 1;
    negative[31] = 0x80;
    assert_eq!(minus_g.to_compressed_bytes(), negative);
    assert_eq!(minus_g.x(), g.x());
}

#[test]
fn the_pairing_is_bilinear_on_chosen_values() {
    let g = g1();
    let h = g2();
    let a = Scalar::from_u64(5);
    // e(5 g, h) = e(g, 5 h)
    assert!(pairings_agree(&g.mul(&a), &h, &g, &h.mul(&a)));
    assert!(pairings_agree(&g, &h, &g, &h));
    assert!(!pairings_agree(&g.mul(&a), &h, &g, &h));
    assert!(!pairings_agree(&g, &h, &g, &h.mul(&a)));
    // the pairing with the point at infinity is the unit on both sides
    assert!(pairings_agree(&G1Point::identity(), &h, &G1Point::identity(), &h.mul(&a)));
}
