use ark_bn254::Fr;
use ark_ff::{BigInteger, Field, PrimeField};
use ark_std::UniformRand;
use jolt_core::field::{limbs_equal, Scalar, U256};
use rand_core::SeedableRng;

fn from_fr(x: Fr) -> Scalar {
    Scalar::from_repr(U256::from_limbs(x.into_bigint().0)).unwrap()
}

fn to_fr(x: &Scalar) -> Fr {
    Fr::from_bigint(ark_ff::BigInt(x.into_repr().limbs())).unwrap()
}

fn modulus() -> U256 {
    U256::from_limbs(Fr::MODULUS.0)
}

#[test]
fn small_sums_and_products_are_exact() {
    let two = Scalar::from_u64(2);
    let three = Scalar::from_u64(3);
    assert_eq!(two.add(&three), Scalar::from_u64(5));
    assert_eq!(three.sub(&two), Scalar::from_u64(1));
    assert_eq!(two.mul(&three), Scalar::from_u64(6));
    assert_eq!(Scalar::zero().neg(), Scalar::zero());
    assert_eq!(Scalar::one(), Scalar::from_u64(1));
    assert!(Scalar::zero().is_zero());
    assert!(!Scalar::one().is_zero());
    assert!(two.equals(&Scalar::from_u64(2)));
    assert!(!two.equals(&three));
}

#[test]
fn arithmetic_wraps_at_the_field_order() {
    // r - 1, the largest element
    let minus_one = Scalar::one().neg();
    let mut limbs = Fr::MODULUS.0;
    limbs[0] -= 1;
    assert_eq!(minus_one.into_repr(), U256::from_limbs(limbs));
    // (r - 1) + 2 = 1
    assert_eq!(minus_one.add(&Scalar::from_u64(2)), Scalar::one());
    // 3 - 5 = -2
    assert_eq!(
        Scalar::from_u64(3).sub(&Scalar::from_u64(5)),
        Scalar::from_u64(2).neg()
    );
    // (-1) * (-1) = 1
    assert_eq!(minus_one.mul(&minus_one), Scalar::one());
    // x + (-x) = 0
    let x = Scalar::from_u64(0xdead_beef);
    assert!(x.add(&x.neg()).is_zero());
}

#[test]
fn only_canonical_integers_are_scalars() {
    assert!(Scalar::from_repr(modulus()).is_none());
    let mut below = Fr::MODULUS.0;
    below[0] -= 1;
    assert!(Scalar::from_repr(U256::from_limbs(below)).is_some());
    let all_ones = U256::from_limbs([u64::MAX; 4]);
    assert!(Scalar::from_repr(all_ones).is_none());
    let seven = Scalar::from_repr(U256::from_limbs([7, 0, 0, 0])).unwrap();
    assert_eq!(seven, Scalar::from_u64(7));
}

#[test]
fn bytes_are_reduced_modulo_the_field_order() {
    assert_eq!(Scalar::from_le_bytes_mod_order(&[]), Scalar::zero());
    assert_eq!(Scalar::from_le_bytes_mod_order(&[1]), Scalar::one());
    assert_eq!(
        Scalar::from_le_bytes_mod_order(&[2, 1]),
        Scalar::from_u64(258)
    );
    let modulus_bytes = Fr::MODULUS.to_bytes_le();
    assert_eq!(
        Scalar::from_le_bytes_mod_order(&modulus_bytes),
        Scalar::zero()
    );
    // 2^256 mod r, from 33 bytes
    let mut bytes = vec![0u8; 33];
    bytes[32] = 1;
    let expected = from_fr(Fr::from(2u64).pow([256u64]));
    assert_eq!(Scalar::from_le_bytes_mod_order(&bytes), expected);
}

#[test]
fn scalars_are_written_in_32_bytes_least_significant_first() {
    let bytes = Scalar::from_u64(0x0102).to_le_bytes();
    let mut expected = vec![0u8; 32];
    expected[0] = 2;
    expected[1] = 1;
    assert_eq!(bytes, expected);
    let minus_one = Scalar::one().neg().to_le_bytes();
    let mut top = Fr::MODULUS.to_bytes_le();
    top[0] -= 1;
    assert_eq!(minus_one, top);
}

#[test]
fn operations_agree_with_the_field_arithmetic() {
    let mut rng = rand_chacha::ChaCha20Rng::seed_from_u64(7);
    for _ in 0..50 {
        let a = Fr::rand(&mut rng);
        let b = Fr::rand(&mut rng);
        let (x, y) = (from_fr(a), from_fr(b));
        assert_eq!(to_fr(&x.add(&y)), a + b);
        assert_eq!(to_fr(&x.sub(&y)), a - b);
        assert_eq!(to_fr(&x.mul(&y)), a * b);
        assert_eq!(to_fr(&x.neg()), -a);
    }
}

#[test]
fn limbs_round_trip() {
    let u = U256::from_limbs([1, 2, 3, 4]);
    assert_eq!(u.limbs(), [1, 2, 3, 4]);
    assert_eq!((u.l0, u.l1, u.l2, u.l3), (1, 2, 3, 4));
    assert!(limbs_equal(&[1, 2, 3, 4], &u.limbs()));
    assert!(!limbs_equal(&[1, 2, 3, 5], &u.limbs()));
}
