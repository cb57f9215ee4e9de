use ark_bn254::{Fq, Fr, G1Affine};
use ark_ec::AffineRepr;
use ark_ff::{BigInt, PrimeField};
use ark_serialize::CanonicalSerialize;
use jolt_core::curve::G1Point;
use jolt_core::field::Scalar;
use jolt_core::hyperkzg::{HyperKZG, HyperKZGSRS};
use jolt_core::poly::DensePolynomial;
use jolt_core::transcript::ProofTranscript;
use rand_core::SeedableRng;

fn affine(p: &G1Point) -> G1Affine {
    if p.is_identity() {
        G1Affine::identity()
    } else {
        G1Affine::new(
            Fq::from_bigint(BigInt(p.x().limbs())).unwrap(),
            Fq::from_bigint(BigInt(p.y().limbs())).unwrap(),
        )
    }
}

fn fr(s: &Scalar) -> Fr {
    Fr::from_bigint(BigInt(s.into_repr().limbs())).unwrap()
}

#[test]
fn the_wire_format_is_that_of_the_curve_library() {
    let mut rng = rand_chacha::ChaCha20Rng::seed_from_u64(21);
    let (pk, _) = HyperKZGSRS::setup(&mut rng, 7).trim(7);
    let z: Vec<Scalar> = (1..=8).map(|k| Scalar::from_u64(k * k + 1)).collect();
    let poly = DensePolynomial::new(z);
    let point = vec![
        Scalar::from_u64(2),
        Scalar::from_u64(3),
        Scalar::from_u64(5),
    ];
    let eval = poly.evaluate(&point);
    let mut tr = ProofTranscript::new(b"TestEval");
    let proof = HyperKZG::open(&pk, &mut tr, &poly, &point, &eval).unwrap();

    // the three parts, written as vectors of points and scalars
    let com: Vec<G1Affine> = proof.com.iter().map(affine).collect();
    let w: Vec<G1Affine> = proof.w.iter().map(affine).collect();
    let v: Vec<Vec<Fr>> = proof
        .v
        .iter()
        .map(|row| row.iter().map(fr).collect())
        .collect();
    let mut expected = Vec::new();
    com.serialize_compressed(&mut expected).unwrap();
    w.serialize_compressed(&mut expected).unwrap();
    v.serialize_compressed(&mut expected).unwrap();
    assert_eq!(proof.serialize_compressed(), expected);
    // 128 bytes for every variable and 112 more
    assert_eq!(expected.len(), 128 * 3 + 112);
}

#[test]
fn a_point_is_written_as_the_curve_library_writes_it() {
    let g = G1Affine::generator();
    for k in [1u64, 2, 3, 5, 8, 13, 21, 34] {
        let p = (g * Fr::from(k)).into();
        let mut expected = Vec::new();
        G1Affine::serialize_compressed(&p, &mut expected).unwrap();
        let point = G1Point::from_coordinates(
            jolt_core::field::U256::from_limbs(p.x.into_bigint().0),
            jolt_core::field::U256::from_limbs(p.y.into_bigint().0),
        )
        .unwrap();
        assert_eq!(point.to_compressed_bytes(), expected);
        assert_eq!(affine(&point), p);
    }
}
