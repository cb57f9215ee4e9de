use ark_bn254::Fr;
use ark_ff::PrimeField;
use ark_std::UniformRand;
use jolt_core::errors::ProofVerifyError;
use jolt_core::field::{Scalar, U256};
use jolt_core::hyperkzg::{
    HyperKZG, HyperKZGCommitment, HyperKZGProof, HyperKZGProverKey, HyperKZGSRS,
    HyperKZGVerifierKey,
};
use jolt_core::poly::DensePolynomial;
use jolt_core::transcript::ProofTranscript;
use rand_core::SeedableRng;

fn scalar(x: Fr) -> Scalar {
    Scalar::from_repr(U256::from_limbs(x.into_bigint().0)).unwrap()
}

fn polynomial(z: &[u64]) -> DensePolynomial {
    DensePolynomial::new(z.iter().map(|x| Scalar::from_u64(*x)).collect())
}

fn prove_and_verify(
    pk: &HyperKZGProverKey,
    vk: &HyperKZGVerifierKey,
    c: &HyperKZGCommitment,
    poly: &DensePolynomial,
    point: Vec<Scalar>,
    eval: Scalar,
) -> Result<(), ProofVerifyError> {
    let mut tr = ProofTranscript::new(b"TestEval");
    let proof = HyperKZG::open(pk, &mut tr, poly, &point, &eval).unwrap();
    let mut tr = ProofTranscript::new(b"TestEval");
    HyperKZG::verify(vk, &mut tr, c, &point, &eval, &proof)
}

#[test]
fn test_hyperkzg_eval() {
    // poly(X1, X2) = 1 + X1 + X2 + X1*X2
    let mut rng = rand_chacha::ChaCha20Rng::seed_from_u64(0);
    let srs = HyperKZGSRS::setup(&mut rng, 3);
    let (pk, vk): (HyperKZGProverKey, HyperKZGVerifierKey) = srs.trim(3);

    // The values at (0,0), (0,1), (1,0), (1,1).
    let poly = polynomial(&[1, 2, 2, 4]);

    let c = HyperKZG::commit(&pk, &poly).unwrap();

    let test_inner = |point: Vec<Scalar>, eval: Scalar| -> Result<(), ProofVerifyError> {
        prove_and_verify(&pk, &vk, &c, &poly, point, eval)
    };

    let point = vec![Scalar::from_u64(0), Scalar::from_u64(0)];
    let eval = Scalar::from_u64(1);
    assert!(test_inner(point, eval).is_ok());

    let point = vec![Scalar::from_u64(0), Scalar::from_u64(1)];
    let eval = Scalar::from_u64(2);
    assert!(test_inner(point, eval).is_ok());

    let point = vec![Scalar::from_u64(1), Scalar::from_u64(1)];
    let eval = Scalar::from_u64(4);
    assert!(test_inner(point, eval).is_ok());

    let point = vec![Scalar::from_u64(0), Scalar::from_u64(2)];
    let eval = Scalar::from_u64(3);
    assert!(test_inner(point, eval).is_ok());

    let point = vec![Scalar::from_u64(2), Scalar::from_u64(2)];
    let eval = Scalar::from_u64(9);
    assert!(test_inner(point, eval).is_ok());

    // A couple of wrong values.
    let point = vec![Scalar::from_u64(2), Scalar::from_u64(2)];
    let eval = Scalar::from_u64(50);
    assert!(test_inner(point, eval).is_err());

    let point = vec![Scalar::from_u64(0), Scalar::from_u64(2)];
    let eval = Scalar::from_u64(4);
    assert!(test_inner(point, eval).is_err());
}

#[test]
fn test_hyperkzg_small() {
    let mut rng = rand_chacha::ChaCha20Rng::seed_from_u64(0);

    // poly = [1, 2, 1, 4]
    let poly = polynomial(&[1, 2, 1, 4]);

    // point = [4,3]
    let point = vec![Scalar::from_u64(4), Scalar::from_u64(3)];

    // eval = 28
    let eval = Scalar::from_u64(28);

    let srs = HyperKZGSRS::setup(&mut rng, 3);
    let (pk, vk): (HyperKZGProverKey, HyperKZGVerifierKey) = srs.trim(3);

    // make a commitment
    let c = HyperKZG::commit(&pk, &poly).unwrap();

    // prove an evaluation
    let mut tr = ProofTranscript::new(b"TestEval");
    let proof = HyperKZG::open(&pk, &mut tr, &poly, &point, &eval).unwrap();
    let post_c_p = tr.challenge_scalar(b"c");

    // verify the evaluation
    let mut verifier_transcript = ProofTranscript::new(b"TestEval");
    assert!(HyperKZG::verify(&vk, &mut verifier_transcript, &c, &point, &eval, &proof).is_ok());
    let post_c_v = verifier_transcript.challenge_scalar(b"c");

    // the prover's and the verifier's transcripts are in the same state
    assert_eq!(post_c_p, post_c_v);

    let proof_bytes = proof.serialize_compressed();
    assert_eq!(proof_bytes.len(), 368);

    // Change the proof and expect verification to fail
    let mut bad_proof = proof.clone();
    let v1 = bad_proof.v[1].clone();
    bad_proof.v[0].clone_from(&v1);
    let mut verifier_transcript2 = ProofTranscript::new(b"TestEval");
    assert!(HyperKZG::verify(
        &vk,
        &mut verifier_transcript2,
        &c,
        &point,
        &eval,
        &bad_proof
    )
    .is_err());
}

#[test]
fn test_hyperkzg_large() {
    // random instances, derived from a seed
    for ell in [4, 5, 6] {
        let mut rng = rand_chacha::ChaCha20Rng::seed_from_u64(ell as u64);

        let n = 1 << ell; // n = 2^ell

        let poly = DensePolynomial::new(
            (0..n)
                .map(|_| scalar(Fr::rand(&mut rng)))
                .collect::<Vec<_>>(),
        );
        let point = (0..ell)
            .map(|_| scalar(Fr::rand(&mut rng)))
            .collect::<Vec<_>>();
        let eval = poly.evaluate(&point);

        let srs = HyperKZGSRS::setup(&mut rng, n);
        let (pk, vk): (HyperKZGProverKey, HyperKZGVerifierKey) = srs.trim(n);

        // make a commitment
        let c = HyperKZG::commit(&pk, &poly).unwrap();

        // prove an evaluation
        let mut prover_transcript = ProofTranscript::new(b"TestEval");
        let proof: HyperKZGProof =
            HyperKZG::open(&pk, &mut prover_transcript, &poly, &point, &eval).unwrap();

        // verify the evaluation
        let mut verifier_tr = ProofTranscript::new(b"TestEval");
        assert!(HyperKZG::verify(&vk, &mut verifier_tr, &c, &point, &eval, &proof).is_ok());

        // Change the proof and expect verification to fail
        let mut bad_proof = proof.clone();
        let v1 = bad_proof.v[1].clone();
        bad_proof.v[0].clone_from(&v1);
        let mut verifier_tr2 = ProofTranscript::new(b"TestEval");
        assert!(
            HyperKZG::verify(&vk, &mut verifier_tr2, &c, &point, &eval, &bad_proof).is_err()
        );
    }
}
