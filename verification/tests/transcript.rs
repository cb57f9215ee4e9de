use jolt_core::curve::G1Point;
use jolt_core::field::{Scalar, U256};
use jolt_core::transcript::{extend, u64_le_bytes, ProofTranscript};

fn generator() -> G1Point {
    G1Point::from_coordinates(
        U256::from_limbs([1, 0, 0, 0]),
        U256::from_limbs([2, 0, 0, 0]),
    )
    .unwrap()
}

#[test]
fn a_new_transcript_holds_the_digest_of_its_label() {
    // Keccak-256 of the empty string
    let expected: [u8; 32] = [
        0xc5, 0xd2, 0x46, 0x01, 0x86, 0xf7, 0x23, 0x3c, 0x92, 0x7e, 0x7d, 0xb2, 0xdc, 0xc7, 0x03,
        0xc0, 0xe5, 0x00, 0xb6, 0x53, 0xca, 0x82, 0x27, 0x3b, 0x7b, 0xfa, 0xd8, 0x04, 0x5d, 0x85,
        0xa4, 0x70,
    ];
    let t = ProofTranscript::new(b"");
    assert_eq!(t.state().as_slice(), &expected);
    assert_ne!(ProofTranscript::new(b"TestEval").state(), t.state());
}

#[test]
fn the_same_calls_give_the_same_challenges() {
    let run = || {
        let mut t = ProofTranscript::new(b"TestEval");
        t.append_scalar(b"a", &Scalar::from_u64(5));
        t.append_point(b"p", &generator());
        t.append_scalars(b"v", &[Scalar::from_u64(1), Scalar::from_u64(2)]);
        t.append_points(b"c", &[generator(), G1Point::identity()]);
        let first = t.challenge_scalar(b"r");
        let second = t.challenge_scalar(b"r");
        (first, second, t.state().clone())
    };
    let (a1, a2, sa) = run();
    let (b1, b2, sb) = run();
    assert_eq!(a1, b1);
    assert_eq!(a2, b2);
    assert_eq!(sa, sb);
    // a challenge moves the state on
    assert_ne!(a1, a2);
}

#[test]
fn labels_and_payloads_are_part_of_the_input() {
    let challenge = |label: &[u8], value: u64, ask: &[u8]| {
        let mut t = ProofTranscript::new(b"TestEval");
        t.append_scalar(label, &Scalar::from_u64(value));
        t.challenge_scalar(ask)
    };
    let base = challenge(b"a", 5, b"r");
    assert_ne!(base, challenge(b"b", 5, b"r"));
    assert_ne!(base, challenge(b"a", 6, b"r"));
    assert_ne!(base, challenge(b"a", 5, b"s"));
    assert_eq!(base, challenge(b"a", 5, b"r"));
    // an append and a challenge under one label are told apart
    let mut t1 = ProofTranscript::new(b"x");
    t1.append_bytes(b"l", &[]);
    let mut t2 = ProofTranscript::new(b"x");
    let _ = t2.challenge_scalar(b"l");
    assert_ne!(t1.state(), t2.state());
}

#[test]
fn a_vector_is_its_length_and_then_its_entries() {
    let values = [Scalar::from_u64(3), Scalar::from_u64(4)];
    let mut whole = ProofTranscript::new(b"x");
    whole.append_scalars(b"v", &values);
    let mut parts = ProofTranscript::new(b"x");
    parts.append_u64(b"v", 2);
    parts.append_scalar(b"v", &values[0]);
    parts.append_scalar(b"v", &values[1]);
    assert_eq!(whole.state(), parts.state());

    let pts = [generator(), G1Point::identity()];
    let mut whole = ProofTranscript::new(b"x");
    whole.append_points(b"c", &pts);
    let mut parts = ProofTranscript::new(b"x");
    parts.append_u64(b"c", 2);
    parts.append_point(b"c", &pts[0]);
    parts.append_point(b"c", &pts[1]);
    assert_eq!(whole.state(), parts.state());

    // the order of the entries counts
    let mut swapped = ProofTranscript::new(b"x");
    swapped.append_scalars(b"v", &[values[1], values[0]]);
    let mut straight = ProofTranscript::new(b"x");
    straight.append_scalars(b"v", &values);
    assert_ne!(swapped.state(), straight.state());
}

#[test]
fn scalars_and_points_are_appended_by_their_bytes() {
    let s = Scalar::from_u64(77);
    let mut a = ProofTranscript::new(b"x");
    a.append_scalar(b"l", &s);
    let mut b = ProofTranscript::new(b"x");
    b.append_bytes(b"l", &s.to_le_bytes());
    assert_eq!(a.state(), b.state());

    let mut a = ProofTranscript::new(b"x");
    a.append_point(b"l", &generator());
    let mut b = ProofTranscript::new(b"x");
    b.append_bytes(b"l", &generator().to_compressed_bytes());
    assert_eq!(a.state(), b.state());

    let mut a = ProofTranscript::new(b"x");
    a.append_u64(b"l", 258);
    let mut b = ProofTranscript::new(b"x");
    b.append_bytes(b"l", &[2, 1, 0, 0, 0, 0, 0, 0]);
    assert_eq!(a.state(), b.state());
}

#[test]
fn a_challenge_is_the_new_state_reduced() {
    let mut t = ProofTranscript::new(b"x");
    let c = t.challenge_scalar(b"r");
    assert_eq!(c, Scalar::from_le_bytes_mod_order(t.state()));
    assert_eq!(t.state().len(), 32);
}

#[test]
fn numbers_are_written_least_significant_byte_first() {
    assert_eq!(u64_le_bytes(0), vec![0u8; 8]);
    assert_eq!(
        u64_le_bytes(0x0102_0304_0506_0708),
        vec![8, 7, 6, 5, 4, 3, 2, 1]
    );
    let mut out = vec![1u8, 2];
    extend(&mut out, &[3, 4, 5]);
    assert_eq!(out, vec![1, 2, 3, 4, 5]);
}
