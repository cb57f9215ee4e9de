//! A Fiat-Shamir transcript: an append-only sponge over Keccak-256.
//!
//! The state is one digest. Every append replaces it by the digest of the
//! old state, the framed label and the payload; every challenge replaces it
//! by the digest of the old state and the framed label, and reads the
//! challenge off the new state. Two transcripts that see the same calls with
//! the same arguments are therefore in the same state throughout.

use crate::curve::{g1_compressed, points, G1Point, G1};
use crate::field::{le_bytes, le_value, scalar_modulus, values, Scalar};
use vstd::prelude::*;

verus! {

/// The Keccak-256 digest of a byte string.
pub uninterp spec fn keccak256(input: Seq<u8>) -> Seq<u8>;

/// The frame that precedes a payload: a tag, the length of the label in
/// eight bytes, and the label.
pub open spec fn frame(tag: u8, label: Seq<u8>) -> Seq<u8> {
    seq![tag] + le_bytes(label.len() as int, 8) + label
}

/// The state of a new transcript.
pub open spec fn initial_state(label: Seq<u8>) -> Seq<u8> {
    keccak256(label)
}

/// The state after appending `payload` under `label`.
pub open spec fn absorb(state: Seq<u8>, label: Seq<u8>, payload: Seq<u8>) -> Seq<u8> {
    keccak256(state + frame(0, label) + payload)
}

/// The state after drawing a challenge under `label`.
pub open spec fn squeeze(state: Seq<u8>, label: Seq<u8>) -> Seq<u8> {
    keccak256(state + frame(1, label))
}

/// The challenge that a transcript in `state` gives under `label`.
pub open spec fn challenge_of(state: Seq<u8>, label: Seq<u8>) -> int {
    le_value(squeeze(state, label)) % scalar_modulus()
}

/// The state after appending each of `payloads` in turn under `label`.
pub open spec fn absorb_all(state: Seq<u8>, label: Seq<u8>, payloads: Seq<Seq<u8>>) -> Seq<u8>
    decreases payloads.len(),
{
    if payloads.len() == 0 {
        state
    } else {
        absorb(absorb_all(state, label, payloads.drop_last()), label, payloads.last())
    }
}

/// The state after appending one scalar.
pub open spec fn absorb_scalar(state: Seq<u8>, label: Seq<u8>, s: int) -> Seq<u8> {
    absorb(state, label, le_bytes(s, 32))
}

/// The state after appending one point.
pub open spec fn absorb_point(state: Seq<u8>, label: Seq<u8>, p: G1) -> Seq<u8> {
    absorb(state, label, g1_compressed(p))
}

/// The state after appending a vector of scalars: its length, then its
/// entries in order.
pub open spec fn absorb_scalars(state: Seq<u8>, label: Seq<u8>, s: Seq<int>) -> Seq<u8> {
    absorb_all(
        absorb(state, label, le_bytes(s.len() as int, 8)),
        label,
        Seq::new(s.len(), |i: int| le_bytes(s[i], 32)),
    )
}

/// The state after appending a vector of points: its length, then its
/// entries in order.
pub open spec fn absorb_points(state: Seq<u8>, label: Seq<u8>, p: Seq<G1>) -> Seq<u8> {
    absorb_all(
        absorb(state, label, le_bytes(p.len() as int, 8)),
        label,
        Seq::new(p.len(), |i: int| g1_compressed(p[i])),
    )
}

/// The eight bytes of `x`, least significant first.
pub fn u64_le_bytes(x: u64) -> (r: Vec<u8>)
    ensures
        r@ == le_bytes(x as int, 8),
{
    let mut out: Vec<u8> = Vec::new();
    let mut rest: u64 = x;
    let mut k: usize = 0;
    while k < 8
        invariant
            k <= 8,
            out@ + le_bytes(rest as int, (8 - k) as nat) == le_bytes(x as int, 8),
        decreases 8 - k,
    {
        let byte: u8 = (rest % 256) as u8;
        proof {
            let tail = le_bytes((rest / 256) as int, (8 - k - 1) as nat);
            assert(le_bytes(rest as int, (8 - k) as nat) == seq![byte] + tail);
            assert(out@.push(byte) + tail =~= out@ + (seq![byte] + tail));
        }
        out.push(byte);
        rest = rest / 256;
        k += 1;
    }
    assert(out@ + le_bytes(rest as int, 0) =~= out@);
    out
}

/// Copies `src` to the end of `dst`.
pub fn extend(dst: &mut Vec<u8>, src: &[u8])
    ensures
        final(dst)@ == old(dst)@ + src@,
{
    let mut i: usize = 0;
    while i < src.len()
        invariant
            i <= src@.len(),
            dst@ == old(dst)@ + src@.subrange(0, i as int),
        decreases src@.len() - i,
    {
        dst.push(src[i]);
        i += 1;
        assert(dst@ =~= old(dst)@ + src@.subrange(0, i as int));
    }
    assert(src@.subrange(0, src@.len() as int) =~= src@);
}

/// The transcript.
#[derive(Clone, Debug)]
pub struct ProofTranscript {
    state: Vec<u8>,
}

impl View for ProofTranscript {
    type V = Seq<u8>;

    /// The current state of the sponge.
    closed spec fn view(&self) -> Seq<u8> {
        self.state@
    }
}

impl ProofTranscript {
    /// A transcript that has seen only `label`.
    pub fn new(label: &[u8]) -> (t: ProofTranscript)
        ensures
            t@ == initial_state(label@),
    {
        ProofTranscript { state: keccak256_digest(label) }
    }

    /// The current state of the sponge.
    pub fn state(&self) -> (r: &Vec<u8>)
        ensures
            r@ == self@,
    {
        &self.state
    }

    /// Appends `payload` under `label`.
    pub fn append_bytes(&mut self, label: &[u8], payload: &[u8])
        ensures
            final(self)@ == absorb(old(self)@, label@, payload@),
    {
        let mut input: Vec<u8> = Vec::new();
        extend(&mut input, self.state.as_slice());
        input.push(0u8);
        let len = u64_le_bytes(label.len() as u64);
        extend(&mut input, len.as_slice());
        extend(&mut input, label);
        extend(&mut input, payload);
        assert(input@ =~= old(self)@ + frame(0, label@) + payload@);
        self.state = keccak256_digest(input.as_slice());
    }

    /// Appends the number `x` under `label`.
    pub fn append_u64(&mut self, label: &[u8], x: u64)
        ensures
            final(self)@ == absorb(old(self)@, label@, le_bytes(x as int, 8)),
    {
        let bytes = u64_le_bytes(x);
        self.append_bytes(label, bytes.as_slice());
    }

    /// Appends one scalar under `label`.
    pub fn append_scalar(&mut self, label: &[u8], scalar: &Scalar)
        ensures
            final(self)@ == absorb_scalar(old(self)@, label@, scalar@),
    {
        let bytes = scalar.to_le_bytes();
        self.append_bytes(label, bytes.as_slice());
    }

    /// Appends a vector of scalars under `label`, in index order.
    pub fn append_scalars(&mut self, label: &[u8], scalars: &[Scalar])
        ensures
            final(self)@ == absorb_scalars(old(self)@, label@, values(scalars@)),
    {
        self.append_u64(label, scalars.len() as u64);
        let ghost start = self@;
        let ghost payloads = Seq::new(
            values(scalars@).len(),
            |i: int| le_bytes(values(scalars@)[i], 32),
        );
        let mut i: usize = 0;
        assert(payloads.take(0) =~= Seq::<Seq<u8>>::empty());
        while i < scalars.len()
            invariant
                i <= scalars@.len(),
                payloads.len() == scalars@.len(),
                forall|k: int| 0 <= k < payloads.len() ==> payloads[k] == le_bytes(scalars@[k]@, 32),
                self@ == absorb_all(start, label@, payloads.take(i as int)),
            decreases scalars@.len() - i,
        {
            self.append_scalar(label, &scalars[i]);
            proof {
                let next = payloads.take(i + 1);
                assert(next.drop_last() =~= payloads.take(i as int));
                assert(next.last() == payloads[i as int]);
            }
            i += 1;
        }
        assert(payloads.take(scalars@.len() as int) =~= payloads);
    }

    /// Appends one point under `label`.
    pub fn append_point(&mut self, label: &[u8], point: &G1Point)
        ensures
            final(self)@ == absorb_point(old(self)@, label@, point@),
    {
        let bytes = point.to_compressed_bytes();
        self.append_bytes(label, bytes.as_slice());
    }

    /// Appends a vector of points under `label`, in index order.
    pub fn append_points(&mut self, label: &[u8], pts: &[G1Point])
        ensures
            final(self)@ == absorb_points(old(self)@, label@, points(pts@)),
    {
        self.append_u64(label, pts.len() as u64);
        let ghost start = self@;
        let ghost payloads = Seq::new(
            points(pts@).len(),
            |i: int| g1_compressed(points(pts@)[i]),
        );
        let mut i: usize = 0;
        assert(payloads.take(0) =~= Seq::<Seq<u8>>::empty());
        while i < pts.len()
            invariant
                i <= pts@.len(),
                payloads.len() == pts@.len(),
                forall|k: int| 0 <= k < payloads.len() ==> payloads[k] == g1_compressed(pts@[k]@),
                self@ == absorb_all(start, label@, payloads.take(i as int)),
            decreases pts@.len() - i,
        {
            self.append_point(label, &pts[i]);
            proof {
                let next = payloads.take(i + 1);
                assert(next.drop_last() =~= payloads.take(i as int));
                assert(next.last() == payloads[i as int]);
            }
            i += 1;
        }
        assert(payloads.take(pts@.len() as int) =~= payloads);
    }

    /// Draws a challenge under `label`.
    pub fn challenge_scalar(&mut self, label: &[u8]) -> (c: Scalar)
        ensures
            c@ == challenge_of(old(self)@, label@),
            final(self)@ == squeeze(old(self)@, label@),
    {
        let mut input: Vec<u8> = Vec::new();
        extend(&mut input, self.state.as_slice());
        input.push(1u8);
        let len = u64_le_bytes(label.len() as u64);
        extend(&mut input, len.as_slice());
        extend(&mut input, label);
        assert(input@ =~= old(self)@ + frame(1, label@));
        self.state = keccak256_digest(input.as_slice());
        Scalar::from_le_bytes_mod_order(self.state.as_slice())
    }
}

/// `Digest::digest` of `sha3::Keccak256`: the digest of the input.
#[verifier::external_body]
fn keccak256_digest(input: &[u8]) -> (r: Vec<u8>)
    ensures
        r@ == keccak256(input@),
{
    <sha3::Keccak256 as sha3::Digest>::digest(input).to_vec()
}

} // verus!
