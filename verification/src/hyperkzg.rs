//! HyperKZG: a commitment scheme for multilinear polynomials held by their
//! values on the boolean hypercube, built on univariate KZG.
//!
//! The table of a multilinear polynomial is committed to as the coefficient
//! vector of a univariate polynomial. To open at a point, the prover binds
//! the variables one by one, commits to each intermediate table, and opens a
//! random combination of all tables at `r`, `-r` and `r^2`. The verifier
//! checks that the claimed values at those points fit together, and that
//! they are the values of the committed polynomials.

use crate::curve::{
    g1_compressed, g1_msm, msm, pairing, pairings_agree, points, G1Point, G1, G2,
};
use crate::errors::ProofVerifyError;
use crate::field::{fadd, fmul, fneg, fsub, le_bytes, values, Scalar};
use crate::kzg::{
    commit_coefficients, commit_each, commit_spec, open_each, open_spec, KZGProverKey,
    KZGVerifierKey, SRS,
};
use crate::poly::{
    batch, batch_polynomial, challenge_powers, copy_scalars, evaluate_univariate, fold_level,
    fold_table, inner_product, inner_product_of, powers, tables, uni_eval, DensePolynomial,
};
use crate::transcript::{
    absorb_point, absorb_points, absorb_scalars, challenge_of, extend, squeeze, u64_le_bytes,
    ProofTranscript,
};
use rand_chacha::ChaCha20Rng;
use std::sync::Arc;
use vstd::arithmetic::power2::{lemma_pow2_unfold, pow2};
use vstd::prelude::*;
use vstd::slice::slice_subrange;
use vstd::string::{is_ascii, is_ascii_spec_bytes, StringSliceAdditionalSpecFns};

verus! {

/// The label `c`, under which the commitments to the folded tables are
/// appended and the evaluation point is drawn.
pub open spec fn label_c() -> Seq<u8> {
    seq![99u8]
}

/// The label `v`, under which the claimed values are appended.
pub open spec fn label_v() -> Seq<u8> {
    seq![118u8]
}

/// The label `r`, under which the batching challenge is drawn.
pub open spec fn label_r() -> Seq<u8> {
    seq![114u8]
}

/// The label `W`, under which the witnesses are appended.
pub open spec fn label_w() -> Seq<u8> {
    seq![87u8]
}

/// The label `d`, under which the last challenge is drawn.
pub open spec fn label_d() -> Seq<u8> {
    seq![100u8]
}

/// The label under which a commitment is appended to a transcript.
pub open spec fn label_commitment() -> Seq<u8> {
    seq![
        112u8, 111u8, 108u8, 121u8, 95u8, 99u8, 111u8, 109u8, 109u8, 105u8, 116u8, 109u8, 101u8,
        110u8, 116u8, 95u8, 115u8, 104u8, 97u8, 114u8, 101u8,
    ]
}

/// The name of the protocol: the bytes of `HyperKZG`.
pub open spec fn protocol_name_spec() -> Seq<u8> {
    seq![72u8, 121u8, 112u8, 101u8, 114u8, 75u8, 90u8, 71u8]
}

/// The tables `P_0, .., P_{l-1}` of an opening at `x`: the table itself, then
/// the tables after binding the last variable, the last two, and so on.
pub open spec fn fold_tower(z: Seq<int>, x: Seq<int>) -> Seq<Seq<int>> {
    Seq::new(x.len(), |i: int| fold_level(z, x, i as nat))
}

/// The commitments to all tables but the first.
pub open spec fn tower_commitments(pk: Seq<G1>, polys: Seq<Seq<int>>) -> Seq<G1> {
    Seq::new((polys.len() - 1) as nat, |i: int| commit_spec(pk, polys[i + 1]))
}

/// The three points at which the tables are opened.
pub open spec fn eval_points(r: int) -> Seq<int> {
    seq![r, fneg(r), fmul(r, r)]
}

/// The values of every table at every point: one row for each point.
pub open spec fn evaluations(polys: Seq<Seq<int>>, u: Seq<int>) -> Seq<Seq<int>> {
    Seq::new(u.len(), |j: int| Seq::new(polys.len(), |i: int| uni_eval(polys[i], u[j])))
}

/// The rows of a matrix, one after another.
pub open spec fn flatten(v: Seq<Seq<int>>) -> Seq<int>
    decreases v.len(),
{
    if v.len() == 0 {
        Seq::empty()
    } else {
        flatten(v.drop_last()) + v.last()
    }
}

/// What a proof holds.
pub struct ProofView {
    /// The commitments to the folded tables `P_1, .., P_{l-1}`.
    pub com: Seq<G1>,
    /// The witnesses of the batched opening at the three points.
    pub w: Seq<G1>,
    /// The values of `P_0, .., P_{l-1}` at the three points, a row for each
    /// point.
    pub v: Seq<Seq<int>>,
}

/// The state of the transcript once the prover has appended its commitments.
pub open spec fn state_after_commitments(state: Seq<u8>, com: Seq<G1>) -> Seq<u8> {
    absorb_points(state, label_c(), com)
}

/// The challenge `r` that fixes the evaluation points.
pub open spec fn challenge_r(state: Seq<u8>, com: Seq<G1>) -> int {
    challenge_of(state_after_commitments(state, com), label_c())
}

/// The state of the transcript once the values `v` have been appended.
pub open spec fn state_after_values(state: Seq<u8>, com: Seq<G1>, v: Seq<Seq<int>>) -> Seq<u8> {
    absorb_scalars(squeeze(state_after_commitments(state, com), label_c()), label_v(), flatten(v))
}

/// The challenge `q` that batches the tables.
pub open spec fn challenge_q(state: Seq<u8>, com: Seq<G1>, v: Seq<Seq<int>>) -> int {
    challenge_of(state_after_values(state, com, v), label_r())
}

/// The state of the transcript once the witnesses `w` have been appended.
pub open spec fn state_after_witnesses(
    state: Seq<u8>,
    com: Seq<G1>,
    v: Seq<Seq<int>>,
    w: Seq<G1>,
) -> Seq<u8> {
    absorb_points(squeeze(state_after_values(state, com, v), label_r()), label_w(), w)
}

/// The challenge `d` that batches the three openings.
pub open spec fn challenge_d(state: Seq<u8>, com: Seq<G1>, v: Seq<Seq<int>>, w: Seq<G1>) -> int {
    challenge_of(state_after_witnesses(state, com, v, w), label_d())
}

/// The state in which a transcript is left by an opening that yields the
/// proof `pi`, and by a verification of `pi` that reaches the pairing check.
pub open spec fn final_state(state: Seq<u8>, pi: ProofView) -> Seq<u8> {
    squeeze(state_after_witnesses(state, pi.com, pi.v, pi.w), label_d())
}

/// The proof that the polynomial with table `z` takes its value at `x`,
/// made with the key `pk` on a transcript in `state`.
pub open spec fn honest_proof(pk: Seq<G1>, state: Seq<u8>, z: Seq<int>, x: Seq<int>) -> ProofView {
    let polys = fold_tower(z, x);
    let com = tower_commitments(pk, polys);
    let u = eval_points(challenge_r(state, com));
    let v = evaluations(polys, u);
    let b = batch(polys, challenge_q(state, com, v), polys.len());
    let w = Seq::new(3, |j: int| open_spec(pk, b, u[j]));
    ProofView { com, w, v }
}

/// The left side of the equation that ties the value `next` of `P_{i+1}` at
/// `r^2` to the values of `P_i` at `r` and `-r`: `2 r next`.
pub open spec fn consistency_lhs(r: int, next: int) -> int {
    fmul(fmul(2, r), next)
}

/// The right side of that equation, for the values `pos` and `neg` of `P_i`
/// at `r` and `-r` and the variable bound to `x`:
/// `r (1 - x) (pos + neg) + x (pos - neg)`.
pub open spec fn consistency_rhs(r: int, x: int, pos: int, neg: int) -> int {
    fadd(fmul(fmul(r, fsub(1, x)), fadd(pos, neg)), fmul(x, fsub(pos, neg)))
}

/// Whether the claimed values fit together at level `i`. The value of the
/// last table's fold is the claimed evaluation `y`.
pub open spec fn consistent_at(x: Seq<int>, r: int, y: int, v: Seq<Seq<int>>, i: int) -> bool {
    consistency_lhs(r, v[2].push(y)[i + 1]) == consistency_rhs(
        r,
        x[x.len() - i - 1],
        v[0][i],
        v[1][i],
    )
}

/// Whether the claimed values fit together at every level.
pub open spec fn consistent(x: Seq<int>, r: int, y: int, v: Seq<Seq<int>>) -> bool {
    forall|i: int| 0 <= i < x.len() ==> consistent_at(x, r, y, v, i)
}

/// Whether `v` has three rows with one entry for each variable.
pub open spec fn well_shaped(v: Seq<Seq<int>>, ell: nat) -> bool {
    v.len() == 3 && v[0].len() == ell && v[1].len() == ell && v[2].len() == ell
}

/// The smaller of two numbers.
pub open spec fn min(a: nat, b: nat) -> nat {
    if a <= b {
        a
    } else {
        b
    }
}

/// The left side of the batched pairing equation.
pub open spec fn batched_left(
    g1: G1,
    com: Seq<G1>,
    w: Seq<G1>,
    u: Seq<int>,
    v: Seq<Seq<int>>,
    q: int,
    d0: int,
) -> G1 {
    let k = com.len();
    let d1 = fmul(d0, d0);
    let q_powers = powers(q, k);
    let m = fadd(fadd(1, d0), d1);
    let b0 = inner_product(v[0], q_powers, min(v[0].len(), k));
    let b1 = inner_product(v[1], q_powers, min(v[1].len(), k));
    let b2 = inner_product(v[2], q_powers, min(v[2].len(), k));
    g1_msm(
        com + seq![w[0], w[1], w[2], g1],
        Seq::new(k, |i: int| fmul(q_powers[i], m)) + seq![
            u[0],
            fmul(u[1], d0),
            fmul(u[2], d1),
            fneg(fadd(fadd(b0, fmul(d0, b1)), fmul(d1, b2))),
        ],
    )
}

/// The right side of the batched pairing equation.
pub open spec fn batched_right(w: Seq<G1>, d0: int) -> G1 {
    g1_msm(seq![w[0], w[1], w[2]], seq![1, d0, fmul(d0, d0)])
}

/// Whether the pairing equation `e(L, g2) = e(R, tau g2)` holds.
pub open spec fn pairing_equation(left: G1, g2: G2, right: G1, beta_g2: G2) -> bool {
    pairing(left, g2).is_some() && pairing(left, g2) == pairing(right, beta_g2)
}

/// Whether the verifier with the key `(g1, g2, beta_g2)` and a transcript in
/// `state` accepts `pi` as a proof that the polynomial committed to in `c`
/// takes the value `y` at `x`.
pub open spec fn accepts(
    g1: G1,
    g2: G2,
    beta_g2: G2,
    state: Seq<u8>,
    c: G1,
    x: Seq<int>,
    y: int,
    pi: ProofView,
) -> bool {
    let r = challenge_r(state, pi.com);
    let u = eval_points(r);
    let q = challenge_q(state, pi.com, pi.v);
    let d0 = challenge_d(state, pi.com, pi.v, pi.w);
    &&& r != 0
    &&& !c.infinity
    &&& well_shaped(pi.v, x.len())
    &&& consistent(x, r, y, pi.v)
    &&& pairing_equation(
        batched_left(g1, seq![c] + pi.com, pi.w, u, pi.v, q, d0),
        g2,
        batched_right(pi.w, d0),
        beta_g2,
    )
}

/// Whether the verifier reaches the pairing check: the challenge and the
/// commitment are not trivial, and the claimed values have the right shape
/// and fit together.
pub open spec fn reaches_pairing_check(
    state: Seq<u8>,
    c: G1,
    x: Seq<int>,
    y: int,
    pi: ProofView,
) -> bool {
    let r = challenge_r(state, pi.com);
    &&& r != 0
    &&& !c.infinity
    &&& well_shaped(pi.v, x.len())
    &&& consistent(x, r, y, pi.v)
}

/// The state in which `open` leaves a transcript that was in `state`.
pub open spec fn state_after_open(pk: Seq<G1>, state: Seq<u8>, z: Seq<int>, x: Seq<int>) -> Seq<
    u8,
> {
    final_state(state, honest_proof(pk, state, z, x))
}

/// The state in which `verify` leaves a transcript that was in `state`: it
/// draws every challenge where it reaches the pairing check, and only the
/// first where it rejects before.
pub open spec fn state_after_verify(
    state: Seq<u8>,
    c: G1,
    x: Seq<int>,
    y: int,
    pi: ProofView,
) -> Seq<u8> {
    if reaches_pairing_check(state, c, x, y, pi) {
        final_state(state, pi)
    } else {
        squeeze(state_after_commitments(state, pi.com), label_c())
    }
}

/// The prover and the verifier stay in step: where the verifier accepts the
/// proof that `open` made on a transcript in the same state, both leave
/// their transcripts in the same state, and so draw the same challenge
/// next, whatever its label.
pub proof fn lemma_transcripts_agree(
    g1: G1,
    g2: G2,
    beta_g2: G2,
    pk: Seq<G1>,
    state: Seq<u8>,
    c: G1,
    z: Seq<int>,
    x: Seq<int>,
    y: int,
    label: Seq<u8>,
)
    requires
        accepts(g1, g2, beta_g2, state, c, x, y, honest_proof(pk, state, z, x)),
    ensures
        state_after_verify(state, c, x, y, honest_proof(pk, state, z, x)) == state_after_open(
            pk,
            state,
            z,
            x,
        ),
        challenge_of(state_after_verify(state, c, x, y, honest_proof(pk, state, z, x)), label)
            == challenge_of(state_after_open(pk, state, z, x), label),
{
}

/// A structured reference string for HyperKZG.
pub struct HyperKZGSRS(pub Arc<SRS>);

impl HyperKZGSRS {
    /// A string for a secret and generators drawn from `rng`, with the
    /// powers of the secret up to `max_degree`.
    pub fn setup(rng: &mut ChaCha20Rng, max_degree: usize) -> (srs: HyperKZGSRS)
        requires
            max_degree < usize::MAX,
        ensures
            srs.0.honest(max_degree as nat),
            srs.0.g1().len() == max_degree + 1,
    {
        HyperKZGSRS(Arc::new(SRS::setup(rng, max_degree)))
    }

    /// The prover key over the first `max_degree + 1` powers and the
    /// verifier key.
    pub fn trim(self, max_degree: usize) -> (keys: (HyperKZGProverKey, HyperKZGVerifierKey))
        requires
            max_degree < self.0.g1().len(),
        ensures
            keys.0.commit_pp@ == self.0.g1().subrange(0, max_degree + 1),
            keys.1.kzg_vk.g1@ == self.0.g1()[0],
            keys.1.kzg_vk.g2@ == self.0.g2()[0],
            keys.1.kzg_vk.beta_g2@ == self.0.g2()[1],
    {
        let (commit_pp, kzg_vk) = SRS::trim(self.0, max_degree);
        (HyperKZGProverKey { commit_pp }, HyperKZGVerifierKey { kzg_vk })
    }
}

/// The key that a prover commits and opens with.
#[derive(Debug)]
pub struct HyperKZGProverKey {
    pub commit_pp: KZGProverKey,
}

/// The key that a verifier checks proofs with.
#[derive(Clone, Copy, Debug)]
pub struct HyperKZGVerifierKey {
    pub kzg_vk: KZGVerifierKey,
}

/// A commitment to a multilinear polynomial.
#[derive(Clone, Copy, Debug, PartialEq, Eq)]
pub struct HyperKZGCommitment(pub G1Point);

impl HyperKZGCommitment {
    /// Appends the commitment to `transcript`. The label that the caller
    /// gives is not used: every commitment goes under the same one.
    pub fn append_to_transcript(&self, _label: &[u8], transcript: &mut ProofTranscript)
        ensures
            final(transcript)@ == absorb_point(old(transcript)@, label_commitment(), self.0@),
    {
        let label: [u8; 21] = [
            112,
            111,
            108,
            121,
            95,
            99,
            111,
            109,
            109,
            105,
            116,
            109,
            101,
            110,
            116,
            95,
            115,
            104,
            97,
            114,
            101,
        ];
        assert(label@ =~= label_commitment());
        transcript.append_point(label.as_slice(), &self.0);
    }
}

/// A proof that a committed polynomial takes a value at a point.
#[derive(Clone, Debug)]
pub struct HyperKZGProof {
    pub com: Vec<G1Point>,
    pub w: [G1Point; 3],
    pub v: Vec<Vec<Scalar>>,
}

impl View for HyperKZGProof {
    type V = ProofView;

    /// The points and values that the proof holds.
    open spec fn view(&self) -> ProofView {
        ProofView { com: points(self.com@), w: points(self.w@), v: tables(self.v@) }
    }
}

/// The compressed encodings of the points, one after another.
pub open spec fn points_bytes(p: Seq<G1>) -> Seq<u8>
    decreases p.len(),
{
    if p.len() == 0 {
        Seq::empty()
    } else {
        points_bytes(p.drop_last()) + g1_compressed(p.last())
    }
}

/// The encodings of the scalars in 32 bytes each, one after another.
pub open spec fn scalars_bytes(s: Seq<int>) -> Seq<u8>
    decreases s.len(),
{
    if s.len() == 0 {
        Seq::empty()
    } else {
        scalars_bytes(s.drop_last()) + le_bytes(s.last(), 32)
    }
}

/// The encodings of the rows, one after another: the length of a row in
/// eight bytes, then its scalars.
pub open spec fn rows_bytes(v: Seq<Seq<int>>) -> Seq<u8>
    decreases v.len(),
{
    if v.len() == 0 {
        Seq::empty()
    } else {
        rows_bytes(v.drop_last()) + le_bytes(v.last().len() as int, 8) + scalars_bytes(v.last())
    }
}

/// The wire format of a proof: `com`, `w` and `v` in turn, every sequence
/// preceded by its length in eight bytes.
pub open spec fn proof_bytes(pi: ProofView) -> Seq<u8> {
    le_bytes(pi.com.len() as int, 8) + points_bytes(pi.com) + le_bytes(pi.w.len() as int, 8)
        + points_bytes(pi.w) + le_bytes(pi.v.len() as int, 8) + rows_bytes(pi.v)
}

/// Writes the length of a sequence and the compressed encodings of its
/// points to the end of `out`.
fn write_points(out: &mut Vec<u8>, p: &[G1Point])
    ensures
        final(out)@ == old(out)@ + le_bytes(p@.len() as int, 8) + points_bytes(points(p@)),
{
    let ghost g = points(p@);
    let len = u64_le_bytes(p.len() as u64);
    extend(out, len.as_slice());
    let ghost start = out@;
    let mut i: usize = 0;
    assert(g.take(0) =~= Seq::<G1>::empty());
    assert(out@ =~= start + points_bytes(g.take(0)));
    while i < p.len()
        invariant
            i <= p@.len(),
            g == points(p@),
            out@ == start + points_bytes(g.take(i as int)),
        decreases p@.len() - i,
    {
        let bytes = p[i].to_compressed_bytes();
        extend(out, bytes.as_slice());
        proof {
            let next = g.take(i + 1);
            assert(next.drop_last() =~= g.take(i as int));
            assert(next.last() == p@[i as int]@);
            assert(out@ =~= start + points_bytes(next));
        }
        i += 1;
    }
    assert(g.take(p@.len() as int) =~= g);
}

/// Writes the length of a row and the encodings of its scalars to the end
/// of `out`.
fn write_scalars(out: &mut Vec<u8>, s: &[Scalar])
    ensures
        final(out)@ == old(out)@ + le_bytes(s@.len() as int, 8) + scalars_bytes(values(s@)),
{
    let ghost g = values(s@);
    let len = u64_le_bytes(s.len() as u64);
    extend(out, len.as_slice());
    let ghost start = out@;
    let mut i: usize = 0;
    assert(g.take(0) =~= Seq::<int>::empty());
    assert(out@ =~= start + scalars_bytes(g.take(0)));
    while i < s.len()
        invariant
            i <= s@.len(),
            g == values(s@),
            out@ == start + scalars_bytes(g.take(i as int)),
        decreases s@.len() - i,
    {
        let bytes = s[i].to_le_bytes();
        extend(out, bytes.as_slice());
        proof {
            let next = g.take(i + 1);
            assert(next.drop_last() =~= g.take(i as int));
            assert(next.last() == s@[i as int]@);
            assert(out@ =~= start + scalars_bytes(next));
        }
        i += 1;
    }
    assert(g.take(s@.len() as int) =~= g);
}

impl HyperKZGProof {
    /// The proof in its wire format.
    pub fn serialize_compressed(&self) -> (bytes: Vec<u8>)
        ensures
            bytes@ == proof_bytes(self@),
    {
        let ghost t = tables(self.v@);
        let mut out: Vec<u8> = Vec::new();
        write_points(&mut out, self.com.as_slice());
        write_points(&mut out, self.w.as_slice());
        let len = u64_le_bytes(self.v.len() as u64);
        extend(&mut out, len.as_slice());
        let ghost start = out@;
        let mut j: usize = 0;
        assert(t.take(0) =~= Seq::<Seq<int>>::empty());
        assert(out@ =~= start + rows_bytes(t.take(0)));
        while j < self.v.len()
            invariant
                j <= self.v@.len(),
                t == tables(self.v@),
                out@ == start + rows_bytes(t.take(j as int)),
            decreases self.v@.len() - j,
        {
            write_scalars(&mut out, self.v[j].as_slice());
            proof {
                let next = t.take(j + 1);
                assert(next.drop_last() =~= t.take(j as int));
                assert(next.last() == values(self.v@[j as int]@));
                assert(next.last().len() == self.v@[j as int]@.len());
                assert(out@ =~= start + rows_bytes(next));
            }
            j += 1;
        }
        assert(t.take(self.v@.len() as int) =~= t);
        assert(out@ =~= proof_bytes(self@));
        out
    }
}

/// The rows of a matrix, one after another.
pub fn flatten_rows(v: &Vec<Vec<Scalar>>) -> (r: Vec<Scalar>)
    ensures
        values(r@) == flatten(tables(v@)),
{
    let ghost t = tables(v@);
    let mut out: Vec<Scalar> = Vec::new();
    let mut j: usize = 0;
    assert(t.take(0) =~= Seq::<Seq<int>>::empty());
    assert(values(out@) =~= flatten(t.take(0)));
    while j < v.len()
        invariant
            t == tables(v@),
            j <= v@.len(),
            values(out@) == flatten(t.take(j as int)),
        decreases v@.len() - j,
    {
        let row = &v[j];
        let ghost before = values(out@);
        let mut i: usize = 0;
        assert(values(out@) =~= before + t[j as int].take(0));
        while i < row.len()
            invariant
                i <= row@.len(),
                0 <= j < t.len(),
                t[j as int] == values(row@),
                values(out@) == before + t[j as int].take(i as int),
            decreases row@.len() - i,
        {
            let ghost old_out = values(out@);
            out.push(row[i]);
            i += 1;
            assert(values(out@) =~= old_out.push(row@[i - 1]@));
            assert(t[j as int].take(i as int) =~= t[j as int].take(i - 1).push(row@[i - 1]@));
            assert(values(out@) =~= before + t[j as int].take(i as int));
        }
        proof {
            assert(t[j as int].take(row@.len() as int) =~= t[j as int]);
            let next = t.take(j + 1);
            assert(next.drop_last() =~= t.take(j as int));
            assert(next.last() == t[j as int]);
        }
        j += 1;
    }
    assert(t.take(v@.len() as int) =~= t);
    out
}

/// The three points `r`, `-r`, `r^2`.
pub fn evaluation_points(r: &Scalar) -> (u: Vec<Scalar>)
    ensures
        values(u@) == eval_points(r@),
{
    let mut u: Vec<Scalar> = Vec::new();
    u.push(*r);
    u.push(r.neg());
    u.push(r.mul(r));
    assert(values(u@) =~= eval_points(r@));
    u
}

/// The tables `P_0, .., P_{l-1}` of an opening of `poly` at `point`.
pub fn fold_polynomials(poly: &DensePolynomial, point: &[Scalar]) -> (polys: Vec<Vec<Scalar>>)
    requires
        point@.len() >= 1,
        point@.len() == poly.spec_num_vars(),
    ensures
        tables(polys@) == fold_tower(poly@, values(point@)),
        forall|i: int|
            0 <= i < polys@.len() ==> (#[trigger] polys@[i])@.len() <= polys@[0]@.len(),
        polys@.len() == point@.len(),
        polys@[0]@.len() == poly@.len(),
{
    let ell = point.len();
    let n = poly.len();
    let ghost x = values(point@);
    let mut polys: Vec<Vec<Scalar>> = Vec::new();
    polys.push(copy_scalars(poly.evals().as_slice()));
    assert(values(polys@[0]@) =~= poly@);
    let mut i: usize = 0;
    while i < ell - 1
        invariant
            ell == point@.len(),
            ell >= 1,
            x == values(point@),
            i <= ell - 1,
            polys@.len() == i + 1,
            polys@[0]@.len() == poly@.len(),
            poly@.len() == pow2(ell as nat),
            forall|k: int|
                0 <= k <= i ==> values((#[trigger] polys@[k])@) == fold_level(poly@, x, k as nat),
            forall|k: int| 0 <= k <= i ==> (#[trigger] polys@[k])@.len() == pow2((ell - k) as nat),
            forall|k: int| 0 <= k <= i ==> (#[trigger] polys@[k])@.len() <= polys@[0]@.len(),
        decreases ell - 1 - i,
    {
        let next = fold_table(polys[i].as_slice(), &point[ell - i - 1]);
        proof {
            lemma_pow2_unfold((ell - i) as nat);
            assert(x[x.len() - (i + 1)] == point@[ell - i - 1]@);
            assert(values(next@).len() == next@.len());
            assert(values(polys@[i as int]@).len() == polys@[i as int]@.len());
            assert(values(next@) == fold_level(poly@, x, (i + 1) as nat));
        }
        polys.push(next);
        i += 1;
    }
    assert(tables(polys@) =~= fold_tower(poly@, values(point@)));
    polys
}

/// The commitment scheme.
pub struct HyperKZG;

impl HyperKZG {
    /// The name of the protocol.
    pub fn protocol_name() -> (name: &'static [u8])
        ensures
            name@ == protocol_name_spec(),
    {
        let name = "HyperKZG";
        proof {
            reveal_strlit("HyperKZG");
            assert(is_ascii(name));
            is_ascii_spec_bytes(name);
            assert(name.spec_bytes() =~= protocol_name_spec());
        }
        name.as_bytes()
    }

    /// The commitment to `poly`: the univariate commitment to its table, or
    /// `KeyLengthError` where the key holds fewer powers than the table has
    /// entries.
    pub fn commit(pp: &HyperKZGProverKey, poly: &DensePolynomial) -> (r: Result<
        HyperKZGCommitment,
        ProofVerifyError,
    >)
        ensures
            poly@.len() <= pp.commit_pp@.len() ==> r.is_ok() && r.unwrap().0@ == commit_spec(
                pp.commit_pp@,
                poly@,
            ),
            poly@.len() > pp.commit_pp@.len() ==> r == Err::<HyperKZGCommitment, ProofVerifyError>(
                ProofVerifyError::KeyLengthError(
                    pp.commit_pp@.len() as usize,
                    poly@.len() as usize,
                ),
            ),
    {
        match commit_coefficients(&pp.commit_pp, poly.evals().as_slice()) {
            Ok(c) => Ok(HyperKZGCommitment(c)),
            Err(e) => Err(e),
        }
    }

    /// A proof that `poly` takes its value at `point`, or `KeyLengthError`
    /// where the key holds fewer powers than the table has entries; the
    /// transcript is then left as it was. The polynomial has at least one
    /// variable, and the point has one entry for each.
    pub fn open(
        pk: &HyperKZGProverKey,
        transcript: &mut ProofTranscript,
        poly: &DensePolynomial,
        point: &[Scalar],
        _eval: &Scalar,
    ) -> (r: Result<HyperKZGProof, ProofVerifyError>)
        requires
            point@.len() >= 1,
            point@.len() == poly.spec_num_vars(),
        ensures
            poly@.len() <= pk.commit_pp@.len() ==> r.is_ok() && r.unwrap()@ == honest_proof(
                pk.commit_pp@,
                old(transcript)@,
                poly@,
                values(point@),
            ) && final(transcript)@ == state_after_open(
                pk.commit_pp@,
                old(transcript)@,
                poly@,
                values(point@),
            ),
            poly@.len() > pk.commit_pp@.len() ==> r == Err::<HyperKZGProof, ProofVerifyError>(
                ProofVerifyError::KeyLengthError(
                    pk.commit_pp@.len() as usize,
                    poly@.len() as usize,
                ),
            ) && final(transcript)@ == old(transcript)@,
    {
        let n = poly.len();
        if pk.commit_pp.len() < n {
            return Err(ProofVerifyError::KeyLengthError(pk.commit_pp.len(), n));
        }
        let ghost key = pk.commit_pp@;
        let ghost x = values(point@);
        let ghost start = transcript@;

        // The tables, and the commitments to all but the first.
        let polys = fold_polynomials(poly, point);
        let ghost tower = tables(polys@);
        let folded = slice_subrange(polys.as_slice(), 1, polys.len());
        assert forall|k: int| 0 <= k < folded@.len() implies (#[trigger] folded@[k])@.len()
            <= key.len() by {
            assert(folded@[k] == polys@[k + 1]);
        }
        let com = commit_each(&pk.commit_pp, folded);
        assert forall|k: int| 0 <= k < com@.len() implies com@[k]@ == commit_spec(
            key,
            tower[k + 1],
        ) by {
            assert(folded@[k] == polys@[k + 1]);
        }
        assert(points(com@) =~= tower_commitments(key, tower));

        // The evaluation points.
        let label_c: [u8; 1] = [99];
        assert(label_c@ =~= self::label_c());
        transcript.append_points(label_c.as_slice(), com.as_slice());
        let r = transcript.challenge_scalar(label_c.as_slice());
        let u = evaluation_points(&r);
        assert(u@.len() == values(u@).len());

        // The values of every table at every point.
        let mut v: Vec<Vec<Scalar>> = Vec::new();
        let mut j: usize = 0;
        while j < 3
            invariant
                j <= 3,
                u@.len() == 3,
                tower == tables(polys@),
                v@.len() == j,
                forall|a: int|
                    0 <= a < j ==> values((#[trigger] v@[a])@) == Seq::new(
                        tower.len(),
                        |i: int| uni_eval(tower[i], u@[a]@),
                    ),
            decreases 3 - j,
        {
            let mut row: Vec<Scalar> = Vec::new();
            let mut i: usize = 0;
            while i < polys.len()
                invariant
                    j < 3,
                    u@.len() == 3,
                    i <= polys@.len(),
                    tower == tables(polys@),
                    row@.len() == i,
                    forall|b: int| 0 <= b < i ==> row@[b]@ == uni_eval(tower[b], u@[j as int]@),
                decreases polys@.len() - i,
            {
                let e = evaluate_univariate(polys[i].as_slice(), &u[j]);
                row.push(e);
                i += 1;
            }
            assert(values(row@) =~= Seq::new(
                tower.len(),
                |i: int| uni_eval(tower[i], u@[j as int]@),
            ));
            v.push(row);
            j += 1;
        }
        assert(tables(v@) =~= evaluations(tower, values(u@)));

        // The batched polynomial and its witnesses.
        let label_v: [u8; 1] = [118];
        let label_r: [u8; 1] = [114];
        assert(label_v@ =~= self::label_v());
        assert(label_r@ =~= self::label_r());
        let flat = flatten_rows(&v);
        transcript.append_scalars(label_v.as_slice(), flat.as_slice());
        let q = transcript.challenge_scalar(label_r.as_slice());
        let b = batch_polynomial(&polys, &q);
        proof {
            assert(values(b@).len() == b@.len());
            lemma_batch_len(tower, q@, polys@.len() as nat);
            assert(tower[0].len() == polys@[0]@.len());
        }
        let witnesses = open_each(&pk.commit_pp, b.as_slice(), u.as_slice());
        let w0 = witnesses[0];
        let w1 = witnesses[1];
        let w2 = witnesses[2];
        let w: [G1Point; 3] = [w0, w1, w2];

        // The last challenge is drawn to leave the transcript as the
        // verifier leaves it.
        let label_w: [u8; 1] = [87];
        let label_d: [u8; 1] = [100];
        assert(label_w@ =~= self::label_w());
        assert(label_d@ =~= self::label_d());
        transcript.append_points(label_w.as_slice(), w.as_slice());
        let _d_0 = transcript.challenge_scalar(label_d.as_slice());

        let proof = HyperKZGProof { com, w, v };
        proof {
            let honest = honest_proof(key, start, poly@, x);
            assert(proof@.com == honest.com);
            assert(proof@.v == honest.v);
            assert(proof@.w =~= honest.w);
        }
        Ok(proof)
    }

    /// Checks `pi` as a proof that the polynomial committed to in `c` takes
    /// the value `p_of_x` at `point`. Every rejection is an `InternalError`.
    /// A transcript that started as the prover's ends as the prover's did
    /// whenever the pairing check is reached.
    pub fn verify(
        vk: &HyperKZGVerifierKey,
        transcript: &mut ProofTranscript,
        c: &HyperKZGCommitment,
        point: &[Scalar],
        p_of_x: &Scalar,
        pi: &HyperKZGProof,
    ) -> (r: Result<(), ProofVerifyError>)
        ensures
            r.is_ok() == accepts(
                vk.kzg_vk.g1@,
                vk.kzg_vk.g2@,
                vk.kzg_vk.beta_g2@,
                old(transcript)@,
                c.0@,
                values(point@),
                p_of_x@,
                pi@,
            ),
            r.is_err() ==> r == Err::<(), ProofVerifyError>(ProofVerifyError::InternalError),
            final(transcript)@ == state_after_verify(
                old(transcript)@,
                c.0@,
                values(point@),
                p_of_x@,
                pi@,
            ),
    {
        let ell = point.len();
        let ghost x = values(point@);
        let ghost start = transcript@;
        let ghost t = tables(pi.v@);
        let y = p_of_x;

        let label_c: [u8; 1] = [99];
        assert(label_c@ =~= self::label_c());
        transcript.append_points(label_c.as_slice(), pi.com.as_slice());
        let r = transcript.challenge_scalar(label_c.as_slice());
        if r.is_zero() || c.0.is_identity() {
            return Err(ProofVerifyError::InternalError);
        }
        // The commitment list starts with the commitment to the polynomial.
        let mut com: Vec<G1Point> = Vec::new();
        com.push(c.0);
        let mut i: usize = 0;
        while i < pi.com.len()
            invariant
                i <= pi.com@.len(),
                com@.len() == i + 1,
                com@[0] == c.0,
                forall|a: int| 0 <= a < i ==> com@[a + 1] == pi.com@[a],
            decreases pi.com@.len() - i,
        {
            com.push(pi.com[i]);
            i += 1;
        }
        assert(points(com@) =~= seq![c.0@] + points(pi.com@));

        let u = evaluation_points(&r);
        assert(u@.len() == values(u@).len());

        // The three rows of claimed values.
        let v = &pi.v;
        if v.len() != 3 {
            return Err(ProofVerifyError::InternalError);
        }
        assert(t[0].len() == v@[0]@.len());
        assert(t[1].len() == v@[1]@.len());
        assert(t[2].len() == v@[2]@.len());
        if v[0].len() != ell || v[1].len() != ell || v[2].len() != ell {
            return Err(ProofVerifyError::InternalError);
        }
        let ypos = &v[0];
        let yneg = &v[1];
        let ynext = &v[2];

        // The claimed values fit together.
        let mut i: usize = 0;
        while i < ell
            invariant
                i <= ell,
                ell == point@.len(),
                x == values(point@),
                t == tables(pi.v@),
                well_shaped(t, ell as nat),
                ypos@ == pi.v@[0]@,
                yneg@ == pi.v@[1]@,
                ynext@ == pi.v@[2]@,
                transcript@ == squeeze(state_after_commitments(start, pi@.com), self::label_c()),
                start == old(transcript)@,
                r@ == challenge_r(start, pi@.com),
                pi@.v == t,
                y@ == p_of_x@,
                x.len() == ell,
                forall|a: int| 0 <= a < i ==> consistent_at(x, r@, y@, t, a),
            decreases ell - i,
        {
            let next = if i + 1 < ell {
                &ynext[i + 1]
            } else {
                y
            };
            let xi = &point[ell - i - 1];
            let ok = check_level(&r, xi, next, &ypos[i], &yneg[i]);
            proof {
                assert(t[0][i as int] == ypos@[i as int]@);
                assert(t[1][i as int] == yneg@[i as int]@);
                assert(t[2].push(y@)[i + 1] == next@);
                assert(x[x.len() - i - 1] == xi@);
                assert(ok == consistent_at(x, r@, y@, t, i as int));
            }
            if !ok {
                assert(!consistent(x, r@, y@, t));
                return Err(ProofVerifyError::InternalError);
            }
            i += 1;
        }
        assert(consistent(x, r@, y@, t));

        // The claimed values are those of the committed polynomials.
        if !verify_batch(vk, com.as_slice(), &pi.w, u.as_slice(), &pi.v, transcript) {
            return Err(ProofVerifyError::InternalError);
        }
        Ok(())
    }
}

/// Whether the value `next` of a folded table at `r^2` fits the values `pos`
/// and `neg` of the table before the fold at `r` and `-r`, the variable
/// being bound to `x`.
pub fn check_level(r: &Scalar, x: &Scalar, next: &Scalar, pos: &Scalar, neg: &Scalar) -> (ok: bool)
    ensures
        ok == (consistency_lhs(r@, next@) == consistency_rhs(r@, x@, pos@, neg@)),
{
    let two = Scalar::from_u64(2);
    let one = Scalar::one();
    let lhs = two.mul(r).mul(next);
    let rhs = r.mul(&one.sub(x)).mul(&pos.add(neg)).add(&x.mul(&pos.sub(neg)));
    lhs.equals(&rhs)
}

/// The batching challenge that a transcript in `state` gives for the values
/// `v`.
pub open spec fn batch_challenge_q(state: Seq<u8>, v: Seq<Seq<int>>) -> int {
    challenge_of(absorb_scalars(state, label_v(), flatten(v)), label_r())
}

/// The state of a transcript that was in `state` once the values `v` and the
/// witnesses `w` have been appended.
pub open spec fn batch_state_after_witnesses(state: Seq<u8>, v: Seq<Seq<int>>, w: Seq<G1>) -> Seq<
    u8,
> {
    absorb_points(
        squeeze(absorb_scalars(state, label_v(), flatten(v)), label_r()),
        label_w(),
        w,
    )
}

/// Whether the batched pairing check accepts the values `v` of the
/// polynomials committed to in `com` at the points `u`, with the witnesses
/// `w`, on a transcript in `state`.
pub open spec fn batch_accepts(
    g1: G1,
    g2: G2,
    beta_g2: G2,
    com: Seq<G1>,
    w: Seq<G1>,
    u: Seq<int>,
    v: Seq<Seq<int>>,
    state: Seq<u8>,
) -> bool {
    let q = batch_challenge_q(state, v);
    let d0 = challenge_of(batch_state_after_witnesses(state, v, w), label_d());
    pairing_equation(
        batched_left(g1, com, w, u, v, q, d0),
        g2,
        batched_right(w, d0),
        beta_g2,
    )
}

/// The batched check that the three rows of `v` hold the values at the
/// three points `u` of the polynomials committed to in `com`.
pub fn verify_batch(
    vk: &HyperKZGVerifierKey,
    com: &[G1Point],
    w: &[G1Point; 3],
    u: &[Scalar],
    v: &Vec<Vec<Scalar>>,
    transcript: &mut ProofTranscript,
) -> (ok: bool)
    requires
        u@.len() == 3,
        v@.len() == 3,
    ensures
        ok == batch_accepts(
            vk.kzg_vk.g1@,
            vk.kzg_vk.g2@,
            vk.kzg_vk.beta_g2@,
            points(com@),
            points(w@),
            values(u@),
            tables(v@),
            old(transcript)@,
        ),
        final(transcript)@ == squeeze(
            batch_state_after_witnesses(old(transcript)@, tables(v@), points(w@)),
            label_d(),
        ),
{
    let k = com.len();
    let ghost start = transcript@;
    let label_v: [u8; 1] = [118];
    let label_r: [u8; 1] = [114];
    let label_w: [u8; 1] = [87];
    let label_d: [u8; 1] = [100];
    assert(label_v@ =~= self::label_v());
    assert(label_r@ =~= self::label_r());
    assert(label_w@ =~= self::label_w());
    assert(label_d@ =~= self::label_d());

    let flat = flatten_rows(v);
    transcript.append_scalars(label_v.as_slice(), flat.as_slice());
    let q = transcript.challenge_scalar(label_r.as_slice());
    let q_powers = challenge_powers(&q, k);
    assert(q_powers@.len() == values(q_powers@).len());
    transcript.append_points(label_w.as_slice(), w.as_slice());
    let d_0 = transcript.challenge_scalar(label_d.as_slice());
    let d_1 = d_0.mul(&d_0);

    let multiplier = Scalar::one().add(&d_0).add(&d_1);
    let mut scalars: Vec<Scalar> = Vec::new();
    let mut bases: Vec<G1Point> = Vec::new();
    let mut i: usize = 0;
    while i < k
        invariant
            i <= k,
            k == com@.len(),
            q_powers@.len() == k,
            scalars@.len() == i,
            bases@.len() == i,
            forall|a: int| 0 <= a < i ==> scalars@[a]@ == fmul(q_powers@[a]@, multiplier@),
            forall|a: int| 0 <= a < i ==> bases@[a] == com@[a],
        decreases k - i,
    {
        scalars.push(q_powers[i].mul(&multiplier));
        bases.push(com[i]);
        i += 1;
    }

    // The batched values at the three points.
    let b_0 = inner_product_of(v[0].as_slice(), q_powers.as_slice());
    let b_1 = inner_product_of(v[1].as_slice(), q_powers.as_slice());
    let b_2 = inner_product_of(v[2].as_slice(), q_powers.as_slice());

    bases.push(w[0]);
    bases.push(w[1]);
    bases.push(w[2]);
    bases.push(vk.kzg_vk.g1);
    scalars.push(u[0]);
    scalars.push(u[1].mul(&d_0));
    scalars.push(u[2].mul(&d_1));
    scalars.push(b_0.add(&d_0.mul(&b_1)).add(&d_1.mul(&b_2)).neg());
    let left = msm(bases.as_slice(), scalars.as_slice());

    let mut right_bases: Vec<G1Point> = Vec::new();
    right_bases.push(w[0]);
    right_bases.push(w[1]);
    right_bases.push(w[2]);
    let mut right_scalars: Vec<Scalar> = Vec::new();
    right_scalars.push(Scalar::one());
    right_scalars.push(d_0);
    right_scalars.push(d_1);
    let right = msm(right_bases.as_slice(), right_scalars.as_slice());

    proof {
        let t = tables(v@);
        let qs = powers(q@, k as nat);
        assert(values(q_powers@) == qs);
        assert(t[0] == values(v@[0]@));
        assert(t[1] == values(v@[1]@));
        assert(t[2] == values(v@[2]@));
        assert(t[0].len() == v@[0]@.len());
        assert(t[1].len() == v@[1]@.len());
        assert(t[2].len() == v@[2]@.len());
        assert(points(com@).len() == k);
        assert(points(bases@) =~= points(com@) + seq![
            points(w@)[0],
            points(w@)[1],
            points(w@)[2],
            vk.kzg_vk.g1@,
        ]);
        assert(values(scalars@) =~= Seq::new(k as nat, |i: int| fmul(qs[i], multiplier@)) + seq![
            values(u@)[0],
            fmul(values(u@)[1], d_0@),
            fmul(values(u@)[2], d_1@),
            fneg(fadd(fadd(b_0@, fmul(d_0@, b_1@)), fmul(d_1@, b_2@))),
        ]);
        assert(points(right_bases@) =~= seq![points(w@)[0], points(w@)[1], points(w@)[2]]);
        assert(values(right_scalars@) =~= seq![1, d_0@, fmul(d_0@, d_0@)]);
    }
    pairings_agree(&left, &vk.kzg_vk.g2, &right, &vk.kzg_vk.beta_g2)
}

/// A batched polynomial is as long as the first of the polynomials.
pub proof fn lemma_batch_len(polys: Seq<Seq<int>>, q: int, k: nat)
    ensures
        batch(polys, q, k).len() == polys[0].len(),
    decreases k,
{
    if k > 1 {
        lemma_batch_len(polys, q, (k - 1) as nat);
    }
}

} // verus!
