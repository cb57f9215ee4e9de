//! The size of a proof on the wire.

use crate::curve::{g1_compressed, G1};
use crate::field::le_bytes;
use crate::hyperkzg::{points_bytes, proof_bytes, rows_bytes, scalars_bytes, ProofView};
use vstd::prelude::*;

verus! {

/// The number of bytes that the rows of a matrix take: eight for the length
/// of every row and 32 for every entry.
pub open spec fn rows_size(v: Seq<Seq<int>>) -> nat
    decreases v.len(),
{
    if v.len() == 0 {
        0
    } else {
        rows_size(v.drop_last()) + 8 + 32 * v.last().len()
    }
}

/// The number of bytes that a proof takes: eight for the length of each of
/// its three parts, 32 for every point, and the rows of values.
pub open spec fn proof_size(pi: ProofView) -> nat {
    24 + 32 * pi.com.len() + 32 * pi.w.len() + rows_size(pi.v)
}

/// A number written in `n` bytes takes `n` bytes.
pub proof fn lemma_le_bytes_len(v: int, n: nat)
    ensures
        le_bytes(v, n).len() == n,
    decreases n,
{
    if n > 0 {
        lemma_le_bytes_len(v / 256, (n - 1) as nat);
    }
}

/// Every point takes 32 bytes.
pub proof fn lemma_points_size(p: Seq<G1>)
    ensures
        points_bytes(p).len() == 32 * p.len(),
    decreases p.len(),
{
    if p.len() > 0 {
        lemma_points_size(p.drop_last());
        lemma_le_bytes_len(crate::curve::g1_compressed_value(p.last()), 32);
        assert(g1_compressed(p.last()).len() == 32);
    }
}

/// Every scalar takes 32 bytes.
pub proof fn lemma_scalars_size(s: Seq<int>)
    ensures
        scalars_bytes(s).len() == 32 * s.len(),
    decreases s.len(),
{
    if s.len() > 0 {
        lemma_scalars_size(s.drop_last());
        lemma_le_bytes_len(s.last(), 32);
    }
}

/// The rows of a matrix take eight bytes for every row and 32 for every
/// entry.
pub proof fn lemma_rows_size(v: Seq<Seq<int>>)
    ensures
        rows_bytes(v).len() == rows_size(v),
    decreases v.len(),
{
    if v.len() > 0 {
        lemma_rows_size(v.drop_last());
        lemma_le_bytes_len(v.last().len() as int, 8);
        lemma_scalars_size(v.last());
    }
}

/// A proof takes as many bytes on the wire as its parts ask for. A proof
/// for a polynomial in `l` variables, with `l - 1` commitments, three
/// witnesses and three rows of `l` values, takes `128 l + 112` bytes.
pub proof fn lemma_proof_size(pi: ProofView)
    ensures
        proof_bytes(pi).len() == proof_size(pi),
        pi.com.len() + 1 == pi.v[0].len() && pi.w.len() == 3 && pi.v.len() == 3 && pi.v[1].len()
            == pi.v[0].len() && pi.v[2].len() == pi.v[0].len() ==> proof_size(pi) == 128
            * pi.v[0].len() + 112,
{
    lemma_le_bytes_len(pi.com.len() as int, 8);
    lemma_le_bytes_len(pi.w.len() as int, 8);
    lemma_le_bytes_len(pi.v.len() as int, 8);
    lemma_points_size(pi.com);
    lemma_points_size(pi.w);
    lemma_rows_size(pi.v);
    if pi.v.len() == 3 {
        let v2 = pi.v.drop_last();
        let v1 = v2.drop_last();
        let v0 = v1.drop_last();
        assert(v2.last() == pi.v[1] && v1.last() == pi.v[0] && v0.len() == 0);
        assert(rows_size(v0) == 0);
        assert(rows_size(v1) == 8 + 32 * pi.v[0].len());
        assert(rows_size(v2) == rows_size(v1) + 8 + 32 * pi.v[1].len());
        assert(rows_size(pi.v) == rows_size(v2) + 8 + 32 * pi.v[2].len());
    }
}

} // verus!
