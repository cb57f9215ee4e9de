//! The cryptographic core of a prover for a virtual machine, verified with
//! Verus.
//!
//! * [`hyperkzg`] commits to multilinear polynomials, opens them at a point
//!   and verifies the openings, on top of the univariate scheme in [`kzg`],
//!   the Fiat-Shamir [`transcript`], the polynomials in [`poly`], the scalar
//!   [`field`] and the groups in [`curve`]. The arithmetic of the curve is
//!   done by the arkworks libraries; what they compute is named in the
//!   contracts, which state everything else exactly.
//! * [`rem`] replaces the signed remainder by six simpler rows of the
//!   [`trace`], with the quotient and the remainder as advice.
//! * [`consistency`], [`quotient`], [`hypercube`] and [`wire`] hold what is
//!   proved of the scheme: an honest proof passes the consistency check, the
//!   witness of an opening is a quotient, a polynomial takes the values of
//!   its table on the hypercube, and a proof has the size that its parts ask
//!   for. They rest on the identities in [`algebra`] and [`fold_identity`].

pub mod algebra;
pub mod consistency;
pub mod curve;
pub mod errors;
pub mod field;
pub mod fold_identity;
pub mod hypercube;
pub mod hyperkzg;
pub mod kzg;
pub mod poly;
pub mod quotient;
pub mod rem;
pub mod trace;
pub mod transcript;
pub mod wire;
