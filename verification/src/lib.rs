//! Benaloh's probabilistic homomorphic cryptosystem: residue algebra over a
//! prime ring modulus `r` and a composite group modulus `n`, key generation
//! under the perfect-consonance invariant, and the zero-knowledge proof
//! protocols (knowledge of residue class, ballot validity, parameter
//! consonance, tally correctness) built on that algebra.
use vstd::prelude::*;

pub mod arithmetics;
pub mod bignum;
pub mod hashing;
pub mod keys;
pub mod modmath;
pub mod proofs;

verus! {

/// Number of 64-bit words in every big integer handled by the library.
pub const LIMBS: usize = 4;

} // verus!
