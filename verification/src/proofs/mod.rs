//! The proof protocols that show the participants act according to the
//! election protocol: knowledge of a residue class, decidability of residue
//! classes (parameter consonance), ballot validity, and tally correctness.
use vstd::prelude::*;

use crate::arithmetics;
use crate::bignum::Num;
use crate::keys::KeyPair;
use crate::modmath::{inv_of, pow_mod};

pub mod ballot;
pub mod decide;
pub mod params;
pub mod rc;
pub mod tally;

verus! {

/// The `r`-th root of `z` modulo `n` extracted with the key pair's own
/// parameters, using the Bezout relation `A*r + B*(phi/r) = 1` available
/// under perfect consonance. `None` means `z` is not an `r`-th residue.
pub fn rth_root(z: &Num, keypair: &KeyPair) -> (root: Option<Num>)
    requires
        keypair.wf(),
        z.value() < keypair.pk.group(),
    ensures
        root matches Some(w) ==> w.value() == pow_mod(
            z.value(),
            inv_of(keypair.pk.ring(), keypair.quotient()),
            keypair.pk.group(),
        ) && pow_mod(w.value(), keypair.pk.ring(), keypair.pk.group()) == z.value(),
        root.is_none() ==> pow_mod(
            pow_mod(z.value(), inv_of(keypair.pk.ring(), keypair.quotient()), keypair.pk.group()),
            keypair.pk.ring(),
            keypair.pk.group(),
        ) != z.value(),
        z.value() == 1 ==> root.is_some(),
{
    arithmetics::rth_root(z, &keypair.pk.r.modulus, &keypair.sk.phi, &keypair.pk.n.modulus)
}

/// Marker for the designated-verifier sigma protocol of `rc`:
/// statement `w = y^c * x^r`, commitment `w' = y^c' * x'^r`, challenge
/// `b` drawn from `Z/r`, response `c' + b*c`, and verification that
/// `w^b * w' * y^(-response)` is an `r`-th residue.
pub struct ProofOfResidueClass;

} // verus!
