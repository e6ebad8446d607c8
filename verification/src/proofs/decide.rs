//! Proof of residue-class decidability: the second half of the parameter
//! consonance challenge. The government demonstrates that it can correctly
//! identify the residue class of a challenge residue chosen by the voter.
use vstd::prelude::*;

use crate::arithmetics::{is_least_log, ClearResidue};
use crate::bignum::Num;
use crate::keys::{KeyPair, PublicKey};

verus! {

/// The challenge: a transparent residue whose class the challenger knows.
#[derive(Debug, Clone, Copy)]
pub struct Challenge {
    pub challenge: ClearResidue,
}

impl Challenge {
    pub fn new(challenge: ClearResidue) -> (r: Self)
        ensures
            r == (Challenge { challenge }),
    {
        Challenge { challenge }
    }

    /// Generate a fresh random challenge residue.
    pub fn generate(pk: &PublicKey) -> (r: Self)
        requires
            pk.wf(),
        ensures
            r.challenge.wf(),
            r.challenge.ambience == *pk,
    {
        Challenge { challenge: ClearResidue::random(None, pk) }
    }

    pub fn get_challenge(&self) -> (r: &ClearResidue)
        ensures
            r == self.challenge,
    {
        &self.challenge
    }

    /// The response is valid exactly when it names the challenge's class.
    pub fn verify(&self, response: &Num) -> (r: bool)
        ensures
            r == (self.challenge.rc.val() == response.value()),
    {
        self.challenge.rc.residue.eq_val(response)
    }
}

/// The prover's side: it holds the key pair and decomposes the challenge.
pub struct Proof;

impl Proof {
    /// Decompose the challenge ciphertext and return its residue class.
    /// `None` reports a value the key pair cannot decompose, which cannot
    /// occur for an honestly generated challenge over consonant parameters.
    pub fn respond(challenge: &Challenge, keypair: &KeyPair) -> (r: Option<Num>)
        requires
            keypair.wf(),
            challenge.challenge.wf(),
            challenge.challenge.ambience == keypair.pk,
        ensures
            r matches Some(v) ==> is_least_log(*keypair, challenge.challenge.val.val(), v.value()),
            r.is_none() ==> (crate::arithmetics::no_log_below(
                crate::arithmetics::dlog_base(*keypair),
                crate::arithmetics::dlog_target(*keypair, challenge.challenge.val.val()),
                keypair.pk.ring(),
                keypair.pk.group(),
            ) || (exists|e: nat|
                is_least_log(*keypair, challenge.challenge.val.val(), e)
                    && !crate::arithmetics::decompose_root_ok(
                    *keypair,
                    challenge.challenge.val.val(),
                    e,
                ))),
    {
        let val = challenge.challenge.get_val().clone_residue();
        match ClearResidue::decompose(val, keypair) {
            Some(decomp) => Some(decomp.get_rc().clone_residue()),
            None => None,
        }
    }
}

} // verus!
