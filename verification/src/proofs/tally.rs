//! Proof of tally correctness: given the product of all submitted ballots
//! and a claimed total `T`, the adjusted value `product * y^(-T)` must be an
//! exact `r`-th residue. The proof reuses the voter knowledge protocol,
//! specialized to a statement of class zero and repeated over independently
//! challenged rounds.
use vstd::prelude::*;

use crate::arithmetics::{ClearResidue, OpaqueResidue};
use crate::keys::{KeyPair, PublicKey};
use crate::proofs::params::{voter_proof_ok, VoterProof};

verus! {

/// A non-interactive proof that the statement is an exact residue.
#[derive(Debug)]
pub struct TallyProof {
    /// The adjusted product whose class is claimed to be zero.
    pub statement: OpaqueResidue,
    /// One knowledge proof of the zero class per round.
    pub rounds: Vec<VoterProof>,
}

impl TallyProof {
    /// Every round's transcript is well-formed over `pk` and speaks about
    /// this statement.
    pub open spec fn wf(&self, pk: PublicKey) -> bool {
        &&& self.statement.wf()
        &&& self.statement.m() == pk.group()
        &&& forall|i: int|
            0 <= i < self.rounds@.len() ==> (#[trigger] self.rounds@[i]).wf(pk)
                && self.rounds@[i].statement == self.statement
    }

    /// Build the proof from the adjusted product, which the prover holds in
    /// clear with class zero, running `confidence` independent rounds.
    pub fn from_statement(statement: &ClearResidue, confidence: usize, pk: &PublicKey) -> (r: Self)
        requires
            statement.wf(),
            statement.ambience == *pk,
            statement.rc.val() == 0,
        ensures
            r.wf(*pk),
            r.statement == statement.val,
            r.rounds@.len() == confidence,
    {
        let mut rounds: Vec<VoterProof> = Vec::new();
        let mut i: usize = 0;
        #[verifier::loop_isolation(false)]
        while i < confidence
            invariant
                i <= confidence,
                rounds@.len() == i,
                forall|k: int|
                    0 <= k < i ==> (#[trigger] rounds@[k]).wf(*pk) && rounds@[k].statement
                        == statement.val,
            decreases confidence - i,
        {
            rounds.push(VoterProof::from_statement(statement, pk));
            i = i + 1;
        }
        TallyProof { statement: statement.clone_val(), rounds }
    }

    /// Check every round with the secret key; all must accept.
    pub fn verify(&self, keypair: &KeyPair) -> (r: bool)
        requires
            keypair.wf(),
            self.wf(keypair.pk),
        ensures
            r == (forall|i: int|
                0 <= i < self.rounds@.len() ==> voter_proof_ok(*keypair, #[trigger] self.rounds@[i])),
    {
        let mut i: usize = 0;
        #[verifier::loop_isolation(false)]
        while i < self.rounds.len()
            invariant
                i <= self.rounds@.len(),
                forall|k: int| 0 <= k < i ==> voter_proof_ok(*keypair, #[trigger] self.rounds@[k]),
            decreases self.rounds@.len() - i,
        {
            if !self.rounds[i].verify(keypair) {
                return false;
            }
            i = i + 1;
        }
        true
    }
}

} // verus!
