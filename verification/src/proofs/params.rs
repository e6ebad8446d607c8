//! Proof of valid parameters `(r, n, y)`: the voter draws random residues
//! and proves knowledge of their classes; the government, after checking
//! those proofs, demonstrates correct decryption by returning the classes,
//! which the voter compares against its private answers.
use vstd::prelude::*;

use crate::arithmetics::{
    decompose_root_ok, is_least_log, ClearResidue, OpaqueResidue, ResidueClass,
};
use crate::bignum::{be_bytes32, be_val, inv_mod_num, to_be_bytes32};
use crate::hashing::{derive_class, sha3_256_of};
use crate::keys::{KeyPair, PublicKey};
use crate::modmath::{inv_of, invertible, mul_mod, pow_mod};

verus! {

/// The secret key cannot recover a class from `v`: it is not invertible, or
/// no discrete log exists for it, or the least log fails root extraction.
pub open spec fn undecomposable(kp: KeyPair, v: nat) -> bool {
    ||| !invertible(v, kp.pk.group())
    ||| crate::arithmetics::no_log_below(
        crate::arithmetics::dlog_base(kp),
        crate::arithmetics::dlog_target(kp, v),
        kp.pk.ring(),
        kp.pk.group(),
    )
    ||| (exists|e: nat| is_least_log(kp, v, e) && !decompose_root_ok(kp, v, e))
}

/// Voter's proof of knowledge, made non-interactive with Fiat-Shamir.
/// The statement is `w = y^c * x^r`, the commitment `w' = y^c' * x'^r`, the
/// challenge `b` is the hash of the commitment reduced into `Z/r`, and the
/// response is `c' + b*c`. The verifier, who holds the secret key, accepts
/// when `w' * w^b * y^(-response)` is an exact residue.
#[derive(Debug, Clone, Copy)]
pub struct VoterProof {
    /// The opaque residue whose class the voter claims to know.
    pub statement: OpaqueResidue,
    /// The opaque commitment.
    pub commitment: OpaqueResidue,
    pub challenge: ResidueClass,
    pub response: ResidueClass,
}

/// The group element the verifier reconstructs from a voter proof:
/// `commitment * statement^challenge * y^(-response) (mod n)`.
pub open spec fn voter_proof_z(kp: KeyPair, p: VoterProof) -> nat {
    mul_mod(
        mul_mod(
            p.commitment.val(),
            pow_mod(p.statement.val(), p.challenge.val(), kp.pk.group()),
            kp.pk.group(),
        ),
        pow_mod(inv_of(kp.pk.yval(), kp.pk.group()), p.response.val(), kp.pk.group()),
        kp.pk.group(),
    )
}

/// A voter proof checks out under `kp`: the reconstructed element is
/// invertible and decomposes to the zero class.
pub open spec fn voter_proof_ok(kp: KeyPair, p: VoterProof) -> bool {
    let z = voter_proof_z(kp, p);
    &&& invertible(z, kp.pk.group())
    &&& is_least_log(kp, z, 0)
    &&& decompose_root_ok(kp, z, 0)
}

impl VoterProof {
    /// The transcript's residues live in the key's group and its ring.
    pub open spec fn wf(&self, pk: PublicKey) -> bool {
        &&& self.statement.wf()
        &&& self.statement.m() == pk.group()
        &&& self.commitment.wf()
        &&& self.commitment.m() == pk.group()
        &&& self.challenge.wf()
        &&& self.challenge.m() == pk.ring()
        &&& self.response.wf()
        &&& self.response.m() == pk.ring()
    }

    /// Construct the proof from a statement. An honest prover possesses the
    /// clear residue, though the emitted transcript obscures it.
    pub fn from_statement(statement: &ClearResidue, pk: &PublicKey) -> (r: Self)
        requires
            statement.wf(),
            statement.ambience == *pk,
        ensures
            r.wf(*pk),
            r.statement == statement.val,
            r.challenge.val() == be_val(sha3_256_of(be_bytes32(r.commitment.val()))) % pk.ring(),
            exists|cprime: nat, u: nat|
                #[trigger] crate::arithmetics::decomp_eq(*pk, r.commitment.val(), cprime, u)
                    && cprime < pk.ring() && invertible(u, pk.group()) && r.response.val() == (
                mul_mod(statement.rc.val(), r.challenge.val(), pk.ring()) + cprime) % pk.ring(),
    {
        let commitment = Self::generate_commitment(pk);
        let challenge = Self::generate_challenge(commitment.get_val(), pk);
        let response = Self::respond(statement, &commitment, &challenge);
        let r = VoterProof {
            statement: statement.clone_val(),
            commitment: commitment.clone_val(),
            challenge,
            response,
        };
        proof {
            assert(crate::arithmetics::decomp_eq(
                *pk,
                r.commitment.val(),
                commitment.rc.val(),
                commitment.witness.val(),
            ));
        }
        r
    }

    /// Draw the commitment; the prover knows its class, the transcript will
    /// not reveal it.
    fn generate_commitment(pk: &PublicKey) -> (r: ClearResidue)
        requires
            pk.wf(),
        ensures
            r.wf(),
            r.exact(),
            r.ambience == *pk,
    {
        ClearResidue::random(None, pk)
    }

    /// Hash the commitment into the challenge.
    fn generate_challenge(commitment: &OpaqueResidue, pk: &PublicKey) -> (r: ResidueClass)
        requires
            pk.wf(),
        ensures
            r.wf(),
            r.modulus == pk.r.modulus,
            r.val() == be_val(sha3_256_of(be_bytes32(commitment.val()))) % pk.ring(),
    {
        let bytes = to_be_bytes32(&commitment.residue);
        derive_class(&bytes, &pk.r)
    }

    /// The response `c' + b * c`.
    fn respond(statement: &ClearResidue, commitment: &ClearResidue, challenge: &ResidueClass) -> (r:
        ResidueClass)
        requires
            statement.wf(),
            commitment.wf(),
            commitment.ambience == statement.ambience,
            challenge.wf(),
            challenge.m() == statement.ambience.ring(),
        ensures
            r.wf(),
            r.m() == statement.ambience.ring(),
            r.val() == (mul_mod(
                statement.rc.val(),
                challenge.val(),
                statement.ambience.ring(),
            ) + commitment.rc.val()) % statement.ambience.ring(),
    {
        statement.clone_rc().mul(challenge).add(&commitment.clone_rc())
    }

    /// Check the transcript: reconstruct `w' * w^b * y^(-response)` and
    /// decide, with the secret key, whether it is an exact residue. A value
    /// that is not even invertible, or fails to decompose, fails the check.
    pub fn verify(&self, keypair: &KeyPair) -> (r: bool)
        requires
            keypair.wf(),
            self.wf(keypair.pk),
        ensures
            r == voter_proof_ok(*keypair, *self),
    {
        let y_inv = keypair.pk.invert_y();
        let sb = self.statement.pow(&self.challenge);
        let t = self.commitment.mul(&sb);
        let z = t.mul(&y_inv.pow(&self.response));
        let (_, ok) = inv_mod_num(&z.residue, &keypair.pk.n.modulus);
        if !ok {
            return false;
        }
        match ClearResidue::decompose(z.residue, keypair) {
            None => {
                proof {
                    lemma_not_exact_when_undecomposable(*keypair, z.residue.value());
                }
                false
            },
            Some(d) => {
                let exact = d.is_exact_residue();
                proof {
                    if exact {
                        assert(voter_proof_ok(*keypair, *self));
                    } else {
                        if is_least_log(*keypair, z.residue.value(), 0) {
                            crate::arithmetics::lemma_least_log_unique(
                                *keypair,
                                z.residue.value(),
                                d.rc.val(),
                                0,
                            );
                        }
                    }
                }
                exact
            },
        }
    }
}

/// When decomposition reports failure, the value cannot be an exact residue
/// whose extraction succeeds: either no discrete log exists at all (so none
/// at zero) or the least log rejects root extraction.
proof fn lemma_not_exact_when_undecomposable(kp: KeyPair, z: nat)
    requires
        kp.wf(),
        crate::arithmetics::no_log_below(
            crate::arithmetics::dlog_base(kp),
            crate::arithmetics::dlog_target(kp, z),
            kp.pk.ring(),
            kp.pk.group(),
        ) || (exists|e: nat| is_least_log(kp, z, e) && !decompose_root_ok(kp, z, e)),
    ensures
        !(is_least_log(kp, z, 0) && decompose_root_ok(kp, z, 0)),
{
    if is_least_log(kp, z, 0) && decompose_root_ok(kp, z, 0) {
        if crate::arithmetics::no_log_below(
            crate::arithmetics::dlog_base(kp),
            crate::arithmetics::dlog_target(kp, z),
            kp.pk.ring(),
            kp.pk.group(),
        ) {
            assert(pow_mod(crate::arithmetics::dlog_base(kp), 0, kp.pk.group())
                != crate::arithmetics::dlog_target(kp, z));
        } else {
            let e = choose|e: nat| is_least_log(kp, z, e) && !decompose_root_ok(kp, z, e);
            crate::arithmetics::lemma_least_log_unique(kp, z, e, 0);
        }
    }
}

/// The voter's copy of the challenge, answers included.
pub struct ClearChallenge {
    /// The opaque challenge ciphertexts, one per round of confidence.
    pub challenges: Vec<OpaqueResidue>,
    pub answers: Vec<ClearResidue>,
    pub proofs: Vec<VoterProof>,
}

impl ClearChallenge {
    /// Every round's answer is a well-formed residue over `pk`, the opaque
    /// challenge is its value, and the attached proof speaks about it.
    pub open spec fn wf(&self, pk: PublicKey) -> bool {
        &&& self.challenges@.len() == self.answers@.len()
        &&& self.proofs@.len() == self.answers@.len()
        &&& forall|i: int|
            0 <= i < self.answers@.len() ==> {
                &&& (#[trigger] self.answers@[i]).wf()
                &&& self.answers@[i].ambience == pk
                &&& self.challenges@[i] == self.answers@[i].val
                &&& self.proofs@[i].wf(pk)
                &&& self.proofs@[i].statement == self.answers@[i].val
            }
    }

    /// Generate the challenge set: one random residue, its opaque value and
    /// a knowledge proof per round.
    pub fn generate(pk: &PublicKey, confidence: usize) -> (r: Self)
        requires
            pk.wf(),
        ensures
            r.wf(*pk),
            r.answers@.len() == confidence,
            forall|i: int|
                0 <= i < r.proofs@.len() ==> (#[trigger] r.proofs@[i]).challenge.val() == be_val(
                    sha3_256_of(be_bytes32(r.proofs@[i].commitment.val())),
                ) % pk.ring(),
    {
        let mut answers: Vec<ClearResidue> = Vec::new();
        let mut i: usize = 0;
        #[verifier::loop_isolation(false)]
        while i < confidence
            invariant
                i <= confidence,
                answers@.len() == i,
                forall|k: int|
                    0 <= k < i ==> (#[trigger] answers@[k]).wf() && answers@[k].ambience == *pk,
            decreases confidence - i,
        {
            answers.push(ClearResidue::random(None, pk));
            i = i + 1;
        }
        let mut challenges: Vec<OpaqueResidue> = Vec::new();
        let mut j: usize = 0;
        #[verifier::loop_isolation(false)]
        while j < answers.len()
            invariant
                j <= answers@.len(),
                challenges@.len() == j,
                forall|k: int| 0 <= k < j ==> challenges@[k] == answers@[k].val,
            decreases answers@.len() - j,
        {
            challenges.push(answers[j].clone_val());
            j = j + 1;
        }
        let mut proofs: Vec<VoterProof> = Vec::new();
        let mut j2: usize = 0;
        #[verifier::loop_isolation(false)]
        while j2 < answers.len()
            invariant
                j2 <= answers@.len(),
                proofs@.len() == j2,
                forall|k: int|
                    0 <= k < j2 ==> (#[trigger] proofs@[k]).wf(*pk) && proofs@[k].statement
                        == answers@[k].val && proofs@[k].challenge.val() == be_val(
                        sha3_256_of(be_bytes32(proofs@[k].commitment.val())),
                    ) % pk.ring(),
            decreases answers@.len() - j2,
        {
            proofs.push(VoterProof::from_statement(&answers[j2], pk));
            j2 = j2 + 1;
        }
        ClearChallenge { challenges, answers, proofs }
    }

    pub fn get_answers(&self) -> (r: &Vec<ClearResidue>)
        ensures
            r == self.answers,
    {
        &self.answers
    }

    /// The government's copy: the opaque challenges and the proofs, answers
    /// withheld.
    pub fn obscure(&self) -> (r: OpaqueChallenge)
        ensures
            r.challenges@ == self.challenges@,
            r.proofs@ == self.proofs@,
    {
        OpaqueChallenge {
            challenges: copy_residues(&self.challenges),
            proofs: copy_proofs(&self.proofs),
        }
    }
}

/// Copy a vector of opaque residues element by element.
fn copy_residues(v: &Vec<OpaqueResidue>) -> (r: Vec<OpaqueResidue>)
    ensures
        r@ == v@,
{
    let mut out: Vec<OpaqueResidue> = Vec::new();
    let mut i: usize = 0;
    #[verifier::loop_isolation(false)]
    while i < v.len()
        invariant
            i <= v@.len(),
            out@ == v@.take(i as int),
        decreases v@.len() - i,
    {
        out.push(v[i]);
        proof {
            assert(out@ =~= v@.take(i + 1));
        }
        i = i + 1;
    }
    proof {
        assert(out@ =~= v@);
    }
    out
}

/// Copy a vector of voter proofs element by element.
fn copy_proofs(v: &Vec<VoterProof>) -> (r: Vec<VoterProof>)
    ensures
        r@ == v@,
{
    let mut out: Vec<VoterProof> = Vec::new();
    let mut i: usize = 0;
    #[verifier::loop_isolation(false)]
    while i < v.len()
        invariant
            i <= v@.len(),
            out@ == v@.take(i as int),
        decreases v@.len() - i,
    {
        out.push(v[i]);
        proof {
            assert(out@ =~= v@.take(i + 1));
        }
        i = i + 1;
    }
    proof {
        assert(out@ =~= v@);
    }
    out
}

/// The government's copy of the challenge, with no answers.
#[derive(Debug)]
pub struct OpaqueChallenge {
    pub challenges: Vec<OpaqueResidue>,
    pub proofs: Vec<VoterProof>,
}

impl OpaqueChallenge {
    /// The rounds pair up and all residues live over `pk`.
    pub open spec fn wf(&self, pk: PublicKey) -> bool {
        &&& self.proofs@.len() == self.challenges@.len()
        &&& forall|i: int|
            0 <= i < self.challenges@.len() ==> {
                &&& (#[trigger] self.challenges@[i]).wf()
                &&& self.challenges@[i].m() == pk.group()
                &&& self.proofs@[i].wf(pk)
            }
    }

    pub fn new(challenges: Vec<OpaqueResidue>, proofs: Vec<VoterProof>) -> (r: Self)
        ensures
            r.challenges == challenges,
            r.proofs == proofs,
    {
        OpaqueChallenge { challenges, proofs }
    }

    pub fn get_challenges(&self) -> (r: &Vec<OpaqueResidue>)
        ensures
            r == self.challenges,
    {
        &self.challenges
    }

    /// True exactly when every attached knowledge proof verifies.
    pub fn verify_proofs(&self, keypair: &KeyPair) -> (r: bool)
        requires
            keypair.wf(),
            self.wf(keypair.pk),
        ensures
            r == (forall|i: int|
                0 <= i < self.proofs@.len() ==> voter_proof_ok(*keypair, #[trigger] self.proofs@[i])),
    {
        let mut i: usize = 0;
        #[verifier::loop_isolation(false)]
        while i < self.proofs.len()
            invariant
                i <= self.proofs@.len(),
                forall|k: int|
                    0 <= k < i ==> voter_proof_ok(*keypair, #[trigger] self.proofs@[k]),
            decreases self.proofs@.len() - i,
        {
            proof {
                assert((#[trigger] self.challenges@[i as int]).wf());
            }
            if !self.proofs[i].verify(keypair) {
                return false;
            }
            i = i + 1;
        }
        true
    }

    /// Copy the whole structure element by element.
    fn duplicate(&self) -> (r: OpaqueChallenge)
        ensures
            r.challenges@ == self.challenges@,
            r.proofs@ == self.proofs@,
    {
        OpaqueChallenge {
            challenges: copy_residues(&self.challenges),
            proofs: copy_proofs(&self.proofs),
        }
    }
}

/// The government's proof of being able to identify residue classes.
#[derive(Debug)]
pub struct GovernmentProof {
    pub statement: PublicKey,
    pub challenge: OpaqueChallenge,
    /// `None` is a refusal: the voter's proofs did not all check out, or a
    /// challenge value failed to decompose.
    pub response: Option<Vec<ClearResidue>>,
}

impl GovernmentProof {
    pub fn new(statement: PublicKey, challenge: OpaqueChallenge, response: Option<
        Vec<ClearResidue>,
    >) -> (r: Self)
        ensures
            r.statement == statement,
            r.challenge == challenge,
            r.response == response,
    {
        GovernmentProof { statement, challenge, response }
    }

    /// If the voter's proofs are valid, decompose every challenge value and
    /// return the recovered classes; otherwise, or if any value fails to
    /// decompose, refuse with an empty response.
    pub fn respond(challenge: &OpaqueChallenge, keypair: &KeyPair) -> (r: Self)
        requires
            keypair.wf(),
            challenge.wf(keypair.pk),
        ensures
            r.statement == keypair.pk,
            r.challenge.challenges@ == challenge.challenges@,
            r.challenge.proofs@ == challenge.proofs@,
            r.response.is_some() ==> forall|i: int|
                0 <= i < challenge.proofs@.len() ==> voter_proof_ok(
                    *keypair,
                    #[trigger] challenge.proofs@[i],
                ),
            r.response.is_none() ==> ((exists|i: int|
                0 <= i < challenge.proofs@.len() && !voter_proof_ok(
                    *keypair,
                    #[trigger] challenge.proofs@[i],
                )) || (exists|i: int|
                0 <= i < challenge.challenges@.len() && undecomposable(
                    *keypair,
                    (#[trigger] challenge.challenges@[i]).val(),
                ))),
            r.response matches Some(ans) ==> {
                &&& ans@.len() == challenge.challenges@.len()
                &&& forall|i: int|
                    0 <= i < ans@.len() ==> (#[trigger] ans@[i]).wf() && ans@[i].val.val()
                        == challenge.challenges@[i].val() && is_least_log(
                        *keypair,
                        challenge.challenges@[i].val(),
                        ans@[i].rc.val(),
                    )
            },
    {
        if !challenge.verify_proofs(keypair) {
            proof {
                assert(exists|i: int|
                    0 <= i < challenge.proofs@.len() && !voter_proof_ok(
                        *keypair,
                        #[trigger] challenge.proofs@[i],
                    ));
            }
            return GovernmentProof {
                statement: keypair.pk,
                challenge: challenge.duplicate(),
                response: None,
            };
        }
        let mut answers: Vec<ClearResidue> = Vec::new();
        let mut i: usize = 0;
        #[verifier::loop_isolation(false)]
        while i < self_challenges_len(challenge)
            invariant
                i <= challenge.challenges@.len(),
                answers@.len() == i,
                forall|k: int|
                    0 <= k < i ==> (#[trigger] answers@[k]).wf() && answers@[k].val.val()
                        == challenge.challenges@[k].val() && is_least_log(
                        *keypair,
                        challenge.challenges@[k].val(),
                        answers@[k].rc.val(),
                    ),
            decreases challenge.challenges@.len() - i,
        {
            let v = challenge.challenges[i].clone_residue();
            let (_, ok) = inv_mod_num(&v, &keypair.pk.n.modulus);
            if !ok {
                proof {
                    assert(undecomposable(*keypair, (challenge.challenges@[i as int]).val()));
                }
                return GovernmentProof {
                    statement: keypair.pk,
                    challenge: challenge.duplicate(),
                    response: None,
                };
            }
            match ClearResidue::decompose(v, keypair) {
                None => {
                    proof {
                        assert(undecomposable(*keypair, (challenge.challenges@[i as int]).val()));
                    }
                    return GovernmentProof {
                        statement: keypair.pk,
                        challenge: challenge.duplicate(),
                        response: None,
                    };
                },
                Some(d) => {
                    answers.push(d);
                },
            }
            i = i + 1;
        }
        GovernmentProof {
            statement: keypair.pk,
            challenge: challenge.duplicate(),
            response: Some(answers),
        }
    }

    /// Compare the returned classes against the voter's private answers. A
    /// refusal (`None` response) is treated as a failed validation: the
    /// parameters have not been demonstrated valid.
    pub fn verify(&self, answers: &Vec<ClearResidue>) -> (r: bool)
        ensures
            r == match self.response {
                None => false,
                Some(d) => d@.len() == answers@.len() && forall|i: int|
                    0 <= i < d@.len() ==> (#[trigger] d@[i]).rc.val() == answers@[i].rc.val(),
            },
    {
        match &self.response {
            None => false,
            Some(decryptions) => {
                if decryptions.len() != answers.len() {
                    return false;
                }
                let mut i: usize = 0;
                #[verifier::loop_isolation(false)]
                while i < decryptions.len()
                    invariant
                        i <= decryptions@.len(),
                        decryptions@.len() == answers@.len(),
                        forall|k: int|
                            0 <= k < i ==> (#[trigger] decryptions@[k]).rc.val()
                                == answers@[k].rc.val(),
                    decreases decryptions@.len() - i,
                {
                    if !decryptions[i].get_rc().equals(answers[i].get_rc()) {
                        return false;
                    }
                    i = i + 1;
                }
                true
            },
        }
    }
}

/// The number of challenge rounds carried by an opaque challenge.
fn self_challenges_len(c: &OpaqueChallenge) -> (r: usize)
    ensures
        r == c.challenges@.len(),
{
    c.challenges.len()
}

} // verus!
