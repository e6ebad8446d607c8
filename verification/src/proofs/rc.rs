//! Proof of knowledge of a residue class: the first half of the parameter
//! consonance challenge. The voter proves it knows the decomposition of a
//! challenge ciphertext before the government demonstrates decidability.
//! Statement `w = y^c * x^r`, commitment `w' = y^c' * x'^r`, challenge `b`
//! drawn from `Z/r`, response `c' + b*c`; the verifier accepts when
//! `w^b * w' * y^(-response)` is an `r`-th residue, which requires the
//! secret key: this is a designated-verifier protocol.
use vstd::prelude::*;

use crate::arithmetics::{self, rth_root_ok, ClearResidue, ResidueClass};
use crate::bignum::random_below;
use crate::keys::KeyPair;
use crate::modmath::{inv_of, mul_mod, pow_mod};

verus! {

/// The value the verifier reconstructs from a transcript:
/// `statement^b * commit * y^(-response) (mod n)`.
pub open spec fn recombined(kp: KeyPair, s: nat, c: nat, b: nat, resp: nat) -> nat {
    mul_mod(
        mul_mod(pow_mod(s, b, kp.pk.group()), c, kp.pk.group()),
        pow_mod(inv_of(kp.pk.yval(), kp.pk.group()), resp, kp.pk.group()),
        kp.pk.group(),
    )
}

/// Completeness of the sigma protocol, algebraic half: when the prover
/// follows the protocol — the statement and commitment are honest residues
/// over one key and the response equals `commit.rc + challenge * statement.rc`
/// in the ring — the value the verifier reconstructs,
/// `statement^b * commit * y^(-response)`, is an exact `r`-th residue.
/// Whether the verifier's root test recognises every exact residue rests on
/// Euler's theorem and is exercised by the test suite.
pub proof fn lemma_completeness_algebra(
    kp: KeyPair,
    statement: ClearResidue,
    commit: ClearResidue,
    b: nat,
    resp: nat,
)
    requires
        kp.wf(),
        statement.wf(),
        commit.wf(),
        statement.ambience == kp.pk,
        commit.ambience == kp.pk,
        resp == (commit.rc.val() + mul_mod(statement.rc.val(), b, kp.pk.ring()))
            % kp.pk.ring(),
    ensures
        crate::arithmetics::in_class(
            kp.pk,
            recombined(kp, statement.val.val(), commit.val.val(), b, resp),
            0,
        ),
{
    let pk = kp.pk;
    let n = pk.group();
    let rv = pk.ring();
    let sb = pow_mod(statement.val.val(), b, n);
    crate::arithmetics::lemma_class_pow(pk, statement.val.val(), statement.rc.val(), b);
    assert(crate::arithmetics::in_class(pk, sb, mul_mod(statement.rc.val(), b, rv)));
    let t = mul_mod(sb, commit.val.val(), n);
    crate::arithmetics::lemma_class_mul(
        pk,
        sb,
        mul_mod(statement.rc.val(), b, rv),
        commit.val.val(),
        commit.rc.val(),
    );
    vstd::arithmetic::div_mod::lemma_mod_bound((statement.rc.val() * b) as int, rv as int);
    assert((mul_mod(statement.rc.val(), b, rv) + commit.rc.val()) % rv == resp);
    assert(crate::arithmetics::in_class(pk, t, resp));
    crate::arithmetics::lemma_class_strip(pk, t, resp);
}

/// The data held by the prover.
#[derive(Debug, Clone, Copy)]
pub struct Proof {
    pub statement: ClearResidue,
    pub commit: ClearResidue,
}

impl Proof {
    /// Both residues are well-formed over one and the same key.
    pub open spec fn wf(&self) -> bool {
        &&& self.statement.wf()
        &&& self.commit.wf()
        &&& self.commit.ambience == self.statement.ambience
    }

    /// Convenience constructor.
    pub fn new(statement: ClearResidue, commit: ClearResidue) -> (r: Self)
        ensures
            r == (Proof { statement, commit }),
    {
        Proof { statement, commit }
    }

    pub fn get_statement(&self) -> (r: &ClearResidue)
        ensures
            r == self.statement,
    {
        &self.statement
    }

    pub fn get_commit(&self) -> (r: &ClearResidue)
        ensures
            r == self.commit,
    {
        &self.commit
    }

    /// Instantiate with a statement alone; the commitment is drawn fresh.
    pub fn from_statement(statement: ClearResidue) -> (r: Self)
        requires
            statement.wf(),
        ensures
            r.statement == statement,
            r.wf(),
    {
        let commit = ClearResidue::random(None, statement.get_ambience());
        Proof { statement, commit }
    }

    /// Replace the commitment with a fresh one.
    pub fn refresh_commit(&mut self)
        requires
            old(self).statement.wf(),
        ensures
            final(self).statement == old(self).statement,
            final(self).wf(),
    {
        let commit = ClearResidue::random(None, self.get_statement().get_ambience());
        self.commit = commit;
    }

    /// Respond to a challenge: `commit.rc + challenge * statement.rc` in the
    /// ring.
    pub fn respond(&self, challenge: &Challenge) -> (r: ResidueClass)
        requires
            self.wf(),
            challenge.wf(),
            challenge.challenge.m() == self.statement.ambience.ring(),
        ensures
            r.wf(),
            r.m() == self.statement.ambience.ring(),
            r.val() == (self.commit.rc.val() + mul_mod(
                self.statement.rc.val(),
                challenge.challenge.val(),
                self.statement.ambience.ring(),
            )) % self.statement.ambience.ring(),
    {
        let c_prime = self.commit.get_rc();
        let c_true = self.statement.get_rc();
        c_prime.add(&c_true.mul(challenge.get_challenge()))
    }
}

/// The data held by the designated verifier: the challenge it drew and the
/// key pair whose secret half decides residuosity.
#[derive(Debug, Clone, Copy)]
pub struct Challenge {
    /// The challenge `b`, an element of the ring `Z/r`.
    pub challenge: ResidueClass,
    /// The verifier needs `phi` to decide whether the response leads to a
    /// valid `r`-th residue.
    pub keypair: KeyPair,
}

impl Challenge {
    /// The key pair is consonant and the challenge lives in its ring.
    pub open spec fn wf(&self) -> bool {
        &&& self.keypair.wf()
        &&& self.challenge.wf()
        &&& self.challenge.m() == self.keypair.pk.ring()
    }

    pub fn new(challenge: ResidueClass, keypair: KeyPair) -> (r: Self)
        ensures
            r == (Challenge { challenge, keypair }),
    {
        Challenge { challenge, keypair }
    }

    /// Draw a uniformly random challenge from the ring.
    pub fn generate(keypair: &KeyPair) -> (r: Self)
        requires
            keypair.wf(),
        ensures
            r.wf(),
            r.keypair == *keypair,
    {
        let c = random_below(&keypair.pk.r.modulus);
        Challenge {
            challenge: ResidueClass::new(c, &keypair.pk.r),
            keypair: *keypair,
        }
    }

    pub fn get_challenge(&self) -> (r: &ResidueClass)
        ensures
            r == self.challenge,
    {
        &self.challenge
    }

    /// The response is valid if and only if
    /// `statement^b * commit * y^(-response)` is an `r`-th residue.
    pub fn verify(&self, proof: &Proof, response: &ResidueClass) -> (r: bool)
        requires
            self.wf(),
            proof.wf(),
            proof.statement.ambience == self.keypair.pk,
        ensures
            r == rth_root_ok(
                self.keypair,
                recombined(
                    self.keypair,
                    proof.statement.val.val(),
                    proof.commit.val.val(),
                    self.challenge.val(),
                    response.val(),
                ),
            ),
    {
        let y_inv = self.keypair.pk.invert_y();
        let s_b = proof.get_statement().get_val().pow(&self.challenge);
        let t = s_b.mul(proof.get_commit().get_val());
        let v = t.mul(&y_inv.pow(response));
        let root = arithmetics::rth_root(
            &v.residue,
            &self.keypair.pk.r.modulus,
            &self.keypair.sk.phi,
            &self.keypair.pk.n.modulus,
        );
        root.is_some()
    }
}

} // verus!
