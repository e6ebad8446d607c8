//! Tests for the parameter-consonance protocol: voter proofs, government
//! responses, and the ten-round end-to-end challenge.
use benaloh_cryptosystem::arithmetics::ClearResidue;
use benaloh_cryptosystem::keys::KeyPair;
use benaloh_cryptosystem::proofs::params::{ClearChallenge, GovernmentProof, VoterProof};

#[test]
fn test_verify_proofs() {
    let keypair = KeyPair::keygen(16, 64, false).unwrap();
    let voter_challenge = ClearChallenge::generate(keypair.get_pk(), 64);
    let opaque_challenge = voter_challenge.obscure();
    assert!(opaque_challenge.verify_proofs(&keypair));
}

/// An honest voter should be able to generate a verifiable VoterProof.
#[test]
fn test_voter_proof_correctness() {
    let keypair = KeyPair::keygen(16, 64, false).unwrap();
    let statement = ClearResidue::random(None, keypair.get_pk());
    let proof = VoterProof::from_statement(&statement, keypair.get_pk());
    assert!(proof.verify(&keypair));
}

/// Test that a pair of honest voter and government can verify each other's
/// proofs.
#[test]
fn test_gov_proof_correctness() {
    let keypair = KeyPair::keygen(16, 64, false).unwrap();
    let voter_challenge = ClearChallenge::generate(keypair.get_pk(), 16);
    let opaque_challenge = voter_challenge.obscure();
    let gov_proof = GovernmentProof::respond(&opaque_challenge, &keypair);
    assert!(gov_proof.verify(voter_challenge.get_answers()));
}

/// The full consonance challenge over ten rounds: every class the authority
/// returns matches the voter's private answer.
#[test]
fn params_consonance_ten_rounds() {
    let keypair = KeyPair::keygen(16, 64, false).unwrap();
    let voter_challenge = ClearChallenge::generate(keypair.get_pk(), 10);
    let opaque_challenge = voter_challenge.obscure();
    let gov_proof = GovernmentProof::respond(&opaque_challenge, &keypair);
    let answers = gov_proof.response.as_ref().expect("honest proofs must be answered");
    assert_eq!(answers.len(), 10);
    for (returned, private) in answers.iter().zip(voter_challenge.get_answers().iter()) {
        assert!(returned.get_rc().equals(private.get_rc()));
    }
    assert!(gov_proof.verify(voter_challenge.get_answers()));
}

/// A tampered voter proof is refused: the government answers nothing.
#[test]
fn tampered_proof_is_refused() {
    let keypair = KeyPair::keygen(16, 64, false).unwrap();
    let voter_challenge = ClearChallenge::generate(keypair.get_pk(), 4);
    let mut opaque_challenge = voter_challenge.obscure();
    // shift one proof's response by one: the reconstructed value moves to
    // class r - 1 and can no longer be an exact residue
    let one = benaloh_cryptosystem::arithmetics::ResidueClass::one(keypair.get_pk().get_r());
    opaque_challenge.proofs[0].response = opaque_challenge.proofs[0].response.add(&one);
    let gov_proof = GovernmentProof::respond(&opaque_challenge, &keypair);
    assert!(gov_proof.response.is_none());
    assert!(!gov_proof.verify(voter_challenge.get_answers()));
}
