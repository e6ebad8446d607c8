//! Tests for the knowledge-of-residue-class protocol and the decidability
//! protocol.
use benaloh_cryptosystem::arithmetics::ClearResidue;
use benaloh_cryptosystem::bignum::Num;
use benaloh_cryptosystem::keys::KeyPair;
use benaloh_cryptosystem::proofs;
use benaloh_cryptosystem::proofs::{decide, rc};

const RINGSIZE: usize = 16;
const MODSIZE: usize = 64;
const SAFEPRIME: bool = false;

/// Test computing r-th roots via the key-pair entry point: the residue
/// class RC[0] has roots while other classes have none.
#[test]
fn proofs_test_rth_root() {
    let keypair = KeyPair::keygen(RINGSIZE, MODSIZE, SAFEPRIME).unwrap();
    let root = proofs::rth_root(&Num::one(), &keypair);  // 1 is always an r-th residue
    assert!(root.is_some());

    // y^e for 1 <= e < r is never an r-th residue
    let mut e = keypair.get_pk().get_r().sample();
    if e.is_zero() {
        e = Num::one();
    }
    let nonresidue = keypair.get_pk().get_y().pow_num(&e);
    let nonroot = proofs::rth_root(&nonresidue.clone_residue(), &keypair);
    assert!(nonroot.is_none());
}

/// Test that an honest verifier can verify an honest prover.
#[test]
fn rc_test_correctness() {
    let keypair = KeyPair::keygen(16, 64, false).unwrap();
    let proof = rc::Proof::from_statement(ClearResidue::random(None, keypair.get_pk()));
    let challenge = rc::Challenge::generate(&keypair);
    assert!(challenge.verify(&proof, &proof.respond(&challenge)));
}

/// Check that an honest prover can pass an honest verification.
#[test]
fn decide_test_correctness() {
    let keypair = KeyPair::keygen(16, 64, false).unwrap();
    let challenge = decide::Challenge::generate(keypair.get_pk());
    let response = decide::Proof::respond(&challenge, &keypair).unwrap();
    assert!(challenge.verify(&response));
}

/// A response naming the wrong class is rejected.
#[test]
fn decide_wrong_class_rejected() {
    let keypair = KeyPair::keygen(16, 64, false).unwrap();
    let challenge = decide::Challenge::generate(keypair.get_pk());
    let truth = challenge.get_challenge().get_rc().clone_residue();
    let mut wrong = benaloh_cryptosystem::bignum::checked_add_num(&truth, &Num::one()).unwrap();
    if !wrong.lt(&keypair.get_pk().get_r().to_uint()) {
        wrong = Num::zero();
    }
    assert!(!challenge.verify(&wrong));
}

/// A fresh commitment leaves the statement untouched.
#[test]
fn rc_refresh_commit_keeps_statement() {
    let keypair = KeyPair::keygen(16, 64, false).unwrap();
    let statement = ClearResidue::random(None, keypair.get_pk());
    let mut proof = rc::Proof::from_statement(statement);
    let before = proof.get_statement().get_val().clone_residue();
    proof.refresh_commit();
    assert!(proof.get_statement().get_val().get_residue().eq_val(&before));
}
