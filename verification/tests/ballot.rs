//! Tests for the ballot-validity proof: capsule consumption, honest
//! correctness, and empirical soundness against out-of-set classes.
use benaloh_cryptosystem::arithmetics::ClearResidue;
use benaloh_cryptosystem::bignum::Num;
use benaloh_cryptosystem::keys::KeyPair;
use benaloh_cryptosystem::proofs::ballot::{zero_or_one, BallotProof, ClearCapsule};

#[test]
fn test_consume_capsule() {
    let keypair = KeyPair::keygen(16, 64, false).unwrap();
    let residue_class = keypair.get_pk().get_r().sample();
    let statement = ClearResidue::random(Some(residue_class), keypair.get_pk());
    let element = ClearResidue::random(Some(residue_class), keypair.get_pk());
    let capsule = ClearCapsule::new(vec![element]);
    let response = capsule.consume(&statement, keypair.get_pk()).unwrap();
    assert!(response.is_exact_residue());
}

/// Test that an honest prover can prove to an honest verifier.
#[test]
fn ballot_test_correctness() {
    let keypair = KeyPair::keygen(16, 64, false).unwrap();
    let one = Num::one();
    let statement = ClearResidue::random(Some(one), keypair.get_pk());
    let proof = BallotProof::from_statement(
        &statement,
        &zero_or_one(keypair.get_pk().get_r()),
        keypair.get_pk(),
    );
    assert!(proof.verify());
}

/// Consuming a capsule with no element of the statement's class reports the
/// mismatch instead of producing a response.
#[test]
fn consume_without_match_fails() {
    let keypair = KeyPair::keygen(16, 64, false).unwrap();
    let statement = ClearResidue::random(Some(Num::from_u64(2)), keypair.get_pk());
    let element = ClearResidue::random(Some(Num::from_u64(1)), keypair.get_pk());
    let capsule = ClearCapsule::new(vec![element]);
    assert!(capsule.consume(&statement, keypair.get_pk()).is_none());
}

/// A transcript whose challenge is not the hash of its commitment is
/// rejected: flipping a single challenge bit of an honest proof fails it.
#[test]
fn forged_challenge_rejected() {
    let keypair = KeyPair::keygen(16, 64, false).unwrap();
    let statement = ClearResidue::random(Some(Num::one()), keypair.get_pk());
    let mut proof = BallotProof::from_statement(
        &statement,
        &zero_or_one(keypair.get_pk().get_r()),
        keypair.get_pk(),
    );
    proof.challenge[0] = !proof.challenge[0];
    assert!(!proof.verify());
}

/// A cheating prover who opens every capsule, hoping never to be asked to
/// consume, is rejected: the response variants must follow the challenge
/// bits.
#[test]
fn all_open_cheat_rejected() {
    let keypair = KeyPair::keygen(16, 64, false).unwrap();
    let pk = keypair.get_pk();
    let classes = zero_or_one(pk.get_r());
    let statement = ClearResidue::random(Some(Num::from_u64(2)), pk);
    let mut answers = Vec::new();
    let mut commitment = Vec::new();
    for _ in 0..256 {
        let capsule = ClearCapsule::generate(&classes, pk);
        commitment.push(capsule.obscure());
        answers.push(capsule);
    }
    let mut response = Vec::new();
    for capsule in &answers {
        response.push(benaloh_cryptosystem::proofs::ballot::Response::OpenCapsule(
            capsule.duplicate(),
        ));
    }
    // derive the challenge honestly from the commitment transcript; the
    // all-open responses defy whichever of its bits ask for consumption
    let mut transcript = Vec::new();
    for capsule in &commitment {
        for element in capsule.get_elements() {
            let mut bytes = benaloh_cryptosystem::bignum::to_be_bytes32(element.get_residue());
            transcript.append(&mut bytes);
        }
    }
    let challenge = benaloh_cryptosystem::hashing::derive_bits(&transcript);
    let proof = BallotProof::new(statement.clone_val(), commitment, challenge, response);
    assert!(!proof.verify());
}

/// Empirical soundness: a ballot whose class lies outside {0, 1} fails
/// verification in every observed trial.
#[test]
fn ballot_out_of_set_fails() {
    let keypair = KeyPair::keygen(16, 64, false).unwrap();
    let classes = zero_or_one(keypair.get_pk().get_r());
    for _ in 0..100 {
        let statement = ClearResidue::random(Some(Num::from_u64(2)), keypair.get_pk());
        let proof = BallotProof::from_statement(&statement, &classes, keypair.get_pk());
        assert!(!proof.verify());
    }
}
