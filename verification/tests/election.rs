//! End-to-end election scenario: ballots with validity proofs, homomorphic
//! tally, decryption, and the tally-correctness proof.
use benaloh_cryptosystem::arithmetics::{ClearResidue, OpaqueResidue, ResidueClass};
use benaloh_cryptosystem::bignum::{random_below, Num};
use benaloh_cryptosystem::keys::KeyPair;
use benaloh_cryptosystem::proofs::ballot::{zero_or_one, BallotProof};
use benaloh_cryptosystem::proofs::tally::TallyProof;

/// Ten random yes/no ballots, each proven valid; the product decrypts to
/// the true total, and the tally proof over the adjusted product verifies.
#[test]
fn end_to_end_scenario() {
    let keypair = KeyPair::keygen(16, 64, false).unwrap();
    let pk = *keypair.get_pk();
    let classes = zero_or_one(pk.get_r());
    let two = Num::from_u64(2);

    let mut product = OpaqueResidue::new(Num::one(), pk.get_n());
    let mut true_tally = ResidueClass::zero(pk.get_r());
    for _ in 0..10 {
        let vote = random_below(&two);
        let ballot = ClearResidue::random(Some(vote), &pk);
        let proof = BallotProof::from_statement(&ballot, &classes, &pk);
        assert!(proof.verify());
        product = product.mul(ballot.get_val());
        true_tally = true_tally.add(&ResidueClass::new(vote, pk.get_r()));
    }

    let decryption = ClearResidue::decompose(product.clone_residue(), &keypair)
        .expect("the ballot product must decompose");
    assert!(decryption.get_rc().equals(&true_tally));

    // adjust the product by y^(-tally) and prove the result exact
    let adjustment = pk.invert_y().pow(decryption.get_rc());
    let adjusted = product.mul(&adjustment);
    let statement = ClearResidue::decompose(adjusted.clone_residue(), &keypair)
        .expect("the adjusted product must decompose");
    assert!(statement.is_exact_residue());
    let tally_proof = TallyProof::from_statement(&statement, 4, &pk);
    assert!(tally_proof.verify(&keypair));
}
