//! Tests for key generation and the consonance invariant.
use benaloh_cryptosystem::keys::KeyPair;

const RINGSIZE: usize = 16;
const MODSIZE: usize = 64;
const SAFEPRIME: bool = false;

#[test]
fn test_perfect_keygen() {
    let keypair = KeyPair::keygen(RINGSIZE, MODSIZE, SAFEPRIME).unwrap();
    assert!(keypair.check_perfect_consonance());
}

/// Consonance holds across varied ring and group sizes.
#[test]
fn keygen_varied_sizes() {
    for (ring_bits, group_bits) in [(8usize, 32usize), (12, 48), (16, 64)] {
        let keypair = KeyPair::keygen(ring_bits, group_bits, false).unwrap();
        assert!(keypair.check_perfect_consonance());
    }
}

/// The non-residue test built into generation: y^(phi/r) is never 1.
#[test]
fn keygen_y_is_nonresidue() {
    let keypair = KeyPair::keygen(RINGSIZE, MODSIZE, SAFEPRIME).unwrap();
    let q = keypair.phi_over_r();
    let t = keypair.get_pk().get_y().pow_num(&q);
    assert!(!t.clone_residue().eq_val(&benaloh_cryptosystem::bignum::Num::one()));
}
