//! Tests for the residue algebra: root extraction, decomposition round
//! trips, and the homomorphic product.
use benaloh_cryptosystem::arithmetics::{rth_root, ClearResidue, ResidueClass};
use benaloh_cryptosystem::bignum::Num;
use benaloh_cryptosystem::keys::KeyPair;

const RINGSIZE: usize = 16;
const MODSIZE: usize = 64;
const SAFEPRIME: bool = false;

/// Test computing r-th roots by checking that the residue class RC[0] has
/// roots while all other classes have no roots.
#[test]
fn arithmetics_test_rth_root() {
    let keypair = KeyPair::keygen(RINGSIZE, MODSIZE, SAFEPRIME).unwrap();
    let r = keypair.get_pk().get_r().to_uint();
    let n = keypair.get_pk().get_n().to_uint();
    let phi = *keypair.get_sk().get_phi();

    // 1 is always an r-th residue
    let one = Num::one();
    let root = rth_root(&one, &r, &phi, &n);
    assert!(root.is_some());

    // y^e for 1 <= e < r is never an r-th residue
    for _ in 1..100 {
        let e = keypair.get_pk().get_r().sample();
        if e.is_zero() {
            continue;
        }
        let nonresidue = keypair.get_pk().get_y().pow_num(&e);
        let nonroot = rth_root(&nonresidue.clone_residue(), &r, &phi, &n);
        assert!(nonroot.is_none());
    }
}

/// Composing a chosen class with a random witness and decomposing the result
/// recovers exactly the chosen class.
#[test]
fn compose_decompose_round_trip() {
    let keypair = KeyPair::keygen(RINGSIZE, MODSIZE, SAFEPRIME).unwrap();
    let pk = *keypair.get_pk();
    for _ in 0..3 {
        let class = pk.get_r().sample();
        let witness = pk.sample_invertible();
        let composed = ClearResidue::compose(class, witness, &pk);
        let recovered = ClearResidue::decompose(composed.get_val().clone_residue(), &keypair)
            .expect("an honestly composed value must decompose");
        assert!(recovered.get_rc().get_residue().eq_val(&class));
    }
}

/// The homomorphism: multiplying two clear residues multiplies the values
/// modulo n and adds the classes modulo r.
#[test]
fn homomorphic_product() {
    let keypair = KeyPair::keygen(RINGSIZE, MODSIZE, SAFEPRIME).unwrap();
    let pk = *keypair.get_pk();
    let a = ClearResidue::random(None, &pk);
    let b = ClearResidue::random(None, &pk);
    let product = a.mul(&b);

    let expected_rc = a.clone_rc().add(&b.clone_rc());
    assert!(product.get_rc().equals(&expected_rc));

    let expected_val = a.get_val().mul(b.get_val());
    assert!(product.get_val().get_residue().eq_val(&expected_val.get_residue()));

    // the product's class survives decryption
    let recovered = ClearResidue::decompose(product.get_val().clone_residue(), &keypair)
        .expect("the product of two honest residues must decompose");
    assert!(recovered.get_rc().equals(&expected_rc));
}

/// Euclidean division, value comparison and parity on the bare integers.
#[test]
fn num_small_values() {
    let seven = Num::from_u64(7);
    let three = Num::from_u64(3);
    let (q, rem) = benaloh_cryptosystem::bignum::div_rem_num(&seven, &three);
    assert!(q.eq_val(&Num::from_u64(2)));
    assert!(rem.eq_val(&Num::from_u64(1)));
    assert!(three.lt(&seven));
    assert!(!seven.lt(&three));
    assert!(seven.is_odd());
    assert!(!Num::from_u64(4).is_odd());
    assert!(Num::zero().is_zero());
}

/// Checked arithmetic reports overflow with `None` and exact values
/// otherwise.
#[test]
fn num_checked_arithmetic() {
    let two = Num::from_u64(2);
    let big = benaloh_cryptosystem::bignum::pow2_num(255);
    assert!(benaloh_cryptosystem::bignum::checked_mul_num(&big, &two).is_none());
    let sum = benaloh_cryptosystem::bignum::checked_add_num(&two, &two).unwrap();
    assert!(sum.eq_val(&Num::from_u64(4)));
    assert!(benaloh_cryptosystem::bignum::checked_sub_num(&two, &big).is_none());
    let diff = benaloh_cryptosystem::bignum::checked_sub_num(&Num::from_u64(9), &two).unwrap();
    assert!(diff.eq_val(&Num::from_u64(7)));
}

/// Big-endian encoding writes the value into the last bytes; decoding
/// inverts it.
#[test]
fn num_be_bytes() {
    let v = Num::from_u64(0x0102);
    let bytes = benaloh_cryptosystem::bignum::to_be_bytes32(&v);
    assert_eq!(bytes.len(), 32);
    assert_eq!(bytes[30], 1);
    assert_eq!(bytes[31], 2);
    for i in 0..30 {
        assert_eq!(bytes[i], 0);
    }
    let back = benaloh_cryptosystem::bignum::from_be_bytes32(&bytes);
    assert!(back.eq_val(&v));
}

/// The runtime invertibility test accepts group members and rejects zero.
#[test]
fn invertibility_check() {
    let keypair = KeyPair::keygen(RINGSIZE, MODSIZE, SAFEPRIME).unwrap();
    let pk = *keypair.get_pk();
    let member = benaloh_cryptosystem::arithmetics::OpaqueResidue::new(
        pk.sample_invertible(),
        pk.get_n(),
    );
    assert!(member.is_invertible());
    let zero = benaloh_cryptosystem::arithmetics::OpaqueResidue::new(Num::zero(), pk.get_n());
    assert!(!zero.is_invertible());
}

/// A residue class built from bytes is the byte value reduced modulo r.
#[test]
fn residue_class_from_bytes() {
    let keypair = KeyPair::keygen(RINGSIZE, MODSIZE, SAFEPRIME).unwrap();
    let modulus = *keypair.get_pk().get_r();
    let mut bytes = vec![0u8; 32];
    bytes[31] = 5;
    let rc = ResidueClass::from_be_bytes(&bytes, &modulus);
    assert!(rc.get_residue().eq_val(&Num::from_u64(5)));
}
