//! Tests pinning the challenge-derivation primitives to known values.
use benaloh_cryptosystem::hashing::{bits_of_bytes, sha3_256};

/// The SHA3-256 digest of the empty string, as published.
#[test]
fn sha3_known_answer() {
    let digest = sha3_256(&Vec::new());
    let expected: [u8; 32] = [
        0xa7, 0xff, 0xc6, 0xf8, 0xbf, 0x1e, 0xd7, 0x66, 0x51, 0xc1, 0x47, 0x56, 0xa0, 0x61,
        0xd6, 0x62, 0xf5, 0x80, 0xff, 0x4d, 0xe4, 0x3b, 0x49, 0xfa, 0x82, 0xd8, 0x0a, 0x4b,
        0x80, 0xf8, 0x43, 0x4a,
    ];
    assert_eq!(digest.len(), 32);
    for i in 0..32 {
        assert_eq!(digest[i], expected[i]);
    }
}

/// Bit expansion reads each byte most-significant-bit first.
#[test]
fn bits_are_msb_first() {
    let bits = bits_of_bytes(&vec![0b1000_0001, 0b0101_0000]);
    assert_eq!(bits.len(), 16);
    assert!(bits[0]);
    assert!(!bits[1]);
    assert!(bits[7]);
    assert!(!bits[8]);
    assert!(bits[9]);
    assert!(!bits[10]);
    assert!(bits[11]);
    assert!(!bits[15]);
}
