//! Fiat-Shamir challenge derivation: SHA3-256 over byte-encoded residues,
//! expanded either into a bit sequence (one boolean per round) or into a ring
//! element. Both non-interactive protocols share this single routine.
use vstd::prelude::*;

use crate::arithmetics::{ResidueClass, RingModulus};
use crate::bignum::{be_bytes32, be_val, to_be_bytes32, Num};
use sha3::{Digest, Sha3_256};

verus! {

/// The SHA3-256 digest of a byte string. The digest is a pure function of
/// the input bytes; nothing further is assumed about its shape.
pub uninterp spec fn sha3_256_of(data: Seq<u8>) -> Seq<u8>;

/// Relies on `sha3::Sha3_256`: the 32-byte digest of the input, which
/// depends on the input bytes alone.
#[verifier::external_body]
pub fn sha3_256(data: &Vec<u8>) -> (r: Vec<u8>)
    ensures
        r@ == sha3_256_of(data@),
        r@.len() == 32,
{
    let mut hasher = Sha3_256::new();
    hasher.update(data.as_slice());
    hasher.finalize().to_vec()
}

/// The `i`-th bit of a byte string, most significant bit first within each
/// byte.
pub open spec fn bit_of(bytes: Seq<u8>, i: int) -> bool {
    (bytes[i / 8] >> ((7 - (i % 8)) as u8)) & 1 == 1
}

/// Expand bytes into bits, most-significant-bit-first per byte.
pub fn bits_of_bytes(bytes: &Vec<u8>) -> (r: Vec<bool>)
    ensures
        r@.len() == 8 * bytes@.len(),
        forall|i: int| 0 <= i < r@.len() ==> r@[i] == bit_of(bytes@, i),
{
    let mut out: Vec<bool> = Vec::new();
    let mut i: usize = 0;
    #[verifier::loop_isolation(false)]
    while i < bytes.len()
        invariant
            i <= bytes@.len(),
            out@.len() == 8 * i,
            forall|k: int| 0 <= k < out@.len() ==> out@[k] == bit_of(bytes@, k),
        decreases bytes@.len() - i,
    {
        let byte = bytes[i];
        let mut j: usize = 0;
        #[verifier::loop_isolation(false)]
        while j < 8
            invariant
                i < bytes@.len(),
                j <= 8,
                byte == bytes@[i as int],
            out@.len() == 8 * i + j,
                forall|k: int| 0 <= k < out@.len() ==> out@[k] == bit_of(bytes@, k),
            decreases 8 - j,
        {
            let shift: u8 = (7 - j) as u8;
            let bit: u8 = (byte >> shift) & 1;
            proof {
                vstd::arithmetic::div_mod::lemma_fundamental_div_mod_converse(
                    (8 * i + j) as int,
                    8,
                    i as int,
                    j as int,
                );
            }
            out.push(bit == 1);
            j = j + 1;
        }
        i = i + 1;
    }
    out
}

/// Derive a 256-entry boolean challenge from a transcript: hash it and read
/// the digest bit by bit.
pub fn derive_bits(transcript: &Vec<u8>) -> (r: Vec<bool>)
    ensures
        r@.len() == 256,
        forall|i: int| 0 <= i < 256 ==> r@[i] == bit_of(sha3_256_of(transcript@), i),
{
    let digest = sha3_256(transcript);
    bits_of_bytes(&digest)
}

/// Derive a ring-element challenge from a transcript: hash it and reduce the
/// digest into the ring.
pub fn derive_class(transcript: &Vec<u8>, modulus: &RingModulus) -> (r: ResidueClass)
    requires
        modulus.wf(),
    ensures
        r.wf(),
        r.modulus == modulus.modulus,
        r.val() == be_val(sha3_256_of(transcript@)) % modulus.modulus.value(),
{
    let digest = sha3_256(transcript);
    ResidueClass::from_be_bytes(&digest, modulus)
}

/// The concatenated 32-byte big-endian encodings of a sequence of values.
pub open spec fn be_cat(vals: Seq<nat>) -> Seq<u8>
    decreases vals.len(),
{
    if vals.len() == 0 {
        Seq::empty()
    } else {
        be_cat(vals.drop_last()) + be_bytes32(vals.last())
    }
}

/// Append the 32-byte big-endian encoding of one value to a transcript.
pub fn push_value_bytes(buf: &mut Vec<u8>, a: &Num)
    ensures
        final(buf)@ == old(buf)@ + be_bytes32(a.value()),
{
    let mut bytes = to_be_bytes32(a);
    buf.append(&mut bytes);
}

} // verus!
