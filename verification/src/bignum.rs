//! Fixed-width unsigned big integers: the value type every modulus, residue
//! and exponent in the library is built from, its mathematical model (a `nat`
//! value), and the trusted modular-arithmetic primitives that carry out the
//! heavy arithmetic.
use vstd::prelude::*;

use crate::modmath::{invertible, mul_mod, pow_mod};
use crypto_bigint::modular::runtime_mod::{DynResidue, DynResidueParams};
use crypto_bigint::rand_core::OsRng;
use crypto_bigint::{CheckedAdd, CheckedMul, CheckedSub, Encoding, NonZero, RandomMod, U256};
use vstd::arithmetic::power::pow;

verus! {

/// An unsigned 256-bit integer stored as four little-endian 64-bit words.
#[derive(Debug, Clone, Copy)]
pub struct Num {
    pub words: [u64; 4],
}

/// The value of the two highest words, read little-endian in base 2^64.
pub open spec fn two_words(w2: u64, w3: u64) -> nat {
    (w2 as nat) + 0x1_0000_0000_0000_0000nat * (w3 as nat)
}

/// The value of the three highest words, read little-endian in base 2^64.
pub open spec fn three_words(w1: u64, w2: u64, w3: u64) -> nat {
    (w1 as nat) + 0x1_0000_0000_0000_0000nat * two_words(w2, w3)
}

/// 2^256, the first value too large for a `Num`.
pub open spec fn num_limit() -> nat {
    0x1_0000_0000_0000_0000_0000_0000_0000_0000_0000_0000_0000_0000_0000_0000_0000_0000nat
}

/// Splitting an integer as `lo + 2^64 * hi` with `lo < 2^64` makes comparison
/// lexicographic in `(hi, lo)`.
pub proof fn lemma_split_cmp(lo1: nat, hi1: nat, lo2: nat, hi2: nat)
    requires
        lo1 < 0x1_0000_0000_0000_0000,
        lo2 < 0x1_0000_0000_0000_0000,
    ensures
        (lo1 + 0x1_0000_0000_0000_0000 * hi1 < lo2 + 0x1_0000_0000_0000_0000 * hi2) == (hi1 < hi2
            || (hi1 == hi2 && lo1 < lo2)),
        (lo1 + 0x1_0000_0000_0000_0000 * hi1 == lo2 + 0x1_0000_0000_0000_0000 * hi2) == (hi1 == hi2
            && lo1 == lo2),
{
    assert((lo1 + 0x1_0000_0000_0000_0000 * hi1 < lo2 + 0x1_0000_0000_0000_0000 * hi2) == (hi1
        < hi2 || (hi1 == hi2 && lo1 < lo2))) by (nonlinear_arith)
        requires
            lo1 < 0x1_0000_0000_0000_0000,
            lo2 < 0x1_0000_0000_0000_0000,
    ;
    assert((lo1 + 0x1_0000_0000_0000_0000 * hi1 == lo2 + 0x1_0000_0000_0000_0000 * hi2) == (hi1
        == hi2 && lo1 == lo2)) by (nonlinear_arith)
        requires
            lo1 < 0x1_0000_0000_0000_0000,
            lo2 < 0x1_0000_0000_0000_0000,
    ;
}

/// Every `Num` value is below 2^256.
pub proof fn lemma_num_bound(n: Num)
    ensures
        n.value() < num_limit(),
{
    assert(n.value() < num_limit()) by (nonlinear_arith)
        requires
            n.value() == (n.words[0] as nat) + 0x1_0000_0000_0000_0000 * ((n.words[1] as nat)
                + 0x1_0000_0000_0000_0000 * ((n.words[2] as nat) + 0x1_0000_0000_0000_0000 * (
            n.words[3] as nat))),
            n.words[0] < 0x1_0000_0000_0000_0000,
            n.words[1] < 0x1_0000_0000_0000_0000,
            n.words[2] < 0x1_0000_0000_0000_0000,
            n.words[3] < 0x1_0000_0000_0000_0000,
    ;
}

impl Num {
    /// The mathematical value of the four words, read little-endian in base 2^64.
    pub open spec fn value(&self) -> nat {
        (self.words[0] as nat) + 0x1_0000_0000_0000_0000nat * three_words(
            self.words[1],
            self.words[2],
            self.words[3],
        )
    }

    pub fn from_u64(v: u64) -> (r: Num)
        ensures
            r.value() == v,
    {
        Num { words: [v, 0, 0, 0] }
    }

    pub fn zero() -> (r: Num)
        ensures
            r.value() == 0,
    {
        Num::from_u64(0)
    }

    pub fn one() -> (r: Num)
        ensures
            r.value() == 1,
    {
        Num::from_u64(1)
    }

    /// Value comparison: `self < other`.
    pub fn lt(&self, other: &Num) -> (r: bool)
        ensures
            r == (self.value() < other.value()),
    {
        proof {
            lemma_split_cmp(
                self.words[0] as nat,
                three_words(self.words[1], self.words[2], self.words[3]),
                other.words[0] as nat,
                three_words(other.words[1], other.words[2], other.words[3]),
            );
            lemma_split_cmp(
                self.words[1] as nat,
                two_words(self.words[2], self.words[3]),
                other.words[1] as nat,
                two_words(other.words[2], other.words[3]),
            );
            lemma_split_cmp(
                self.words[2] as nat,
                self.words[3] as nat,
                other.words[2] as nat,
                other.words[3] as nat,
            );
        }
        if self.words[3] != other.words[3] {
            return self.words[3] < other.words[3];
        }
        if self.words[2] != other.words[2] {
            return self.words[2] < other.words[2];
        }
        if self.words[1] != other.words[1] {
            return self.words[1] < other.words[1];
        }
        self.words[0] < other.words[0]
    }

    /// Value equality: `self == other` as integers.
    pub fn eq_val(&self, other: &Num) -> (r: bool)
        ensures
            r == (self.value() == other.value()),
    {
        proof {
            lemma_split_cmp(
                self.words[0] as nat,
                three_words(self.words[1], self.words[2], self.words[3]),
                other.words[0] as nat,
                three_words(other.words[1], other.words[2], other.words[3]),
            );
            lemma_split_cmp(
                self.words[1] as nat,
                two_words(self.words[2], self.words[3]),
                other.words[1] as nat,
                two_words(other.words[2], other.words[3]),
            );
            lemma_split_cmp(
                self.words[2] as nat,
                self.words[3] as nat,
                other.words[2] as nat,
                other.words[3] as nat,
            );
        }
        self.words[0] == other.words[0] && self.words[1] == other.words[1] && self.words[2]
            == other.words[2] && self.words[3] == other.words[3]
    }

    /// Whether the value is zero.
    pub fn is_zero(&self) -> (r: bool)
        ensures
            r == (self.value() == 0),
    {
        let z = Num::zero();
        self.eq_val(&z)
    }

    /// Whether the value is odd.
    pub fn is_odd(&self) -> (r: bool)
        ensures
            r == (self.value() % 2 == 1),
    {
        proof {
            lemma_parity(*self);
        }
        self.words[0] % 2 == 1
    }
}

/// The parity of a `Num` is the parity of its lowest word.
pub proof fn lemma_parity(n: Num)
    ensures
        n.value() % 2 == n.words[0] % 2,
{
    let h = three_words(n.words[1], n.words[2], n.words[3]);
    assert(0x1_0000_0000_0000_0000nat * h == 2 * (0x8000_0000_0000_0000 * h)) by (nonlinear_arith);
    vstd::arithmetic::div_mod::lemma_mod_multiples_vanish(
        (0x8000_0000_0000_0000 * h) as int,
        n.words[0] as int,
        2,
    );
}

/// Relies on `DynResidue::mul` of `crypto_bigint`: the product of two residues
/// modulo an odd modulus.
#[verifier::external_body]
pub fn mod_mul(a: &Num, b: &Num, m: &Num) -> (r: Num)
    requires
        m.value() > 1,
        m.value() % 2 == 1,
        a.value() < m.value(),
        b.value() < m.value(),
    ensures
        r.value() == mul_mod(a.value(), b.value(), m.value()),
        r.value() < m.value(),
{
    let p = DynResidueParams::new(&U256::from_words(m.words));
    let x = DynResidue::new(&U256::from_words(a.words), p);
    let y = DynResidue::new(&U256::from_words(b.words), p);
    Num { words: x.mul(&y).retrieve().to_words() }
}

/// Relies on `DynResidue::add` of `crypto_bigint`: the sum of two residues
/// modulo an odd modulus.
#[verifier::external_body]
pub fn mod_add(a: &Num, b: &Num, m: &Num) -> (r: Num)
    requires
        m.value() > 1,
        m.value() % 2 == 1,
        a.value() < m.value(),
        b.value() < m.value(),
    ensures
        r.value() == (a.value() + b.value()) % m.value(),
        r.value() < m.value(),
{
    let p = DynResidueParams::new(&U256::from_words(m.words));
    let x = DynResidue::new(&U256::from_words(a.words), p);
    let y = DynResidue::new(&U256::from_words(b.words), p);
    Num { words: x.add(&y).retrieve().to_words() }
}

/// Relies on `DynResidue::neg` of `crypto_bigint`: the additive inverse of a
/// residue modulo an odd modulus.
#[verifier::external_body]
pub fn mod_neg(a: &Num, m: &Num) -> (r: Num)
    requires
        m.value() > 1,
        m.value() % 2 == 1,
        a.value() < m.value(),
    ensures
        r.value() as int == (m.value() - a.value()) % (m.value() as int),
        r.value() < m.value(),
{
    let p = DynResidueParams::new(&U256::from_words(m.words));
    let x = DynResidue::new(&U256::from_words(a.words), p);
    Num { words: x.neg().retrieve().to_words() }
}

/// Relies on `DynResidue::pow` of `crypto_bigint`: modular exponentiation
/// with an odd modulus.
#[verifier::external_body]
pub fn mod_pow(base: &Num, exponent: &Num, m: &Num) -> (r: Num)
    requires
        m.value() > 1,
        m.value() % 2 == 1,
        base.value() < m.value(),
    ensures
        r.value() == pow_mod(base.value(), exponent.value(), m.value()),
        r.value() < m.value(),
{
    let p = DynResidueParams::new(&U256::from_words(m.words));
    let x = DynResidue::new(&U256::from_words(base.words), p);
    Num { words: x.pow(&U256::from_words(exponent.words)).retrieve().to_words() }
}

/// Relies on `Uint::inv_mod` of `crypto_bigint`: the multiplicative inverse
/// modulo `m`, together with a flag that is set exactly when the inverse
/// exists.
#[verifier::external_body]
pub fn inv_mod_num(a: &Num, m: &Num) -> (r: (Num, bool))
    requires
        m.value() > 1,
        a.value() < m.value(),
    ensures
        r.1 == invertible(a.value(), m.value()),
        r.1 ==> r.0.value() < m.value() && mul_mod(a.value(), r.0.value(), m.value()) == 1,
{
    let (inv, flag) = U256::from_words(a.words).inv_mod(&U256::from_words(m.words));
    let ok: bool = flag.into();
    (Num { words: inv.to_words() }, ok)
}

/// Relies on `Uint::div_rem` of `crypto_bigint`: Euclidean quotient and
/// remainder.
#[verifier::external_body]
pub fn div_rem_num(a: &Num, b: &Num) -> (r: (Num, Num))
    requires
        b.value() > 0,
    ensures
        a.value() == r.0.value() * b.value() + r.1.value(),
        r.1.value() < b.value(),
    {
    let d = NonZero::new(U256::from_words(b.words)).unwrap();
    let (q, rem) = U256::from_words(a.words).div_rem(&d);
    (Num { words: q.to_words() }, Num { words: rem.to_words() })
}

/// Relies on `Uint::checked_add` of `crypto_bigint`: the exact sum, or `None`
/// past 2^256.
#[verifier::external_body]
pub fn checked_add_num(a: &Num, b: &Num) -> (r: Option<Num>)
    ensures
        r.is_some() == (a.value() + b.value() < num_limit()),
        r matches Some(s) ==> s.value() == a.value() + b.value(),
{
    let o: Option<U256> = U256::from_words(a.words).checked_add(&U256::from_words(b.words)).into();
    match o {
        Some(v) => Some(Num { words: v.to_words() }),
        None => None,
    }
}

/// Relies on `Uint::checked_mul` of `crypto_bigint`: the exact product, or
/// `None` past 2^256.
#[verifier::external_body]
pub fn checked_mul_num(a: &Num, b: &Num) -> (r: Option<Num>)
    ensures
        r.is_some() == (a.value() * b.value() < num_limit()),
        r matches Some(s) ==> s.value() == a.value() * b.value(),
{
    let o: Option<U256> = U256::from_words(a.words).checked_mul(&U256::from_words(b.words)).into();
    match o {
        Some(v) => Some(Num { words: v.to_words() }),
        None => None,
    }
}

/// Relies on `Uint::checked_sub` of `crypto_bigint`: the exact difference, or
/// `None` when it would be negative.
#[verifier::external_body]
pub fn checked_sub_num(a: &Num, b: &Num) -> (r: Option<Num>)
    ensures
        r.is_some() == (a.value() >= b.value()),
        r matches Some(s) ==> s.value() + b.value() == a.value(),
{
    let o: Option<U256> = U256::from_words(a.words).checked_sub(&U256::from_words(b.words)).into();
    match o {
        Some(v) => Some(Num { words: v.to_words() }),
        None => None,
    }
}

/// Relies on `Uint::random_mod` of `crypto_bigint` with the operating system's
/// secure generator: a value below `bound`; nothing further is promised of an
/// individual draw.
#[verifier::external_body]
pub fn random_below(bound: &Num) -> (r: Num)
    requires
        bound.value() > 0,
    ensures
        r.value() < bound.value(),
{
    let nz = NonZero::new(U256::from_words(bound.words)).unwrap();
    let v = U256::random_mod(&mut OsRng, &nz);
    Num { words: v.to_words() }
}

/// Relies on `crypto_primes::generate_prime` (and `generate_safe_prime`): a
/// random probable prime of exactly `bits` bits; every candidate it emits is
/// odd and has its top bit set.
#[verifier::external_body]
pub fn generate_prime_num(bits: usize, safe: bool) -> (r: Num)
    requires
        2 <= bits <= 256,
        safe ==> bits >= 3,
    ensures
        vstd::arithmetic::power2::pow2((bits - 1) as nat) <= r.value()
            < vstd::arithmetic::power2::pow2(bits as nat),
        r.value() % 2 == 1,
{
    let p: U256 = if safe {
        crypto_primes::generate_safe_prime(Some(bits))
    } else {
        crypto_primes::generate_prime(Some(bits))
    };
    Num { words: p.to_words() }
}

/// Relies on `crypto_primes::is_prime`: a probabilistic primality test; the
/// verdict is trusted for prime selection but nothing is assumed of it.
#[verifier::external_body]
pub fn is_prime_num(a: &Num) -> bool {
    crypto_primes::is_prime(&U256::from_words(a.words))
}

/// Relies on `crypto_primes::is_safe_prime`: a probabilistic safe-prime test;
/// the verdict is trusted for prime selection but nothing is assumed of it.
#[verifier::external_body]
pub fn is_safe_prime_num(a: &Num) -> bool {
    crypto_primes::is_safe_prime(&U256::from_words(a.words))
}

/// Relies on `Uint::shl_vartime` of `crypto_bigint`: `1 << k`, i.e. 2^k.
#[verifier::external_body]
pub fn pow2_num(k: usize) -> (r: Num)
    requires
        k < 256,
    ensures
        r.value() == vstd::arithmetic::power2::pow2(k as nat),
{
    Num { words: U256::ONE.shl_vartime(k).to_words() }
}

/// The big-endian byte at position `i` (of 32) of the value `v`.
pub open spec fn be_byte_of(v: nat, i: int) -> u8 {
    (((v as int) / pow(256, (31 - i) as nat)) % 256) as u8
}

/// The 32-byte big-endian encoding of `v`.
pub open spec fn be_bytes32(v: nat) -> Seq<u8> {
    Seq::new(32, |i: int| be_byte_of(v, i))
}

/// The value of a big-endian byte string.
pub open spec fn be_val(s: Seq<u8>) -> nat
    decreases s.len(),
{
    if s.len() == 0 {
        0
    } else {
        be_val(s.drop_last()) * 256 + (s.last() as nat)
    }
}

/// Relies on `Encoding::to_be_bytes` of `crypto_bigint`: the 32-byte
/// big-endian encoding of the value.
#[verifier::external_body]
pub fn to_be_bytes32(a: &Num) -> (r: Vec<u8>)
    ensures
        r@.len() == 32,
        r@ == be_bytes32(a.value()),
{
    U256::from_words(a.words).to_be_bytes().to_vec()
}

/// Relies on `Uint::from_be_slice` of `crypto_bigint`: the value of 32
/// big-endian bytes.
#[verifier::external_body]
pub fn from_be_bytes32(bytes: &Vec<u8>) -> (r: Num)
    requires
        bytes@.len() == 32,
    ensures
        r.value() == be_val(bytes@),
{
    Num { words: U256::from_be_slice(bytes.as_slice()).to_words() }
}

} // verus!
