//! Key material: the public parameters `(r, n, y)`, the secret totient `phi`,
//! and generation of key pairs satisfying perfect consonance.
use vstd::prelude::*;

use crate::arithmetics::{self, GroupModulus, OpaqueResidue, RingModulus};
use crate::bignum::{
    checked_add_num, checked_mul_num, checked_sub_num, div_rem_num, generate_prime_num,
    inv_mod_num, is_prime_num, is_safe_prime_num, mod_pow, pow2_num, random_below, Num,
};
use crate::modmath::{invertible, mul_mod, pow_mod};

verus! {

/// The public key `(r, n, y)`: the prime ring modulus, the composite group
/// modulus, and the residue-class discriminator `y`, an invertible element
/// that is not an `r`-th residue.
#[derive(Debug, Clone, Copy)]
pub struct PublicKey {
    pub r: RingModulus,
    pub n: GroupModulus,
    pub y: OpaqueResidue,
}

impl PublicKey {
    /// The ring modulus `r` as an integer.
    pub open spec fn ring(&self) -> nat {
        self.r.modulus.value()
    }

    /// The group modulus `n` as an integer.
    pub open spec fn group(&self) -> nat {
        self.n.modulus.value()
    }

    /// The discriminator `y` as an integer.
    pub open spec fn yval(&self) -> nat {
        self.y.residue.value()
    }

    /// Structural well-formedness: both moduli are odd and nontrivial, and
    /// `y` is an invertible group element.
    pub open spec fn wf(&self) -> bool {
        &&& self.r.wf()
        &&& self.n.wf()
        &&& self.y.modulus.value() == self.group()
        &&& self.y.wf()
        &&& invertible(self.yval(), self.group())
    }

    /// Package the three public parameters; nothing is checked here.
    pub fn new(r: RingModulus, n: GroupModulus, y: OpaqueResidue) -> (pk: Self)
        ensures
            pk == (PublicKey { r, n, y }),
    {
        PublicKey { r, n, y }
    }

    pub fn get_r(&self) -> (r: &RingModulus)
        ensures
            r == self.r,
    {
        &self.r
    }

    pub fn get_n(&self) -> (r: &GroupModulus)
        ensures
            r == self.n,
    {
        &self.n
    }

    pub fn get_y(&self) -> (r: &OpaqueResidue)
        ensures
            r == self.y,
    {
        &self.y
    }

    /// The multiplicative inverse of `y`, which exists because `y` is sampled
    /// from the multiplicative group.
    pub fn invert_y(&self) -> (r: OpaqueResidue)
        requires
            self.wf(),
        ensures
            r.modulus == self.y.modulus,
            r.residue.value() == crate::modmath::inv_of(self.yval(), self.group()),
            mul_mod(self.yval(), r.residue.value(), self.group()) == 1,
            r.wf(),
            invertible(r.residue.value(), self.group()),
    {
        self.y.invert()
    }

    /// Sample a random invertible element of `Z/n*`.
    pub fn sample_invertible(&self) -> (r: Num)
        requires
            self.wf(),
        ensures
            r.value() < self.group(),
            invertible(r.value(), self.group()),
    {
        arithmetics::sample_invertible(&self.n)
    }
}

/// The secret key: the Euler totient `phi` of the group modulus.
#[derive(Debug, Clone, Copy)]
pub struct SecretKey {
    pub phi: Num,
}

impl SecretKey {
    /// Package the totient; nothing is checked here.
    pub fn new(phi: Num) -> (r: Self)
        ensures
            r == (SecretKey { phi }),
    {
        SecretKey { phi }
    }

    pub fn get_phi(&self) -> (r: &Num)
        ensures
            r == self.phi,
    {
        &self.phi
    }
}

/// A public/secret key pair. A well-formed pair satisfies perfect consonance:
/// `r` divides `phi` and `r` is invertible modulo `phi / r`.
#[derive(Debug, Clone, Copy)]
pub struct KeyPair {
    pub pk: PublicKey,
    pub sk: SecretKey,
}

impl KeyPair {
    /// The totient as an integer.
    pub open spec fn phi(&self) -> nat {
        self.sk.phi.value()
    }

    /// The quotient `phi / r`, exact for well-formed pairs.
    pub open spec fn quotient(&self) -> nat {
        self.phi() / self.pk.ring()
    }

    /// Well-formedness: the public key is well-formed and the pair is
    /// perfectly consonant, so that `r`-th roots can be extracted.
    pub open spec fn wf(&self) -> bool {
        &&& self.pk.wf()
        &&& self.phi() % self.pk.ring() == 0
        &&& self.quotient() > 1
        &&& invertible(self.pk.ring(), self.quotient())
    }

    /// Package a key pair; nothing is checked here.
    pub fn new(pk: PublicKey, sk: SecretKey) -> (r: Self)
        ensures
            r == (KeyPair { pk, sk }),
    {
        KeyPair { pk, sk }
    }

    pub fn get_pk(&self) -> (r: &PublicKey)
        ensures
            r == self.pk,
    {
        &self.pk
    }

    pub fn get_sk(&self) -> (r: &SecretKey)
        ensures
            r == self.sk,
    {
        &self.sk
    }

    /// The quantity `phi / r` as a value, well-defined for consonant pairs.
    pub fn phi_over_r(&self) -> (r: Num)
        requires
            self.pk.ring() > 0,
        ensures
            r.value() == self.quotient(),
    {
        let (q, _rem) = div_rem_num(&self.sk.phi, &self.r_num());
        proof {
            vstd::arithmetic::div_mod::lemma_fundamental_div_mod_converse(
                self.phi() as int,
                self.pk.ring() as int,
                q.value() as int,
                _rem.value() as int,
            );
        }
        q
    }

    /// The ring modulus as a bare value.
    fn r_num(&self) -> (r: Num)
        ensures
            r.value() == self.pk.ring(),
    {
        self.pk.r.modulus
    }

    /// Check perfect consonance: `r` divides `phi`, and `phi / r` is not
    /// itself divisible by `r` (for prime `r` this says `gcd(r, phi/r) == 1`).
    pub fn check_perfect_consonance(&self) -> (ok: bool)
        requires
            self.pk.ring() > 0,
        ensures
            ok == (self.phi() % self.pk.ring() == 0 && (self.phi() / self.pk.ring())
                % self.pk.ring() != 0),
    {
        let r = self.r_num();
        let (q, rem) = div_rem_num(&self.sk.phi, &r);
        proof {
            vstd::arithmetic::div_mod::lemma_fundamental_div_mod_converse(
                self.phi() as int,
                self.pk.ring() as int,
                q.value() as int,
                rem.value() as int,
            );
        }
        let divisible = rem.is_zero();
        let (_q2, rem2) = div_rem_num(&q, &r);
        proof {
            vstd::arithmetic::div_mod::lemma_fundamental_div_mod_converse(
                q.value() as int,
                self.pk.ring() as int,
                _q2.value() as int,
                rem2.value() as int,
            );
        }
        let indivisible = !rem2.is_zero();
        divisible && indivisible
    }
}

/// How many candidates a primality or rejection search examines before the
/// whole key-generation attempt is abandoned and reported as a failure.
pub const SEARCH_ATTEMPTS: u64 = 100000;

/// How many full generation attempts `keygen` makes before giving up.
pub const KEYGEN_ATTEMPTS: u64 = 64;

impl KeyPair {
    /// Generate `q` along the arithmetic sequence `q = r*x + b` with random
    /// `x` below `xbound`, accepting the first (safe) prime found. Only odd
    /// candidates above 1 are accepted, so the result is usable as a factor
    /// of the group modulus.
    fn generate_q(r: &Num, xbound: &Num, b: &Num, safe: bool) -> (res: Option<Num>)
        requires
            xbound.value() > 0,
        ensures
            res matches Some(q) ==> q.value() > 1 && q.value() % 2 == 1 && (exists|x: nat|
                q.value() == #[trigger] (r.value() * x) + b.value()),
    {
        let mut i: u64 = 0;
        let one = Num::one();
        #[verifier::loop_isolation(false)]
        while i < SEARCH_ATTEMPTS
            decreases SEARCH_ATTEMPTS - i,
        {
            let x = random_below(xbound);
            if let Some(rx) = checked_mul_num(r, &x) {
                if let Some(q) = checked_add_num(&rx, b) {
                    proof {
                        assert(q.value() == r.value() * x.value() + b.value());
                    }
                    if one.lt(&q) && q.is_odd() {
                        let is_p = if safe {
                            is_safe_prime_num(&q)
                        } else {
                            is_prime_num(&q)
                        };
                        if is_p {
                            return Some(q);
                        }
                    }
                }
            }
            i = i + 1;
        }
        None
    }

    /// Generate `p` along the arithmetic sequence `p = r*r*x + b*r + 1` with
    /// random `x` below `xbound`, accepting the first (safe) prime found.
    fn generate_p(r: &Num, xbound: &Num, b: &Num, safe: bool) -> (res: Option<Num>)
        requires
            xbound.value() > 0,
        ensures
            res matches Some(p) ==> p.value() > 1 && p.value() % 2 == 1 && (exists|x: nat|
                p.value() == #[trigger] (r.value() * r.value() * x) + b.value() * r.value() + 1),
    {
        let mut i: u64 = 0;
        let one = Num::one();
        #[verifier::loop_isolation(false)]
        while i < SEARCH_ATTEMPTS
            decreases SEARCH_ATTEMPTS - i,
        {
            let x = random_below(xbound);
            let candidate = Self::sequence_p(r, &x, b);
            if let Some(p) = candidate {
                proof {
                    assert(p.value() == r.value() * r.value() * x.value() + b.value() * r.value()
                        + 1);
                }
                if one.lt(&p) && p.is_odd() {
                    let is_p = if safe {
                        is_safe_prime_num(&p)
                    } else {
                        is_prime_num(&p)
                    };
                    if is_p {
                        return Some(p);
                    }
                }
            }
            i = i + 1;
        }
        None
    }

    /// The value `r*r*x + b*r + 1`, or `None` on overflow.
    fn sequence_p(r: &Num, x: &Num, b: &Num) -> (res: Option<Num>)
        ensures
            res matches Some(p) ==> p.value() == r.value() * r.value() * x.value() + b.value()
                * r.value() + 1,
    {
        let rr = match checked_mul_num(r, r) {
            Some(v) => v,
            None => { return None; },
        };
        let rrx = match checked_mul_num(&rr, x) {
            Some(v) => v,
            None => { return None; },
        };
        let rb = match checked_mul_num(b, r) {
            Some(v) => v,
            None => { return None; },
        };
        let s = match checked_add_num(&rrx, &rb) {
            Some(v) => v,
            None => { return None; },
        };
        let one = Num::one();
        match checked_add_num(&s, &one) {
            Some(v) => Some(v),
            None => None,
        }
    }

    /// Sample an invertible `y` with `y^(phi/r) != 1 (mod n)`: a non-residue,
    /// found by rejection. `None` after the attempt budget is exhausted.
    fn sample_nonresidue(modulus: &GroupModulus, r: &Num, phi: &Num) -> (res: Option<
        OpaqueResidue,
    >)
        requires
            modulus.wf(),
            r.value() > 0,
        ensures
            res matches Some(y) ==> {
                &&& y.modulus == modulus.modulus
                &&& y.wf()
                &&& invertible(y.val(), modulus.modulus.value())
                &&& pow_mod(y.val(), phi.value() / r.value(), modulus.modulus.value()) != 1
            },
    {
        let (quotient, _rem) = div_rem_num(phi, r);
        proof {
            vstd::arithmetic::div_mod::lemma_fundamental_div_mod_converse(
                phi.value() as int,
                r.value() as int,
                quotient.value() as int,
                _rem.value() as int,
            );
        }
        let one = Num::one();
        let mut i: u64 = 0;
        #[verifier::loop_isolation(false)]
        while i < SEARCH_ATTEMPTS
            decreases SEARCH_ATTEMPTS - i,
        {
            let y = arithmetics::sample_invertible(modulus);
            let t = mod_pow(&y, &quotient, &modulus.modulus);
            if !t.eq_val(&one) {
                return Some(OpaqueResidue { residue: y, modulus: modulus.modulus });
            }
            i = i + 1;
        }
        None
    }

    /// One full generation attempt; `None` reports failure of any search or
    /// of the post-generation consonance validation.
    fn keygen_attempt(ring_size: usize, group_size: usize, safe: bool) -> (res: Option<KeyPair>)
        requires
            2 <= ring_size <= 256,
            1 <= group_size < 256,
        ensures
            res matches Some(kp) ==> {
                &&& kp.wf()
                &&& kp.phi() % kp.pk.ring() == 0
                &&& kp.quotient() % kp.pk.ring() != 0
                &&& pow_mod(kp.pk.yval(), kp.quotient(), kp.pk.group()) != 1
                &&& vstd::arithmetic::power2::pow2((ring_size - 1) as nat) <= kp.pk.ring()
                    < vstd::arithmetic::power2::pow2(ring_size as nat)
            },
    {
        let r = generate_prime_num(ring_size, false);
        proof {
            vstd::arithmetic::power2::lemma2_to64();
            vstd::arithmetic::power2::lemma_pow2_strictly_increases(0, (ring_size - 1) as nat);
        }
        let ring = RingModulus::new(r);
        let xbound = pow2_num(group_size);
        proof {
            vstd::arithmetic::power2::lemma_pow2_pos(group_size as nat);
        }
        // the nonzero remainder term of the arithmetic sequences
        let mut b = random_below(&r);
        if b.is_zero() {
            b = Num::one();
        }
        let q = match Self::generate_q(&r, &xbound, &b, safe) {
            Some(v) => v,
            None => { return None; },
        };
        let p = match Self::generate_p(&r, &xbound, &b, safe) {
            Some(v) => v,
            None => { return None; },
        };
        let n = match checked_mul_num(&p, &q) {
            Some(v) => v,
            None => { return None; },
        };
        proof {
            assert(n.value() > 1) by (nonlinear_arith)
                requires
                    n.value() == p.value() * q.value(),
                    p.value() > 1,
                    q.value() > 1,
            ;
            assert(n.value() % 2 == 1) by {
                vstd::arithmetic::div_mod::lemma_mul_mod_noop_general(
                    p.value() as int,
                    q.value() as int,
                    2,
                );
            }
        }
        let group = GroupModulus::from_uint(&n);
        let p1 = match checked_sub_num(&p, &Num::one()) {
            Some(v) => v,
            None => { return None; },
        };
        let q1 = match checked_sub_num(&q, &Num::one()) {
            Some(v) => v,
            None => { return None; },
        };
        let phi = match checked_mul_num(&p1, &q1) {
            Some(v) => v,
            None => { return None; },
        };
        let y = match Self::sample_nonresidue(&group, &r, &phi) {
            Some(v) => v,
            None => { return None; },
        };
        let kp = KeyPair { pk: PublicKey { r: ring, n: group, y }, sk: SecretKey { phi } };
        // post-generation validation: perfect consonance, checked at runtime
        if !kp.check_perfect_consonance() {
            return None;
        }
        let quotient = kp.phi_over_r();
        let one = Num::one();
        if !one.lt(&quotient) {
            return None;
        }
        if !r.lt(&quotient) {
            return None;
        }
        let (_, consonant) = inv_mod_num(&r, &quotient);
        if !consonant {
            return None;
        }
        Some(kp)
    }

    /// Generate a key pair whose parameters `(r, n, y)` are perfectly
    /// consonant: primes are searched along the arithmetic sequences
    /// `q = r*x + b` and `p = r*r*x + b*r + 1`, and every attempt is
    /// validated after the fact; a failed validation triggers regeneration,
    /// and `None` is returned once the attempt budget is exhausted.
    pub fn keygen(ring_size: usize, group_size: usize, safe: bool) -> (res: Option<KeyPair>)
        requires
            2 <= ring_size <= 256,
            1 <= group_size < 256,
        ensures
            res matches Some(kp) ==> {
                &&& kp.wf()
                &&& kp.phi() % kp.pk.ring() == 0
                &&& kp.quotient() % kp.pk.ring() != 0
                &&& pow_mod(kp.pk.yval(), kp.quotient(), kp.pk.group()) != 1
                &&& vstd::arithmetic::power2::pow2((ring_size - 1) as nat) <= kp.pk.ring()
                    < vstd::arithmetic::power2::pow2(ring_size as nat)
            },
    {
        let mut i: u64 = 0;
        #[verifier::loop_isolation(false)]
        while i < KEYGEN_ATTEMPTS
            decreases KEYGEN_ATTEMPTS - i,
        {
            if let Some(kp) = Self::keygen_attempt(ring_size, group_size, safe) {
                return Some(kp);
            }
            i = i + 1;
        }
        None
    }
}

} // verus!
