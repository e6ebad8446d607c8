//! The residue algebra: moduli, residue classes, opaque and clear residues,
//! and the root-extraction and discrete-log routines they are built on.
use vstd::calc;
use vstd::prelude::*;

use vstd::arithmetic::power::pow;

use crate::bignum::{
    checked_add_num, div_rem_num, inv_mod_num, mod_add, mod_mul, mod_neg, mod_pow, random_below,
    from_be_bytes32, lemma_num_bound, Num,
};
use crate::keys::{KeyPair, PublicKey};
use crate::modmath::{
    inv_of, invertible, lemma_inv_unique, lemma_invertible_mul, lemma_invertible_pow,
    lemma_one_invertible, lemma_pow_mod_bounds, lemma_pow_mod_one_base, lemma_pow_mod_step,
    lemma_pow_mod_zero_exp, mul_mod, pow_mod,
};

verus! {

/// How many fresh draws a rejection-sampling loop makes before it falls back
/// to a fixed safe value; reaching the fallback has vanishing probability for
/// any well-formed modulus.
pub const SAMPLE_ATTEMPTS: u64 = 100000;

/// A ring modulus defines the integer ring `Z/r` of residue classes. It is
/// odd (prime, for honestly generated keys) and greater than 1.
#[derive(Debug, Clone, Copy)]
pub struct RingModulus {
    pub modulus: Num,
}

impl RingModulus {
    /// The modulus is odd and defines a nontrivial ring.
    pub open spec fn wf(&self) -> bool {
        self.modulus.value() > 1 && self.modulus.value() % 2 == 1
    }

    pub fn new(modulus: Num) -> (r: Self)
        requires
            modulus.value() > 1,
            modulus.value() % 2 == 1,
        ensures
            r.wf(),
            r.modulus == modulus,
    {
        RingModulus { modulus }
    }

    /// Clone the inner big integer.
    pub fn to_uint(&self) -> (r: Num)
        ensures
            r == self.modulus,
    {
        self.modulus
    }

    /// Sample a random element of the integer ring.
    pub fn sample(&self) -> (r: Num)
        requires
            self.wf(),
        ensures
            r.value() < self.modulus.value(),
    {
        random_below(&self.modulus)
    }
}

/// A group modulus defines the multiplicative group `Z/n*` of invertible
/// elements; ciphertext values and witnesses live there.
#[derive(Debug, Clone, Copy)]
pub struct GroupModulus {
    pub modulus: Num,
}

impl GroupModulus {
    /// The modulus is odd (a product of two odd primes, for honest keys) and
    /// greater than 1.
    pub open spec fn wf(&self) -> bool {
        self.modulus.value() > 1 && self.modulus.value() % 2 == 1
    }

    pub fn new(modulus: Num) -> (r: Self)
        requires
            modulus.value() > 1,
            modulus.value() % 2 == 1,
        ensures
            r.wf(),
            r.modulus == modulus,
    {
        GroupModulus { modulus }
    }

    pub fn from_uint(modulus: &Num) -> (r: Self)
        requires
            modulus.value() > 1,
            modulus.value() % 2 == 1,
        ensures
            r.wf(),
            r.modulus == *modulus,
    {
        GroupModulus { modulus: *modulus }
    }

    /// Clone the inner big integer.
    pub fn to_uint(&self) -> (r: Num)
        ensures
            r == self.modulus,
    {
        self.modulus
    }

    /// Sample a random invertible element by rejection.
    pub fn sample(&self) -> (r: Num)
        requires
            self.wf(),
        ensures
            r.value() < self.modulus.value(),
            invertible(r.value(), self.modulus.value()),
    {
        sample_invertible(self)
    }
}

/// Sample a random element of the multiplicative group `Z/n*`. Rejection
/// sampling is given a large but bounded number of attempts; if every draw
/// were rejected the unit element (always invertible) is returned, an event
/// of vanishing probability for any modulus with few non-invertible elements.
pub fn sample_invertible(modulus: &GroupModulus) -> (r: Num)
    requires
        modulus.wf(),
    ensures
        r.value() < modulus.modulus.value(),
        invertible(r.value(), modulus.modulus.value()),
{
    let mut tries: u64 = 0;
    #[verifier::loop_isolation(false)]
    while tries < SAMPLE_ATTEMPTS
        decreases SAMPLE_ATTEMPTS - tries,
    {
        let candidate = random_below(&modulus.modulus);
        let (_, ok) = inv_mod_num(&candidate, &modulus.modulus);
        if ok {
            return candidate;
        }
        tries = tries + 1;
    }
    proof {
        lemma_one_invertible(modulus.modulus.value());
    }
    Num::one()
}

/// A residue class: an element of the integer ring `Z/r`. Represents a
/// plaintext value (a vote, a residue-class index) or an exponent.
#[derive(Debug, Clone, Copy)]
pub struct ResidueClass {
    pub residue: Num,
    pub modulus: Num,
}

impl ResidueClass {
    /// The class representative as an integer.
    pub open spec fn val(&self) -> nat {
        self.residue.value()
    }

    /// The ring modulus as an integer.
    pub open spec fn m(&self) -> nat {
        self.modulus.value()
    }

    /// The representative is reduced and the modulus is a valid ring modulus.
    pub open spec fn wf(&self) -> bool {
        self.m() > 1 && self.m() % 2 == 1 && self.val() < self.m()
    }

    pub fn new(class: Num, modulus: &RingModulus) -> (r: Self)
        requires
            modulus.wf(),
            class.value() < modulus.modulus.value(),
        ensures
            r.wf(),
            r.val() == class.value(),
            r.modulus == modulus.modulus,
    {
        ResidueClass { residue: class, modulus: modulus.modulus }
    }

    pub fn zero(modulus: &RingModulus) -> (r: Self)
        requires
            modulus.wf(),
        ensures
            r.wf(),
            r.val() == 0,
            r.modulus == modulus.modulus,
    {
        ResidueClass::new(Num::zero(), modulus)
    }

    pub fn one(modulus: &RingModulus) -> (r: Self)
        requires
            modulus.wf(),
        ensures
            r.wf(),
            r.val() == 1,
            r.modulus == modulus.modulus,
    {
        ResidueClass::new(Num::one(), modulus)
    }

    /// Interpret big-endian bytes as an integer and reduce it into the ring.
    pub fn from_be_bytes(bytes: &Vec<u8>, modulus: &RingModulus) -> (r: Self)
        requires
            modulus.wf(),
            bytes@.len() == 32,
        ensures
            r.wf(),
            r.modulus == modulus.modulus,
            r.val() == crate::bignum::be_val(bytes@) % modulus.modulus.value(),
    {
        let raw = from_be_bytes32(bytes);
        let (q, rem) = div_rem_num(&raw, &modulus.modulus);
        proof {
            vstd::arithmetic::div_mod::lemma_fundamental_div_mod_converse(
                raw.value() as int,
                modulus.modulus.value() as int,
                q.value() as int,
                rem.value() as int,
            );
        }
        ResidueClass { residue: rem, modulus: modulus.modulus }
    }

    pub fn get_residue(&self) -> (r: &Num)
        ensures
            r == self.residue,
    {
        &self.residue
    }

    pub fn clone_residue(&self) -> (r: Num)
        ensures
            r == self.residue,
    {
        self.residue
    }

    /// Ring addition.
    pub fn add(&self, rhs: &ResidueClass) -> (r: ResidueClass)
        requires
            self.wf(),
            rhs.wf(),
            rhs.m() == self.m(),
        ensures
            r.wf(),
            r.modulus == self.modulus,
            r.val() == (self.val() + rhs.val()) % self.m(),
    {
        ResidueClass { residue: mod_add(&self.residue, &rhs.residue, &self.modulus), modulus: self.modulus }
    }

    /// Ring multiplication.
    pub fn mul(&self, rhs: &ResidueClass) -> (r: ResidueClass)
        requires
            self.wf(),
            rhs.wf(),
            rhs.m() == self.m(),
        ensures
            r.wf(),
            r.modulus == self.modulus,
            r.val() == mul_mod(self.val(), rhs.val(), self.m()),
    {
        ResidueClass { residue: mod_mul(&self.residue, &rhs.residue, &self.modulus), modulus: self.modulus }
    }

    /// Ring negation.
    pub fn neg(&self) -> (r: ResidueClass)
        requires
            self.wf(),
        ensures
            r.wf(),
            r.modulus == self.modulus,
            r.val() as int == (self.m() - self.val()) % (self.m() as int),
    {
        ResidueClass { residue: mod_neg(&self.residue, &self.modulus), modulus: self.modulus }
    }

    /// Equality of the underlying integer representatives.
    pub fn equals(&self, other: &ResidueClass) -> (r: bool)
        ensures
            r == (self.val() == other.val()),
    {
        self.residue.eq_val(&other.residue)
    }
}

/// An opaque residue: an element of the multiplicative group `Z/n*` with no
/// attached decomposition. Ciphertexts are opaque residues.
#[derive(Debug, Clone, Copy)]
pub struct OpaqueResidue {
    pub residue: Num,
    pub modulus: Num,
}

impl OpaqueResidue {
    /// The element as an integer.
    pub open spec fn val(&self) -> nat {
        self.residue.value()
    }

    /// The group modulus as an integer.
    pub open spec fn m(&self) -> nat {
        self.modulus.value()
    }

    /// The element is reduced and the modulus is a valid group modulus.
    pub open spec fn wf(&self) -> bool {
        self.m() > 1 && self.m() % 2 == 1 && self.val() < self.m()
    }

    pub fn new(residue: Num, modulus: &GroupModulus) -> (r: Self)
        requires
            modulus.wf(),
            residue.value() < modulus.modulus.value(),
        ensures
            r.wf(),
            r.val() == residue.value(),
            r.modulus == modulus.modulus,
    {
        OpaqueResidue { residue, modulus: modulus.modulus }
    }

    pub fn get_residue(&self) -> (r: &Num)
        ensures
            r == self.residue,
    {
        &self.residue
    }

    pub fn clone_residue(&self) -> (r: Num)
        ensures
            r == self.residue,
    {
        self.residue
    }

    /// Group multiplication.
    pub fn mul(&self, rhs: &OpaqueResidue) -> (r: OpaqueResidue)
        requires
            self.wf(),
            rhs.wf(),
            rhs.m() == self.m(),
        ensures
            r.wf(),
            r.modulus == self.modulus,
            r.val() == mul_mod(self.val(), rhs.val(), self.m()),
    {
        OpaqueResidue { residue: mod_mul(&self.residue, &rhs.residue, &self.modulus), modulus: self.modulus }
    }

    /// Exponentiation by a residue class.
    pub fn pow(&self, exponent: &ResidueClass) -> (r: OpaqueResidue)
        requires
            self.wf(),
        ensures
            r.wf(),
            r.modulus == self.modulus,
            r.val() == pow_mod(self.val(), exponent.val(), self.m()),
    {
        OpaqueResidue { residue: mod_pow(&self.residue, &exponent.residue, &self.modulus), modulus: self.modulus }
    }

    /// Exponentiation by a bare integer.
    pub fn pow_num(&self, exponent: &Num) -> (r: OpaqueResidue)
        requires
            self.wf(),
        ensures
            r.wf(),
            r.modulus == self.modulus,
            r.val() == pow_mod(self.val(), exponent.value(), self.m()),
    {
        OpaqueResidue { residue: mod_pow(&self.residue, exponent, &self.modulus), modulus: self.modulus }
    }

    /// Decide at runtime whether the element is invertible, i.e. lies in
    /// the multiplicative group `Z/n*`; decomposition demands this.
    pub fn is_invertible(&self) -> (r: bool)
        requires
            self.wf(),
        ensures
            r == invertible(self.val(), self.m()),
    {
        let (_, ok) = inv_mod_num(&self.residue, &self.modulus);
        ok
    }

    /// The multiplicative inverse; the element must be invertible.
    pub fn invert(&self) -> (r: OpaqueResidue)
        requires
            self.wf(),
            invertible(self.val(), self.m()),
        ensures
            r.wf(),
            r.modulus == self.modulus,
            r.val() == inv_of(self.val(), self.m()),
            mul_mod(self.val(), r.val(), self.m()) == 1,
            invertible(r.val(), self.m()),
    {
        let (inv, ok) = inv_mod_num(&self.residue, &self.modulus);
        proof {
            lemma_inv_unique(self.val(), self.m(), inv.value());
            assert(mul_mod(inv.value(), self.val(), self.m()) == 1) by {
                assert(inv.value() * self.val() == self.val() * inv.value());
            }
        }
        OpaqueResidue { residue: inv, modulus: self.modulus }
    }
}

/// The value composed from class `c` and witness `u`: `y^c * u^r (mod n)`.
pub open spec fn compose_val(pk: PublicKey, c: nat, u: nat) -> nat {
    mul_mod(
        pow_mod(pk.yval(), c, pk.group()),
        pow_mod(u, pk.ring(), pk.group()),
        pk.group(),
    )
}

/// `v` equals `y^c * u^r (mod n)` for the given public key: `u` witnesses
/// that `v` lies in residue class `c`.
pub open spec fn decomp_eq(pk: PublicKey, v: nat, c: nat, u: nat) -> bool {
    v == compose_val(pk, c, u)
}

/// `v` lies in residue class `c`: some invertible witness decomposes it.
pub open spec fn in_class(pk: PublicKey, v: nat, c: nat) -> bool {
    exists|u: nat| invertible(u, pk.group()) && #[trigger] decomp_eq(pk, v, c, u)
}

/// Raising a product that carries a reduced factor to a power distributes
/// over both factors: `(((x % n) * u) % n)^e == x^e * u^e (mod n)`.
pub proof fn lemma_pow_of_mod_product(x: int, u: int, e: nat, n: nat)
    requires
        n > 1,
        x >= 0,
        u >= 0,
    ensures
        vstd::arithmetic::power::pow((((x % (n as int)) * u) % (n as int)), e) % (n as int)
            == (vstd::arithmetic::power::pow(x, e) * vstd::arithmetic::power::pow(u, e)) % (
        n as int),
{
    let ni = n as int;
    vstd::arithmetic::div_mod::lemma_mod_bound(x, ni);
    calc! {
        (==)
        pow((((x % ni) * u) % ni), e) % ni; (==) {
            vstd::arithmetic::power::lemma_pow_mod_noop((x % ni) * u, e, ni);
        }
        pow((x % ni) * u, e) % ni; (==) {
            vstd::arithmetic::power::lemma_pow_distributes(x % ni, u, e);
        }
        (pow(x % ni, e) * pow(u, e)) % ni; (==) {
            vstd::arithmetic::div_mod::lemma_mul_mod_noop_left(pow(x % ni, e), pow(u, e), ni);
        }
        ((pow(x % ni, e) % ni) * pow(u, e)) % ni; (==) {
            vstd::arithmetic::power::lemma_pow_mod_noop(x, e, ni);
        }
        ((pow(x, e) % ni) * pow(u, e)) % ni; (==) {
            vstd::arithmetic::div_mod::lemma_mul_mod_noop_left(pow(x, e), pow(u, e), ni);
        }
        (pow(x, e) * pow(u, e)) % ni;
    }
}

/// Any value of the form `y^s * u^r (mod n)` with `u` invertible lies in the
/// residue class `s % r`, witnessed by `y^(s/r) * u`.
pub proof fn lemma_exponent_reduce(pk: PublicKey, s: nat, u: nat)
    requires
        pk.wf(),
        invertible(u, pk.group()),
    ensures
        in_class(
            pk,
            ((vstd::arithmetic::power::pow(pk.yval() as int, s) * vstd::arithmetic::power::pow(
                u as int,
                pk.ring(),
            )) % (pk.group() as int)) as nat,
            s % pk.ring(),
        ),
{
    let y = pk.yval();
    let rv = pk.ring();
    let n = pk.group();
    let ni = n as int;
    let k = s / rv;
    let c = s % rv;
    let v = ((pow(y as int, s) * pow(u as int, rv)) % ni) as nat;
    vstd::arithmetic::div_mod::lemma_fundamental_div_mod(s as int, rv as int);
    assert(s == k * rv + c);
    // the witness: y^k * u, reduced modulo n
    let w0 = mul_mod(pow_mod(y, k, n), u, n);
    lemma_invertible_pow(y, k, n);
    lemma_invertible_mul(pow_mod(y, k, n), u, n);
    assert(invertible(w0, n));
    lemma_pow_mod_bounds(y, k, n);
    // pow(w0, rv) % n == (pow(pow(y, k), rv) * pow(u, rv)) % n
    lemma_pow_of_mod_product(pow(y as int, k), u as int, rv, n);
    assert(pow(w0 as int, rv) % ni == (pow(pow(y as int, k), rv) * pow(u as int, rv)) % ni);
    // pow(y, s) == pow(y, c) * pow(pow(y, k), rv)
    assert(pow(y as int, s) == pow(y as int, c) * pow(pow(y as int, k), rv)) by {
        vstd::arithmetic::power::lemma_pow_adds(y as int, c, (k * rv) as nat);
        vstd::arithmetic::power::lemma_pow_multiplies(y as int, k, rv);
        assert(s == c + k * rv);
    }
    // assemble
    lemma_pow_mod_bounds(y, c, n);
    lemma_pow_mod_bounds(w0, rv, n);
    calc! {
        (==)
        (mul_mod(pow_mod(y, c, n), pow_mod(w0, rv, n), n)) as int; (==) {
            vstd::arithmetic::div_mod::lemma_mul_mod_noop_general(
                pow(y as int, c),
                pow(w0 as int, rv),
                ni,
            );
        }
        (pow(y as int, c) * pow(w0 as int, rv)) % ni; (==) {
            vstd::arithmetic::div_mod::lemma_mul_mod_noop_right(
                pow(y as int, c),
                pow(w0 as int, rv),
                ni,
            );
        }
        (pow(y as int, c) * (pow(w0 as int, rv) % ni)) % ni; (==) {}
        (pow(y as int, c) * ((pow(pow(y as int, k), rv) * pow(u as int, rv)) % ni)) % ni; (==) {
            vstd::arithmetic::div_mod::lemma_mul_mod_noop_right(
                pow(y as int, c),
                pow(pow(y as int, k), rv) * pow(u as int, rv),
                ni,
            );
        }
        (pow(y as int, c) * (pow(pow(y as int, k), rv) * pow(u as int, rv))) % ni; (==) {
            assert(pow(y as int, c) * (pow(pow(y as int, k), rv) * pow(u as int, rv)) == (pow(y as int, c)
                * pow(pow(y as int, k), rv)) * pow(u as int, rv)) by (nonlinear_arith);
        }
        ((pow(y as int, c) * pow(pow(y as int, k), rv)) * pow(u as int, rv)) % ni; (==) {}
        (pow(y as int, s) * pow(u as int, rv)) % ni; (==) {}
        v as int;
    }
    assert(decomp_eq(pk, v, c, w0));
    assert(in_class(pk, v, c));
}

/// A clear residue: a value together with its decomposition into residue
/// class and witness, `val = y^rc * witness^r (mod n)`, over an ambient
/// public key.
#[derive(Debug, Clone, Copy)]
pub struct ClearResidue {
    /// The value itself, an invertible element modulo `n`.
    pub val: OpaqueResidue,
    /// The residue class the value belongs to, unique up to `mod r`.
    pub rc: ResidueClass,
    /// An `r`-th root of `val * y^(-rc)`: the "x" in `val = y^c * x^r`.
    pub witness: OpaqueResidue,
    /// A copy of the ambient public parameters `(r, n, y)`.
    pub ambience: PublicKey,
}

impl ClearResidue {
    /// Structural well-formedness plus the class invariant: the value is an
    /// invertible group element that some invertible witness places in the
    /// stored residue class.
    pub open spec fn wf(&self) -> bool {
        &&& self.ambience.wf()
        &&& self.val.m() == self.ambience.group()
        &&& self.witness.m() == self.ambience.group()
        &&& self.rc.m() == self.ambience.ring()
        &&& self.val.wf()
        &&& self.witness.wf()
        &&& self.rc.wf()
        &&& invertible(self.val.val(), self.ambience.group())
        &&& invertible(self.witness.val(), self.ambience.group())
        &&& in_class(self.ambience, self.val.val(), self.rc.val())
    }

    /// The stored witness itself decomposes the value exactly. `compose`,
    /// `random` and `decompose` establish this; the homomorphic product does
    /// not preserve it when the class sum wraps around the ring.
    pub open spec fn exact(&self) -> bool {
        decomp_eq(self.ambience, self.val.val(), self.rc.val(), self.witness.val())
    }

    /// Package a decomposition. The caller vouches for the class invariant;
    /// `compose` and `decompose` establish it.
    pub fn new(val: OpaqueResidue, rc: ResidueClass, witness: OpaqueResidue, ambience: &PublicKey) -> (r: Self)
        requires
            ambience.wf(),
            val.wf(),
            rc.wf(),
            witness.wf(),
            val.m() == ambience.group(),
            witness.m() == ambience.group(),
            rc.m() == ambience.ring(),
            invertible(val.val(), ambience.group()),
            invertible(witness.val(), ambience.group()),
            in_class(*ambience, val.val(), rc.val()),
        ensures
            r == (ClearResidue { val, rc, witness, ambience: *ambience }),
            r.wf(),
    {
        ClearResidue { val, rc, witness, ambience: *ambience }
    }

    /// Whether the value is an exact `r`-th residue, i.e. its class is zero.
    pub fn is_exact_residue(&self) -> (r: bool)
        ensures
            r == (self.rc.val() == 0),
    {
        self.rc.residue.is_zero()
    }

    /// Construct a residue from its decomposition: `val = y^rc * witness^r`.
    pub fn compose(rc: Num, witness: Num, ambience: &PublicKey) -> (r: Self)
        requires
            ambience.wf(),
            rc.value() < ambience.ring(),
            witness.value() < ambience.group(),
            invertible(witness.value(), ambience.group()),
        ensures
            r.wf(),
            r.ambience == *ambience,
            r.rc.val() == rc.value(),
            r.rc.modulus == ambience.r.modulus,
            r.witness.val() == witness.value(),
            r.val.val() == mul_mod(
                pow_mod(ambience.yval(), rc.value(), ambience.group()),
                pow_mod(witness.value(), ambience.ring(), ambience.group()),
                ambience.group(),
            ),
            decomp_eq(*ambience, r.val.val(), rc.value(), witness.value()),
            r.exact(),
    {
        let z = mod_pow(&witness, &ambience.r.modulus, &ambience.n.modulus);
        let yc = mod_pow(&ambience.y.residue, &rc, &ambience.n.modulus);
        let v = mod_mul(&yc, &z, &ambience.n.modulus);
        proof {
            let n = ambience.group();
            lemma_invertible_pow(ambience.yval(), rc.value(), n);
            lemma_invertible_pow(witness.value(), ambience.ring(), n);
            lemma_invertible_mul(
                pow_mod(ambience.yval(), rc.value(), n),
                pow_mod(witness.value(), ambience.ring(), n),
                n,
            );
            assert(decomp_eq(*ambience, v.value(), rc.value(), witness.value()));
            assert(in_class(*ambience, v.value(), rc.value()));
            vstd::arithmetic::div_mod::lemma_small_mod(rc.value(), ambience.ring());
        }
        ClearResidue {
            val: OpaqueResidue { residue: v, modulus: ambience.n.modulus },
            rc: ResidueClass { residue: rc, modulus: ambience.r.modulus },
            witness: OpaqueResidue { residue: witness, modulus: ambience.n.modulus },
            ambience: *ambience,
        }
    }

    /// Decompose an opaque value into its residue class and witness; this is
    /// decryption, hence the need for the full key pair. Raising to `phi/r`
    /// kills the witness component, a brute-force discrete log recovers the
    /// class, and root extraction recovers the witness. An undecomposable
    /// value signals an invalid ciphertext or a consonance violation, a
    /// fatal defect that cannot occur for honestly composed values; since
    /// verified code never aborts, that defect is reported as `None`, and
    /// every caller treats it as a refusal or a fatal error rather than a
    /// soft negative.
    pub fn decompose(val: Num, keypair: &KeyPair) -> (r: Option<ClearResidue>)
        requires
            keypair.wf(),
            val.value() < keypair.pk.group(),
            invertible(val.value(), keypair.pk.group()),
        ensures
            r matches Some(cr) ==> {
                &&& cr.wf()
                &&& cr.ambience == keypair.pk
                &&& cr.val.val() == val.value()
                &&& is_least_log(*keypair, val.value(), cr.rc.val())
                &&& decompose_root_ok(*keypair, val.value(), cr.rc.val())
                &&& decomp_eq(keypair.pk, val.value(), cr.rc.val(), cr.witness.val())
                &&& cr.exact()
            },
            r.is_none() ==> (no_log_below(
                dlog_base(*keypair),
                dlog_target(*keypair, val.value()),
                keypair.pk.ring(),
                keypair.pk.group(),
            ) || (exists|e: nat|
                is_least_log(*keypair, val.value(), e) && !decompose_root_ok(
                    *keypair,
                    val.value(),
                    e,
                ))),
    {
        let n_num = keypair.pk.n.modulus;
        let r_num = keypair.pk.r.modulus;
        let q_num = keypair.phi_over_r();
        let ypr = mod_pow(&keypair.pk.y.residue, &q_num, &n_num);
        let vpr = mod_pow(&val, &q_num, &n_num);
        let found = discrete_log(&ypr, &vpr, &r_num, &n_num);
        match found {
            None => None,
            Some(rc_num) => {
                let y_inv = keypair.pk.invert_y();
                let yinv_rc = mod_pow(&y_inv.residue, &rc_num, &n_num);
                let z = mod_mul(&val, &yinv_rc, &n_num);
                let root = rth_root(&z, &r_num, &keypair.sk.phi, &n_num);
                match root {
                    None => {
                        proof {
                            assert(is_least_log(*keypair, val.value(), rc_num.value())
                                && !decompose_root_ok(*keypair, val.value(), rc_num.value()));
                        }
                        None
                    },
                    Some(w) => {
                        proof {
                            let n = keypair.pk.group();
                            let y = keypair.pk.yval();
                            lemma_invertible_pow(inv_of(y, n), rc_num.value(), n);
                            lemma_invertible_mul(
                                val.value(),
                                pow_mod(inv_of(y, n), rc_num.value(), n),
                                n,
                            );
                            lemma_invertible_pow(
                                z.value(),
                                inv_of(keypair.pk.ring(), keypair.quotient()),
                                n,
                            );
                            lemma_recompose(keypair.pk, val.value(), rc_num.value(), w.value());
                            assert(in_class(keypair.pk, val.value(), rc_num.value()));
                        }
                        Some(
                            ClearResidue {
                                val: OpaqueResidue { residue: val, modulus: n_num },
                                rc: ResidueClass { residue: rc_num, modulus: r_num },
                                witness: OpaqueResidue { residue: w, modulus: n_num },
                                ambience: keypair.pk,
                            },
                        )
                    },
                }
            },
        }
    }

    /// Generate a random residue with its decomposition; the class is either
    /// fixed by the caller or drawn uniformly from the ring.
    pub fn random(class: Option<Num>, ambience: &PublicKey) -> (r: Self)
        requires
            ambience.wf(),
            class matches Some(c) ==> c.value() < ambience.ring(),
        ensures
            r.wf(),
            r.exact(),
            r.ambience == *ambience,
            class matches Some(c) ==> r.rc.val() == c.value(),
    {
        let c = match class {
            Some(c) => c,
            None => random_below(&ambience.r.modulus),
        };
        let x = sample_invertible(&ambience.n);
        Self::compose(c, x, ambience)
    }

    /// Return a reference to the element itself.
    pub fn get_val(&self) -> (r: &OpaqueResidue)
        ensures
            r == self.val,
    {
        &self.val
    }

    /// Clone the opaque value.
    pub fn clone_val(&self) -> (r: OpaqueResidue)
        ensures
            r == self.val,
    {
        self.val
    }

    /// Return a reference to the residue class.
    pub fn get_rc(&self) -> (r: &ResidueClass)
        ensures
            r == self.rc,
    {
        &self.rc
    }

    /// Return a copy of the residue class.
    pub fn clone_rc(&self) -> (r: ResidueClass)
        ensures
            r == self.rc,
    {
        self.rc
    }

    /// Return a reference to the witness.
    pub fn get_witness(&self) -> (r: &OpaqueResidue)
        ensures
            r == self.witness,
    {
        &self.witness
    }

    /// Clone the witness.
    pub fn clone_witness(&self) -> (r: OpaqueResidue)
        ensures
            r == self.witness,
    {
        self.witness
    }

    /// Return a reference to the ambient public key.
    pub fn get_ambience(&self) -> (r: &PublicKey)
        ensures
            r == self.ambience,
    {
        &self.ambience
    }

    /// The homomorphic product: values and witnesses multiply in the group,
    /// classes add in the ring.
    pub fn mul(&self, rhs: &ClearResidue) -> (r: ClearResidue)
        requires
            self.wf(),
            rhs.wf(),
            rhs.ambience == self.ambience,
        ensures
            r.wf(),
            r.ambience == self.ambience,
            r.val.val() == mul_mod(self.val.val(), rhs.val.val(), self.ambience.group()),
            r.rc.val() == (self.rc.val() + rhs.rc.val()) % self.ambience.ring(),
            r.witness.val() == mul_mod(self.witness.val(), rhs.witness.val(), self.ambience.group()),
    {
        let val = self.val.mul(&rhs.val);
        let rc = self.rc.add(&rhs.rc);
        let witness = self.witness.mul(&rhs.witness);
        proof {
            lemma_class_mul(
                self.ambience,
                self.val.val(),
                self.rc.val(),
                rhs.val.val(),
                rhs.rc.val(),
            );
            lemma_invertible_mul(self.val.val(), rhs.val.val(), self.ambience.group());
            lemma_invertible_mul(self.witness.val(), rhs.witness.val(), self.ambience.group());
        }
        ClearResidue { val, rc, witness, ambience: self.ambience }
    }

    /// Raise a residue to the power of a residue class: values and witnesses
    /// are exponentiated, the class is multiplied in the ring.
    pub fn pow(&self, exponent: &ResidueClass) -> (r: ClearResidue)
        requires
            self.wf(),
            exponent.wf(),
            exponent.m() == self.ambience.ring(),
        ensures
            r.wf(),
            r.ambience == self.ambience,
            r.val.val() == pow_mod(self.val.val(), exponent.val(), self.ambience.group()),
            r.rc.val() == mul_mod(self.rc.val(), exponent.val(), self.ambience.ring()),
            r.witness.val() == pow_mod(self.witness.val(), exponent.val(), self.ambience.group()),
    {
        let val = self.val.pow(exponent);
        let witness = self.witness.pow(exponent);
        let rc = self.rc.mul(exponent);
        proof {
            lemma_class_pow(self.ambience, self.val.val(), self.rc.val(), exponent.val());
            lemma_invertible_pow(self.val.val(), exponent.val(), self.ambience.group());
            lemma_invertible_pow(self.witness.val(), exponent.val(), self.ambience.group());
        }
        ClearResidue { val, rc, witness, ambience: self.ambience }
    }
}

/// Multiplying members of two classes lands in the summed class.
pub proof fn lemma_class_mul(pk: PublicKey, v1: nat, c1: nat, v2: nat, c2: nat)
    requires
        pk.wf(),
        in_class(pk, v1, c1),
        in_class(pk, v2, c2),
    ensures
        in_class(pk, mul_mod(v1, v2, pk.group()), (c1 + c2) % pk.ring()),
{
    let y = pk.yval();
    let rv = pk.ring();
    let n = pk.group();
    let ni = n as int;
    let u1 = choose|u: nat| invertible(u, pk.group()) && #[trigger] decomp_eq(pk, v1, c1, u);
    let u2 = choose|u: nat| invertible(u, pk.group()) && #[trigger] decomp_eq(pk, v2, c2, u);
    let w = mul_mod(u1, u2, n);
    lemma_invertible_mul(u1, u2, n);
    lemma_pow_mod_bounds(y, c1, n);
    lemma_pow_mod_bounds(y, c2, n);
    lemma_pow_mod_bounds(u1, rv, n);
    lemma_pow_mod_bounds(u2, rv, n);
    // (v1 * v2) % n == (pow(y, c1 + c2) * pow(u1 * u2, rv)) % n
    calc! {
        (==)
        (mul_mod(v1, v2, n)) as int; (==) {
            vstd::arithmetic::div_mod::lemma_mul_mod_noop_general(v1 as int, v2 as int, ni);
            vstd::arithmetic::div_mod::lemma_mul_mod_noop_general(
                pow(y as int, c1) * pow(u1 as int, rv),
                pow(y as int, c2) * pow(u2 as int, rv),
                ni,
            );
            assert(v1 as int == (pow(y as int, c1) * pow(u1 as int, rv)) % ni) by {
                vstd::arithmetic::div_mod::lemma_mul_mod_noop_general(
                    pow(y as int, c1),
                    pow(u1 as int, rv),
                    ni,
                );
            }
            assert(v2 as int == (pow(y as int, c2) * pow(u2 as int, rv)) % ni) by {
                vstd::arithmetic::div_mod::lemma_mul_mod_noop_general(
                    pow(y as int, c2),
                    pow(u2 as int, rv),
                    ni,
                );
            }
        }
        ((pow(y as int, c1) * pow(u1 as int, rv)) * (pow(y as int, c2) * pow(u2 as int, rv))) % ni; (==) {
            assert((pow(y as int, c1) * pow(u1 as int, rv)) * (pow(y as int, c2) * pow(
                u2 as int,
                rv,
            )) == (pow(y as int, c1) * pow(y as int, c2)) * (pow(u1 as int, rv) * pow(
                u2 as int,
                rv,
            ))) by (nonlinear_arith);
        }
        ((pow(y as int, c1) * pow(y as int, c2)) * (pow(u1 as int, rv) * pow(u2 as int, rv))) % ni; (==) {
            vstd::arithmetic::power::lemma_pow_adds(y as int, c1, c2);
            vstd::arithmetic::power::lemma_pow_distributes(u1 as int, u2 as int, rv);
        }
        (pow(y as int, (c1 + c2) as nat) * pow((u1 * u2) as int, rv)) % ni; (==) {
            vstd::arithmetic::div_mod::lemma_mul_mod_noop_right(
                pow(y as int, (c1 + c2) as nat),
                pow((u1 * u2) as int, rv),
                ni,
            );
            vstd::arithmetic::power::lemma_pow_mod_noop((u1 * u2) as int, rv, ni);
            vstd::arithmetic::div_mod::lemma_mul_mod_noop_right(
                pow(y as int, (c1 + c2) as nat),
                pow(w as int, rv),
                ni,
            );
        }
        (pow(y as int, (c1 + c2) as nat) * pow(w as int, rv)) % ni;
    }
    lemma_exponent_reduce(pk, (c1 + c2) as nat, w);
}

/// Raising a member of a class to a power lands in the multiplied class.
pub proof fn lemma_class_pow(pk: PublicKey, v: nat, c: nat, e: nat)
    requires
        pk.wf(),
        in_class(pk, v, c),
    ensures
        in_class(pk, pow_mod(v, e, pk.group()), mul_mod(c, e, pk.ring())),
{
    let y = pk.yval();
    let rv = pk.ring();
    let n = pk.group();
    let ni = n as int;
    let u = choose|u: nat| invertible(u, pk.group()) && #[trigger] decomp_eq(pk, v, c, u);
    let w = pow_mod(u, e, n);
    lemma_invertible_pow(u, e, n);
    lemma_pow_mod_bounds(y, c, n);
    lemma_pow_mod_bounds(u, rv, n);
    lemma_pow_mod_bounds(u, e, n);
    // pow(v, e) % n == (pow(y, c*e) * pow(pow(u, e) % n, rv)) % n
    calc! {
        (==)
        (pow_mod(v, e, n)) as int; (==) {
            assert(v as int == ((pow(y as int, c) % ni) * (pow(u as int, rv) % ni)) % ni);
            vstd::arithmetic::power::lemma_pow_mod_noop(
                (pow(y as int, c) % ni) * (pow(u as int, rv) % ni),
                e,
                ni,
            );
        }
        pow((pow(y as int, c) % ni) * (pow(u as int, rv) % ni), e) % ni; (==) {
            vstd::arithmetic::power::lemma_pow_distributes(
                pow(y as int, c) % ni,
                pow(u as int, rv) % ni,
                e,
            );
        }
        (pow(pow(y as int, c) % ni, e) * pow(pow(u as int, rv) % ni, e)) % ni; (==) {
            vstd::arithmetic::div_mod::lemma_mul_mod_noop_general(
                pow(pow(y as int, c) % ni, e),
                pow(pow(u as int, rv) % ni, e),
                ni,
            );
            vstd::arithmetic::power::lemma_pow_mod_noop(pow(y as int, c), e, ni);
            vstd::arithmetic::power::lemma_pow_mod_noop(pow(u as int, rv), e, ni);
            vstd::arithmetic::div_mod::lemma_mul_mod_noop_general(
                pow(pow(y as int, c), e),
                pow(pow(u as int, rv), e),
                ni,
            );
        }
        (pow(pow(y as int, c), e) * pow(pow(u as int, rv), e)) % ni; (==) {
            vstd::arithmetic::power::lemma_pow_multiplies(y as int, c, e);
            vstd::arithmetic::power::lemma_pow_multiplies(u as int, rv, e);
            assert(rv * e == e * rv) by (nonlinear_arith);
            vstd::arithmetic::power::lemma_pow_multiplies(u as int, e, rv);
        }
        (pow(y as int, (c * e) as nat) * pow(pow(u as int, e), rv)) % ni; (==) {
            vstd::arithmetic::div_mod::lemma_mul_mod_noop_right(
                pow(y as int, (c * e) as nat),
                pow(pow(u as int, e), rv),
                ni,
            );
            vstd::arithmetic::power::lemma_pow_mod_noop(pow(u as int, e), rv, ni);
            vstd::arithmetic::div_mod::lemma_mul_mod_noop_right(
                pow(y as int, (c * e) as nat),
                pow(w as int, rv),
                ni,
            );
        }
        (pow(y as int, (c * e) as nat) * pow(w as int, rv)) % ni;
    }
    lemma_exponent_reduce(pk, (c * e) as nat, w);
    assert(mul_mod(c, e, rv) == (c * e) % rv);
}

/// Root extraction succeeds on `z` under this key pair: the canonical
/// candidate `z^(r^(-1) mod phi/r)` really is an `r`-th root of `z`.
pub open spec fn rth_root_ok(kp: KeyPair, z: nat) -> bool {
    pow_mod(
        pow_mod(z, inv_of(kp.pk.ring(), kp.quotient()), kp.pk.group()),
        kp.pk.ring(),
        kp.pk.group(),
    ) == z
}

/// Least discrete logarithms are unique.
pub proof fn lemma_least_log_unique(kp: KeyPair, v: nat, e1: nat, e2: nat)
    requires
        is_least_log(kp, v, e1),
        is_least_log(kp, v, e2),
    ensures
        e1 == e2,
{
    if e1 < e2 {
        assert(pow_mod(dlog_base(kp), e1, kp.pk.group()) != dlog_target(kp, v));
    }
    if e2 < e1 {
        assert(pow_mod(dlog_base(kp), e2, kp.pk.group()) != dlog_target(kp, v));
    }
}

/// Multiplying a class-`c` value by `y^(-c)` strips its class down to zero:
/// the result is an exact `r`-th residue with the same witness.
pub proof fn lemma_class_strip(pk: PublicKey, t: nat, c: nat)
    requires
        pk.wf(),
        in_class(pk, t, c),
    ensures
        in_class(
            pk,
            mul_mod(t, pow_mod(inv_of(pk.yval(), pk.group()), c, pk.group()), pk.group()),
            0,
        ),
{
    let y = pk.yval();
    let n = pk.group();
    let rv = pk.ring();
    let ni = n as int;
    let yi = inv_of(y, n);
    let u = choose|u: nat| invertible(u, pk.group()) && #[trigger] decomp_eq(pk, t, c, u);
    assert((y * yi) % n == 1) by {
        let w = choose|w: nat| w < n && #[trigger] ((y * w) % n) == 1;
        lemma_inv_unique(y, n, w);
    }
    crate::modmath::lemma_pow_powers_multiply_to_one(y, yi, c, n);
    lemma_pow_mod_bounds(y, c, n);
    lemma_pow_mod_bounds(yi, c, n);
    lemma_pow_mod_bounds(u, rv, n);
    let z = mul_mod(t, pow_mod(yi, c, n), n);
    calc! {
        (==)
        z as int; (==) {}
        ((((pow(y as int, c) % ni) * (pow(u as int, rv) % ni)) % ni) * (pow(yi as int, c) % ni))
            % ni; (==) {
            vstd::arithmetic::div_mod::lemma_mul_mod_noop_general(
                (pow(y as int, c) % ni) * (pow(u as int, rv) % ni),
                pow(yi as int, c),
                ni,
            );
        }
        (((pow(y as int, c) % ni) * (pow(u as int, rv) % ni)) * pow(yi as int, c)) % ni; (==) {
            vstd::arithmetic::div_mod::lemma_mul_mod_noop_left(
                pow(y as int, c),
                (pow(u as int, rv) % ni) * pow(yi as int, c),
                ni,
            );
            assert(((pow(y as int, c) % ni) * (pow(u as int, rv) % ni)) * pow(yi as int, c) == (pow(
                y as int,
                c,
            ) % ni) * ((pow(u as int, rv) % ni) * pow(yi as int, c))) by (nonlinear_arith);
            assert(pow(y as int, c) * ((pow(u as int, rv) % ni) * pow(yi as int, c)) == (pow(
                u as int,
                rv,
            ) % ni) * (pow(y as int, c) * pow(yi as int, c))) by (nonlinear_arith);
        }
        ((pow(u as int, rv) % ni) * (pow(y as int, c) * pow(yi as int, c))) % ni; (==) {
            vstd::arithmetic::div_mod::lemma_mul_mod_noop_right(
                pow(u as int, rv) % ni,
                pow(y as int, c) * pow(yi as int, c),
                ni,
            );
        }
        ((pow(u as int, rv) % ni) * 1) % ni; (==) {
            vstd::arithmetic::div_mod::lemma_small_mod(pow_mod(u, rv, n), n);
        }
        (pow_mod(u, rv, n)) as int;
    }
    crate::modmath::lemma_pow_mod_zero_exp(y, n);
    assert(mul_mod(pow_mod(y, 0, n), pow_mod(u, rv, n), n) == pow_mod(u, rv, n)) by {
        vstd::arithmetic::div_mod::lemma_small_mod(pow_mod(u, rv, n), n);
    }
    assert(decomp_eq(pk, z, 0, u));
    assert(in_class(pk, z, 0));
}

/// The discrete-log base used by decomposition: `y^(phi/r) (mod n)`.
pub open spec fn dlog_base(kp: KeyPair) -> nat {
    pow_mod(kp.pk.yval(), kp.quotient(), kp.pk.group())
}

/// The discrete-log target used to decompose `v`: `v^(phi/r) (mod n)`.
pub open spec fn dlog_target(kp: KeyPair, v: nat) -> nat {
    pow_mod(v, kp.quotient(), kp.pk.group())
}

/// `e` is the least exponent below `r` with `dlog_base^e == dlog_target`.
pub open spec fn is_least_log(kp: KeyPair, v: nat, e: nat) -> bool {
    &&& e < kp.pk.ring()
    &&& pow_mod(dlog_base(kp), e, kp.pk.group()) == dlog_target(kp, v)
    &&& no_log_below(dlog_base(kp), dlog_target(kp, v), e, kp.pk.group())
}

/// After removing `y^c` from `v`, root extraction succeeds: the candidate
/// `(v * y^(-c))^(r^(-1) mod phi/r)` really is an `r`-th root.
pub open spec fn decompose_root_ok(kp: KeyPair, v: nat, c: nat) -> bool {
    let n = kp.pk.group();
    rth_root_ok(kp, mul_mod(v, pow_mod(inv_of(kp.pk.yval(), n), c, n), n))
}

/// Recombining a recovered root with `y^c` reproduces the original value:
/// from `w^r == v * y^(-c) (mod n)` follows `v == y^c * w^r (mod n)`.
pub proof fn lemma_recompose(pk: PublicKey, v: nat, c: nat, w: nat)
    requires
        pk.wf(),
        v < pk.group(),
        pow_mod(w, pk.ring(), pk.group()) == mul_mod(
            v,
            pow_mod(inv_of(pk.yval(), pk.group()), c, pk.group()),
            pk.group(),
        ),
    ensures
        decomp_eq(pk, v, c, w),
{
    let y = pk.yval();
    let n = pk.group();
    let rv = pk.ring();
    let ni = n as int;
    let yi = inv_of(y, n);
    assert((y * yi) % n == 1) by {
        let u = choose|u: nat| u < n && #[trigger] ((y * u) % n) == 1;
        lemma_inv_unique(y, n, u);
    }
    crate::modmath::lemma_pow_powers_multiply_to_one(y, yi, c, n);
    lemma_pow_mod_bounds(y, c, n);
    lemma_pow_mod_bounds(yi, c, n);
    lemma_pow_mod_bounds(w, rv, n);
    calc! {
        (==)
        (mul_mod(pow_mod(y, c, n), pow_mod(w, rv, n), n)) as int; (==) {}
        ((pow(y as int, c) % ni) * (((v * (pow(yi as int, c) % ni)) % ni))) % ni; (==) {
            vstd::arithmetic::div_mod::lemma_mul_mod_noop_general(
                pow(y as int, c),
                (v * (pow(yi as int, c) % ni)) as int,
                ni,
            );
        }
        (pow(y as int, c) * ((v as int) * (pow(yi as int, c) % ni))) % ni; (==) {
            assert(pow(y as int, c) * ((v as int) * (pow(yi as int, c) % ni)) == (v as int) * (pow(
                y as int,
                c,
            ) * (pow(yi as int, c) % ni))) by (nonlinear_arith);
        }
        ((v as int) * (pow(y as int, c) * (pow(yi as int, c) % ni))) % ni; (==) {
            vstd::arithmetic::div_mod::lemma_mul_mod_noop_right(
                v as int,
                pow(y as int, c) * (pow(yi as int, c) % ni),
                ni,
            );
            assert((pow(y as int, c) * (pow(yi as int, c) % ni)) % ni == 1) by {
                vstd::arithmetic::div_mod::lemma_mul_mod_noop_right(
                    pow(y as int, c),
                    pow(yi as int, c),
                    ni,
                );
            }
            vstd::arithmetic::div_mod::lemma_mul_mod_noop_right(v as int, 1, ni);
        }
        ((v as int) * 1) % ni; (==) {
            vstd::arithmetic::div_mod::lemma_small_mod(v, n);
        }
        v as int;
    }
}

/// Nothing below `bound` is a discrete logarithm of `target` to `base`.
pub open spec fn no_log_below(base: nat, target: nat, bound: nat, m: nat) -> bool {
    forall|e: nat| e < bound ==> #[trigger] pow_mod(base, e, m) != target
}

/// Brute-force discrete logarithm: the least `e < order` with
/// `base^e == target (mod m)`, or `None` if no exponent in range works.
/// Tractable only because the order is deliberately small.
pub fn discrete_log(base: &Num, target: &Num, order: &Num, modulus: &Num) -> (r: Option<Num>)
    requires
        modulus.value() > 1,
        modulus.value() % 2 == 1,
        base.value() < modulus.value(),
        target.value() < modulus.value(),
    ensures
        r matches Some(e) ==> e.value() < order.value() && pow_mod(
            base.value(),
            e.value(),
            modulus.value(),
        ) == target.value() && no_log_below(base.value(), target.value(), e.value(), modulus.value()),
        r.is_none() ==> no_log_below(base.value(), target.value(), order.value(), modulus.value()),
{
    let mut exp = Num::zero();
    let mut cur = Num::one();
    proof {
        lemma_pow_mod_zero_exp(base.value(), modulus.value());
    }
    #[verifier::loop_isolation(false)]
    while exp.lt(order)
        invariant
            exp.value() <= order.value(),
            cur.value() == pow_mod(base.value(), exp.value(), modulus.value()),
            cur.value() < modulus.value(),
            no_log_below(base.value(), target.value(), exp.value(), modulus.value()),
        decreases order.value() - exp.value(),
    {
        if cur.eq_val(target) {
            return Some(exp);
        }
        proof {
            lemma_num_bound(*order);
            lemma_pow_mod_step(base.value(), exp.value(), modulus.value());
        }
        let one = Num::one();
        let next = match checked_add_num(&exp, &one) {
            Some(v) => v,
            None => {
                // unreachable: the exponent stays below the order
                proof {
                    assert(false);
                }
                Num::zero()
            },
        };
        cur = mod_mul(&cur, base, modulus);
        exp = next;
    }
    None
}

/// Find an `r`-th root of `z` modulo `n`, using the Bezout relation
/// `A*r + B*(phi/r) = 1` available under perfect consonance: raise `z` to the
/// inverse of `r` modulo `phi/r` and accept only if its `r`-th power
/// reproduces `z`. `None` doubles as a negative residuosity test.
pub fn rth_root(z: &Num, r: &Num, phi: &Num, n: &Num) -> (root: Option<Num>)
    requires
        n.value() > 1,
        n.value() % 2 == 1,
        z.value() < n.value(),
        r.value() > 0,
        phi.value() / r.value() > 1,
        invertible(r.value(), phi.value() / r.value()),
    ensures
        root matches Some(w) ==> w.value() == pow_mod(
            z.value(),
            inv_of(r.value(), phi.value() / r.value()),
            n.value(),
        ) && pow_mod(w.value(), r.value(), n.value()) == z.value(),
        root.is_none() ==> pow_mod(
            pow_mod(z.value(), inv_of(r.value(), phi.value() / r.value()), n.value()),
            r.value(),
            n.value(),
        ) != z.value(),
        z.value() == 1 ==> root.is_some(),
{
    let (quotient, _rem) = div_rem_num(phi, r);
    proof {
        vstd::arithmetic::div_mod::lemma_fundamental_div_mod_converse(
            phi.value() as int,
            r.value() as int,
            quotient.value() as int,
            _rem.value() as int,
        );
    }
    let (_q2, r_reduced) = div_rem_num(r, &quotient);
    proof {
        vstd::arithmetic::div_mod::lemma_fundamental_div_mod_converse(
            r.value() as int,
            quotient.value() as int,
            _q2.value() as int,
            r_reduced.value() as int,
        );
        crate::modmath::lemma_invertible_mod_reduce(r.value(), quotient.value());
    }
    let (root_exp, ok) = inv_mod_num(&r_reduced, &quotient);
    if !ok {
        // unreachable: the precondition guarantees that r is invertible
        proof {
            assert(false);
        }
        return None;
    }
    proof {
        lemma_inv_unique(r.value() % quotient.value(), quotient.value(), root_exp.value());
        assert((r.value() * root_exp.value()) % quotient.value() == 1) by {
            vstd::arithmetic::div_mod::lemma_mul_mod_noop_left(
                r.value() as int,
                root_exp.value() as int,
                quotient.value() as int,
            );
        }
        lemma_inv_unique(r.value(), quotient.value(), root_exp.value());
    }
    let candidate = mod_pow(z, &root_exp, n);
    let check = mod_pow(&candidate, r, n);
    proof {
        if z.value() == 1 {
            lemma_pow_mod_one_base(root_exp.value(), n.value());
            lemma_pow_mod_one_base(r.value(), n.value());
        }
    }
    if check.eq_val(z) {
        Some(candidate)
    } else {
        None
    }
}

} // verus!
