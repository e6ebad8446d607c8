//! The mathematical model shared by the whole library: modular products and
//! powers over `nat`, invertibility modulo a composite, and the lemmas that
//! connect them.
use vstd::calc;
use vstd::prelude::*;

use vstd::arithmetic::div_mod::{
    lemma_mod_bound, lemma_mul_mod_noop_general, lemma_mul_mod_noop_left, lemma_mul_mod_noop_right,
    lemma_small_mod,
};
use vstd::arithmetic::power::{lemma1_pow, lemma_pow_distributes, lemma_pow_mod_noop, pow};

verus! {

/// `(a * b) % m`: the product in the ring of integers modulo `m`.
pub open spec fn mul_mod(a: nat, b: nat, m: nat) -> nat
    recommends
        m > 0,
{
    (a * b) % m
}

/// `(b ^ e) % m`: the power in the ring of integers modulo `m`.
pub open spec fn pow_mod(b: nat, e: nat, m: nat) -> nat
    recommends
        m > 0,
{
    (pow(b as int, e) % (m as int)) as nat
}

/// `a` has a multiplicative inverse modulo `m`, i.e. `gcd(a, m) == 1`.
pub open spec fn invertible(a: nat, m: nat) -> bool {
    exists|w: nat| w < m && #[trigger] ((a * w) % m) == 1
}

/// The multiplicative inverse of `a` modulo `m` (meaningful when `invertible(a, m)`).
pub open spec fn inv_of(a: nat, m: nat) -> nat {
    choose|w: nat| w < m && #[trigger] ((a * w) % m) == 1
}

/// The inverse modulo `m` is unique: any witness equals `inv_of(a, m)`.
pub proof fn lemma_inv_unique(a: nat, m: nat, w: nat)
    requires
        m > 1,
        w < m,
        (a * w) % m == 1,
    ensures
        invertible(a, m),
        inv_of(a, m) < m,
        (a * inv_of(a, m)) % m == 1,
        inv_of(a, m) == w,
{
    assert(invertible(a, m));
    let u = inv_of(a, m);
    assert(u < m && (a * u) % m == 1);
    assert(w * a * u == w * (a * u)) by (nonlinear_arith);
    assert(w * a * u == (a * w) * u) by (nonlinear_arith);
    calc! {
        (==)
        w as int; (==) {
            lemma_small_mod(w, m);
        }
        (w as int) % (m as int); (==) {
            assert((w * 1) == w as int);
        }
        ((w as int) * 1) % (m as int); (==) {
            lemma_mul_mod_noop_right(w as int, (a * u) as int, m as int);
        }
        ((w * (a * u)) as int) % (m as int); (==) {}
        (((a * w) * u) as int) % (m as int); (==) {
            lemma_mul_mod_noop_left((a * w) as int, u as int, m as int);
        }
        ((((a * w) % m) * u) as int) % (m as int); (==) {
            assert(((a * w) % m) * u == u as int);
        }
        (u as int) % (m as int); (==) {
            lemma_small_mod(u, m);
        }
        u as int;
    }
}

/// 1 is invertible modulo any `m > 1`.
pub proof fn lemma_one_invertible(m: nat)
    requires
        m > 1,
    ensures
        invertible(1, m),
{
    lemma_small_mod(1, m);
    assert((1 * (1 as nat)) % m == 1);
}

/// The product of two invertible elements is invertible.
pub proof fn lemma_invertible_mul(a: nat, b: nat, m: nat)
    requires
        m > 1,
        invertible(a, m),
        invertible(b, m),
    ensures
        invertible(mul_mod(a, b, m), m),
{
    let u = choose|w: nat| w < m && #[trigger] ((a * w) % m) == 1;
    let v = choose|w: nat| w < m && #[trigger] ((b * w) % m) == 1;
    let c = mul_mod(a, b, m);
    let d = mul_mod(u, v, m);
    lemma_mod_bound((u * v) as int, m as int);
    assert((a * b) * (u * v) == (a * u) * (b * v)) by (nonlinear_arith);
    calc! {
        (==)
        (c * d) % m; (==) {
            lemma_mul_mod_noop_general((a * b) as int, (u * v) as int, m as int);
        }
        ((a * b) * (u * v)) % m; (==) {}
        ((a * u) * (b * v)) % m; (==) {
            lemma_mul_mod_noop_general((a * u) as int, (b * v) as int, m as int);
        }
        (((a * u) % m) * ((b * v) % m)) % m; (==) {}
        (1 as nat * 1 as nat) % m; (==) {
            lemma_small_mod(1, m);
        }
        1;
    }
    assert(d < m && (c * d) % m == 1);
}

/// A power of an invertible element is invertible; the power of the inverse
/// inverts it.
pub proof fn lemma_invertible_pow(a: nat, e: nat, m: nat)
    requires
        m > 1,
        invertible(a, m),
    ensures
        invertible(pow_mod(a, e, m), m),
        (pow_mod(a, e, m) * pow_mod(inv_of(a, m), e, m)) % m == 1,
{
    let u = inv_of(a, m);
    assert(u < m && (a * u) % m == 1) by {
        let w = choose|w: nat| w < m && #[trigger] ((a * w) % m) == 1;
        lemma_inv_unique(a, m, w);
    }
    lemma_pow_powers_multiply_to_one(a, u, e, m);
    lemma_mod_bound(pow(u as int, e), m as int);
    lemma_mul_mod_noop_general(pow(a as int, e), pow(u as int, e), m as int);
    assert((pow_mod(a, e, m) * pow_mod(u, e, m)) % m == 1);
}

/// Basic facts about `pow_mod`: nonnegativity of the underlying power and the
/// range of the result.
pub proof fn lemma_pow_mod_bounds(b: nat, e: nat, m: nat)
    requires
        m > 0,
    ensures
        pow(b as int, e) >= 0,
        pow_mod(b, e, m) < m,
        pow_mod(b, e, m) as int == pow(b as int, e) % (m as int),
{
    if e == 0 {
        vstd::arithmetic::power::lemma_pow0(b as int);
    } else if b == 0 {
        vstd::arithmetic::power::lemma0_pow(e);
    } else {
        vstd::arithmetic::power::lemma_pow_positive(b as int, e);
    }
    lemma_mod_bound(pow(b as int, e), m as int);
}

/// The base case of `pow_mod`: any value to the zeroth power is 1.
pub proof fn lemma_pow_mod_zero_exp(b: nat, m: nat)
    requires
        m > 1,
    ensures
        pow_mod(b, 0, m) == 1,
{
    vstd::arithmetic::power::lemma_pow0(b as int);
    lemma_small_mod(1, m);
}

/// 1 raised to any power is 1 modulo any `m > 1`.
pub proof fn lemma_pow_mod_one_base(e: nat, m: nat)
    requires
        m > 1,
    ensures
        pow_mod(1, e, m) == 1,
{
    lemma1_pow(e);
    lemma_small_mod(1, m);
}

/// One multiplication step of iterated exponentiation:
/// `(b^e % m) * b % m == b^(e+1) % m`.
pub proof fn lemma_pow_mod_step(b: nat, e: nat, m: nat)
    requires
        m > 1,
        b < m,
    ensures
        mul_mod(pow_mod(b, e, m), b, m) == pow_mod(b, (e + 1) as nat, m),
{
    lemma_pow_mod_bounds(b, e, m);
    vstd::arithmetic::power::lemma_pow1(b as int);
    vstd::arithmetic::power::lemma_pow_adds(b as int, e, 1);
    calc! {
        (==)
        (mul_mod(pow_mod(b, e, m), b, m)) as int; (==) {}
        ((pow(b as int, e) % (m as int)) * (b as int)) % (m as int); (==) {
            lemma_mul_mod_noop_left(pow(b as int, e), b as int, m as int);
        }
        (pow(b as int, e) * (b as int)) % (m as int); (==) {}
        (pow(b as int, e) * pow(b as int, 1)) % (m as int); (==) {}
        pow(b as int, (e + 1) as nat) % (m as int);
    }
}

/// Reducing the element modulo `m` changes neither invertibility nor the
/// inverse itself.
pub proof fn lemma_invertible_mod_reduce(a: nat, m: nat)
    requires
        m > 1,
    ensures
        invertible(a % m, m) == invertible(a, m),
        invertible(a, m) ==> inv_of(a % m, m) == inv_of(a, m),
{
    assert forall|w: nat| #[trigger] ((a * w) % m) == (((a % m) * w) % m) by {
        lemma_mul_mod_noop_left(a as int, w as int, m as int);
    }
    if invertible(a, m) {
        let w = choose|w: nat| w < m && #[trigger] ((a * w) % m) == 1;
        assert(((a % m) * w) % m == 1);
        assert(invertible(a % m, m));
        let u = inv_of(a % m, m);
        lemma_inv_unique(a % m, m, u);
        assert((a * u) % m == 1);
        lemma_inv_unique(a, m, u);
    }
    if invertible(a % m, m) {
        let w = choose|w: nat| w < m && #[trigger] (((a % m) * w) % m) == 1;
        assert((a * w) % m == 1);
        assert(invertible(a, m));
    }
}

/// If `(a * b) % m == 1` then `(a^e * b^e) % m == 1`.
pub proof fn lemma_pow_powers_multiply_to_one(a: nat, b: nat, e: nat, m: nat)
    requires
        m > 1,
        (a * b) % m == 1,
    ensures
        (pow(a as int, e) * pow(b as int, e)) % (m as int) == 1,
{
    lemma_pow_distributes(a as int, b as int, e);
    lemma_pow_mod_noop((a * b) as int, e, m as int);
    lemma1_pow(e);
    lemma_small_mod(1, m);
    calc! {
        (==)
        (pow(a as int, e) * pow(b as int, e)) % (m as int); (==) {}
        pow((a * b) as int, e) % (m as int); (==) {}
        pow(((a * b) % m) as int, e) % (m as int); (==) {}
        pow(1, e) % (m as int); (==) {}
        1int % (m as int); (==) {}
        1;
    }
}

} // verus!
