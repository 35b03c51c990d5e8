//! Modular exponentiation by repeated squaring, in 128-bit arithmetic so that
//! no product of two residues of a 64-bit modulus overflows.

use vstd::prelude::*;
use vstd::arithmetic::div_mod::{lemma_mod_bound, lemma_mul_mod_noop_general, lemma_small_mod};
use vstd::arithmetic::power::{lemma_pow0, lemma_pow1, lemma_pow_adds, lemma_pow_mod_noop,
    lemma_pow_multiplies, lemma_square_is_pow2, pow};

verus! {

/// The largest modulus whose residues can be multiplied in 128 bits: 2^64.
pub const MAX_MODULUS: u128 = 0x1_0000_0000_0000_0000;

/// `base` to the power `exp`, reduced modulo `m`.
pub open spec fn pow_mod(base: nat, exp: nat, m: nat) -> nat {
    (pow(base as int, exp) % (m as int)) as nat
}

/// The product of two residues of a modulus of at most 2^64 fits in 128 bits.
pub proof fn lemma_residue_product_fits(x: nat, y: nat, m: nat)
    requires
        x < m,
        y < m,
        m <= MAX_MODULUS,
    ensures
        x * y <= u128::MAX,
{
    assert(x * y <= 0xffff_ffff_ffff_ffff * 0xffff_ffff_ffff_ffff) by (nonlinear_arith)
        requires
            x <= 0xffff_ffff_ffff_ffff,
            y <= 0xffff_ffff_ffff_ffff,
    ;
}

/// Squaring the base halves the exponent: `b^e` is `(b*b)^(e/2)`, times `b`
/// once more when `e` is odd.
pub proof fn lemma_pow_halve(b: int, e: nat)
    ensures
        pow(b, e) == if e % 2 == 1 {
            b * pow(b * b, e / 2)
        } else {
            pow(b * b, e / 2)
        },
{
    let h: nat = e / 2;
    lemma_square_is_pow2(b);
    lemma_pow_multiplies(b, 2, h);
    assert(pow(b * b, h) == pow(b, 2 * h));
    if e % 2 == 1 {
        assert(e == 1 + 2 * h);
        lemma_pow_adds(b, 1, 2 * h);
        lemma_pow1(b);
    } else {
        assert(e == 2 * h);
    }
}

/// Reducing the base, or the power itself, before reducing the product
/// changes nothing modulo `m`.
pub proof fn lemma_mul_pow_mod(r: int, b: int, e: nat, m: int)
    requires
        m > 0,
    ensures
        (r * pow(b % m, e)) % m == (r * pow(b, e)) % m,
        ((r % m) * pow(b, e)) % m == (r * pow(b, e)) % m,
{
    lemma_mul_mod_noop_general(r, pow(b % m, e), m);
    lemma_mul_mod_noop_general(r, pow(b, e), m);
    lemma_pow_mod_noop(b, e, m);
}

/// Squaring a power modulo `m` doubles the exponent.
pub proof fn lemma_pow_mod_square(a: nat, e: nat, m: nat)
    requires
        m > 0,
    ensures
        (pow_mod(a, e, m) * pow_mod(a, e, m)) % m == pow_mod(a, 2 * e, m),
{
    let p: int = pow(a as int, e);
    lemma_mul_mod_noop_general(p, p, m as int);
    lemma_pow_adds(a as int, e, e);
    lemma_mod_bound(p, m as int);
    lemma_mod_bound(pow(a as int, 2 * e), m as int);
}

/// Computes `base` to the power `exp` modulo `m` by repeated squaring.
pub fn mod_pow(base: u128, exp: u64, m: u128) -> (result: u128)
    requires
        0 < m <= MAX_MODULUS,
    ensures
        result == pow_mod(base as nat, exp as nat, m as nat),
        result < m,
{
    if m == 1 {
        return 0;
    }
    let mut result: u128 = 1;
    let mut b: u128 = base % m;
    let mut e: u64 = exp;
    proof {
        lemma_small_mod(1, m as nat);
        lemma_mul_pow_mod(1, base as int, exp as nat, m as int);
    }
    while e > 0
        invariant
            1 < m <= MAX_MODULUS,
            result < m,
            b < m,
            (result * pow(b as int, e as nat)) % (m as int) == pow(base as int, exp as nat) % (
            m as int),
        decreases e,
    {
        let ghost r0: int = result as int;
        let ghost b0: int = b as int;
        let ghost e0: nat = e as nat;
        proof {
            lemma_residue_product_fits(result as nat, b as nat, m as nat);
            lemma_residue_product_fits(b as nat, b as nat, m as nat);
            lemma_pow_halve(b0, e0);
            assert(e & 1 == e % 2) by (bit_vector);
            assert(e >> 1 == e / 2) by (bit_vector);
        }
        if e & 1 == 1 {
            result = (result * b) % m;
        }
        e = e >> 1;
        b = (b * b) % m;
        proof {
            let h: nat = e0 / 2;
            let sq: int = pow(b0 * b0, h);
            lemma_mul_pow_mod(result as int, b0 * b0, h, m as int);
            if e0 % 2 == 1 {
                lemma_mul_pow_mod(r0 * b0, b0 * b0, h, m as int);
                assert((r0 * b0) * sq == r0 * (b0 * sq)) by (nonlinear_arith);
            }
        }
    }
    proof {
        lemma_pow0(b as int);
        lemma_small_mod(result as nat, m as nat);
        lemma_mod_bound(pow(base as int, exp as nat), m as int);
    }
    result
}

} // verus!
