//! The Miller-Rabin test: `n` passes to base `a` when, with `n - 1` written
//! as `d * 2^r`, either `a^d` is 1 modulo `n` or one of `a^d`, `a^(2d)`, ...,
//! `a^(2^(r-1) d)` is `n - 1` modulo `n`. Every prime passes to every base
//! below it; a composite fails to most.

use vstd::prelude::*;
use vstd::arithmetic::power::pow;
use vstd::arithmetic::power2::{lemma2_to64, lemma_pow2_unfold, pow2};
use crate::fermat::lemma_fermat_little;
use crate::modular::{lemma_pow_mod_square, lemma_residue_product_fits, mod_pow, pow_mod};
use crate::primes::{divides, is_prime_number, lemma_prime_divides_product};

verus! {

/// `a^(d * 2^s)` modulo `n`: what `a^d` has become after `s` squarings.
pub open spec fn squared_power(a: nat, d: nat, s: nat, n: nat) -> nat {
    pow_mod(a, d * pow2(s), n)
}

/// One round of the test, to the base `a`.
pub open spec fn passes_round(n: nat, d: nat, r: nat, a: nat) -> bool {
    pow_mod(a, d, n) == 1 || exists|s: nat| s < r && #[trigger] squared_power(a, d, s, n) == n - 1
}

/// The test with a set of witnesses: each witness below `n` is a base to
/// which `n` passes. A witness that is not below `n` does not apply.
pub open spec fn passes_all(n: nat, d: nat, r: nat, witnesses: Seq<u64>) -> bool {
    forall|i: int|
        0 <= i < witnesses.len() && (#[trigger] witnesses[i]) < n ==> passes_round(
            n,
            d,
            r,
            witnesses[i] as nat,
        )
}

/// One more squaring takes `a^(d * 2^s)` to `a^(d * 2^(s + 1))`.
pub proof fn lemma_squared_power_step(a: nat, d: nat, s: nat, n: nat)
    requires
        n > 0,
    ensures
        (squared_power(a, d, s, n) * squared_power(a, d, s, n)) % n == squared_power(
            a,
            d,
            s + 1,
            n,
        ),
        squared_power(a, d, 0, n) == pow_mod(a, d, n),
{
    lemma_pow_mod_square(a, d * pow2(s), n);
    lemma_pow2_unfold(s + 1);
    assert(2 * (d * pow2(s)) == d * (2 * pow2(s))) by (nonlinear_arith);
    lemma2_to64();
    assert(d * pow2(0) == d) by (nonlinear_arith)
        requires
            pow2(0) == 1,
    ;
}

/// Runs one round of the test to the base `a`.
pub fn passes_witness(n: u64, d: u64, r: u32, a: u64) -> (passed: bool)
    requires
        n >= 1,
        r >= 1,
    ensures
        passed == passes_round(n as nat, d as nat, r as nat, a as nat),
{
    let n_128: u128 = n as u128;
    let nm1_128: u128 = n_128 - 1;
    let mut x: u128 = mod_pow(a as u128, d, n_128);
    proof {
        lemma_squared_power_step(a as nat, d as nat, 0, n as nat);
    }
    if x == 1 || x == nm1_128 {
        assert(squared_power(a as nat, d as nat, 0, n as nat) == x);
        return true;
    }
    let mut s: u32 = 1;
    while s < r
        invariant
            1 <= s <= r,
            n >= 1,
            n_128 == n,
            nm1_128 == n - 1,
            x < n_128,
            x == squared_power(a as nat, d as nat, (s - 1) as nat, n as nat),
            pow_mod(a as nat, d as nat, n as nat) != 1,
            forall|t: nat| t < s ==> #[trigger] squared_power(a as nat, d as nat, t, n as nat) != n
                - 1,
        decreases r - s,
    {
        proof {
            lemma_residue_product_fits(x as nat, x as nat, n as nat);
            lemma_squared_power_step(a as nat, d as nat, (s - 1) as nat, n as nat);
        }
        x = (x * x) % n_128;
        if x == nm1_128 {
            assert(squared_power(a as nat, d as nat, s as nat, n as nat) == n - 1);
            return true;
        }
        s = s + 1;
    }
    false
}

/// The Miller-Rabin test of `n` with the given witnesses, for `d` and `r`
/// with `n - 1 == d * 2^r`.
pub fn miller_rabin_test(n: u64, d: u64, r: u32, witnesses: &[u64]) -> (passed: bool)
    requires
        n >= 1,
        r >= 1,
    ensures
        passed == passes_all(n as nat, d as nat, r as nat, witnesses@),
{
    let mut i: usize = 0;
    while i < witnesses.len()
        invariant
            n >= 1,
            r >= 1,
            i <= witnesses@.len(),
            forall|j: int|
                0 <= j < i && (#[trigger] witnesses@[j]) < n ==> passes_round(
                    n as nat,
                    d as nat,
                    r as nat,
                    witnesses@[j] as nat,
                ),
        decreases witnesses@.len() - i,
    {
        let a: u64 = witnesses[i];
        if a < n && !passes_witness(n, d, r, a) {
            assert(witnesses@[i as int] < n);
            return false;
        }
        i = i + 1;
    }
    true
}

/// The odd part of `m`: what is left of it when every factor 2 is taken out.
pub open spec fn odd_part(m: nat) -> nat
    decreases m,
{
    if m == 0 || m % 2 == 1 {
        m
    } else {
        odd_part(m / 2)
    }
}

/// How many factors 2 there are in `m`.
pub open spec fn two_exponent(m: nat) -> nat
    decreases m,
{
    if m == 0 || m % 2 == 1 {
        0
    } else {
        1 + two_exponent(m / 2)
    }
}

/// A positive `m` is its odd part times 2 to its exponent of two, and the odd
/// part is odd.
pub proof fn lemma_odd_part_decomposition(m: nat)
    requires
        m > 0,
    ensures
        m == odd_part(m) * pow2(two_exponent(m)),
        odd_part(m) % 2 == 1,
    decreases m,
{
    lemma2_to64();
    if m % 2 == 1 {
        assert(m * 1 == m) by (nonlinear_arith);
    } else {
        let h: nat = m / 2;
        lemma_odd_part_decomposition(h);
        lemma_pow2_unfold(two_exponent(m));
        assert(odd_part(h) * (2 * pow2(two_exponent(h))) == 2 * (odd_part(h) * pow2(
            two_exponent(h),
        ))) by (nonlinear_arith);
    }
}

/// Modulo a prime, only 1 and -1 have the square 1. So if `a^(d * 2^s)` is 1
/// modulo a prime `p`, then on the way there by squaring, either `a^d` was 1
/// already or the power that came just before the first 1 was `p - 1`.
pub proof fn lemma_square_roots_of_one(p: nat, d: nat, s: nat, a: nat)
    requires
        is_prime_number(p),
        squared_power(a, d, s, p) == 1,
    ensures
        passes_round(p, d, s, a),
    decreases s,
{
    lemma_squared_power_step(a, d, 0, p);
    if s > 0 {
        let t: nat = (s - 1) as nat;
        let x: nat = squared_power(a, d, t, p);
        lemma_squared_power_step(a, d, t, p);
        vstd::arithmetic::div_mod::lemma_mod_bound(pow(a as int, d * pow2(t)), p as int);
        vstd::arithmetic::div_mod::lemma_small_mod(1, p);
        vstd::arithmetic::div_mod::lemma_mod_equivalence((x * x) as int, 1, p as int);
        assert((x * x) % p == 1);
        assert(x != 0) by {
            if x == 0 {
                assert(x * x == 0) by (nonlinear_arith)
                    requires
                        x == 0,
                ;
                vstd::arithmetic::div_mod::lemma_small_mod(0, p);
            }
        }
        assert(x * x - 1 == ((x - 1) as nat) * (x + 1)) by (nonlinear_arith)
            requires
                x >= 1,
        ;
        lemma_prime_divides_product(p, (x - 1) as nat, x + 1);
        if divides(p, (x - 1) as nat) {
            vstd::arithmetic::div_mod::lemma_small_mod((x - 1) as nat, p);
            lemma_square_roots_of_one(p, d, t, a);
        } else {
            if x + 1 < p {
                vstd::arithmetic::div_mod::lemma_small_mod(x + 1, p);
            }
            assert(squared_power(a, d, t, p) == p - 1);
        }
    }
}

/// A prime passes the round to every base from 1 to `p - 1`.
pub proof fn lemma_prime_passes_round(p: nat, a: nat)
    requires
        is_prime_number(p),
        1 <= a < p,
    ensures
        passes_round(p, odd_part((p - 1) as nat), two_exponent((p - 1) as nat), a),
{
    lemma_odd_part_decomposition((p - 1) as nat);
    lemma_fermat_little(p, a);
    lemma_square_roots_of_one(p, odd_part((p - 1) as nat), two_exponent((p - 1) as nat), a);
}

/// A prime passes the test with any witnesses, as long as none of them is 0.
pub proof fn lemma_prime_passes_all(p: nat, witnesses: Seq<u64>)
    requires
        is_prime_number(p),
        forall|i: int| 0 <= i < witnesses.len() ==> (#[trigger] witnesses[i]) >= 1,
    ensures
        passes_all(p, odd_part((p - 1) as nat), two_exponent((p - 1) as nat), witnesses),
{
    assert forall|i: int| 0 <= i < witnesses.len() && (#[trigger] witnesses[i]) < p implies passes_round(
        p,
        odd_part((p - 1) as nat),
        two_exponent((p - 1) as nat),
        witnesses[i] as nat,
    ) by {
        lemma_prime_passes_round(p, witnesses[i] as nat);
    }
}

} // verus!
