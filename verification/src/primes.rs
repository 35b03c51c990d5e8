//! The mathematical definition of primality that the oracle is held to, and
//! the few facts about divisors that the proofs of the crate share.

use vstd::prelude::*;

verus! {

/// `d` divides `n` exactly.
pub open spec fn divides(d: nat, n: nat) -> bool {
    d != 0 && n % d == 0
}

/// Primality by trial division: `n` is at least 2 and no number strictly
/// between 1 and `n` divides it.
pub open spec fn is_prime_number(n: nat) -> bool {
    n >= 2 && forall|d: nat| 2 <= d < n ==> !#[trigger] divides(d, n)
}

/// A divisor of a divisor is a divisor.
pub proof fn lemma_divides_transitive(a: nat, b: nat, c: nat)
    requires
        divides(a, b),
        divides(b, c),
    ensures
        divides(a, c),
{
    let q: int = (b / a) as int;
    let r: int = (c / b) as int;
    vstd::arithmetic::div_mod::lemma_fundamental_div_mod(b as int, a as int);
    vstd::arithmetic::div_mod::lemma_fundamental_div_mod(c as int, b as int);
    assert(c == a * (q * r)) by (nonlinear_arith)
        requires
            b == a * q,
            c == b * r,
    ;
    vstd::arithmetic::div_mod::lemma_mod_multiples_basic(q * r, a as int);
    assert((q * r) * a == a * (q * r)) by (nonlinear_arith);
}

/// Every exact divisor `d` of `n` has a cofactor `n / d` that divides `n` too.
pub proof fn lemma_cofactor_divides(d: nat, n: nat)
    requires
        divides(d, n),
        n > 0,
    ensures
        d * (n / d) == n,
        divides(n / d, n),
        1 <= n / d <= n,
{
    let e: int = (n / d) as int;
    vstd::arithmetic::div_mod::lemma_fundamental_div_mod(n as int, d as int);
    assert(d * e == n);
    assert(e >= 1 && e <= n) by (nonlinear_arith)
        requires
            d * e == n,
            n > 0,
            d >= 1,
            e >= 0,
    ;
    vstd::arithmetic::div_mod::lemma_mod_multiples_basic(d as int, e);
}

/// No number strictly between two consecutive multiples of `m` is a multiple
/// of `m`.
pub proof fn lemma_no_multiple_between(m: nat, base: nat, k: nat)
    requires
        divides(m, base),
        base < k < base + m,
    ensures
        !divides(m, k),
{
    let q: int = (base / m) as int;
    let t: int = k - base;
    vstd::arithmetic::div_mod::lemma_fundamental_div_mod(base as int, m as int);
    vstd::arithmetic::div_mod::lemma_fundamental_div_mod_converse(k as int, m as int, q, t);
}

/// An even number above 2 is not prime.
pub proof fn lemma_even_above_two_is_composite(n: nat)
    requires
        n > 2,
        n % 2 == 0,
    ensures
        !is_prime_number(n),
{
    assert(divides(2, n));
}

/// Euclid's lemma: a prime that divides a product divides one of its
/// factors.
pub proof fn lemma_prime_divides_product(p: nat, a: nat, b: nat)
    requires
        is_prime_number(p),
        divides(p, a * b),
    ensures
        divides(p, a) || divides(p, b),
    decreases a,
{
    if a == 0 {
    } else if a >= p {
        let reduced: nat = a % p;
        vstd::arithmetic::div_mod::lemma_mul_mod_noop_left(a as int, b as int, p as int);
        assert(reduced * b >= 0) by (nonlinear_arith)
            requires
                reduced >= 0,
                b >= 0,
        ;
        lemma_prime_divides_product(p, reduced, b);
        if divides(p, reduced) {
            vstd::arithmetic::div_mod::lemma_mod_twice(a as int, p as int);
        }
    } else if a == 1 {
        assert(a * b == b) by (nonlinear_arith)
            requires
                a == 1,
        ;
    } else {
        // 1 < a < p: the remainder of p by a is a smaller number whose
        // product with b is again a multiple of p.
        let q: nat = p / a;
        let r: nat = p % a;
        let k: nat = (a * b) / p;
        vstd::arithmetic::div_mod::lemma_fundamental_div_mod(p as int, a as int);
        vstd::arithmetic::div_mod::lemma_fundamental_div_mod((a * b) as int, p as int);
        assert(r != 0) by {
            if r == 0 {
                assert(divides(a, p));
            }
        }
        assert(r * b == (b - q * k) * p && b - q * k >= 0) by (nonlinear_arith)
            requires
                p == a * q + r,
                a * b == p * k,
                0 < r < a,
                p > 0,
                b >= 0,
                q >= 0,
                k >= 0,
        ;
        vstd::arithmetic::div_mod::lemma_mod_multiples_basic(b - q * k, p as int);
        lemma_prime_divides_product(p, r, b);
        if divides(p, r) {
            vstd::arithmetic::div_mod::lemma_small_mod(r, p);
        }
    }
}

} // verus!
