//! The predicate of the search: `n` is productive when `n + 1` is prime and
//! so is `a * b + 1` for every cut of the decimal digits of `n` into a left
//! part `a` and a right part `b`.

use vstd::prelude::*;
use crate::digits::{count_digits, digit_count, lemma_pow10_increases, lemma_powers_of_10, pow10,
    POWERS_OF_10};
use crate::oracle::{is_prime, lemma_primes_pass, prime_verdict};
use crate::primes::{is_prime_number, lemma_even_above_two_is_composite};
use crate::sieve::{Sieve, SIEVE_LIMIT};

verus! {

/// What has to be prime for the cut of `n` that leaves `k` digits on the
/// right: the left part times the right part, plus one.
pub open spec fn split_candidate(n: nat, k: nat) -> nat {
    (n / pow10(k)) * (n % pow10(k)) + 1
}

/// `n` is productive: `n` is not 0, `n + 1` is prime and, for each of the
/// cuts of `n`, the candidate of the cut is prime. A number of one digit has
/// no cut.
pub open spec fn is_productive_number(n: nat) -> bool {
    &&& n >= 1
    &&& is_prime_number(n + 1)
    &&& forall|k: nat|
        1 <= k < digit_count(n) ==> is_prime_number(#[trigger] split_candidate(n, k))
}

/// `n` is productive as far as the oracle can tell: the definition, with the
/// oracle's verdict in the place of primality.
pub open spec fn productive_verdict(n: nat) -> bool {
    &&& n >= 1
    &&& prime_verdict(n + 1)
    &&& forall|k: nat| 1 <= k < digit_count(n) ==> prime_verdict(#[trigger] split_candidate(n, k))
}

/// The oracle takes no even number above 2 for a prime.
pub proof fn lemma_even_above_two_rejected(m: nat)
    requires
        m > 2,
        m % 2 == 0,
    ensures
        !prime_verdict(m),
{
    if m <= SIEVE_LIMIT {
        lemma_even_above_two_is_composite(m);
    }
}

/// An odd number above 1 is not productive: its successor is even and
/// above 2. (1 is productive, since 2 is prime.)
pub proof fn lemma_odd_above_one_not_productive(n: nat)
    requires
        n > 1,
        n % 2 == 1,
    ensures
        !productive_verdict(n),
        !is_productive_number(n),
{
    lemma_even_above_two_rejected(n + 1);
    lemma_even_above_two_is_composite(n + 1);
}

/// The candidate of a cut never exceeds the number that was cut, so for a
/// number of 64 bits neither the product nor the sum overflows.
pub proof fn lemma_split_candidate_bounded(n: nat, k: nat)
    requires
        n >= 1,
    ensures
        split_candidate(n, k) <= n,
{
    let p: nat = pow10(k);
    lemma_pow10_increases(0, k);
    let a: nat = n / p;
    let b: nat = n % p;
    vstd::arithmetic::div_mod::lemma_fundamental_div_mod(n as int, p as int);
    vstd::arithmetic::div_mod::lemma_mod_bound(n as int, p as int);
    assert(a * b + 1 <= n) by (nonlinear_arith)
        requires
            n == p * a + b,
            0 <= b < p,
            n >= 1,
    ;
}

/// No productive number is missed: what is productive, the oracle takes for
/// productive.
pub proof fn lemma_productive_never_missed(n: nat)
    requires
        is_productive_number(n),
    ensures
        productive_verdict(n),
{
    lemma_primes_pass(n + 1);
    assert forall|k: nat| 1 <= k < digit_count(n) implies prime_verdict(
        #[trigger] split_candidate(n, k),
    ) by {
        lemma_primes_pass(split_candidate(n, k));
    }
}

/// Below `SIEVE_LIMIT` the oracle is exact, and so is the verdict on `n`:
/// none of the numbers that it asks the oracle about is above `n + 1`.
pub proof fn lemma_small_verdict_exact(n: nat)
    requires
        n < SIEVE_LIMIT,
    ensures
        productive_verdict(n) == is_productive_number(n),
{
    if n >= 1 {
        assert forall|k: nat| 1 <= k < digit_count(n) implies prime_verdict(
            #[trigger] split_candidate(n, k),
        ) == is_prime_number(split_candidate(n, k)) by {
            lemma_split_candidate_bounded(n, k);
        }
    }
}

/// Decides whether `n` is productive.
pub fn is_productive(sieve: &Sieve, n: u64) -> (productive: bool)
    ensures
        productive == productive_verdict(n as nat),
        is_productive_number(n as nat) ==> productive,
        n < SIEVE_LIMIT ==> productive == is_productive_number(n as nat),
{
    proof {
        if is_productive_number(n as nat) {
            lemma_productive_never_missed(n as nat);
        }
        if n < SIEVE_LIMIT {
            lemma_small_verdict_exact(n as nat);
        }
    }
    if n == 0 {
        return false;
    }
    if n > 1 && !n.is_multiple_of(2) {
        proof {
            lemma_odd_above_one_not_productive(n as nat);
        }
        return false;
    }
    if !is_prime(sieve, n + 1) {
        return false;
    }
    let num_digits: u32 = count_digits(n);
    if num_digits == 1 {
        return true;
    }
    let mut k: u32 = 1;
    while k < num_digits
        invariant
            n >= 1,
            1 <= k <= num_digits <= 20,
            num_digits == digit_count(n as nat),
            forall|j: nat| 1 <= j < k ==> prime_verdict(#[trigger] split_candidate(n as nat, j)),
        decreases num_digits - k,
    {
        proof {
            lemma_powers_of_10();
            lemma_split_candidate_bounded(n as nat, k as nat);
        }
        let divisor: u64 = POWERS_OF_10[k as usize];
        let a: u64 = n / divisor;
        let b: u64 = n % divisor;
        let product: u64 = match a.checked_mul(b) {
            Some(p) => p,
            None => { return false; },
        };
        let candidate: u64 = match product.checked_add(1) {
            Some(c) => c,
            None => { return false; },
        };
        assert(candidate == split_candidate(n as nat, k as nat));
        if !is_prime(sieve, candidate) {
            return false;
        }
        k = k + 1;
    }
    true
}

} // verus!
