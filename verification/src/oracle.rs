//! The primality oracle: the sieve for the numbers that it covers; above,
//! division by the primes up to 37 and then the Miller-Rabin test with a
//! set of witnesses chosen by the magnitude of the number.
//!
//! Up to `SIEVE_LIMIT` the oracle is exact. Above, it never takes a prime
//! for a composite, which is proved here; that it takes no composite of 64
//! bits for a prime is what the witness sets were published for, and is not
//! proved here.

use vstd::prelude::*;
use vstd::arithmetic::power2::{lemma2_to64, lemma2_to64_rest, lemma_pow2_strictly_increases,
    lemma_pow2_unfold, pow2};
use crate::miller_rabin::{lemma_prime_passes_all, miller_rabin_test, odd_part, passes_all,
    two_exponent};
use crate::primes::{divides, is_prime_number};
use crate::sieve::{Sieve, SIEVE_LIMIT};

verus! {

/// `n` is a multiple of one of the twelve primes up to 37.
pub open spec fn has_small_factor(n: nat) -> bool {
    ||| n % 2 == 0
    ||| n % 3 == 0
    ||| n % 5 == 0
    ||| n % 7 == 0
    ||| n % 11 == 0
    ||| n % 13 == 0
    ||| n % 17 == 0
    ||| n % 19 == 0
    ||| n % 23 == 0
    ||| n % 29 == 0
    ||| n % 31 == 0
    ||| n % 37 == 0
}

/// The witnesses for a number of the magnitude of `n`. Each set is known to
/// let no composite below its bound pass; the last one serves every number
/// of 64 bits.
pub open spec fn witness_set(n: nat) -> Seq<u64> {
    if n < 2_047 {
        seq![2u64]
    } else if n < 1_373_653 {
        seq![2u64, 3]
    } else if n < 9_080_191 {
        seq![31u64, 73]
    } else if n < 25_326_001 {
        seq![2u64, 3, 5]
    } else if n < 3_215_031_751 {
        seq![2u64, 3, 5, 7]
    } else if n < 4_759_123_141 {
        seq![2u64, 7, 61]
    } else if n < 1_122_004_669_633 {
        seq![2u64, 13, 23, 1662803]
    } else if n < 2_152_302_898_747 {
        seq![2u64, 3, 5, 7, 11]
    } else if n < 3_474_749_660_383 {
        seq![2u64, 3, 5, 7, 11, 13]
    } else if n < 341_550_071_728_321 {
        seq![2u64, 3, 5, 7, 11, 13, 17]
    } else {
        seq![2u64, 3, 5, 7, 11, 13, 17, 19, 23, 29, 31, 37]
    }
}

/// What the oracle answers for `n`. Up to `SIEVE_LIMIT` it is primality
/// itself. Above, it is the outcome of the two filters: no prime up to 37
/// divides `n`, and `n` passes the Miller-Rabin test with the witnesses for
/// its magnitude.
pub open spec fn prime_verdict(n: nat) -> bool {
    if n <= SIEVE_LIMIT {
        is_prime_number(n)
    } else {
        !has_small_factor(n) && passes_all(
            n,
            odd_part((n - 1) as nat),
            two_exponent((n - 1) as nat),
            witness_set(n),
        )
    }
}

/// The oracle takes every prime for a prime. (That the numbers it takes for
/// primes above `SIEVE_LIMIT` are primes rests on the known bounds of the
/// witness sets, which are not proved here.)
pub proof fn lemma_primes_pass(n: nat)
    requires
        is_prime_number(n),
    ensures
        prime_verdict(n),
{
    if n > SIEVE_LIMIT {
        assert(!divides(2, n) && !divides(3, n) && !divides(5, n) && !divides(7, n));
        assert(!divides(11, n) && !divides(13, n) && !divides(17, n) && !divides(19, n));
        assert(!divides(23, n) && !divides(29, n) && !divides(31, n) && !divides(37, n));
        lemma_prime_passes_all(n, witness_set(n));
    }
}

/// Decides whether `n` is prime: by the sieve for a small `n`; else by
/// division by the primes up to 37 and then by the Miller-Rabin test with
/// the witnesses for the magnitude of `n`.
pub fn is_prime(sieve: &Sieve, n: u64) -> (verdict: bool)
    ensures
        verdict == prime_verdict(n as nat),
        n <= SIEVE_LIMIT ==> verdict == is_prime_number(n as nat),
        is_prime_number(n as nat) ==> verdict,
{
    proof {
        if is_prime_number(n as nat) {
            lemma_primes_pass(n as nat);
        }
    }
    if n <= SIEVE_LIMIT as u64 {
        return sieve.is_small_prime(n);
    }
    if n.is_multiple_of(2) {
        return false;
    }
    if n.is_multiple_of(3) {
        return false;
    }
    if n.is_multiple_of(5) {
        return false;
    }
    if n.is_multiple_of(7) {
        return false;
    }
    if n.is_multiple_of(11) {
        return false;
    }
    if n.is_multiple_of(13) {
        return false;
    }
    if n.is_multiple_of(17) {
        return false;
    }
    if n.is_multiple_of(19) {
        return false;
    }
    if n.is_multiple_of(23) {
        return false;
    }
    if n.is_multiple_of(29) {
        return false;
    }
    if n.is_multiple_of(31) {
        return false;
    }
    if n.is_multiple_of(37) {
        return false;
    }
    let mut d: u64 = n - 1;
    let mut r: u32 = 0;
    proof {
        lemma2_to64();
        assert(d * pow2(0) == d) by (nonlinear_arith)
            requires
                pow2(0) == 1,
        ;
    }
    while d.is_multiple_of(2)
        invariant
            d > 0,
            r < 64,
            d * pow2(r as nat) == n - 1,
            odd_part(d as nat) == odd_part((n - 1) as nat),
            r + two_exponent(d as nat) == two_exponent((n - 1) as nat),
        decreases d,
    {
        proof {
            lemma_pow2_unfold((r + 1) as nat);
            assert((d / 2) * (2 * pow2(r as nat)) == d * pow2(r as nat)) by (nonlinear_arith)
                requires
                    d % 2 == 0,
            ;
            if r + 1 >= 64 {
                lemma_pow2_strictly_increases(63, (r + 1) as nat);
                lemma2_to64();
                lemma2_to64_rest();
                assert((d / 2) * pow2((r + 1) as nat) >= pow2((r + 1) as nat)) by (nonlinear_arith)
                    requires
                        d / 2 >= 1,
                ;
            }
        }
        d = d / 2;
        r = r + 1;
    }
    let witnesses: &[u64] = if n < 2_047 {
        &[2]
    } else if n < 1_373_653 {
        &[2, 3]
    } else if n < 9_080_191 {
        &[31, 73]
    } else if n < 25_326_001 {
        &[2, 3, 5]
    } else if n < 3_215_031_751 {
        &[2, 3, 5, 7]
    } else if n < 4_759_123_141 {
        &[2, 7, 61]
    } else if n < 1_122_004_669_633 {
        &[2, 13, 23, 1662803]
    } else if n < 2_152_302_898_747 {
        &[2, 3, 5, 7, 11]
    } else if n < 3_474_749_660_383 {
        &[2, 3, 5, 7, 11, 13]
    } else if n < 341_550_071_728_321 {
        &[2, 3, 5, 7, 11, 13, 17]
    } else {
        &[2, 3, 5, 7, 11, 13, 17, 19, 23, 29, 31, 37]
    };
    assert(witnesses@ =~= witness_set(n as nat));
    miller_rabin_test(n, d, r, witnesses)
}

} // verus!
