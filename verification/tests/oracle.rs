use productive_numbers::digits::{count_digits, POWERS_OF_10};
use productive_numbers::miller_rabin::{miller_rabin_test, passes_witness};
use productive_numbers::oracle::is_prime;
use productive_numbers::modular::mod_pow;
use productive_numbers::sieve::{init_sieve, SIEVE_LIMIT};

fn trial_division(n: u64) -> bool {
    if n < 2 {
        return false;
    }
    if n % 2 == 0 {
        return n == 2;
    }
    let mut d: u64 = 3;
    while d * d <= n {
        if n % d == 0 {
            return false;
        }
        d += 2;
    }
    true
}

fn agrees_around(boundary: u64) {
    let sieve = init_sieve();
    for n in [boundary - 2, boundary - 1, boundary, boundary + 1] {
        assert_eq!(is_prime(&sieve, n), trial_division(n), "disagreement at {}", n);
    }
}

#[test]
fn test_sieve_initialization() {
    let table = init_sieve();
    let sieve = table.as_slice();
    assert!(!sieve[0]);
    assert!(!sieve[1]);
    assert!(sieve[2]);
    assert!(sieve[3]);
    assert!(!sieve[4]);
    assert!(sieve[5]);
}

#[test]
fn test_sieve_known_primes() {
    let table = init_sieve();
    let sieve = table.as_slice();
    let primes = [
        2, 3, 5, 7, 11, 13, 17, 19, 23, 29, 31, 37, 41, 43, 47, 53, 59, 61, 67, 71, 73, 79, 83,
        89, 97, 101, 103, 107, 109, 113,
    ];
    for &p in &primes {
        assert!(sieve[p], "{} debería ser primo en la criba", p);
    }
}

#[test]
fn test_sieve_composites() {
    let table = init_sieve();
    let sieve = table.as_slice();
    let composites = [
        4, 6, 8, 9, 10, 12, 14, 15, 16, 18, 20, 21, 22, 24, 25, 26, 27, 28, 30, 32, 33, 34, 35,
        36, 38, 39, 40,
    ];
    for &c in &composites {
        assert!(!sieve[c], "{} no debería ser primo en la criba", c);
    }
}

#[test]
fn test_is_prime_small() {
    let sieve = init_sieve();
    assert!(!is_prime(&sieve, 0));
    assert!(!is_prime(&sieve, 1));
    assert!(is_prime(&sieve, 2));
    assert!(is_prime(&sieve, 3));
    assert!(!is_prime(&sieve, 4));
    assert!(is_prime(&sieve, 5));
}

#[test]
fn test_is_prime_boundary_2047() {
    let sieve = init_sieve();
    assert!(is_prime(&sieve, 2039));
    assert!(!is_prime(&sieve, 2047));
}

#[test]
fn test_is_prime_boundary_1373653() {
    let sieve = init_sieve();
    assert!(is_prime(&sieve, 1373639));
    assert!(!is_prime(&sieve, 1373653));
}

#[test]
fn test_is_prime_large() {
    let sieve = init_sieve();
    assert!(is_prime(&sieve, 104729));
    assert!(is_prime(&sieve, 1299709));
    assert!(is_prime(&sieve, 15485863));
}

#[test]
fn test_carmichael_numbers() {
    let sieve = init_sieve();
    assert!(!is_prime(&sieve, 561));
    assert!(!is_prime(&sieve, 1105));
    assert!(!is_prime(&sieve, 1729));
    assert!(!is_prime(&sieve, 2465));
    assert!(!is_prime(&sieve, 2821));
}

#[test]
fn sieve_has_an_entry_for_each_number_up_to_the_limit() {
    let table = init_sieve();
    assert_eq!(table.as_slice().len(), SIEVE_LIMIT + 1);
    assert_eq!(SIEVE_LIMIT, 65536);
}

#[test]
fn sieve_matches_trial_division_everywhere() {
    let table = init_sieve();
    let sieve = table.as_slice();
    for n in 0..=SIEVE_LIMIT {
        assert_eq!(sieve[n], trial_division(n as u64), "disagreement at {}", n);
        assert_eq!(table.is_small_prime(n as u64), sieve[n]);
    }
}

#[test]
fn sieve_ends_with_the_right_entries() {
    let table = init_sieve();
    assert!(table.is_small_prime(65521));
    assert!(!table.is_small_prime(65535));
    assert!(!table.is_small_prime(65536));
    assert!(!table.is_small_prime(251 * 257));
}

#[test]
fn oracle_agrees_with_the_sieve_at_its_edge() {
    let sieve = init_sieve();
    assert!(is_prime(&sieve, 65521));
    assert!(!is_prime(&sieve, 65536));
    assert!(is_prime(&sieve, 65537));
    assert!(is_prime(&sieve, 65539));
    assert!(!is_prime(&sieve, 65541));
    for n in 65536u64..70000 {
        assert_eq!(is_prime(&sieve, n), trial_division(n), "disagreement at {}", n);
    }
}

#[test]
fn oracle_rejects_multiples_of_small_primes() {
    let sieve = init_sieve();
    for p in [2u64, 3, 5, 7, 11, 13, 17, 19, 23, 29, 31, 37] {
        assert!(!is_prime(&sieve, p * 100_003));
        assert!(!is_prime(&sieve, p * 1_000_000_007));
    }
    assert!(is_prime(&sieve, 100_003));
    assert!(is_prime(&sieve, 1_000_000_007));
}

#[test]
fn oracle_rejects_strong_pseudoprimes() {
    let sieve = init_sieve();
    // 151 * 751 * 28351 passes to the bases 2, 3, 5 and 7
    assert_eq!(151u64 * 751 * 28_351, 3_215_031_751);
    assert!(!is_prime(&sieve, 3_215_031_751));
    assert!(!is_prime(&sieve, 4_759_123_141));
    assert!(!is_prime(&sieve, 341_550_071_728_321));
    // 149491 * 747451 * 34233211 passes to each of the first nine primes
    assert_eq!(149_491u64 * 747_451 * 34_233_211, 3_825_123_056_546_413_051);
    assert!(!is_prime(&sieve, 3_825_123_056_546_413_051));
}

#[test]
fn oracle_agrees_at_boundary_2047() {
    agrees_around(2_047);
}

#[test]
fn oracle_agrees_at_boundary_1373653() {
    agrees_around(1_373_653);
}

#[test]
fn oracle_agrees_at_boundary_9080191() {
    agrees_around(9_080_191);
}

#[test]
fn oracle_agrees_at_boundary_25326001() {
    agrees_around(25_326_001);
}

#[test]
fn oracle_agrees_at_boundary_3215031751() {
    agrees_around(3_215_031_751);
}

#[test]
fn oracle_agrees_at_boundary_4759123141() {
    agrees_around(4_759_123_141);
}

#[test]
fn oracle_agrees_at_boundary_1122004669633() {
    agrees_around(1_122_004_669_633);
}

#[test]
fn oracle_agrees_at_boundary_2152302898747() {
    agrees_around(2_152_302_898_747);
}

#[test]
fn oracle_agrees_at_boundary_3474749660383() {
    agrees_around(3_474_749_660_383);
}

#[test]
fn oracle_agrees_at_boundary_341550071728321() {
    agrees_around(341_550_071_728_321);
}

#[test]
fn oracle_knows_the_largest_primes_of_64_bits() {
    let sieve = init_sieve();
    assert!(is_prime(&sieve, 18_446_744_073_709_551_557));
    assert!(!is_prime(&sieve, 18_446_744_073_709_551_559));
    assert!(!is_prime(&sieve, u64::MAX));
    assert!(is_prime(&sieve, 9_223_372_036_854_775_783));
}

#[test]
fn mod_pow_gives_exact_values() {
    assert_eq!(mod_pow(2, 10, 1000), 24);
    assert_eq!(mod_pow(3, 0, 7), 1);
    assert_eq!(mod_pow(0, 0, 7), 1);
    assert_eq!(mod_pow(0, 5, 7), 0);
    assert_eq!(mod_pow(5, 3, 1), 0);
    assert_eq!(mod_pow(7, 560, 561), 1);
    assert_eq!(mod_pow(2, 64, 1 << 64), 0);
    assert_eq!(mod_pow(10, 18, 1_000_000_007), 49);
    assert_eq!(
        mod_pow(u64::MAX as u128 - 1, 2, u64::MAX as u128),
        1
    );
    // 2^64 - 59 is prime, so 2 to the power 2^64 - 60 is 1 and 59 doublings are left
    assert_eq!(mod_pow(2, u64::MAX, 18_446_744_073_709_551_557), 1u128 << 59);
}

#[test]
fn miller_rabin_rounds_tell_carmichael_numbers_apart() {
    // 560 = 35 * 2^4
    assert!(!passes_witness(561, 35, 4, 2));
    assert!(!miller_rabin_test(561, 35, 4, &[2]));
    // 2046 = 1023 * 2: the composite 2047 passes to base 2 and fails to base 3
    assert!(passes_witness(2047, 1023, 1, 2));
    assert!(!passes_witness(2047, 1023, 1, 3));
    assert!(miller_rabin_test(2047, 1023, 1, &[2]));
    assert!(!miller_rabin_test(2047, 1023, 1, &[2, 3]));
    // 12 = 3 * 2^2: the prime 13 passes to every base
    assert!(miller_rabin_test(13, 3, 2, &[2, 3, 5, 7, 11]));
}

#[test]
fn miller_rabin_skips_witnesses_that_are_not_below_the_number() {
    // 3 is not below 3, so nothing is tested
    assert!(miller_rabin_test(3, 1, 1, &[3, 5, 7]));
    assert!(miller_rabin_test(9, 1, 3, &[]));
    assert!(miller_rabin_test(9, 1, 3, &[9, 10]));
    assert!(!miller_rabin_test(9, 1, 3, &[9, 2]));
}

#[test]
fn count_digits_gives_exact_values() {
    assert_eq!(count_digits(0), 1);
    assert_eq!(count_digits(9), 1);
    assert_eq!(count_digits(10), 2);
    assert_eq!(count_digits(99), 2);
    assert_eq!(count_digits(100), 3);
    assert_eq!(count_digits(2026), 4);
    assert_eq!(count_digits(999_999_999_999_999_999), 18);
    assert_eq!(count_digits(1_000_000_000_000_000_000), 19);
    assert_eq!(count_digits(9_999_999_999_999_999_999), 19);
    assert_eq!(count_digits(10_000_000_000_000_000_000), 20);
    assert_eq!(count_digits(u64::MAX), 20);
}

#[test]
fn count_digits_changes_at_each_power_of_ten() {
    for k in 1..20usize {
        assert_eq!(count_digits(POWERS_OF_10[k]), k as u32 + 1);
        assert_eq!(count_digits(POWERS_OF_10[k] - 1), k as u32);
    }
    assert_eq!(POWERS_OF_10[0], 1);
    assert_eq!(POWERS_OF_10[19], 10_000_000_000_000_000_000);
}

#[test]
fn powers_to_one_less_than_a_prime_are_one() {
    for p in [3u128, 5, 7, 101, 65_537, 1_000_000_007, 18_446_744_073_709_551_557] {
        for a in [1u128, 2, 3, 10, 12_345, 65_536, 999_999_999_999] {
            if a % p != 0 {
                assert_eq!(mod_pow(a, (p - 1) as u64, p), 1, "{} to the power {} - 1", a, p);
            }
        }
    }
    // for a composite this fails: 2^8 is 4 modulo 9
    assert_eq!(mod_pow(2, 8, 9), 4);
}

#[test]
fn a_prime_that_divides_a_product_divides_a_factor() {
    for p in [2u64, 3, 7, 101] {
        for a in 0..300u64 {
            for b in 0..300u64 {
                if (a * b) % p == 0 {
                    assert!(a % p == 0 || b % p == 0);
                }
            }
        }
    }
    // for a composite this fails: 4 divides 2 * 2 and does not divide 2
    assert_eq!((2 * 2) % 4, 0);
    assert_eq!(2 % 4, 2);
}

#[test]
fn primes_pass_every_round() {
    let sieve = init_sieve();
    for n in 3u64..3_000 {
        if sieve.is_small_prime(n) {
            let mut d = n - 1;
            let mut r = 0u32;
            while d % 2 == 0 {
                d /= 2;
                r += 1;
            }
            for a in 1..n.min(40) {
                assert!(passes_witness(n, d, r, a), "{} to the base {}", n, a);
            }
        }
    }
}
