//! Decimal digits: the powers of ten that fit in 64 bits and the number of
//! digits of a number.

use vstd::prelude::*;

verus! {

/// The powers of ten from 10^0 to 10^19, which are those below 2^64.
pub const POWERS_OF_10: [u64; 20] = [
    1,
    10,
    100,
    1_000,
    10_000,
    100_000,
    1_000_000,
    10_000_000,
    100_000_000,
    1_000_000_000,
    10_000_000_000,
    100_000_000_000,
    1_000_000_000_000,
    10_000_000_000_000,
    100_000_000_000_000,
    1_000_000_000_000_000,
    10_000_000_000_000_000,
    100_000_000_000_000_000,
    1_000_000_000_000_000_000,
    10_000_000_000_000_000_000,
];

/// Ten to the power `k`.
pub open spec fn pow10(k: nat) -> nat
    decreases k,
{
    if k == 0 {
        1
    } else {
        10 * pow10((k - 1) as nat)
    }
}

/// The number of decimal digits of `n`; 0 has one digit.
pub open spec fn digit_count(n: nat) -> nat
    decreases n,
{
    if n < 10 {
        1
    } else {
        1 + digit_count(n / 10)
    }
}

/// The table holds the powers of ten.
pub proof fn lemma_powers_of_10()
    ensures
        forall|k: int| 0 <= k < 20 ==> #[trigger] POWERS_OF_10@[k] == pow10(k as nat),
        pow10(20) == 100_000_000_000_000_000_000,
{
    assert(pow10(0) == 1);
    assert(pow10(1) == 10);
    assert(pow10(2) == 100);
    assert(pow10(3) == 1_000);
    assert(pow10(4) == 10_000);
    assert(pow10(5) == 100_000);
    assert(pow10(6) == 1_000_000);
    assert(pow10(7) == 10_000_000);
    assert(pow10(8) == 100_000_000);
    assert(pow10(9) == 1_000_000_000);
    assert(pow10(10) == 10_000_000_000);
    assert(pow10(11) == 100_000_000_000);
    assert(pow10(12) == 1_000_000_000_000);
    assert(pow10(13) == 10_000_000_000_000);
    assert(pow10(14) == 100_000_000_000_000);
    assert(pow10(15) == 1_000_000_000_000_000);
    assert(pow10(16) == 10_000_000_000_000_000);
    assert(pow10(17) == 100_000_000_000_000_000);
    assert(pow10(18) == 1_000_000_000_000_000_000);
    assert(pow10(19) == 10_000_000_000_000_000_000);
    assert(pow10(20) == 100_000_000_000_000_000_000);
}

/// A number with `d` digits is one below 10^d and, unless `d` is 1, not
/// below 10^(d - 1).
pub proof fn lemma_digit_count_in_decade(n: nat, d: nat)
    requires
        d >= 1,
        n < pow10(d),
        d > 1 ==> pow10((d - 1) as nat) <= n,
    ensures
        digit_count(n) == d,
    decreases d,
{
    reveal_with_fuel(pow10, 2);
    if d > 1 {
        assert(pow10((d - 1) as nat) >= 10) by {
            lemma_pow10_increases(1, (d - 1) as nat);
        }
        lemma_digit_count_in_decade(n / 10, (d - 1) as nat);
    }
}

/// The powers of ten grow with the exponent.
pub proof fn lemma_pow10_increases(a: nat, b: nat)
    requires
        a <= b,
    ensures
        1 <= pow10(a) <= pow10(b),
    decreases b,
{
    if b > 0 {
        if a < b {
            lemma_pow10_increases(a, (b - 1) as nat);
        }
        lemma_pow10_increases(0, (b - 1) as nat);
    }
}

/// The number of digits of `n` is the `d` with `10^(d - 1) <= n < 10^d`,
/// and 1 for 0.
pub proof fn lemma_digit_count_bounds(n: nat)
    ensures
        digit_count(n) >= 1,
        n < pow10(digit_count(n)),
        digit_count(n) > 1 ==> pow10((digit_count(n) - 1) as nat) <= n,
    decreases n,
{
    reveal_with_fuel(pow10, 2);
    if n >= 10 {
        lemma_digit_count_bounds(n / 10);
    }
}

/// Counts the decimal digits of `n`.
pub fn count_digits(n: u64) -> (digits: u32)
    ensures
        digits == digit_count(n as nat),
        1 <= digits <= 20,
        n < pow10(digits as nat),
        digits > 1 ==> pow10((digits - 1) as nat) <= n,
{
    let digits: u32 = if n < 10 {
        1
    } else if n < 100 {
        2
    } else if n < 1_000 {
        3
    } else if n < 10_000 {
        4
    } else if n < 100_000 {
        5
    } else if n < 1_000_000 {
        6
    } else if n < 10_000_000 {
        7
    } else if n < 100_000_000 {
        8
    } else if n < 1_000_000_000 {
        9
    } else if n < 10_000_000_000 {
        10
    } else if n < 100_000_000_000 {
        11
    } else if n < 1_000_000_000_000 {
        12
    } else if n < 10_000_000_000_000 {
        13
    } else if n < 100_000_000_000_000 {
        14
    } else if n < 1_000_000_000_000_000 {
        15
    } else if n < 10_000_000_000_000_000 {
        16
    } else if n < 100_000_000_000_000_000 {
        17
    } else if n < 1_000_000_000_000_000_000 {
        18
    } else if n < 10_000_000_000_000_000_000 {
        19
    } else {
        20
    };
    proof {
        lemma_powers_of_10();
        assert(forall|k: int| 0 <= k < 20 ==> pow10(k as nat) == #[trigger] POWERS_OF_10@[k]);
        assert(digits >= 2 ==> pow10((digits - 1) as nat) == POWERS_OF_10@[digits - 1]);
        assert(digits <= 19 ==> pow10(digits as nat) == POWERS_OF_10@[digits as int]);
        lemma_digit_count_in_decade(n as nat, digits as nat);
        lemma_digit_count_bounds(n as nat);
    }
    digits
}

} // verus!
