//! Reading a number of 64 bits from its decimal digits, as `str::parse`
//! does for `u64`: one `+` may come first, then at least one digit and
//! nothing but digits, and the number has to fit.

use vstd::prelude::*;
use vstd::string::is_ascii_spec_bytes;

verus! {

/// The byte of the sign `+`.
const PLUS: u8 = 43;

/// The byte of the digit 0.
const ZERO: u8 = 48;

/// The byte of the digit 9.
const NINE: u8 = 57;

/// `c` is one of the digits from 0 to 9.
pub open spec fn is_decimal_digit(c: char) -> bool {
    '0' <= c <= '9'
}

/// The number that a digit stands for.
pub open spec fn digit_value(c: char) -> nat {
    (c as nat - '0' as nat) as nat
}

/// Every character of `digits` is a digit.
pub open spec fn all_decimal_digits(digits: Seq<char>) -> bool {
    forall|i: int| 0 <= i < digits.len() ==> is_decimal_digit(#[trigger] digits[i])
}

/// The number that a sequence of digits denotes; the empty one denotes 0.
pub open spec fn decimal_value(digits: Seq<char>) -> nat
    decreases digits.len(),
{
    if digits.len() == 0 {
        0
    } else {
        10 * decimal_value(digits.drop_last()) + digit_value(digits.last())
    }
}

/// The text without the `+` that it may begin with.
pub open spec fn without_plus(text: Seq<char>) -> Seq<char> {
    if text.len() > 0 && text[0] == '+' {
        text.subrange(1, text.len() as int)
    } else {
        text
    }
}

/// The number of 64 bits that a text denotes, if it denotes one.
pub open spec fn parsed_u64(text: Seq<char>) -> Option<u64> {
    let digits: Seq<char> = without_plus(text);
    if digits.len() > 0 && all_decimal_digits(digits) && decimal_value(digits) <= u64::MAX {
        Some(decimal_value(digits) as u64)
    } else {
        None
    }
}

/// More digits never denote a smaller number: the first `k` digits denote at
/// most what all of them denote.
pub proof fn lemma_decimal_value_grows(digits: Seq<char>, k: int)
    requires
        0 <= k <= digits.len(),
    ensures
        decimal_value(digits.take(k)) <= decimal_value(digits),
    decreases digits.len(),
{
    if k < digits.len() {
        lemma_decimal_value_grows(digits.drop_last(), k);
        assert(digits.drop_last().take(k) =~= digits.take(k));
    } else {
        assert(digits.take(k) =~= digits);
    }
}

/// Reads a number of 64 bits from its decimal digits.
pub fn parse_u64(text: &str) -> (parsed: Option<u64>)
    ensures
        parsed == parsed_u64(text@),
{
    if !text.is_ascii() {
        proof {
            let i: int = choose|i: int|
                0 <= i < text@.len() && !('\0' <= #[trigger] text@[i] <= '\u{7f}');
            if i > 0 || text@[0] != '+' {
                let j: int = if text@[0] == '+' {
                    i - 1
                } else {
                    i
                };
                assert(!is_decimal_digit(without_plus(text@)[j]));
            }
        }
        return None;
    }
    proof {
        is_ascii_spec_bytes(text);
    }
    let bytes: &[u8] = text.as_bytes();
    let len: usize = bytes.len();
    let first: usize = if len > 0 && bytes[0] == PLUS {
        1
    } else {
        0
    };
    let ghost digits: Seq<char> = without_plus(text@);
    if first == len {
        return None;
    }
    let mut value: u64 = 0;
    let mut i: usize = first;
    while i < len
        invariant
            text.is_ascii(),
            bytes@ =~= Seq::new(text@.len(), |k: int| text@[k] as u8),
            len == text@.len(),
            first <= i <= len,
            first <= 1,
            digits == without_plus(text@),
            digits == text@.subrange(first as int, len as int),
            all_decimal_digits(digits.take(i - first)),
            value == decimal_value(digits.take(i - first)),
        decreases len - i,
    {
        let byte: u8 = bytes[i];
        let ghost c: char = text@[i as int];
        assert(digits[i - first] == c);
        assert('\0' <= c <= '\u{7f}');
        if byte < ZERO || byte > NINE {
            assert(!is_decimal_digit(digits[i - first]));
            return None;
        }
        let digit: u64 = (byte - ZERO) as u64;
        proof {
            assert(digits.take(i - first + 1).drop_last() =~= digits.take(i - first));
            assert(digits.take(i - first + 1).last() == c);
            assert(digit == digit_value(c));
            lemma_decimal_value_grows(digits, i - first + 1);
        }
        let tenfold: u64 = match value.checked_mul(10) {
            Some(tenfold) => tenfold,
            None => { return None; },
        };
        value = match tenfold.checked_add(digit) {
            Some(sum) => sum,
            None => { return None; },
        };
        i = i + 1;
    }
    proof {
        assert(digits.take(i - first) =~= digits);
    }
    Some(value)
}

} // verus!
