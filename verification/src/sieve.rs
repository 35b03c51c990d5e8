//! The table of primes up to `SIEVE_LIMIT`, built once by the sieve of
//! Eratosthenes and then only read.

use vstd::prelude::*;
use crate::primes::{divides, is_prime_number, lemma_cofactor_divides, lemma_divides_transitive,
    lemma_no_multiple_between};

verus! {

/// The largest number that the table answers for.
pub const SIEVE_LIMIT: usize = 65536;

/// What the table holds: entry `i` says whether `i` is prime.
pub open spec fn prime_table() -> Seq<bool> {
    Seq::new((SIEVE_LIMIT + 1) as nat, |i: int| is_prime_number(i as nat))
}

/// `k` has survived the marking of the multiples of every number below
/// `bound`: it is at least 2 and no `d` below `bound` with `d * d <= k`
/// divides it.
pub open spec fn survives(k: nat, bound: nat) -> bool {
    k >= 2 && forall|d: nat| 2 <= d < bound && d * d <= k ==> !#[trigger] divides(d, k)
}

/// The multiples of `i` from `i * i` up to, but not including, `upto` have
/// been struck out as well.
pub open spec fn survives_partly(k: nat, i: nat, upto: nat) -> bool {
    survives(k, i) && !(i * i <= k < upto && divides(i, k))
}

/// Once the bound has passed the square root of `k`, the survivors are the
/// primes.
pub proof fn lemma_survivors_are_primes(k: nat, bound: nat)
    requires
        bound * bound > k,
    ensures
        survives(k, bound) == is_prime_number(k),
{
    if is_prime_number(k) {
        assert forall|d: nat| 2 <= d < bound && d * d <= k implies !#[trigger] divides(d, k) by {
            assert(d < k) by (nonlinear_arith)
                requires
                    2 <= d,
                    d * d <= k,
            ;
        }
    }
    if survives(k, bound) {
        assert forall|d: nat| 2 <= d < k implies !#[trigger] divides(d, k) by {
            if divides(d, k) {
                lemma_cofactor_divides(d, k);
                let e: nat = k / d;
                assert(2 <= e) by (nonlinear_arith)
                    requires
                        d * e == k,
                        d < k,
                        d >= 2,
                ;
                if d * d <= k {
                    assert(d < bound) by (nonlinear_arith)
                        requires
                            d * d <= k,
                            bound * bound > k,
                    ;
                    assert(!divides(d, k));
                } else {
                    assert(e * e <= k && e < bound) by (nonlinear_arith)
                        requires
                            d * e == k,
                            d * d > k,
                            bound * bound > k,
                            d >= 2,
                            e >= 2,
                    ;
                    assert(!divides(e, k));
                }
            }
        }
    }
}

/// Striking out the multiples of `i` from `i * i` on is what separates the
/// survivors of `i + 1` from those of `i`.
pub proof fn lemma_survives_step(k: nat, i: nat)
    requires
        i >= 2,
    ensures
        survives(k, i + 1) == (survives(k, i) && !(i * i <= k && divides(i, k))),
{
    if survives(k, i) && !(i * i <= k && divides(i, k)) {
        assert forall|d: nat| 2 <= d < i + 1 && d * d <= k implies !#[trigger] divides(d, k) by {
            if d < i {
                assert(!divides(d, k));
            }
        }
    }
    if survives(k, i + 1) {
        assert forall|d: nat| 2 <= d < i && d * d <= k implies !#[trigger] divides(d, k) by {
            assert(d < i + 1);
        }
        if i * i <= k {
            assert(!divides(i, k));
        }
    }
}

/// The multiples of a number that was itself struck out are gone already: a
/// smaller divisor took them.
pub proof fn lemma_composite_has_no_survivors(k: nat, i: nat)
    requires
        i >= 2,
        !survives(i, i),
        i * i <= k,
        divides(i, k),
    ensures
        !survives(k, i),
{
    let d: nat = choose|d: nat| 2 <= d < i && d * d <= i && divides(d, i);
    lemma_divides_transitive(d, i, k);
    assert(d * d <= k) by (nonlinear_arith)
        requires
            d * d <= i,
            i * i <= k,
            i >= 2,
    ;
}

/// The sieve: a table that says of each number up to `SIEVE_LIMIT` whether it
/// is prime.
pub struct Sieve {
    table: Vec<bool>,
}

impl View for Sieve {
    type V = Seq<bool>;

    closed spec fn view(&self) -> Seq<bool> {
        self.table@
    }
}

impl Sieve {
    #[verifier::type_invariant]
    spec fn well_formed(&self) -> bool {
        self.table@ =~= prime_table()
    }

    /// Whether `n` is prime, read from the table.
    pub fn is_small_prime(&self, n: u64) -> (prime: bool)
        requires
            n <= SIEVE_LIMIT,
        ensures
            prime == is_prime_number(n as nat),
    {
        proof {
            use_type_invariant(self);
        }
        self.table[n as usize]
    }

    /// The whole table, entry `i` for the number `i`.
    pub fn as_slice(&self) -> (table: &[bool])
        ensures
            table@ == prime_table(),
            table@ == self@,
    {
        proof {
            use_type_invariant(self);
        }
        self.table.as_slice()
    }
}

/// Builds the table by the sieve of Eratosthenes: for each number `i` that
/// is still unmarked when its turn comes, up to the square root of the
/// limit, the multiples of `i` from `i * i` on are marked composite.
pub fn init_sieve() -> (sieve: Sieve)
    ensures
        sieve@ == prime_table(),
{
    let mut table: Vec<bool> = vec![true; SIEVE_LIMIT + 1];
    table.set(0, false);
    table.set(1, false);
    assert forall|k: int| 0 <= k <= SIEVE_LIMIT implies #[trigger] table@[k] == survives(
        k as nat,
        2,
    ) by {}
    let mut i: usize = 2;
    while i * i <= SIEVE_LIMIT
        invariant
            2 <= i <= 257,
            i * i <= 66049,
            table@.len() == SIEVE_LIMIT + 1,
            forall|k: int| 0 <= k <= SIEVE_LIMIT ==> #[trigger] table@[k] == survives(k as nat, i as nat),
        decreases 257 - i,
    {
        assert(i <= 256) by (nonlinear_arith)
            requires
                i * i <= 65536,
        ;
        if table[i] {
            let mut j: usize = i * i;
            proof {
                vstd::arithmetic::div_mod::lemma_mod_multiples_basic(i as int, i as int);
            }
            while j <= SIEVE_LIMIT
                invariant
                    2 <= i <= 256,
                    i * i <= j <= SIEVE_LIMIT + i,
                    divides(i as nat, j as nat),
                    table@.len() == SIEVE_LIMIT + 1,
                    forall|k: int| 0 <= k <= SIEVE_LIMIT ==> #[trigger] table@[k] == survives_partly(
                        k as nat,
                        i as nat,
                        j as nat,
                    ),
                decreases SIEVE_LIMIT + i - j,
            {
                table.set(j, false);
                proof {
                    assert forall|k: int| 0 <= k <= SIEVE_LIMIT implies #[trigger] table@[k]
                        == survives_partly(k as nat, i as nat, (j + i) as nat) by {
                        if j < k < j + i {
                            lemma_no_multiple_between(i as nat, j as nat, k as nat);
                        }
                    }
                    vstd::arithmetic::div_mod::lemma_mod_adds(j as int, i as int, i as int);
                }
                j = j + i;
            }
            proof {
                assert forall|k: int| 0 <= k <= SIEVE_LIMIT implies #[trigger] table@[k] == survives(
                    k as nat,
                    (i + 1) as nat,
                ) by {
                    lemma_survives_step(k as nat, i as nat);
                }
            }
        } else {
            proof {
                assert forall|k: int| 0 <= k <= SIEVE_LIMIT implies #[trigger] table@[k] == survives(
                    k as nat,
                    (i + 1) as nat,
                ) by {
                    lemma_survives_step(k as nat, i as nat);
                    if i * i <= k && divides(i as nat, k as nat) {
                        lemma_composite_has_no_survivors(k as nat, i as nat);
                    }
                }
            }
        }
        assert((i + 1) * (i + 1) <= 66049) by (nonlinear_arith)
            requires
                i <= 256,
        ;
        i = i + 1;
    }
    proof {
        assert forall|k: int| 0 <= k <= SIEVE_LIMIT implies #[trigger] table@[k] == is_prime_number(
            k as nat,
        ) by {
            assert((i as nat) * (i as nat) > k as nat);
            lemma_survivors_are_primes(k as nat, i as nat);
        }
        assert(table@ =~= prime_table());
    }
    Sieve { table }
}

} // verus!
