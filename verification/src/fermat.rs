//! Fermat's little theorem, proved from Euclid's lemma: the multiples `a`,
//! `2a`, ..., `(p - 1)a` of a number that a prime `p` does not divide leave,
//! modulo `p`, the remainders 1, 2, ..., `p - 1` in some order, so that both
//! have the same product.

use vstd::prelude::*;
use vstd::arithmetic::div_mod::{lemma_fundamental_div_mod, lemma_fundamental_div_mod_converse,
    lemma_mod_bound, lemma_mod_equivalence, lemma_mul_mod_noop_general, lemma_small_mod};
use vstd::arithmetic::power::{lemma_pow0, lemma_pow1, lemma_pow_adds, lemma_pow_positive, pow};
use vstd::set::fold::{is_fun_commutative, lemma_fold_empty, lemma_fold_insert};
use vstd::set_lib::{lemma_int_range, lemma_subset_equality, set_int_range};
use crate::modular::pow_mod;
use crate::primes::{divides, is_prime_number, lemma_prime_divides_product};

verus! {

/// Multiplication, as the step of a product over a set.
pub open spec fn times() -> spec_fn(int, int) -> int {
    |acc: int, x: int| acc * x
}

/// The product of the numbers of a finite set.
pub open spec fn set_product(s: Set<int>) -> int {
    s.fold(1, times())
}

/// The numbers from 1 to `n`.
pub open spec fn first_numbers(n: nat) -> Set<int> {
    set_int_range(1, n as int + 1)
}

/// The remainder that the multiple `a * i` leaves modulo `p`.
pub open spec fn multiple_residue(a: nat, p: nat, i: nat) -> int {
    ((a * i) % p) as int
}

/// The remainders that the first `n` multiples of `a` leave modulo `p`.
pub open spec fn multiple_residues(a: nat, p: nat, n: nat) -> Set<int>
    decreases n,
{
    if n == 0 {
        Set::empty()
    } else {
        multiple_residues(a, p, (n - 1) as nat).insert(multiple_residue(a, p, n))
    }
}

/// A product does not depend on the order of its factors.
pub proof fn lemma_times_commutative()
    ensures
        is_fun_commutative(times()),
{
    assert forall|a1: int, a2: int, b: int| #[trigger]
        times()(times()(b, a2), a1) == times()(times()(b, a1), a2) by {
        assert((b * a2) * a1 == (b * a1) * a2) by (nonlinear_arith);
    }
}

/// The product of the numbers from 1 to `n` is positive, and it is the
/// product of those from 1 to `n - 1`, times `n`.
pub proof fn lemma_product_of_first_numbers(n: nat)
    ensures
        first_numbers(n).finite(),
        first_numbers(n).len() == n,
        set_product(first_numbers(n)) >= 1,
        n == 0 ==> set_product(first_numbers(n)) == 1,
        n >= 1 ==> set_product(first_numbers(n)) == set_product(first_numbers((n - 1) as nat)) * n,
    decreases n,
{
    lemma_times_commutative();
    lemma_int_range(1, n as int + 1);
    if n == 0 {
        assert(first_numbers(0) =~= Set::<int>::empty());
        lemma_fold_empty::<int, int>(1, times());
    } else {
        let before: Set<int> = first_numbers((n - 1) as nat);
        lemma_product_of_first_numbers((n - 1) as nat);
        assert(first_numbers(n) =~= before.insert(n as int));
        lemma_fold_insert(before, 1, times(), n as int);
        assert(set_product(before) * n >= 1) by (nonlinear_arith)
            requires
                set_product(before) >= 1,
                n >= 1,
        ;
    }
}

/// A prime divides no number from 1 to `p - 1`.
pub proof fn lemma_prime_divides_nothing_below(p: nat, x: nat)
    requires
        1 <= x < p,
    ensures
        !divides(p, x),
{
    lemma_small_mod(x, p);
}

/// A prime does not divide the product of the numbers from 1 to `n` when
/// `n` is below it.
pub proof fn lemma_prime_not_in_product(p: nat, n: nat)
    requires
        is_prime_number(p),
        n < p,
    ensures
        !divides(p, set_product(first_numbers(n)) as nat),
    decreases n,
{
    lemma_product_of_first_numbers(n);
    if n == 0 {
        lemma_small_mod(1, p);
    } else {
        let before: nat = set_product(first_numbers((n - 1) as nat)) as nat;
        lemma_product_of_first_numbers((n - 1) as nat);
        lemma_prime_not_in_product(p, (n - 1) as nat);
        if divides(p, set_product(first_numbers(n)) as nat) {
            lemma_prime_divides_product(p, before, n);
            lemma_prime_divides_nothing_below(p, n);
        }
    }
}

/// Two multiples of `a` that leave the same remainder modulo a prime `p`
/// that does not divide `a` are multiples by numbers that differ by a
/// multiple of `p`; below `p`, they are the same.
pub proof fn lemma_multiple_residues_differ(a: nat, p: nat, i: nat, j: nat)
    requires
        is_prime_number(p),
        1 <= a < p,
        1 <= i < j < p,
    ensures
        multiple_residue(a, p, i) != multiple_residue(a, p, j),
        multiple_residue(a, p, j) != 0,
{
    lemma_prime_divides_nothing_below(p, a);
    lemma_prime_divides_nothing_below(p, j);
    lemma_prime_divides_nothing_below(p, (j - i) as nat);
    if multiple_residue(a, p, j) == 0 {
        lemma_prime_divides_product(p, a, j);
    }
    if multiple_residue(a, p, i) == multiple_residue(a, p, j) {
        lemma_mod_equivalence((a * j) as int, (a * i) as int, p as int);
        assert(a * j - a * i == a * ((j - i) as nat)) by (nonlinear_arith)
            requires
                i < j,
        ;
        lemma_prime_divides_product(p, a, (j - i) as nat);
    }
}

/// The remainders of the first `n` multiples are `n` different numbers
/// between 1 and `p - 1`, and their product is, modulo `p`, the product of
/// the multiples themselves.
pub proof fn lemma_multiple_residues(a: nat, p: nat, n: nat)
    requires
        is_prime_number(p),
        1 <= a < p,
        n < p,
    ensures
        multiple_residues(a, p, n).finite(),
        multiple_residues(a, p, n).len() == n,
        forall|y: int| #[trigger]
            multiple_residues(a, p, n).contains(y) ==> 1 <= y < p && exists|i: nat|
                1 <= i <= n && #[trigger] multiple_residue(a, p, i) == y,
        set_product(multiple_residues(a, p, n)) % (p as int) == (pow(a as int, n) * set_product(
            first_numbers(n),
        )) % (p as int),
    decreases n,
{
    lemma_times_commutative();
    lemma_product_of_first_numbers(n);
    if n == 0 {
        lemma_fold_empty::<int, int>(1, times());
        lemma_pow0(a as int);
    } else {
        let m: nat = (n - 1) as nat;
        let before: Set<int> = multiple_residues(a, p, m);
        let y: int = multiple_residue(a, p, n);
        lemma_multiple_residues(a, p, m);
        lemma_product_of_first_numbers(m);
        lemma_mod_bound((a * n) as int, p as int);
        if n > 1 {
            lemma_multiple_residues_differ(a, p, 1, n);
        } else {
            lemma_prime_divides_nothing_below(p, a);
            assert(a * 1 == a) by (nonlinear_arith);
        }
        if before.contains(y) {
            let i: nat = choose|i: nat| 1 <= i <= m && #[trigger] multiple_residue(a, p, i) == y;
            lemma_multiple_residues_differ(a, p, i, n);
        }
        lemma_fold_insert(before, 1, times(), y);
        assert forall|z: int| #[trigger] multiple_residues(a, p, n).contains(z) implies 1 <= z < p
            && exists|i: nat| 1 <= i <= n && #[trigger] multiple_residue(a, p, i) == z by {
            if z == y {
                assert(multiple_residue(a, p, n) == z);
            } else {
                assert(before.contains(z));
                let i: nat = choose|i: nat|
                    1 <= i <= m && #[trigger] multiple_residue(a, p, i) == z;
                assert(1 <= i <= n && multiple_residue(a, p, i) == z);
            }
        }
        // The product: the one before, times the new remainder.
        let pi_before: int = set_product(before);
        let fact_before: int = set_product(first_numbers(m));
        let pw: int = pow(a as int, m);
        assert(set_product(multiple_residues(a, p, n)) == pi_before * y);
        lemma_mul_mod_noop_general(pi_before, (a * n) as int, p as int);
        lemma_mul_mod_noop_general(pw * fact_before, (a * n) as int, p as int);
        assert((pi_before * y) % (p as int) == ((pw * fact_before) * (a * n)) % (p as int));
        lemma_pow_adds(a as int, 1, m);
        lemma_pow1(a as int);
        assert((pw * fact_before) * (a * n) == (a * pw) * (fact_before * n)) by (nonlinear_arith);
    }
}

/// Fermat's little theorem: for a prime `p` and `a` from 1 to `p - 1`,
/// `a` to the power `p - 1` is 1 modulo `p`.
pub proof fn lemma_fermat_little(p: nat, a: nat)
    requires
        is_prime_number(p),
        1 <= a < p,
    ensures
        pow_mod(a, (p - 1) as nat, p) == 1,
{
    let n: nat = (p - 1) as nat;
    let residues: Set<int> = multiple_residues(a, p, n);
    let numbers: Set<int> = first_numbers(n);
    lemma_multiple_residues(a, p, n);
    lemma_product_of_first_numbers(n);
    assert(residues.subset_of(numbers));
    lemma_subset_equality(residues, numbers);
    let fact: int = set_product(numbers);
    let power: int = pow(a as int, n);
    lemma_pow_positive(a as int, n);
    assert(fact % (p as int) == (power * fact) % (p as int));
    lemma_mod_equivalence(power * fact, fact, p as int);
    assert(power * fact - fact == (power - 1) * fact && (power - 1) * fact >= 0)
        by (nonlinear_arith)
        requires
            power >= 1,
            fact >= 1,
    ;
    lemma_prime_divides_product(p, (power - 1) as nat, fact as nat);
    lemma_prime_not_in_product(p, n);
    assert(divides(p, (power - 1) as nat));
    let k: int = (power - 1) / (p as int);
    lemma_fundamental_div_mod(power - 1, p as int);
    lemma_fundamental_div_mod_converse(power, p as int, k, 1);
}

} // verus!
