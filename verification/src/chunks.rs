//! The hits of a range of candidates: the numbers that the oracle takes for
//! productive, in increasing order. A range may be gone through in one piece
//! or chunk by chunk, in one run or in several: the hits are the same.

use vstd::prelude::*;
use rayon::iter::{IntoParallelIterator, ParallelIterator};
use crate::productive::{is_productive, is_productive_number, lemma_productive_never_missed,
    productive_verdict};
use crate::sieve::Sieve;

verus! {

/// The numbers from `lo` up to, but not including, `hi`.
pub open spec fn candidates(lo: nat, hi: nat) -> Seq<u64> {
    Seq::new(
        if hi >= lo {
            (hi - lo) as nat
        } else {
            0
        },
        |i: int| (lo + i) as u64,
    )
}

/// The test that a candidate has to pass to be a hit.
pub open spec fn productive_filter() -> spec_fn(u64) -> bool {
    |n: u64| productive_verdict(n as nat)
}

/// The hits from `lo` up to, but not including, `hi`: the candidates that
/// pass the test, in increasing order.
pub open spec fn hits_between(lo: nat, hi: nat) -> Seq<u64> {
    candidates(lo, hi).filter(productive_filter())
}

/// Where the chunk that begins at `position` ends: `chunk_size` further, or
/// at the limit if that comes first.
pub open spec fn chunk_end(position: nat, chunk_size: nat, limit: nat) -> nat {
    if position + chunk_size <= limit {
        position + chunk_size
    } else {
        limit
    }
}

/// What is found by going from `position` to the limit chunk by chunk.
pub open spec fn chunked_hits(position: nat, chunk_size: nat, limit: nat) -> Seq<u64>
    decreases limit - position,
{
    if position >= limit || chunk_size == 0 {
        Seq::empty()
    } else {
        hits_between(position, chunk_end(position, chunk_size, limit)) + chunked_hits(
            chunk_end(position, chunk_size, limit),
            chunk_size,
            limit,
        )
    }
}

/// A range that is cut in two has the hits of its two parts, those of the
/// first part before those of the second.
pub proof fn lemma_hits_between_split(lo: nat, mid: nat, hi: nat)
    requires
        lo <= mid <= hi,
    ensures
        hits_between(lo, mid) + hits_between(mid, hi) == hits_between(lo, hi),
{
    assert(candidates(lo, mid) + candidates(mid, hi) =~= candidates(lo, hi));
    Seq::filter_distributes_over_add(candidates(lo, mid), candidates(mid, hi), productive_filter());
}

/// The hits of a range are the numbers of the range that pass the test and
/// nothing else, each of them once, in increasing order.
pub proof fn lemma_hits_between_exact(lo: nat, hi: nat)
    requires
        hi <= u64::MAX + 1,
    ensures
        forall|i: int|
            0 <= i < hits_between(lo, hi).len() ==> lo <= (#[trigger] hits_between(lo, hi)[i]) < hi
                && productive_verdict(hits_between(lo, hi)[i] as nat),
        forall|i: int, j: int|
            0 <= i < j < hits_between(lo, hi).len() ==> (#[trigger] hits_between(lo, hi)[i]) < (
            #[trigger] hits_between(lo, hi)[j]),
        forall|n: u64|
            lo <= n < hi && productive_verdict(n as nat) ==> #[trigger] hits_between(
                lo,
                hi,
            ).contains(n),
    decreases hi,
{
    reveal_with_fuel(Seq::filter, 2);
    if hi <= lo {
        assert(candidates(lo, hi) =~= Seq::<u64>::empty());
    } else {
        let before: nat = (hi - 1) as nat;
        let all: Seq<u64> = hits_between(lo, hi);
        let head: Seq<u64> = hits_between(lo, before);
        let tail: Seq<u64> = hits_between(before, hi);
        lemma_hits_between_exact(lo, before);
        lemma_hits_between_split(lo, before, hi);
        assert(candidates(before, hi) =~= seq![before as u64]);
        assert(candidates(before, hi).drop_last() =~= Seq::<u64>::empty());
        if productive_verdict(before) {
            assert(tail =~= seq![before as u64]);
            assert(all[all.len() - 1] == before as u64);
        } else {
            assert(tail =~= Seq::<u64>::empty());
        }
        assert(all =~= head + tail);
        assert forall|n: u64| lo <= n < hi && productive_verdict(n as nat) implies #[trigger] all.contains(
            n,
        ) by {
            if n < before {
                assert(head.contains(n));
                let i: int = choose|i: int| 0 <= i < head.len() && head[i] == n;
                assert(all[i] == n);
            } else {
                assert(all[all.len() - 1] == n);
            }
        }
    }
}

/// No productive number of a range is missing from its hits.
pub proof fn lemma_no_productive_number_missed(lo: nat, hi: nat, n: u64)
    requires
        lo <= n < hi,
        is_productive_number(n as nat),
    ensures
        hits_between(lo, hi).contains(n),
{
    lemma_productive_never_missed(n as nat);
    assert(candidates(lo, hi)[n - lo] == n);
    candidates(lo, hi).lemma_filter_contains(productive_filter(), n - lo);
}

/// Going through a range chunk by chunk finds what going through it at once
/// finds, whatever the size of the chunks.
pub proof fn lemma_chunking_is_immaterial(position: nat, chunk_size: nat, limit: nat)
    requires
        chunk_size >= 1,
    ensures
        chunked_hits(position, chunk_size, limit) == hits_between(position, limit),
    decreases limit - position,
{
    if position >= limit {
        reveal_with_fuel(Seq::filter, 1);
        assert(candidates(position, limit) =~= Seq::<u64>::empty());
    } else {
        let end: nat = chunk_end(position, chunk_size, limit);
        lemma_chunking_is_immaterial(end, chunk_size, limit);
        lemma_hits_between_split(position, end, limit);
    }
}

/// Tests each number from `start` up to, but not including, `end` with
/// `rayon`: `into_par_iter` on the range, `filter` and `collect`. The result
/// holds the numbers for which the test says yes and no others. They come
/// in the order of the range, since `collect` joins what was found in the
/// parts of the range in the order of the parts.
#[verifier::external_body]
pub(crate) fn par_filter_productive(sieve: &Sieve, start: u64, end: u64) -> (hits: Vec<u64>)
    ensures
        hits@ == hits_between(start as nat, end as nat),
{
    (start..end).into_par_iter().filter(|n| is_productive(sieve, *n)).collect()
}

} // verus!
