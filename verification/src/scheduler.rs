//! The bookkeeping of a chunked, resumable scan: where a run starts, which
//! chunk comes next, what a chunk adds to the count, and what is recorded so
//! that a later run can go on where this one stopped.
//!
//! Reading and writing the record, the sink of the hits, the clock of the
//! autosave and the interrupt belong to the caller, which drives a run one
//! chunk at a time.

use vstd::prelude::*;
use crate::chunks::{candidates, chunk_end, chunked_hits, hits_between, lemma_chunking_is_immaterial,
    lemma_hits_between_exact, lemma_hits_between_split, par_filter_productive};
use crate::config::Args;
use crate::sieve::Sieve;
use crate::state::{current_timestamp, SearchState};

verus! {

/// The progress is recorded when this many seconds have passed since it was
/// last recorded.
pub const STATE_SAVE_INTERVAL_SECS: u64 = 5;

/// Where a run stands.
#[derive(Clone, Copy, Debug, PartialEq, Eq, Structural)]
pub enum Phase {
    /// There is a chunk to evaluate and nobody has asked to stop.
    Scanning,
    /// No further chunk is evaluated; the progress is still to be recorded.
    Draining,
    /// The run is over.
    Done,
}

/// What a run is, to its callers.
pub struct RunView {
    /// Where this run began.
    pub start_from: u64,
    /// The next number that has not been looked at.
    pub position: u64,
    /// The end of the search: the first number that is not looked at.
    pub limit: u64,
    /// How many numbers are evaluated at a time.
    pub chunk_size: u64,
    /// How many productive numbers were found, earlier runs included.
    pub found_count: u64,
    /// How many of them were found before this run began.
    pub counted_before: u64,
    /// The productive number found last in this run, or 0.
    pub last_found: u64,
    /// The version of the record's format.
    pub version: u32,
    /// Whether the final record was made.
    pub finished: bool,
}

/// A count that has gone up by `more`, around the end of 64 bits.
pub open spec fn count_after(count: u64, more: nat) -> u64 {
    ((count + more) % 0x1_0000_0000_0000_0000) as u64
}

/// Where a run begins and what it has counted so far: at the start that was
/// asked for, with nothing found, when a fresh run was asked for or nothing
/// was recorded; else where the record says, but not before the start that
/// was asked for, with the count of the record.
pub open spec fn resumed(args: Args, persisted: Option<SearchState>) -> RunView {
    let kept: bool = persisted is Some && !args.fresh;
    let last_checked: u64 = if kept {
        persisted->Some_0.last_checked
    } else {
        args.start
    };
    let position: u64 = if last_checked >= args.start {
        last_checked
    } else {
        args.start
    };
    RunView {
        start_from: position,
        position,
        limit: args.limit,
        chunk_size: args.chunk_size,
        found_count: if kept {
            persisted->Some_0.found_count
        } else {
            0
        },
        counted_before: if kept {
            persisted->Some_0.found_count
        } else {
            0
        },
        last_found: 0,
        version: if kept {
            persisted->Some_0.version
        } else {
            1
        },
        finished: position >= args.limit,
    }
}

/// Counting in two steps is counting in one.
pub proof fn lemma_count_after_adds(count: u64, first: nat, second: nat)
    ensures
        count_after(count_after(count, first), second) == count_after(count, first + second),
{
    vstd::arithmetic::div_mod::lemma_add_mod_noop(
        count + first,
        second as int,
        0x1_0000_0000_0000_0000,
    );
    vstd::arithmetic::div_mod::lemma_mod_twice(count + first, 0x1_0000_0000_0000_0000);
    vstd::arithmetic::div_mod::lemma_add_mod_noop(
        (count + first) % 0x1_0000_0000_0000_0000,
        second as int,
        0x1_0000_0000_0000_0000,
    );
}

/// A search that was stopped somewhere between its start and its limit, and
/// that is resumed from what was recorded there, goes on exactly there with
/// the count of the record. What was found before the stop and what is found
/// after it are, together, what a search that was never stopped finds:
/// nothing is missing and, the hits being in strictly increasing order,
/// nothing comes twice. The count at the end is the same as well.
pub proof fn lemma_resume_finds_the_same(args: Args, stopped: SearchState, counted_before: u64)
    requires
        !args.fresh,
        args.chunk_size >= 1,
        args.start <= stopped.last_checked <= args.limit,
        stopped.found_count == count_after(
            counted_before,
            hits_between(args.start as nat, stopped.last_checked as nat).len(),
        ),
    ensures
        resumed(args, Some(stopped)).position == stopped.last_checked,
        resumed(args, Some(stopped)).found_count == stopped.found_count,
        hits_between(args.start as nat, stopped.last_checked as nat) + chunked_hits(
            resumed(args, Some(stopped)).position as nat,
            args.chunk_size as nat,
            args.limit as nat,
        ) == chunked_hits(args.start as nat, args.chunk_size as nat, args.limit as nat),
        count_after(
            resumed(args, Some(stopped)).found_count,
            chunked_hits(
                resumed(args, Some(stopped)).position as nat,
                args.chunk_size as nat,
                args.limit as nat,
            ).len(),
        ) == count_after(
            counted_before,
            chunked_hits(args.start as nat, args.chunk_size as nat, args.limit as nat).len(),
        ),
        forall|i: int, j: int|
            0 <= i < j < chunked_hits(
                args.start as nat,
                args.chunk_size as nat,
                args.limit as nat,
            ).len() ==> (#[trigger] chunked_hits(
                args.start as nat,
                args.chunk_size as nat,
                args.limit as nat,
            )[i]) < (#[trigger] chunked_hits(
                args.start as nat,
                args.chunk_size as nat,
                args.limit as nat,
            )[j]),
{
    let start: nat = args.start as nat;
    let stop: nat = stopped.last_checked as nat;
    let limit: nat = args.limit as nat;
    lemma_chunking_is_immaterial(stop, args.chunk_size as nat, limit);
    lemma_chunking_is_immaterial(start, args.chunk_size as nat, limit);
    lemma_hits_between_split(start, stop, limit);
    lemma_hits_between_exact(start, limit);
    lemma_count_after_adds(
        counted_before,
        hits_between(start, stop).len(),
        hits_between(stop, limit).len(),
    );
}

/// Whether the progress is due to be recorded, `elapsed_secs` whole seconds
/// after it was last recorded.
pub fn checkpoint_due(elapsed_secs: u64) -> (due: bool)
    ensures
        due == (elapsed_secs >= STATE_SAVE_INTERVAL_SECS),
{
    elapsed_secs >= STATE_SAVE_INTERVAL_SECS
}

/// A run of the search.
pub struct SearchRun {
    state: SearchState,
    start_from: u64,
    chunk_size: u64,
    counted_before: Ghost<u64>,
    progress: Progress,
    finished: bool,
}

/// What a chunk changes, changed in one step.
#[derive(Clone, Copy)]
struct Progress {
    position: u64,
    found_count: u64,
    last_found: u64,
}

impl View for SearchRun {
    type V = RunView;

    closed spec fn view(&self) -> RunView {
        RunView {
            start_from: self.start_from,
            position: self.progress.position,
            limit: self.state.limit,
            chunk_size: self.chunk_size,
            found_count: self.progress.found_count,
            counted_before: self.counted_before@,
            last_found: self.progress.last_found,
            version: self.state.version,
            finished: self.finished,
        }
    }
}

impl RunView {
    /// There is something left to scan.
    pub open spec fn is_scanning(self) -> bool {
        !self.finished && self.position < self.limit
    }

    /// Where the next chunk ends.
    pub open spec fn next_end(self) -> u64 {
        chunk_end(self.position as nat, self.chunk_size as nat, self.limit as nat) as u64
    }

    /// A run never goes back, it advances where there is something to
    /// scan, and it has counted each productive number between the place
    /// where it began and its position once.
    pub open spec fn well_formed(self) -> bool {
        &&& self.start_from <= self.position
        &&& self.chunk_size >= 1
        &&& self.position <= self.limit || self.position == self.start_from
        &&& self.found_count == count_after(
            self.counted_before,
            hits_between(self.start_from as nat, self.position as nat).len(),
        )
    }
}

impl SearchRun {
    #[verifier::type_invariant]
    spec fn holds_together(&self) -> bool {
        self@.well_formed()
    }

    /// Begins a run: from what was recorded by an earlier one, or from the
    /// start when a fresh run is asked for or nothing was recorded. The
    /// limit is the one asked for now, whatever the record holds. A run
    /// that has nothing left to scan is over at once.
    pub fn resume(args: &Args, persisted: Option<SearchState>) -> (run: SearchRun)
        requires
            args.chunk_size >= 1,
        ensures
            run@ == resumed(*args, persisted),
            run@.well_formed(),
    {
        let mut state: SearchState = if args.fresh {
            SearchState::new(args.start, args.limit)
        } else {
            match persisted {
                Some(kept) => kept,
                None => SearchState::new(args.start, args.limit),
            }
        };
        if state.limit != args.limit {
            state.limit = args.limit;
        }
        let start_from: u64 = if state.last_checked >= args.start {
            state.last_checked
        } else {
            args.start
        };
        let found_count: u64 = state.found_count;
        proof {
            lemma_hits_between_exact(start_from as nat, start_from as nat);
        }
        SearchRun {
            state,
            start_from,
            chunk_size: args.chunk_size,
            counted_before: Ghost(found_count),
            progress: Progress { position: start_from, found_count, last_found: 0 },
            finished: start_from >= args.limit,
        }
    }

    /// Where this run began.
    pub fn start_from(&self) -> (start_from: u64)
        ensures
            start_from == self@.start_from,
            self@.well_formed(),
    {
        proof {
            use_type_invariant(self);
        }
        self.start_from
    }

    /// The next number that has not been looked at.
    pub fn position(&self) -> (position: u64)
        ensures
            position == self@.position,
    {
        self.progress.position
    }

    /// The end of the search.
    pub fn limit(&self) -> (limit: u64)
        ensures
            limit == self@.limit,
    {
        self.state.limit
    }

    /// How many productive numbers were found, earlier runs included.
    pub fn found_count(&self) -> (found_count: u64)
        ensures
            found_count == self@.found_count,
    {
        self.progress.found_count
    }

    /// The productive number found last in this run, or 0.
    pub fn last_found(&self) -> (last_found: u64)
        ensures
            last_found == self@.last_found,
    {
        self.progress.last_found
    }

    /// How many numbers this run has looked at.
    pub fn processed(&self) -> (processed: u64)
        ensures
            processed == self@.position - self@.start_from,
    {
        proof {
            use_type_invariant(self);
        }
        self.progress.position - self.start_from
    }

    /// Where the run stands, given whether it was asked to stop.
    pub fn phase(&self, cancelled: bool) -> (phase: Phase)
        ensures
            phase == if self@.finished {
                Phase::Done
            } else if self@.position < self@.limit && !cancelled {
                Phase::Scanning
            } else {
                Phase::Draining
            },
    {
        if self.finished {
            Phase::Done
        } else if self.progress.position < self.state.limit && !cancelled {
            Phase::Scanning
        } else {
            Phase::Draining
        }
    }

    /// The next chunk: from the position up to, but not including, where
    /// the chunk ends. It is empty when nothing is left to scan.
    pub fn next_chunk(&self) -> (chunk: (u64, u64))
        ensures
            chunk.0 == self@.position,
            chunk.1 == if self@.is_scanning() {
                self@.next_end()
            } else {
                self@.position
            },
    {
        let position: u64 = self.progress.position;
        if self.finished || position >= self.state.limit {
            return (position, position);
        }
        let end: u64 = if self.state.limit - position <= self.chunk_size {
            self.state.limit
        } else {
            position + self.chunk_size
        };
        (position, end)
    }

    /// Evaluates the next chunk and returns its hits for the caller to
    /// write down: the productive numbers of the chunk in increasing order.
    /// The count goes up by their number and the position moves to the end
    /// of the chunk. When nothing is left to scan, nothing happens.
    pub fn scan_next_chunk(&mut self, sieve: &Sieve) -> (hits: Vec<u64>)
        ensures
            hits@ == hits_between(old(self)@.position as nat, final(self)@.position as nat),
            final(self)@ == if old(self)@.is_scanning() {
                RunView {
                    position: old(self)@.next_end(),
                    found_count: count_after(old(self)@.found_count, hits@.len()),
                    last_found: if hits@.len() > 0 {
                        hits@.last()
                    } else {
                        old(self)@.last_found
                    },
                    ..old(self)@
                }
            } else {
                old(self)@
            },
            final(self)@.position >= old(self)@.position,
            final(self)@.well_formed(),
    {
        proof {
            use_type_invariant(&*self);
        }
        let (start, end) = self.next_chunk();
        let hits: Vec<u64> = par_filter_productive(sieve, start, end);
        if start < end {
            let found: usize = hits.len();
            proof {
                lemma_hits_between_split(self.start_from as nat, start as nat, end as nat);
                lemma_count_after_adds(
                    self.counted_before@,
                    hits_between(self.start_from as nat, start as nat).len(),
                    hits@.len(),
                );
            }
            let last_found: u64 = if found > 0 {
                hits[found - 1]
            } else {
                self.progress.last_found
            };
            self.progress = Progress {
                position: end,
                found_count: self.progress.found_count.wrapping_add(found as u64),
                last_found,
            };
        } else {
            proof {
                reveal_with_fuel(Seq::filter, 1);
                assert(candidates(start as nat, end as nat) =~= Seq::<u64>::empty());
            }
        }
        hits
    }

    /// Records the progress, at the present moment: the position, the
    /// limit and the count. The run itself goes on as it was.
    pub fn checkpoint(&mut self) -> (record: SearchState)
        ensures
            record.last_checked == old(self)@.position,
            record.limit == old(self)@.limit,
            record.found_count == old(self)@.found_count,
            record.version == old(self)@.version,
            final(self)@ == old(self)@,
    {
        proof {
            use_type_invariant(&*self);
        }
        self.state.last_checked = self.progress.position;
        self.state.found_count = self.progress.found_count;
        self.state.timestamp = current_timestamp();
        SearchState {
            last_checked: self.state.last_checked,
            limit: self.state.limit,
            found_count: self.state.found_count,
            timestamp: self.state.timestamp.clone(),
            version: self.state.version,
        }
    }

    /// Records the progress for the last time and ends the run.
    pub fn finish(&mut self) -> (record: SearchState)
        ensures
            record.last_checked == old(self)@.position,
            record.limit == old(self)@.limit,
            record.found_count == old(self)@.found_count,
            record.version == old(self)@.version,
            final(self)@ == (RunView { finished: true, ..old(self)@ }),
    {
        let record: SearchState = self.checkpoint();
        proof {
            use_type_invariant(&*self);
        }
        self.finished = true;
        record
    }
}

} // verus!
