//! The progress of a search as it is kept between runs.

use vstd::prelude::*;

verus! {

/// The progress of a search: where to go on, up to where, and how many
/// productive numbers were found so far.
#[derive(Debug)]
pub struct SearchState {
    /// The next number that has not been looked at.
    pub last_checked: u64,
    /// The end of the search: the first number that is not looked at.
    pub limit: u64,
    /// How many productive numbers were found so far.
    pub found_count: u64,
    /// When the progress was last recorded, in local time.
    pub timestamp: String,
    /// The version of the record's format.
    pub version: u32,
}

/// The version that a record without one is taken to have.
pub fn default_version() -> (version: u32)
    ensures
        version == 1,
{
    1
}

/// Reads the clock with `chrono::Local::now` and writes the moment as year,
/// month, day, hour, minute and second. Nothing is claimed of the text: it
/// depends on the clock and on the time zone of the machine.
#[verifier::external_body]
pub(crate) fn current_timestamp() -> (stamp: String) {
    chrono::Local::now().format("%Y-%m-%d %H:%M:%S").to_string()
}

impl SearchState {
    /// The progress of a search that has found nothing yet and goes on at
    /// `start`, recorded now.
    pub fn new(start: u64, limit: u64) -> (state: SearchState)
        ensures
            state.last_checked == start,
            state.limit == limit,
            state.found_count == 0,
            state.version == 1,
    {
        SearchState {
            last_checked: start,
            limit,
            found_count: 0,
            timestamp: current_timestamp(),
            version: default_version(),
        }
    }
}

} // verus!
