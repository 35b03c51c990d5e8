//! The configuration of a search and the rules that it has to meet before
//! any scanning begins.

use vstd::prelude::*;
use crate::decimal::{parse_u64, parsed_u64};

verus! {

/// The smallest chunk that a search may be run with.
pub const MIN_CHUNK_SIZE: u64 = 1_000;

/// The largest chunk that a search may be run with.
pub const MAX_CHUNK_SIZE: u64 = 100_000_000;

/// Why a configuration is refused.
#[derive(Clone, Copy, Debug, PartialEq, Eq, Structural)]
pub enum ConfigError {
    /// The text is not a number of 64 bits.
    NotANumber,
    /// The value is 0 where it has to be positive.
    NotPositive,
    /// The chunk size is below `MIN_CHUNK_SIZE`.
    ChunkTooSmall,
    /// The chunk size is above `MAX_CHUNK_SIZE`.
    ChunkTooLarge,
    /// The start is not below the limit.
    StartNotBelowLimit,
}

/// The configuration of a search, as given on the command line.
#[derive(Debug)]
pub struct Args {
    /// The first number to look at.
    pub start: u64,
    /// The end of the search: the first number that is not looked at.
    pub limit: u64,
    /// Where the progress is kept between runs.
    pub state_file: String,
    /// Where the productive numbers are written.
    pub output_file: String,
    /// How many numbers are handed out for evaluation at a time.
    pub chunk_size: u64,
    /// Whether to start at `start` whatever progress was kept.
    pub fresh: bool,
    /// Whether to show no progress.
    pub quiet: bool,
    /// How much to tell about the run.
    pub verbose: u8,
}

/// The rule for a value that has to be positive.
pub open spec fn positive_or_error(parsed: Option<u64>) -> Result<u64, ConfigError> {
    match parsed {
        None => Err(ConfigError::NotANumber),
        Some(value) => if value == 0 {
            Err(ConfigError::NotPositive)
        } else {
            Ok(value)
        },
    }
}

/// The rule for a chunk size.
pub open spec fn chunk_size_or_error(parsed: Option<u64>) -> Result<u64, ConfigError> {
    match parsed {
        None => Err(ConfigError::NotANumber),
        Some(value) => if value < MIN_CHUNK_SIZE {
            Err(ConfigError::ChunkTooSmall)
        } else if value > MAX_CHUNK_SIZE {
            Err(ConfigError::ChunkTooLarge)
        } else {
            Ok(value)
        },
    }
}

/// Accepts what was read for a value that has to be positive.
pub fn check_positive(parsed: Option<u64>) -> (checked: Result<u64, ConfigError>)
    ensures
        checked == positive_or_error(parsed),
{
    match parsed {
        None => Err(ConfigError::NotANumber),
        Some(value) => {
            if value == 0 {
                return Err(ConfigError::NotPositive);
            }
            Ok(value)
        },
    }
}

/// Accepts what was read for a chunk size.
pub fn check_chunk_size(parsed: Option<u64>) -> (checked: Result<u64, ConfigError>)
    ensures
        checked == chunk_size_or_error(parsed),
{
    match parsed {
        None => Err(ConfigError::NotANumber),
        Some(value) => {
            if value < MIN_CHUNK_SIZE {
                return Err(ConfigError::ChunkTooSmall);
            }
            if value > MAX_CHUNK_SIZE {
                return Err(ConfigError::ChunkTooLarge);
            }
            Ok(value)
        },
    }
}

/// Reads a value that has to be a positive number.
pub fn validate_positive(text: &str) -> (checked: Result<u64, ConfigError>)
    ensures
        checked == positive_or_error(parsed_u64(text@)),
{
    check_positive(parse_u64(text))
}

/// Reads a chunk size, which has to lie between `MIN_CHUNK_SIZE` and
/// `MAX_CHUNK_SIZE`.
pub fn validate_chunk_size(text: &str) -> (checked: Result<u64, ConfigError>)
    ensures
        checked == chunk_size_or_error(parsed_u64(text@)),
{
    check_chunk_size(parse_u64(text))
}

impl Args {
    /// Checks that the start is below the limit.
    pub fn validate(&self) -> (checked: Result<(), ConfigError>)
        ensures
            checked == if self.start >= self.limit {
                Err::<(), ConfigError>(ConfigError::StartNotBelowLimit)
            } else {
                Ok::<(), ConfigError>(())
            },
    {
        if self.start >= self.limit {
            return Err(ConfigError::StartNotBelowLimit);
        }
        Ok(())
    }
}

} // verus!
