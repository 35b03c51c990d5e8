//! Search for productive numbers: integers `N` such that `N + 1` is prime and,
//! for every way of cutting the decimal digits of `N` into a left part `A` and
//! a right part `B`, `A * B + 1` is prime as well.
//!
//! The crate holds the primality oracle (a sieve for small numbers, division
//! by a few small primes and Miller-Rabin with witness sets chosen by
//! magnitude), the predicate built on it, and the bookkeeping of a chunked,
//! resumable scan over a range of candidates.
//!
//! - `primes`, `fermat`: what a prime is, and the number theory that the
//!   proofs rest on.
//! - `sieve`, `modular`, `miller_rabin`, `oracle`: the primality oracle.
//! - `digits`, `productive`: the predicate.
//! - `chunks`, `scheduler`, `state`, `config`, `decimal`, `failure`: the
//!   search.

pub mod chunks;
pub mod config;
pub mod decimal;
pub mod digits;
pub mod failure;
pub mod fermat;
pub mod miller_rabin;
pub mod modular;
pub mod oracle;
pub mod primes;
pub mod productive;
pub mod scheduler;
pub mod sieve;
pub mod state;
