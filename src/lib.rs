//! Core of a currency-exchange market: the lock-contract archives, the
//! clock that sweeps expired locks, the weekly discount schedule, the
//! ordered validation gates of the four trading operations, and the
//! split of the starting capital.
//!
//! Amounts of currency are kept by the caller; contracts carry them as
//! opaque terms.

pub mod kind;
pub mod archive;
pub mod token;
pub mod schedule;
pub mod book;
pub mod capital;
