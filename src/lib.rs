//! A replicated ledger whose peers agree on one order of transactions through
//! Lamport-clock mutual exclusion: a logical clock, a request queue ordered by
//! (timestamp, participant id), a hash-chained block log, a balance table, and
//! the event-driven coordinator that ties them together.

pub mod lamport;
pub mod balance_table;
pub mod blockchain;
pub mod utils;
pub mod client;
