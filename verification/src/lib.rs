//! Election and vote lifecycle core: an election registry with a
//! Draft/Open/Closed state machine, an append-only vote ledger that
//! enforces at most one vote per voter per election, and a tally engine
//! that ranks candidates per position deterministically.

pub mod auth;
mod clock;
pub mod ledger;
pub mod models;
pub mod registry;
pub mod store;
pub mod tally;
pub mod voter;
