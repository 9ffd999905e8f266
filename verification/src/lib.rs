//! A fantasy-football league rule checker.
//!
//! The crate builds lookup indexes from a bootstrap snapshot of clubs and
//! players, assembles a team from its gameweek picks, and evaluates a small
//! fixed set of league house rules against the team, producing human-readable
//! violation messages.

pub mod api;
pub mod builders;
pub mod models;
pub mod text;
pub mod validators;
