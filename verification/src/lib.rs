//! Exact Texas Hold'em equity and outs computation.
//!
//! The crate ranks 7-card poker hands, enumerates board completions
//! exhaustively, and aggregates exact win/tie/lose statistics, with a
//! two-player turn-outs analysis on top. All probabilities are kept as
//! integer counts and fixed-point shares; callers divide once at the end.

pub mod binom;
pub mod card;
pub mod combos;
pub mod equity;
pub mod eval;
pub mod hand_spec;
pub mod oracle;
pub mod outs;
pub mod rank;
