//! A two-player wagered 15-puzzle: the tile engine and the match coordinator.
//!
//! Two registered participants each put up a stake, pair as opponents and race
//! to bring a 4x4 sliding-tile board into the solved arrangement. The first to
//! do so collects both stakes.
//!
//! - [`tiles`] checks a board: sixteen distinct values, inversion parity, and
//!   the detector for boards that are too easy.
//! - [`moves`] checks one move of the blank and recognises the solved board.
//! - [`account`] holds the names by which participants are known.
//! - [`player`] holds the records kept for each participant.
//! - [`rules`] states, over plain mathematical values, what a store holds and
//!   how each operation changes it.
//! - [`pazzle`] is the store itself. Who calls, how much is attached to a
//!   call and the sending of money are the caller's business: every
//!   operation takes the calling account as an argument and hands back the
//!   transfer that is owed.
//! - [`laws`] proves what holds of boards, moves and stores in general.
//! - [`error`] lists the failures.

pub mod account;
pub mod error;
pub mod laws;
pub mod moves;
pub mod pazzle;
pub mod player;
pub mod rules;
pub mod tiles;
