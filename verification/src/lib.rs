//! A verified decision engine for unbounded-board five-in-a-row.
//!
//! The crate models the board as an append-only set of tagged moves,
//! evaluates positions with a per-line heuristic over an exact
//! fixed-point score algebra, and searches for moves with a
//! bounded-beam alternating minimax over a reusable suggestion tree.

pub mod api;
pub mod board;
pub mod direction;
pub mod error;
pub mod gameplay;
pub mod mv;
pub mod score;
pub mod suggestion;
