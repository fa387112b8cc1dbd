//! The core of a chess engine: square sets and attack tables, a pseudo-legal
//! move generator, a position that moves can be made on and taken back
//! from, a static evaluation, and a negamax search to a fixed depth.
//!
//! Squares are numbered 0 to 63 from a8 (0) along the eighth rank to h8 (7)
//! and on, rank by rank, down to h1 (63). White plays towards square 0.
//!
//! Castling moves and promotions are not generated; the castling rights
//! and the promotion flag of a move are only kept. A pawn that moves onto
//! the en-passant square does not take the pawn it passed.
pub mod attacks;
pub mod bits;
pub mod board;
pub mod constants;
pub mod eval;
pub mod fen;
pub mod generate;
pub mod invariants;
pub mod legality;
pub mod magic;
pub mod move_generation;
pub mod piece_parsing;
pub mod search;
pub mod sets;
pub mod setup;
pub mod utils;
