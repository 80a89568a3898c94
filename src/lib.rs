//! A fixed-depth search engine for 7x7 Tafl: bitboard positions with
//! reversible moves and incremental Zobrist hashing, an ordered move
//! generator, a static evaluation, a transposition table and an
//! iterative-deepening negamax search with alpha-beta pruning.
pub mod bits;

pub mod zobrist;
pub mod board;
pub mod ttable;
pub mod movegen;
pub mod eval;
pub mod engine;
pub mod notation;
