//! A game-tree search engine for a two-player connection game on a 9 x 7
//! grid: bitboard state with incremental Zobrist hashing and cached terminal
//! scoring, negamax search with alpha-beta pruning and a transposition
//! table, and a time-boxed iterative-deepening driver.

pub mod bits;
pub mod board;
pub mod laws;
pub mod search;
pub mod state;
pub mod table;
pub mod zobrist;
