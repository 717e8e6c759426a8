//! A move-search engine for a seven-by-six connection game: a packed
//! bitboard, win and tie detection, a position cache keyed by Zobrist
//! hashes, and an alpha-beta negamax search.

pub mod color;
pub mod gamestate;
pub mod transposition;
pub mod engine;
