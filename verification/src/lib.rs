//! A verified Reversi (Othello) engine core: bitboard move generation and
//! move application, the game-status classifier, a positional evaluator,
//! negamax search with alpha-beta pruning and a root-parallel variant, a
//! Zobrist-keyed transposition table, and a symmetry-aware opening book
//! with its textual key grammar.

pub mod args;
pub mod board;
pub mod engine;
pub mod eval;
pub mod game;
pub mod notation;
pub mod openingbook;
pub mod persist;
pub mod session;
pub mod utils;
pub mod zobrist;
