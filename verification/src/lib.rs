//! A rules-complete chess move-generation and game-state engine.
//!
//! The engine enumerates legal moves, tracks castling rights, en passant,
//! promotion, repetition and move-count draw thresholds, detects check,
//! checkmate and stalemate, and converts moves to and from algebraic
//! notation.  It is meant to be embedded as a pure rules oracle inside a
//! higher-level system that validates player-submitted moves.

pub mod algebraic;
pub mod engine;
pub mod moves;
pub mod notation;
pub mod msg;
pub mod outcome;
pub mod play;
pub mod state;
