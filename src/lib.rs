//! A chess rules engine and the move-selection strategies that play it: squares and bit
//! boards, positions, pseudo-legal move generation, and searches from random play to
//! alpha-beta. Every function states its behaviour in its contract and is proved to meet it.

pub mod bitboard;
pub mod board;
pub mod fen;
pub mod game;
pub mod moves;
pub mod piece;
pub mod player;
pub mod pos;
pub mod random;
pub mod render;
pub mod rules;
pub mod san;
pub mod search;
