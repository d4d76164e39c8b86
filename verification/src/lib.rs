//! A two-player grid game (generalized tic-tac-toe on a rectangular board)
//! together with a perfect-play search engine that computes the game-theoretic
//! value of a position and the best next move for the side to act.

pub mod ai;
pub mod tac;
