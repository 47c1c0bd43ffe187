//! The game rules of a small vertical space shooter: enemy kinds and their
//! sizes, the high-score board, and the decisions taken on each screen.

pub mod assets;
pub mod order;
pub mod score;
pub mod game;
