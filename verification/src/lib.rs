//! Rules engine of a falling-block puzzle game: the playing field, piece
//! geometry and kinematics, wall kicks, the seven-piece bag, the hold slot and
//! the classification of line clears.

pub mod board;
pub mod clearing;
pub mod constants;
pub mod enums;
pub mod game;
pub mod holder;
pub mod piece_bag;
pub mod pieces;
pub mod score;
pub mod test_utils;
