//! Chess positions on 64-bit bitboards: leaper and slider reachability,
//! check detection, and the FEN text format.
pub mod bitboard;
pub mod moves;
pub mod fill;
pub mod text;
pub mod square;
pub mod ply;
pub mod board;
pub mod position;
pub mod fen;
pub mod game;
pub mod utils;
pub mod input;
pub mod commands;
pub mod feedback;
