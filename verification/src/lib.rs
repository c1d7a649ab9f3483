//! A falling-block puzzle engine: a 24 x 10 board of cells, the seven
//! tetromino shapes with their moves and rotations, a shuffled supply of
//! shapes, and the rules that lock pieces, clear rows and end the game.

pub mod board;
pub mod colors;
pub mod gamegrid;
pub mod piece;
pub mod supply;
pub mod timer;

pub use gamegrid::{Cell, CellStatus, CellView, Grid, GridError};
pub use piece::{Piece, PieceShape};
pub use supply::{DrawSource, PieceGenerator};
pub use timer::CycleTimer;
