//! The palette of the board: one colour for open cells and one per shape.

use vstd::prelude::*;

verus! {

/// A display colour. The engine only stores and compares colours; turning
/// one into channel values is left to whoever draws the board.
#[derive(Debug, Clone, Copy, PartialEq, Eq, Structural)]
pub enum Color {
    LightGrey,
    Black,
    LightBlue,
    Blue,
    Orange,
    Yellow,
    Green,
    Red,
    Purple,
}

/// The colour of every open cell.
pub const OPEN_COLOR: Color = Color::LightGrey;

pub const BLACK: Color = Color::Black;

pub const LIGHT_BLUE: Color = Color::LightBlue;

pub const BLUE: Color = Color::Blue;

pub const ORANGE: Color = Color::Orange;

pub const YELLOW: Color = Color::Yellow;

pub const GREEN: Color = Color::Green;

pub const RED: Color = Color::Red;

pub const PURPLE: Color = Color::Purple;

} // verus!
