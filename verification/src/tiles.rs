//! Tiles: their colours, shapes and per-tile record.

use vstd::prelude::*;

verus! {

/// The colour printed on a tile.
#[derive(Clone, Copy, Debug, PartialEq, Eq, PartialOrd, Ord, Hash, Structural)]
pub enum Color {
    Blue,
    Red,
    Yellow,
}

/// The shape printed on a tile.
#[derive(Clone, Copy, Debug, PartialEq, Eq, PartialOrd, Ord, Hash, Structural)]
pub enum Shape {
    Diamond,
    Circle,
    Triangle,
}

/// A cell of the board: column `x`, counted from the left, and row `y`,
/// counted from the bottom.
#[derive(Clone, Copy, Debug, PartialEq, Eq, Hash, Structural)]
pub struct Position {
    pub x: u32,
    pub y: u32,
}

/// What the engine records for each live tile.
#[derive(Clone, Copy, Debug, PartialEq, Eq, Structural)]
pub struct TileBundle {
    /// The cell the tile occupies.
    pub position: Position,
    pub color: Color,
    pub shape: Shape,
    /// `false` while a tile is logically gone but still shown.
    pub visible: bool,
}

impl Color {
    /// Place of the colour in the order Blue < Red < Yellow.
    pub open spec fn rank(self) -> nat {
        match self {
            Color::Blue => 0,
            Color::Red => 1,
            Color::Yellow => 2,
        }
    }

    /// The colour that a draw stands for: 0 is Blue, 1 is Red, anything else Yellow.
    pub open spec fn of_draw(draw: u8) -> Color {
        if draw == 0 {
            Color::Blue
        } else if draw == 1 {
            Color::Red
        } else {
            Color::Yellow
        }
    }

    /// Turns a drawn number into a colour.
    pub fn from_draw(draw: u8) -> (color: Color)
        ensures
            color == Color::of_draw(draw),
            draw <= 2 ==> color.rank() == draw,
    {
        match draw {
            0 => Color::Blue,
            1 => Color::Red,
            _ => Color::Yellow,
        }
    }

    /// The colour's place in its order, as a number.
    pub fn index(self) -> (r: u8)
        ensures
            r == self.rank(),
    {
        match self {
            Color::Blue => 0,
            Color::Red => 1,
            Color::Yellow => 2,
        }
    }
}

impl Shape {
    /// Place of the shape in the order Diamond < Circle < Triangle.
    pub open spec fn rank(self) -> nat {
        match self {
            Shape::Diamond => 0,
            Shape::Circle => 1,
            Shape::Triangle => 2,
        }
    }

    /// The shape that a draw stands for: 0 is Diamond, 1 is Circle, anything else Triangle.
    pub open spec fn of_draw(draw: u8) -> Shape {
        if draw == 0 {
            Shape::Diamond
        } else if draw == 1 {
            Shape::Circle
        } else {
            Shape::Triangle
        }
    }

    /// Turns a drawn number into a shape.
    pub fn from_draw(draw: u8) -> (shape: Shape)
        ensures
            shape == Shape::of_draw(draw),
            draw <= 2 ==> shape.rank() == draw,
    {
        match draw {
            0 => Shape::Diamond,
            1 => Shape::Circle,
            _ => Shape::Triangle,
        }
    }

    /// The shape's place in its order, as a number.
    pub fn index(self) -> (r: u8)
        ensures
            r == self.rank(),
    {
        match self {
            Shape::Diamond => 0,
            Shape::Circle => 1,
            Shape::Triangle => 2,
        }
    }
}

/// Index of a tile's picture in a sheet of three rows of three: the colour
/// picks the column, the shape the row.
pub open spec fn texture_slot(color: Color, shape: Shape) -> nat {
    color.rank() + 3 * shape.rank()
}

/// Computes the picture index for a colour and a shape.
pub fn texture_index(color: Color, shape: Shape) -> (index: u32)
    ensures
        index == texture_slot(color, shape),
        index < 9,
{
    let c: u32 = match color {
        Color::Blue => 0,
        Color::Red => 1,
        Color::Yellow => 2,
    };
    let s: u32 = match shape {
        Shape::Diamond => 0,
        Shape::Circle => 3,
        Shape::Triangle => 6,
    };
    c + s
}

} // verus!
