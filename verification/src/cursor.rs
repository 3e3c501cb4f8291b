//! Cursor movement over the board, wrapping at its edges.

use crate::tiles::Position;
use vstd::prelude::*;

verus! {

/// One of the four ways the cursor can step.
#[derive(Clone, Copy, Debug, PartialEq, Eq, Structural)]
pub enum Direction {
    Up,
    Down,
    Left,
    Right,
}

/// The cell reached by one step from `pos` on a board of the given size:
/// the neighbour in that direction, or the far edge when `pos` lies on the
/// near one.
pub open spec fn step_from(pos: Position, width: u32, height: u32, dir: Direction) -> Position {
    match dir {
        Direction::Up => Position { x: pos.x, y: if pos.y + 1 < height { (pos.y + 1) as u32 } else { 0 } },
        Direction::Down => Position {
            x: pos.x,
            y: if pos.y > 0 { (pos.y - 1) as u32 } else { (height - 1) as u32 },
        },
        Direction::Right => Position { x: if pos.x + 1 < width { (pos.x + 1) as u32 } else { 0 }, y: pos.y },
        Direction::Left => Position {
            x: if pos.x > 0 { (pos.x - 1) as u32 } else { (width - 1) as u32 },
            y: pos.y,
        },
    }
}

/// A cell lies on a board of the given size.
pub open spec fn on_board(pos: Position, width: u32, height: u32) -> bool {
    pos.x < width && pos.y < height
}

/// Steps the cursor once, wrapping round at the edge of the board.
pub fn move_cursor(pos: Position, width: u32, height: u32, dir: Direction) -> (next: Position)
    requires
        width >= 1,
        height >= 1,
    ensures
        next == step_from(pos, width, height, dir),
        on_board(pos, width, height) ==> on_board(next, width, height),
{
    match dir {
        Direction::Up => {
            if pos.y < height - 1 {
                Position { x: pos.x, y: pos.y + 1 }
            } else {
                Position { x: pos.x, y: 0 }
            }
        },
        Direction::Down => {
            if pos.y > 0 {
                Position { x: pos.x, y: pos.y - 1 }
            } else {
                Position { x: pos.x, y: height - 1 }
            }
        },
        Direction::Right => {
            if pos.x < width - 1 {
                Position { x: pos.x + 1, y: pos.y }
            } else {
                Position { x: 0, y: pos.y }
            }
        },
        Direction::Left => {
            if pos.x > 0 {
                Position { x: pos.x - 1, y: pos.y }
            } else {
                Position { x: width - 1, y: pos.y }
            }
        },
    }
}

/// The direction that undoes a step.
pub open spec fn opposite(dir: Direction) -> Direction {
    match dir {
        Direction::Up => Direction::Down,
        Direction::Down => Direction::Up,
        Direction::Left => Direction::Right,
        Direction::Right => Direction::Left,
    }
}

/// At an edge the cursor wraps: right of the last column is the first
/// column, left of the first is the last, and likewise for rows.
pub proof fn lemma_cursor_wraps(x: u32, y: u32, width: u32, height: u32)
    requires
        x < width,
        y < height,
    ensures
        step_from(Position { x: (width - 1) as u32, y }, width, height, Direction::Right)
            == (Position { x: 0, y }),
        step_from(Position { x: 0, y }, width, height, Direction::Left)
            == (Position { x: (width - 1) as u32, y }),
        step_from(Position { x, y: (height - 1) as u32 }, width, height, Direction::Up)
            == (Position { x, y: 0 }),
        step_from(Position { x, y: 0 }, width, height, Direction::Down)
            == (Position { x, y: (height - 1) as u32 }),
{
}

/// A step stays on the board, and the opposite step leads back.
pub proof fn lemma_step_has_inverse(pos: Position, width: u32, height: u32, dir: Direction)
    requires
        on_board(pos, width, height),
    ensures
        on_board(step_from(pos, width, height, dir), width, height),
        step_from(step_from(pos, width, height, dir), width, height, opposite(dir)) == pos,
{
}

} // verus!
