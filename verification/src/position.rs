use vstd::prelude::*;

use crate::delta::Delta;

verus! {

/// A cell coordinate on the board.
#[derive(Debug, Clone, Copy, PartialEq, Eq, Structural)]
pub struct Position {
    pub x: usize,
    pub y: usize,
}

impl Position {
    pub fn new(x: usize, y: usize) -> (p: Position)
        ensures
            p == (Position { x, y }),
    {
        Position { x, y }
    }

    pub fn x(&self) -> (r: usize)
        ensures
            r == self.x,
    {
        self.x
    }

    pub fn y(&self) -> (r: usize)
        ensures
            r == self.y,
    {
        self.y
    }

    /// Whether displacing this position by `delta` stays within coordinate
    /// range (no negative and no overflowing coordinate).
    pub open spec fn can_offset(self, delta: Delta) -> bool {
        &&& 0 <= self.x + delta.dx
        &&& self.x + delta.dx <= usize::MAX
        &&& 0 <= self.y + delta.dy
        &&& self.y + delta.dy <= usize::MAX
    }

    /// The position displaced by `delta`.
    pub open spec fn spec_offset(self, delta: Delta) -> Position {
        Position { x: (self.x + delta.dx) as usize, y: (self.y + delta.dy) as usize }
    }

    pub fn offset(&self, delta: Delta) -> (p: Position)
        requires
            self.can_offset(delta),
        ensures
            p == self.spec_offset(delta),
    {
        let x: usize = if delta.dx >= 0 {
            self.x + delta.dx as usize
        } else {
            self.x - (-(delta.dx as i32)) as usize
        };
        let y: usize = if delta.dy >= 0 {
            self.y + delta.dy as usize
        } else {
            self.y - (-(delta.dy as i32)) as usize
        };
        Position { x, y }
    }

    /// Hex distance between two positions.
    pub open spec fn spec_dist(self, other: Position) -> int {
        crate::delta::hex_norm(other.x - self.x, other.y - self.y)
    }

    /// Hex distance between two positions with board-sized coordinates.
    pub fn dist(&self, other: &Position) -> (r: i32)
        requires
            self.x <= 0x7fff,
            self.y <= 0x7fff,
            other.x <= 0x7fff,
            other.y <= 0x7fff,
        ensures
            r == self.spec_dist(*other),
    {
        let dx: i32 = other.x as i32 - self.x as i32;
        let dy: i32 = other.y as i32 - self.y as i32;
        let ax: i32 = if dx < 0 { -dx } else { dx };
        let ay: i32 = if dy < 0 { -dy } else { dy };
        let s: i32 = dx + dy;
        let az: i32 = if s < 0 { -s } else { s };
        (ax + ay + az) / 2
    }
}

} // verus!
