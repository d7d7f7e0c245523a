use vstd::prelude::*;

verus! {

/// An offset between two hex cells, in axial coordinates.
#[derive(Debug, Clone, Copy, PartialEq, Eq, Structural)]
pub struct Delta {
    pub dx: i16,
    pub dy: i16,
}

/// Absolute value of a mathematical integer.
pub open spec fn abs_int(v: int) -> int {
    if v < 0 {
        -v
    } else {
        v
    }
}

/// Hex distance of an axial offset from the origin: an axial pair (dx, dy)
/// corresponds to the cube triple (dx, dy, -dx - dy), and the distance is
/// half the sum of the absolute cube components.
pub open spec fn hex_norm(dx: int, dy: int) -> int {
    (abs_int(dx) + abs_int(dy) + abs_int(dx + dy)) / 2
}

impl Delta {
    pub fn new(dx: i16, dy: i16) -> (d: Delta)
        ensures
            d == (Delta { dx, dy }),
    {
        Delta { dx, dy }
    }

    pub fn dx(&self) -> (r: i16)
        ensures
            r == self.dx,
    {
        self.dx
    }

    pub fn dy(&self) -> (r: i16)
        ensures
            r == self.dy,
    {
        self.dy
    }

    /// The opposite offset.
    pub fn invert(&self) -> (d: Delta)
        requires
            self.dx > i16::MIN,
            self.dy > i16::MIN,
        ensures
            d.dx == -self.dx,
            d.dy == -self.dy,
    {
        Delta { dx: -self.dx, dy: -self.dy }
    }

    /// Hex distance of this offset from the origin.
    pub fn norm(&self) -> (r: i16)
        requires
            hex_norm(self.dx as int, self.dy as int) <= i16::MAX,
        ensures
            r == hex_norm(self.dx as int, self.dy as int),
    {
        let dx: i32 = self.dx as i32;
        let dy: i32 = self.dy as i32;
        let ax: i32 = if dx < 0 { -dx } else { dx };
        let ay: i32 = if dy < 0 { -dy } else { dy };
        let s: i32 = dx + dy;
        let az: i32 = if s < 0 { -s } else { s };
        ((ax + ay + az) / 2) as i16
    }
}

} // verus!
