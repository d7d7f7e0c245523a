use vstd::prelude::*;

use crate::delta::Delta;

verus! {

/// One of the six hex adjacency directions.
#[derive(Debug, Clone, Copy, PartialEq, Eq, Structural)]
pub enum Direction {
    Right,
    Left,
    UpRight,
    UpLeft,
    DownRight,
    DownLeft,
}

impl Direction {
    /// The unit axial offset of this direction.
    pub open spec fn spec_vec(self) -> Delta {
        match self {
            Direction::Right => Delta { dx: 1, dy: 0 },
            Direction::DownRight => Delta { dx: 1i16, dy: -1i16 },
            Direction::DownLeft => Delta { dx: 0i16, dy: -1i16 },
            Direction::Left => Delta { dx: -1i16, dy: 0i16 },
            Direction::UpLeft => Delta { dx: -1i16, dy: 1i16 },
            Direction::UpRight => Delta { dx: 0, dy: 1 },
        }
    }

    /// The direction pointing the opposite way.
    pub open spec fn spec_invert(self) -> Direction {
        match self {
            Direction::Right => Direction::Left,
            Direction::Left => Direction::Right,
            Direction::UpRight => Direction::DownLeft,
            Direction::UpLeft => Direction::DownRight,
            Direction::DownRight => Direction::UpLeft,
            Direction::DownLeft => Direction::UpRight,
        }
    }

    pub fn dir_vec(&self) -> (d: Delta)
        ensures
            d == self.spec_vec(),
    {
        match self {
            Direction::Right => Delta { dx: 1, dy: 0 },
            Direction::DownRight => Delta { dx: 1i16, dy: -1i16 },
            Direction::DownLeft => Delta { dx: 0i16, dy: -1i16 },
            Direction::Left => Delta { dx: -1i16, dy: 0i16 },
            Direction::UpLeft => Delta { dx: -1i16, dy: 1i16 },
            Direction::UpRight => Delta { dx: 0, dy: 1 },
        }
    }

    pub fn invert(&self) -> (d: Direction)
        ensures
            d == self.spec_invert(),
    {
        match self {
            Direction::Right => Direction::Left,
            Direction::Left => Direction::Right,
            Direction::UpRight => Direction::DownLeft,
            Direction::UpLeft => Direction::DownRight,
            Direction::DownRight => Direction::UpLeft,
            Direction::DownLeft => Direction::UpRight,
        }
    }

    /// All six directions, in the order a ring is walked.
    pub open spec fn spec_all() -> Seq<Direction> {
        seq![
            Direction::Right,
            Direction::DownRight,
            Direction::DownLeft,
            Direction::Left,
            Direction::UpLeft,
            Direction::UpRight,
        ]
    }

    /// All six directions as a vector.
    pub fn iter() -> (ds: Vec<Direction>)
        ensures
            ds@ == Direction::spec_all(),
    {
        let ds = vec![
            Direction::Right,
            Direction::DownRight,
            Direction::DownLeft,
            Direction::Left,
            Direction::UpLeft,
            Direction::UpRight,
        ];
        assert(ds@ =~= Direction::spec_all());
        ds
    }
}

} // verus!
