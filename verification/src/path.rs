use vstd::prelude::*;

use crate::direction::Direction;
use crate::position::Position;

verus! {

/// A proposed walk across the board: a start cell, a sequence of direction
/// steps, and the claimed arrival cell. A path is plain client input; the
/// action resolver checks contiguity, bounds, and cost before trusting it.
#[derive(Debug, Clone)]
pub struct Path {
    pub steps: Vec<Direction>,
    pub start: Position,
    pub end: Position,
}

/// The mathematical content of a path.
#[verifier::ext_equal]
pub ghost struct PathView {
    pub steps: Seq<Direction>,
    pub start: Position,
    pub end: Position,
}

impl View for Path {
    type V = PathView;

    open spec fn view(&self) -> PathView {
        PathView { steps: self.steps@, start: self.start, end: self.end }
    }
}

impl Path {
    pub fn new(path: Vec<Direction>, start: Position, end: Position) -> (p: Path)
        ensures
            p@.steps == path@,
            p@.start == start,
            p@.end == end,
    {
        Path { steps: path, start, end }
    }

    /// A copy with the same steps and endpoints.
    pub fn duplicate(&self) -> (p: Path)
        ensures
            p@ == self@,
    {
        let steps = self.steps.clone();
        proof {
            assert forall|i: int| 0 <= i < steps@.len() implies steps@[i] == self.steps@[i] by {
                assert(vstd::pervasive::cloned::<crate::direction::Direction>(
                    self.steps@[i],
                    steps@[i],
                ));
            }
            assert(steps@ =~= self.steps@);
        }
        Path { steps, start: self.start, end: self.end }
    }

    pub fn start(&self) -> (r: Position)
        ensures
            r == self@.start,
    {
        self.start
    }

    pub fn end(&self) -> (r: Position)
        ensures
            r == self@.end,
    {
        self.end
    }
}

} // verus!
