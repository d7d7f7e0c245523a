use vstd::prelude::*;
use vstd::pervasive::VecAdditionalExecFns;

use crate::position::Position;
use crate::terrain::TerrainType;
use crate::unit::UnitId;

verus! {

/// Largest board side the engine accepts; keeps the dense cell index and
/// every hex distance within machine integer range.
pub const MAX_SIDE: usize = 0x7fff;

/// The spatial index of the board: per cell one terrain value, one height
/// value and at most one occupying unit, stored in dense row-major order.
#[derive(Debug)]
pub struct Grid {
    width: usize,
    height: usize,
    terrain: Vec<TerrainType>,
    heightmap: Vec<u8>,
    occupancy: Vec<Option<UnitId>>,
}

/// The mathematical content of a grid.
#[verifier::ext_equal]
pub ghost struct GridView {
    pub width: usize,
    pub height: usize,
    pub terrain: Seq<TerrainType>,
    pub heights: Seq<u8>,
    pub occupancy: Seq<Option<UnitId>>,
}

impl View for Grid {
    type V = GridView;

    closed spec fn view(&self) -> GridView {
        GridView {
            width: self.width,
            height: self.height,
            terrain: self.terrain@,
            heights: self.heightmap@,
            occupancy: self.occupancy@,
        }
    }
}

impl GridView {
    /// A grid is well formed when each dense cell vector covers the board
    /// exactly and the sides respect the engine's bound.
    pub open spec fn wf(self) -> bool {
        &&& self.width <= MAX_SIDE
        &&& self.height <= MAX_SIDE
        &&& self.terrain.len() == self.width * self.height
        &&& self.heights.len() == self.width * self.height
        &&& self.occupancy.len() == self.width * self.height
    }

    /// Whether a position lies on the board.
    pub open spec fn in_bounds(self, pos: Position) -> bool {
        pos.x < self.width && pos.y < self.height
    }

    /// The dense row-major cell index of a position.
    pub open spec fn index_of(self, pos: Position) -> int {
        pos.y * self.width + pos.x
    }

    /// The occupant of a cell.
    pub open spec fn occupant(self, pos: Position) -> Option<UnitId> {
        self.occupancy[self.index_of(pos)]
    }

    /// The terrain of a cell.
    pub open spec fn terrain_at(self, pos: Position) -> TerrainType {
        self.terrain[self.index_of(pos)]
    }
}

/// An in-bounds position's dense index lies within the board's cell count.
pub proof fn lemma_index_in_range(g: GridView, pos: Position)
    requires
        g.wf(),
        g.in_bounds(pos),
    ensures
        0 <= g.index_of(pos) < g.width * g.height,
{
    assert(pos.y * g.width + pos.x < g.width * g.height) by (nonlinear_arith)
        requires
            pos.x < g.width,
            pos.y < g.height,
    ;
}

/// Two distinct in-bounds positions have distinct dense indexes.
pub proof fn lemma_index_injective(g: GridView, a: Position, b: Position)
    requires
        g.wf(),
        g.in_bounds(a),
        g.in_bounds(b),
        g.index_of(a) == g.index_of(b),
    ensures
        a == b,
{
    assert(a.x == b.x && a.y == b.y) by (nonlinear_arith)
        requires
            a.x < g.width,
            b.x < g.width,
            a.y < g.height,
            b.y < g.height,
            a.y * g.width + a.x == b.y * g.width + b.x,
    ;
}

impl Grid {
    pub fn width(&self) -> (r: usize)
        ensures
            r == self@.width,
    {
        self.width
    }

    pub fn height(&self) -> (r: usize)
        ensures
            r == self@.height,
    {
        self.height
    }

    /// Whether a position lies on the board.
    pub fn in_bounds(&self, pos: Position) -> (r: bool)
        ensures
            r == self@.in_bounds(pos),
    {
        pos.x < self.width && pos.y < self.height
    }

    /// The dense cell index of an in-bounds position.
    fn idx(&self, pos: Position) -> (r: usize)
        requires
            self@.wf(),
            self@.in_bounds(pos),
        ensures
            r == self@.index_of(pos),
            r < self@.terrain.len(),
    {
        proof {
            lemma_index_in_range(self@, pos);
            assert(self@.width * self@.height <= 0x7fff * 0x7fff) by (nonlinear_arith)
                requires
                    self@.width <= 0x7fff,
                    self@.height <= 0x7fff,
            ;
        }
        pos.y * self.width + pos.x
    }

    /// A fresh board of the given size: all ground, level, empty.
    pub fn new(width: usize, height: usize) -> (g: Grid)
        requires
            width <= MAX_SIDE,
            height <= MAX_SIDE,
        ensures
            g@.wf(),
            g@.width == width,
            g@.height == height,
            forall|i: int|
                0 <= i < width * height ==> g@.terrain[i] == TerrainType::Ground
                    && g@.heights[i] == 0u8 && g@.occupancy[i] is None,
    {
        proof {
            assert(width * height <= 0x7fff * 0x7fff) by (nonlinear_arith)
                requires
                    width <= 0x7fff,
                    height <= 0x7fff,
            ;
        }
        let size = width * height;
        Grid {
            width,
            height,
            terrain: vec![TerrainType::Ground; size],
            heightmap: vec![0u8; size],
            occupancy: vec![None; size],
        }
    }

    /// The terrain of a cell, or nothing when the position is off the board.
    pub fn get_terrain_type(&self, pos: Position) -> (r: Option<&TerrainType>)
        requires
            self@.wf(),
        ensures
            match r {
                Some(t) => self@.in_bounds(pos) && *t == self@.terrain_at(pos),
                None => !self@.in_bounds(pos),
            },
    {
        if self.in_bounds(pos) {
            let i = self.idx(pos);
            Some(&self.terrain[i])
        } else {
            None
        }
    }

    /// The occupant of an in-bounds cell.
    pub fn occupant_at(&self, pos: Position) -> (r: Option<UnitId>)
        requires
            self@.wf(),
            self@.in_bounds(pos),
        ensures
            r == self@.occupant(pos),
    {
        let i = self.idx(pos);
        self.occupancy[i]
    }

    /// Record which unit, if any, stands on an in-bounds cell.
    pub fn set_occupancy(&mut self, pos: Position, unit: Option<UnitId>)
        requires
            old(self)@.wf(),
            old(self)@.in_bounds(pos),
        ensures
            final(self)@ == (GridView {
                occupancy: old(self)@.occupancy.update(old(self)@.index_of(pos), unit),
                ..old(self)@
            }),
    {
        let i = self.idx(pos);
        self.occupancy.set(i, unit);
    }

    /// Change the terrain of an in-bounds cell.
    pub fn set_terrain(&mut self, pos: Position, terrain: TerrainType)
        requires
            old(self)@.wf(),
            old(self)@.in_bounds(pos),
        ensures
            final(self)@ == (GridView {
                terrain: old(self)@.terrain.update(old(self)@.index_of(pos), terrain),
                ..old(self)@
            }),
    {
        let i = self.idx(pos);
        self.terrain.set(i, terrain);
    }

    /// Move an occupant: vacate `from` and put whatever stood there on `to`.
    /// The caller guarantees `to` was vacant or is the same cell.
    pub fn move_occupancy(&mut self, from: Position, to: Position)
        requires
            old(self)@.wf(),
            old(self)@.in_bounds(from),
            old(self)@.in_bounds(to),
        ensures
            final(self)@ == (GridView {
                occupancy: old(self)@.occupancy.update(old(self)@.index_of(from), None).update(
                    old(self)@.index_of(to),
                    old(self)@.occupant(from),
                ),
                ..old(self)@
            }),
    {
        let i = self.idx(from);
        let u = self.occupancy[i];
        self.occupancy.set(i, None);
        let j = self.idx(to);
        self.occupancy.set(j, u);
    }

    /// Duplicate the board, for snapshots.
    pub fn duplicate(&self) -> (g: Grid)
        ensures
            g@ == self@,
    {
        let mut terrain: Vec<TerrainType> = Vec::new();
        let mut heightmap: Vec<u8> = Vec::new();
        let mut occupancy: Vec<Option<UnitId>> = Vec::new();
        let mut i: usize = 0;
        while i < self.terrain.len()
            invariant
                i <= self@.terrain.len(),
                terrain@ =~= self@.terrain.subrange(0, i as int),
            decreases self@.terrain.len() - i,
        {
            terrain.push(self.terrain[i]);
            proof {
                assert(self@.terrain.subrange(0, i + 1) =~= self@.terrain.subrange(
                    0,
                    i as int,
                ).push(self@.terrain[i as int]));
            }
            i = i + 1;
        }
        let mut i: usize = 0;
        while i < self.heightmap.len()
            invariant
                i <= self@.heights.len(),
                heightmap@ =~= self@.heights.subrange(0, i as int),
            decreases self@.heights.len() - i,
        {
            heightmap.push(self.heightmap[i]);
            proof {
                assert(self@.heights.subrange(0, i + 1) =~= self@.heights.subrange(
                    0,
                    i as int,
                ).push(self@.heights[i as int]));
            }
            i = i + 1;
        }
        let mut i: usize = 0;
        while i < self.occupancy.len()
            invariant
                i <= self@.occupancy.len(),
                occupancy@ =~= self@.occupancy.subrange(0, i as int),
            decreases self@.occupancy.len() - i,
        {
            occupancy.push(self.occupancy[i]);
            proof {
                assert(self@.occupancy.subrange(0, i + 1) =~= self@.occupancy.subrange(
                    0,
                    i as int,
                ).push(self@.occupancy[i as int]));
            }
            i = i + 1;
        }
        let g = Grid { width: self.width, height: self.height, terrain, heightmap, occupancy };
        proof {
            assert(self@.terrain.subrange(0, self@.terrain.len() as int) =~= self@.terrain);
            assert(self@.heights.subrange(0, self@.heights.len() as int) =~= self@.heights);
            assert(self@.occupancy.subrange(0, self@.occupancy.len() as int) =~= self@.occupancy);
            assert(g@ =~= self@);
        }
        g
    }
}

} // verus!
