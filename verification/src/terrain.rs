use vstd::prelude::*;

use crate::delta::Delta;

verus! {

/// The kind of ground a cell holds. A current additionally carries the
/// offset by which standing units are pushed at environmental resolution.
#[derive(Debug, Clone, Copy, PartialEq, Eq, Structural)]
pub enum TerrainType {
    Ground,
    Void,
    WaterStill,
    WaterCurrent(Delta),
}

impl TerrainType {
    /// Whether a unit may stand on or cross this terrain.
    pub open spec fn spec_walkable(self) -> bool {
        match self {
            TerrainType::Ground => true,
            TerrainType::Void => false,
            TerrainType::WaterStill => true,
            TerrainType::WaterCurrent(_) => true,
        }
    }

    /// Movement cost of entering a cell of this terrain.
    pub open spec fn spec_cost(self) -> int {
        match self {
            TerrainType::Ground => 1,
            TerrainType::Void => i16::MAX as int,
            TerrainType::WaterStill => 2,
            TerrainType::WaterCurrent(_) => 2,
        }
    }

    pub fn is_walkable(&self) -> (r: bool)
        ensures
            r == self.spec_walkable(),
    {
        match self {
            TerrainType::Ground => true,
            TerrainType::Void => false,
            TerrainType::WaterStill => true,
            TerrainType::WaterCurrent(_) => true,
        }
    }

    pub fn get_cost(&self) -> (r: i16)
        ensures
            r == self.spec_cost(),
    {
        match self {
            TerrainType::Ground => 1,
            TerrainType::Void => i16::MAX,
            TerrainType::WaterStill => 2,
            TerrainType::WaterCurrent(_) => 2,
        }
    }
}

} // verus!
