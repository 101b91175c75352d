//! The closed set of voxel kinds and their per-kind metadata.

use vstd::prelude::*;

verus! {

/// A voxel kind. `Air` is what an untouched cell of a materialized chunk
/// holds; absence of a whole chunk is tracked separately by its column.
#[derive(Clone, Copy, PartialEq, Eq, Structural, Hash, Debug)]
pub enum Block {
    Air,
    Dirt,
    Grass,
    Stone,
    Coal,
}

impl Block {
    /// Whether this kind burns as furnace fuel.
    pub fn is_fuel(self) -> (r: bool)
        ensures
            r == (self == Block::Coal),
    {
        matches!(self, Block::Coal)
    }

    /// Whether this kind is empty space.
    pub fn is_air(self) -> (r: bool)
        ensures
            r == (self == Block::Air),
    {
        matches!(self, Block::Air)
    }
}

} // verus!
