//! The atomic typed cell of the world and its classification predicates.

use vstd::prelude::*;

verus! {

/// An RGBA display colour with 8-bit components.
#[derive(Clone, Copy, Debug, PartialEq, Eq, Structural)]
pub struct VoxelColor {
    pub r: u8,
    pub g: u8,
    pub b: u8,
    pub a: u8,
}

/// The closed set of voxel kinds the world is made of.
#[derive(Clone, Copy, Debug, PartialEq, Eq, Structural)]
pub enum Voxel {
    Air,
    Stone,
    Grass,
    Dirt,
    Water,
    Sand,
    Snow,
}

impl Voxel {
    pub open spec fn spec_is_air(self) -> bool {
        self == Voxel::Air
    }

    /// Whether this voxel is empty space.
    #[verifier::when_used_as_spec(spec_is_air)]
    pub fn is_air(self) -> (r: bool)
        ensures
            r == self.spec_is_air(),
    {
        self == Voxel::Air
    }

    pub open spec fn spec_is_liquid(self) -> bool {
        self == Voxel::Water
    }

    /// Whether this voxel is a liquid (the water-like kinds).
    #[verifier::when_used_as_spec(spec_is_liquid)]
    pub fn is_liquid(self) -> (r: bool)
        ensures
            r == self.spec_is_liquid(),
    {
        self == Voxel::Water
    }

    pub open spec fn spec_is_solid(self) -> bool {
        !self.spec_is_air() && !self.spec_is_liquid()
    }

    /// Whether this voxel is solid matter: neither air nor liquid.
    #[verifier::when_used_as_spec(spec_is_solid)]
    pub fn is_solid(self) -> (r: bool)
        ensures
            r == self.spec_is_solid(),
    {
        !self.is_air() && !self.is_liquid()
    }

    pub open spec fn spec_color(self) -> VoxelColor {
        match self {
            Voxel::Air => VoxelColor { r: 0, g: 0, b: 0, a: 0 },
            Voxel::Stone => VoxelColor { r: 176, g: 184, b: 184, a: 255 },
            Voxel::Grass => VoxelColor { r: 59, g: 209, b: 61, a: 255 },
            Voxel::Dirt => VoxelColor { r: 161, g: 115, b: 74, a: 255 },
            Voxel::Water => VoxelColor { r: 0, g: 158, b: 255, a: 204 },
            Voxel::Sand => VoxelColor { r: 237, g: 227, b: 140, a: 255 },
            Voxel::Snow => VoxelColor { r: 240, g: 250, b: 250, a: 255 },
        }
    }

    /// The fixed display colour of this voxel kind; total, with no error case.
    #[verifier::when_used_as_spec(spec_color)]
    pub fn to_color(self) -> (c: VoxelColor)
        ensures
            c == self.spec_color(),
    {
        match self {
            Voxel::Air => VoxelColor { r: 0, g: 0, b: 0, a: 0 },
            Voxel::Stone => VoxelColor { r: 176, g: 184, b: 184, a: 255 },
            Voxel::Grass => VoxelColor { r: 59, g: 209, b: 61, a: 255 },
            Voxel::Dirt => VoxelColor { r: 161, g: 115, b: 74, a: 255 },
            Voxel::Water => VoxelColor { r: 0, g: 158, b: 255, a: 204 },
            Voxel::Sand => VoxelColor { r: 237, g: 227, b: 140, a: 255 },
            Voxel::Snow => VoxelColor { r: 240, g: 250, b: 250, a: 255 },
        }
    }
}

/// The three classification predicates partition the voxel kinds: exactly one
/// of `is_air`, `is_liquid`, `is_solid` holds of every voxel.
pub proof fn lemma_classification_total(v: Voxel)
    ensures
        v.spec_is_solid() == (!v.spec_is_air() && !v.spec_is_liquid()),
        v.spec_is_air() ==> !v.spec_is_liquid() && !v.spec_is_solid(),
        v.spec_is_liquid() ==> !v.spec_is_air() && !v.spec_is_solid(),
{
}

} // verus!
