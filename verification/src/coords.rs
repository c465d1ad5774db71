//! Integer coordinate vectors and the flattening of a 3D local coordinate
//! into an index of a chunk's dense voxel array.

use vstd::prelude::*;

verus! {

/// A 3-component unsigned vector: a chunk size or a chunk-local position.
#[derive(Clone, Copy, Debug, PartialEq, Eq, Structural)]
pub struct UVec3 {
    pub x: u32,
    pub y: u32,
    pub z: u32,
}

/// A 2-component unsigned vector: the in-plane size of a quad.
#[derive(Clone, Copy, Debug, PartialEq, Eq, Structural)]
pub struct UVec2 {
    pub x: u32,
    pub y: u32,
}

/// A 3-component signed vector: a grid coordinate of a chunk in the world.
#[derive(Clone, Copy, Debug, PartialEq, Eq, Structural)]
pub struct IVec3 {
    pub x: i32,
    pub y: i32,
    pub z: i32,
}

impl UVec3 {
    pub fn new(x: u32, y: u32, z: u32) -> (r: UVec3)
        ensures
            r == (UVec3 { x, y, z }),
    {
        UVec3 { x, y, z }
    }
}

impl UVec2 {
    pub fn new(x: u32, y: u32) -> (r: UVec2)
        ensures
            r == (UVec2 { x, y }),
    {
        UVec2 { x, y }
    }
}

impl IVec3 {
    pub fn new(x: i32, y: i32, z: i32) -> (r: IVec3)
        ensures
            r == (IVec3 { x, y, z }),
    {
        IVec3 { x, y, z }
    }
}

/// The number of voxels a chunk of the given size holds.
pub open spec fn volume(size: UVec3) -> int {
    size.x * size.y * size.z
}

/// Whether the local position `(x, y, z)` lies inside a chunk of the given size.
pub open spec fn in_bounds(x: int, y: int, z: int, size: UVec3) -> bool {
    &&& 0 <= x < size.x
    &&& 0 <= y < size.y
    &&& 0 <= z < size.z
}

/// The index of local position `(x, y, z)` in the dense voxel array:
/// x varies fastest, then y, then z.
pub open spec fn flat_index(x: int, y: int, z: int, size: UVec3) -> int {
    x + y * size.x + z * (size.x * size.y)
}

pub proof fn lemma_flat_index_in_range(x: int, y: int, z: int, size: UVec3)
    requires
        in_bounds(x, y, z, size),
    ensures
        0 <= flat_index(x, y, z, size) < volume(size),
{
    assert(0 <= x + y * size.x + z * (size.x * size.y) < size.x * size.y * size.z)
        by (nonlinear_arith)
        requires
            0 <= x < size.x,
            0 <= y < size.y,
            0 <= z < size.z,
    ;
}

/// Two distinct in-bounds positions never flatten to the same index.
pub proof fn lemma_flat_index_injective(
    x1: int, y1: int, z1: int,
    x2: int, y2: int, z2: int,
    size: UVec3,
)
    requires
        in_bounds(x1, y1, z1, size),
        in_bounds(x2, y2, z2, size),
        flat_index(x1, y1, z1, size) == flat_index(x2, y2, z2, size),
    ensures
        x1 == x2 && y1 == y2 && z1 == z2,
{
    assert(x1 == x2 && y1 == y2 && z1 == z2) by (nonlinear_arith)
        requires
            0 <= x1 < size.x,
            0 <= y1 < size.y,
            0 <= z1 < size.z,
            0 <= x2 < size.x,
            0 <= y2 < size.y,
            0 <= z2 < size.z,
            x1 + y1 * size.x + z1 * (size.x * size.y)
                == x2 + y2 * size.x + z2 * (size.x * size.y),
    ;
}

/// Flattens an in-bounds local position into an index of the voxel array.
pub fn coord_to_index(position: UVec3, size: UVec3) -> (r: usize)
    requires
        in_bounds(position.x as int, position.y as int, position.z as int, size),
        volume(size) <= usize::MAX,
    ensures
        r == flat_index(position.x as int, position.y as int, position.z as int, size),
{
    proof {
        lemma_flat_index_in_range(
            position.x as int,
            position.y as int,
            position.z as int,
            size,
        );
        assert(size.x * size.y <= size.x * size.y * size.z) by (nonlinear_arith)
            requires
                1 <= size.z,
                0 <= size.x,
                0 <= size.y,
        ;
        assert(position.y * size.x < size.x * size.y * size.z) by (nonlinear_arith)
            requires
                0 <= position.y < size.y,
                1 <= size.x,
                1 <= size.z,
        ;
        assert(position.z * (size.x * size.y) <= size.x * size.y * size.z)
            by (nonlinear_arith)
            requires
                0 <= position.z < size.z,
                0 <= size.x,
                0 <= size.y,
        ;
    }
    position.x as usize
        + position.y as usize * size.x as usize
        + position.z as usize * (size.x as usize * size.y as usize)
}

} // verus!
