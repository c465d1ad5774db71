//! Filling a chunk from per-column terrain heights.
//!
//! The terrain generator proper — the noise function that decides a column's
//! surface height from its world coordinate — is an external collaborator.
//! This module holds the part that is a pure function of plain values: given
//! the height of every column of a chunk, the sea level, and the thickness of
//! the dirt layer, it decides each voxel and fills the chunk.

use vstd::prelude::*;

use crate::chunk::Chunk;
use crate::coords::{flat_index, in_bounds, lemma_flat_index_injective, volume, IVec3, UVec3};
use crate::voxel::Voxel;

verus! {

/// The voxel of a cell at world height `global_y` in a column whose terrain
/// surface is at `terrain_height`: the surface itself is grass (sand at or
/// below the sea level), the dirt layer under it is dirt (sand likewise),
/// everything deeper is stone, and above the surface lies water up to the sea
/// level, then air.
pub open spec fn terrain_voxel(
    global_y: int,
    terrain_height: int,
    sea_level: int,
    dirt_thickness: int,
) -> Voxel {
    if global_y == terrain_height {
        if global_y <= sea_level {
            Voxel::Sand
        } else {
            Voxel::Grass
        }
    } else if terrain_height - dirt_thickness <= global_y < terrain_height {
        if global_y <= sea_level {
            Voxel::Sand
        } else {
            Voxel::Dirt
        }
    } else if global_y < terrain_height {
        Voxel::Stone
    } else if global_y <= sea_level {
        Voxel::Water
    } else {
        Voxel::Air
    }
}

/// Decides one voxel from its world height and its column's terrain height.
pub fn terrain_voxel_at(
    global_y: i32,
    terrain_height: i32,
    sea_level: i32,
    dirt_layer_thickness: u32,
) -> (v: Voxel)
    ensures
        v == terrain_voxel(
            global_y as int,
            terrain_height as int,
            sea_level as int,
            dirt_layer_thickness as int,
        ),
{
    let dirt_floor: i64 = terrain_height as i64 - dirt_layer_thickness as i64;
    if global_y == terrain_height {
        if global_y <= sea_level {
            Voxel::Sand
        } else {
            Voxel::Grass
        }
    } else if dirt_floor <= global_y as i64 && global_y < terrain_height {
        if global_y <= sea_level {
            Voxel::Sand
        } else {
            Voxel::Dirt
        }
    } else if global_y < terrain_height {
        Voxel::Stone
    } else if global_y <= sea_level {
        Voxel::Water
    } else {
        Voxel::Air
    }
}

/// Generates a chunk of voxels from the terrain heights of its columns.
///
/// `heights` holds one world-space terrain height per column, x varying
/// fastest then z: the column at local `(x, z)` reads `heights[x + z *
/// size.x]`.
#[verifier::loop_isolation(false)]
pub fn generate_chunk(
    grid_position: IVec3,
    size: UVec3,
    heights: &Vec<i32>,
    sea_level: i32,
    dirt_layer_thickness: u32,
) -> (c: Chunk)
    requires
        heights@.len() == size.x as int * size.z as int,
        volume(size) <= usize::MAX,
        i32::MIN <= grid_position.y as int * size.y as int,
        grid_position.y as int * size.y as int + size.y as int <= i32::MAX as int + 1,
    ensures
        c@.wf(),
        c@.grid_position == grid_position,
        c@.size == size,
        forall|x: int, y: int, z: int|
            in_bounds(x, y, z, size) ==> c@.vox(x, y, z) == terrain_voxel(
                grid_position.y as int * size.y as int + y,
                heights@[x + z * size.x] as int,
                sea_level as int,
                dirt_layer_thickness as int,
            ),
{
    let base_y: i64 = grid_position.y as i64 * size.y as i64;
    let columns = heights.len();
    let mut voxels: Vec<Voxel> = Vec::new();
    let mut z: u32 = 0;
    while z < size.z
        invariant
            z <= size.z,
            voxels@.len() == z as int * (size.x as int * size.y as int),
            forall|x2: int, y2: int, z2: int|
                in_bounds(x2, y2, z2, size) && flat_index(x2, y2, z2, size) < voxels@.len()
                    ==> voxels@[flat_index(x2, y2, z2, size)] == terrain_voxel(
                    grid_position.y as int * size.y as int + y2,
                    heights@[x2 + z2 * size.x] as int,
                    sea_level as int,
                    dirt_layer_thickness as int,
                ),
        decreases size.z - z,
    {
        let mut y: u32 = 0;
        while y < size.y
            invariant
                z < size.z,
                y <= size.y,
                voxels@.len() == y as int * size.x as int + z as int * (size.x as int
                    * size.y as int),
                forall|x2: int, y2: int, z2: int|
                    in_bounds(x2, y2, z2, size) && flat_index(x2, y2, z2, size) < voxels@.len()
                        ==> voxels@[flat_index(x2, y2, z2, size)] == terrain_voxel(
                        grid_position.y as int * size.y as int + y2,
                        heights@[x2 + z2 * size.x] as int,
                        sea_level as int,
                        dirt_layer_thickness as int,
                    ),
            decreases size.y - y,
        {
            let mut x: u32 = 0;
            while x < size.x
                invariant
                    z < size.z,
                    y < size.y,
                    x <= size.x,
                    voxels@.len() == flat_index(x as int, y as int, z as int, size),
                    forall|x2: int, y2: int, z2: int|
                        in_bounds(x2, y2, z2, size) && flat_index(x2, y2, z2, size) < voxels@.len()
                            ==> voxels@[flat_index(x2, y2, z2, size)] == terrain_voxel(
                            grid_position.y as int * size.y as int + y2,
                            heights@[x2 + z2 * size.x] as int,
                            sea_level as int,
                            dirt_layer_thickness as int,
                        ),
                decreases size.x - x,
            {
                proof {
                    assert(x as int + z as int * size.x < size.x as int * size.z as int)
                        by (nonlinear_arith)
                        requires
                            0 <= x < size.x as int,
                            0 <= z < size.z as int,
                    ;
                    assert(z as int * size.x as int <= size.x as int * size.z as int)
                        by (nonlinear_arith)
                        requires
                            0 <= z < size.z as int,
                            0 <= size.x,
                    ;
                    assert(size.x as int * size.z as int == columns as int);
                }
                let column = x as usize + z as usize * size.x as usize;
                let terrain_height = heights[column];
                proof {
                    assert(grid_position.y as int * size.y as int + y as int <= i32::MAX);
                }
                let global_y: i32 = (base_y + y as i64) as i32;
                let voxel = terrain_voxel_at(
                    global_y,
                    terrain_height,
                    sea_level,
                    dirt_layer_thickness,
                );
                let ghost len0 = voxels@.len() as int;
                voxels.push(voxel);
                proof {
                    assert forall|x2: int, y2: int, z2: int|
                        in_bounds(x2, y2, z2, size) && flat_index(x2, y2, z2, size)
                            < voxels@.len() implies voxels@[flat_index(x2, y2, z2, size)]
                        == terrain_voxel(
                        grid_position.y as int * size.y as int + y2,
                        heights@[x2 + z2 * size.x] as int,
                        sea_level as int,
                        dirt_layer_thickness as int,
                    ) by {
                        if flat_index(x2, y2, z2, size) == len0 {
                            lemma_flat_index_injective(
                                x2, y2, z2,
                                x as int, y as int, z as int,
                                size,
                            );
                        }
                    }
                }
                x = x + 1;
            }
            proof {
                assert((y as int + 1) * size.x as int == y as int * size.x as int + size.x as int)
                    by (nonlinear_arith);
            }
            y = y + 1;
        }
        proof {
            assert(size.y as int * size.x as int + z as int * (size.x as int * size.y as int) == (
            z as int + 1) * (size.x as int * size.y as int)) by (nonlinear_arith);
        }
        z = z + 1;
    }
    proof {
        assert(voxels@.len() == volume(size)) by (nonlinear_arith)
            requires
                voxels@.len() == size.z as int * (size.x as int * size.y as int),
        ;
        assert forall|x2: int, y2: int, z2: int|
            in_bounds(x2, y2, z2, size) implies flat_index(x2, y2, z2, size)
            < voxels@.len() by {
            crate::coords::lemma_flat_index_in_range(x2, y2, z2, size);
        }
    }
    Chunk::from_voxels(grid_position, size, voxels)
}

} // verus!
