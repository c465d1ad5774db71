//! A fixed-size 3D block of voxels addressed by an integer grid coordinate.

use vstd::prelude::*;

use crate::coords::{flat_index, in_bounds, volume, IVec3, UVec3};
use crate::coords::{coord_to_index, lemma_flat_index_in_range};
use crate::voxel::Voxel;

verus! {

/// The mathematical value of a chunk: its grid coordinate, its edge lengths,
/// and the dense voxel sequence (x varies fastest, then y, then z).
pub ghost struct ChunkView {
    pub grid_position: IVec3,
    pub size: UVec3,
    pub voxels: Seq<Voxel>,
}

impl ChunkView {
    /// Well-formed: the voxel sequence is exactly as long as the size says,
    /// and that length fits the machine's addressable range.
    pub open spec fn wf(self) -> bool {
        &&& self.voxels.len() == volume(self.size)
        &&& volume(self.size) <= usize::MAX
    }

    /// The voxel at an in-bounds local position.
    pub open spec fn vox(self, x: int, y: int, z: int) -> Voxel {
        self.voxels[flat_index(x, y, z, self.size)]
    }

    /// The voxel at a local position, or `None` outside the chunk.
    pub open spec fn get(self, x: int, y: int, z: int) -> Option<Voxel> {
        if in_bounds(x, y, z, self.size) {
            Some(self.vox(x, y, z))
        } else {
            None
        }
    }

    /// A chunk is empty iff every voxel in it is air.
    pub open spec fn is_empty(self) -> bool {
        forall|i: int| 0 <= i < self.voxels.len() ==> self.voxels[i] == Voxel::Air
    }
}

/// The world-space translation of a chunk: its grid coordinate componentwise
/// multiplied by the chunk edge lengths (rotation identity, scale one).
#[derive(Clone, Copy, Debug, PartialEq, Eq, Structural)]
pub struct WorldPosition {
    pub x: i64,
    pub y: i64,
    pub z: i64,
}

/// A chunk of the world: a dense, owned grid of voxels.
pub struct Chunk {
    /// The grid position of the chunk.
    pub grid_position: IVec3,
    /// The edge lengths of the chunk.
    size: UVec3,
    /// The voxels of the chunk, x varying fastest, then y, then z.
    voxels: Vec<Voxel>,
}

impl View for Chunk {
    type V = ChunkView;

    closed spec fn view(&self) -> ChunkView {
        ChunkView {
            grid_position: self.grid_position,
            size: self.size,
            voxels: self.voxels@,
        }
    }
}

impl Chunk {
    /// Creates a new chunk filled entirely with air.
    pub fn new(grid_position: IVec3, size: UVec3) -> (r: Chunk)
        requires
            volume(size) <= usize::MAX,
        ensures
            r@.grid_position == grid_position,
            r@.size == size,
            r@.wf(),
            r@.is_empty(),
    {
        proof {
            assert((size.x as int * size.y as int * size.z as int) < u128::MAX)
                by (nonlinear_arith)
                requires
                    0 <= size.x <= u32::MAX,
                    0 <= size.y <= u32::MAX,
                    0 <= size.z <= u32::MAX,
            ;
            assert(size.x as int * size.y as int <= u32::MAX as int * u32::MAX as int)
                by (nonlinear_arith)
                requires
                    0 <= size.x <= u32::MAX,
                    0 <= size.y <= u32::MAX,
            ;
        }
        let wide: u128 = size.x as u128 * size.y as u128 * size.z as u128;
        let count: usize = wide as usize;
        let mut voxels: Vec<Voxel> = Vec::new();
        while voxels.len() < count
            invariant
                voxels.len() <= count,
                forall|i: int| 0 <= i < voxels.len() ==> voxels[i] == Voxel::Air,
            decreases count - voxels.len(),
        {
            voxels.push(Voxel::Air);
        }
        Chunk { grid_position, size, voxels }
    }

    /// Creates a chunk from an already-filled voxel array, which must have
    /// exactly one entry per cell, in storage order (x fastest, then y,
    /// then z).
    pub fn from_voxels(grid_position: IVec3, size: UVec3, voxels: Vec<Voxel>) -> (r: Chunk)
        requires
            voxels@.len() == volume(size),
            volume(size) <= usize::MAX,
        ensures
            r@ == (ChunkView { grid_position, size, voxels: voxels@ }),
            r@.wf(),
    {
        Chunk { grid_position, size, voxels }
    }

    /// The grid position of the chunk.
    pub fn grid_position(&self) -> (r: IVec3)
        ensures
            r == self@.grid_position,
    {
        self.grid_position
    }

    /// The number of voxels the chunk holds.
    pub fn voxel_count(&self) -> (r: usize)
        requires
            self@.wf(),
        ensures
            r == volume(self@.size),
    {
        self.voxels.len()
    }

    /// The edge lengths of the chunk.
    pub fn size(&self) -> (r: UVec3)
        ensures
            r == self@.size,
    {
        self.size
    }

    /// The world-space translation of the chunk: grid coordinate times size.
    pub fn world_position(&self) -> (r: WorldPosition)
        ensures
            r.x == self@.grid_position.x * self@.size.x,
            r.y == self@.grid_position.y * self@.size.y,
            r.z == self@.grid_position.z * self@.size.z,
    {
        proof {
            assert(i64::MIN <= self.grid_position.x as int * self.size.x as int <= i64::MAX)
                by (nonlinear_arith)
                requires
                    i32::MIN <= self.grid_position.x <= i32::MAX,
                    0 <= self.size.x <= u32::MAX,
            ;
            assert(i64::MIN <= self.grid_position.y as int * self.size.y as int <= i64::MAX)
                by (nonlinear_arith)
                requires
                    i32::MIN <= self.grid_position.y <= i32::MAX,
                    0 <= self.size.y <= u32::MAX,
            ;
            assert(i64::MIN <= self.grid_position.z as int * self.size.z as int <= i64::MAX)
                by (nonlinear_arith)
                requires
                    i32::MIN <= self.grid_position.z <= i32::MAX,
                    0 <= self.size.z <= u32::MAX,
            ;
        }
        WorldPosition {
            x: self.grid_position.x as i64 * self.size.x as i64,
            y: self.grid_position.y as i64 * self.size.y as i64,
            z: self.grid_position.z as i64 * self.size.z as i64,
        }
    }

    /// Returns the voxel at the given local position, or `None` if the
    /// position lies outside the chunk — a valid "ask the neighbour" answer,
    /// not an error.
    pub fn get_voxel(&self, position: UVec3) -> (r: Option<Voxel>)
        requires
            self@.wf(),
        ensures
            r == self@.get(position.x as int, position.y as int, position.z as int),
    {
        if position.x >= self.size.x || position.y >= self.size.y || position.z >= self.size.z {
            return None;
        }
        proof {
            lemma_flat_index_in_range(
                position.x as int,
                position.y as int,
                position.z as int,
                self.size,
            );
        }
        let index = coord_to_index(position, self.size);
        Some(self.voxels[index])
    }

    /// Sets the voxel at the given local position; a no-op on out-of-range
    /// input (never panics).
    pub fn set_voxel(&mut self, position: UVec3, voxel: Voxel)
        requires
            old(self)@.wf(),
        ensures
            final(self)@.wf(),
            final(self)@.grid_position == old(self)@.grid_position,
            final(self)@.size == old(self)@.size,
            final(self)@.voxels == (if in_bounds(
                position.x as int,
                position.y as int,
                position.z as int,
                old(self)@.size,
            ) {
                old(self)@.voxels.update(
                    flat_index(position.x as int, position.y as int, position.z as int, old(self)@.size),
                    voxel,
                )
            } else {
                old(self)@.voxels
            }),
    {
        if position.x >= self.size.x || position.y >= self.size.y || position.z >= self.size.z {
            return;
        }
        proof {
            lemma_flat_index_in_range(
                position.x as int,
                position.y as int,
                position.z as int,
                self.size,
            );
        }
        let index = coord_to_index(position, self.size);
        self.voxels[index] = voxel;
    }

    /// Returns whether the chunk entirely consists of air voxels.
    pub fn is_empty(&self) -> (r: bool)
        ensures
            r == self@.is_empty(),
    {
        let mut i: usize = 0;
        while i < self.voxels.len()
            invariant
                i <= self.voxels.len(),
                forall|j: int| 0 <= j < i ==> self.voxels@[j] == Voxel::Air,
            decreases self.voxels.len() - i,
        {
            if !self.voxels[i].is_air() {
                return false;
            }
            i = i + 1;
        }
        true
    }

    /// An owned, read-only copy of this chunk, for handing to a worker.
    pub fn snapshot(&self) -> (r: Chunk)
        ensures
            r@ == self@,
    {
        let mut voxels: Vec<Voxel> = Vec::new();
        let mut i: usize = 0;
        while i < self.voxels.len()
            invariant
                i <= self.voxels.len(),
                voxels@ == self.voxels@.take(i as int),
            decreases self.voxels.len() - i,
        {
            voxels.push(self.voxels[i]);
            proof {
                assert(voxels@ == self.voxels@.take(i + 1 as int));
            }
            i = i + 1;
        }
        proof {
            assert(self.voxels@.take(self.voxels@.len() as int) =~= self.voxels@);
        }
        Chunk { grid_position: self.grid_position, size: self.size, voxels }
    }
}

} // verus!
