//! Surface geometry of a chunk: an ordered sequence of axis-aligned quads.

use vstd::prelude::*;

use crate::coords::{IVec3, UVec2, UVec3};
use crate::voxel::VoxelColor;

verus! {

/// Cardinal axes of the Cartesian coordinate system.
#[derive(Clone, Copy, Debug, PartialEq, Eq, Structural)]
pub enum Axis {
    X,
    Y,
    Z,
}

/// Direction along an axis.
#[derive(Clone, Copy, Debug, PartialEq, Eq, Structural)]
pub enum Direction {
    Positive,
    Negative,
}

impl Axis {
    pub open spec fn spec_normal(self, direction: Direction) -> IVec3 {
        match (self, direction) {
            (Axis::X, Direction::Positive) => IVec3 { x: 1, y: 0, z: 0 },
            (Axis::X, Direction::Negative) => IVec3 { x: -1i32, y: 0, z: 0 },
            (Axis::Y, Direction::Positive) => IVec3 { x: 0, y: 1, z: 0 },
            (Axis::Y, Direction::Negative) => IVec3 { x: 0, y: -1i32, z: 0 },
            (Axis::Z, Direction::Positive) => IVec3 { x: 0, y: 0, z: 1 },
            (Axis::Z, Direction::Negative) => IVec3 { x: 0, y: 0, z: -1i32 },
        }
    }

    /// Returns the unit normal vector of the axis in the given direction.
    #[verifier::when_used_as_spec(spec_normal)]
    pub fn get_normal(self, direction: Direction) -> (r: IVec3)
        ensures
            r == self.spec_normal(direction),
    {
        match (self, direction) {
            (Axis::X, Direction::Positive) => IVec3 { x: 1, y: 0, z: 0 },
            (Axis::X, Direction::Negative) => IVec3 { x: -1i32, y: 0, z: 0 },
            (Axis::Y, Direction::Positive) => IVec3 { x: 0, y: 1, z: 0 },
            (Axis::Y, Direction::Negative) => IVec3 { x: 0, y: -1i32, z: 0 },
            (Axis::Z, Direction::Positive) => IVec3 { x: 0, y: 0, z: 1 },
            (Axis::Z, Direction::Negative) => IVec3 { x: 0, y: 0, z: -1i32 },
        }
    }
}

/// One rectangular face of a chunk surface: a base position in chunk-local
/// voxel units, an in-plane size, the face's outward normal as axis and
/// direction, and a flat colour.
#[derive(Clone, Copy, Debug, PartialEq, Eq, Structural)]
pub struct Quad {
    pub position: UVec3,
    pub size: UVec2,
    pub axis: Axis,
    pub direction: Direction,
    pub color: VoxelColor,
}

/// The mesh of a chunk: an ordered sequence of quads.
#[derive(Debug)]
pub struct Mesh {
    quads: Vec<Quad>,
}

impl View for Mesh {
    type V = Seq<Quad>;

    closed spec fn view(&self) -> Seq<Quad> {
        self.quads@
    }
}

impl Mesh {
    /// Creates a new empty mesh.
    pub fn new() -> (r: Mesh)
        ensures
            r@ == Seq::<Quad>::empty(),
    {
        Mesh { quads: Vec::new() }
    }

    /// Returns whether the mesh has no quads.
    pub fn is_empty(&self) -> (r: bool)
        ensures
            r == (self@.len() == 0),
    {
        self.quads.len() == 0
    }

    /// The quads of the mesh, in emission order.
    pub fn quads(&self) -> (r: &Vec<Quad>)
        ensures
            r@ == self@,
    {
        &self.quads
    }

    /// Appends one face covering the given rectangle to the mesh.
    pub fn add_face(
        &mut self,
        position: UVec3,
        size: UVec2,
        axis: Axis,
        direction: Direction,
        color: VoxelColor,
    )
        ensures
            final(self)@ == old(self)@.push(
                (Quad { position, size, axis, direction, color }),
            ),
    {
        self.quads.push(Quad { position, size, axis, direction, color });
    }
}

} // verus!
