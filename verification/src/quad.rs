//! The six face orientations of a unit cube and their outward normals.

use vstd::prelude::*;

use crate::coords::IVec3;
use crate::mesh::{Axis, Direction};

verus! {

/// A face of a unit cube.
#[derive(Clone, Copy, Debug, PartialEq, Eq, Structural)]
pub enum QuadFace {
    Front,
    Back,
    Top,
    Bottom,
    Left,
    Right,
}

impl QuadFace {
    pub open spec fn spec_normal(self) -> IVec3 {
        match self {
            QuadFace::Front => IVec3 { x: 0, y: 0, z: 1 },
            QuadFace::Back => IVec3 { x: 0, y: 0, z: -1i32 },
            QuadFace::Top => IVec3 { x: 0, y: 1, z: 0 },
            QuadFace::Bottom => IVec3 { x: 0, y: -1i32, z: 0 },
            QuadFace::Left => IVec3 { x: -1i32, y: 0, z: 0 },
            QuadFace::Right => IVec3 { x: 1, y: 0, z: 0 },
        }
    }

    /// The outward unit normal of this face.
    #[verifier::when_used_as_spec(spec_normal)]
    pub fn normal(self) -> (r: IVec3)
        ensures
            r == self.spec_normal(),
    {
        match self {
            QuadFace::Front => IVec3 { x: 0, y: 0, z: 1 },
            QuadFace::Back => IVec3 { x: 0, y: 0, z: -1i32 },
            QuadFace::Top => IVec3 { x: 0, y: 1, z: 0 },
            QuadFace::Bottom => IVec3 { x: 0, y: -1i32, z: 0 },
            QuadFace::Left => IVec3 { x: -1i32, y: 0, z: 0 },
            QuadFace::Right => IVec3 { x: 1, y: 0, z: 0 },
        }
    }

    /// The same orientation as an axis and a direction along it.
    pub fn axis_direction(self) -> (r: (Axis, Direction))
        ensures
            r.0.spec_normal(r.1) == self.spec_normal(),
    {
        match self {
            QuadFace::Front => (Axis::Z, Direction::Positive),
            QuadFace::Back => (Axis::Z, Direction::Negative),
            QuadFace::Top => (Axis::Y, Direction::Positive),
            QuadFace::Bottom => (Axis::Y, Direction::Negative),
            QuadFace::Left => (Axis::X, Direction::Negative),
            QuadFace::Right => (Axis::X, Direction::Positive),
        }
    }
}

} // verus!
