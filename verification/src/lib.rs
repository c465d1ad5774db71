//! A chunked voxel world core: fixed-size chunks of typed voxels, a greedy
//! surface mesher that turns a chunk and its neighbours into axis-aligned
//! quads, and the bookkeeping of a streaming pipeline that keeps chunks and
//! meshes consistent around a moving viewpoint.
//!
//! - [`voxel`] — the atomic typed cell and its classification predicates.
//! - [`coords`] — integer vectors and the flattening of local coordinates.
//! - [`chunk`] — a dense 3D grid of voxels at an integer grid coordinate.
//! - [`mesh`] — the surface geometry of a chunk, as a sequence of quads.
//! - [`mesher`] — the greedy surface mesher and its laws.
//! - [`generation`] — filling a chunk from per-column terrain heights.
//! - [`store`] — the chunk store and the in-flight coordinate sets.
//! - [`world`] — the streaming pipeline's consumer-side state machine.
//! - [`quad`] — the six face orientations of a unit cube.
//! - [`queue`] — a bounded queue that evicts its oldest element.

pub mod chunk;
pub mod coords;
pub mod generation;
pub mod mesh;
pub mod mesher;
pub mod quad;
pub mod queue;
pub mod store;
pub mod voxel;
pub mod world;
