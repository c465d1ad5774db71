use std::collections::HashMap;

use voxel_world::chunk::{Chunk, WorldPosition};
use voxel_world::coords::{IVec3, UVec3};
use voxel_world::mesh::{Axis, Direction};
use voxel_world::voxel::Voxel;
use voxel_world::world::{RenderUpdate, World};

/// The end-to-end scenario's terrain: stone strictly below world height zero,
/// air at and above it, for every column.
fn flat_floor_generator(grid_position: IVec3, size: UVec3) -> Chunk {
    let mut chunk = Chunk::new(grid_position, size);
    for x in 0..size.x {
        for y in 0..size.y {
            for z in 0..size.z {
                let global_y = grid_position.y as i64 * size.y as i64 + y as i64;
                if global_y < 0 {
                    chunk.set_voxel(UVec3::new(x, y, z), Voxel::Stone);
                }
            }
        }
    }
    chunk
}

#[test]
fn tick_dispatches_each_missing_coordinate_once() {
    let mut world = World::new(1);
    let jobs = world.tick(IVec3::new(0, 0, 0));
    assert_eq!(jobs.len(), 27);
    // Still in flight: a second tick never dispatches a coordinate twice.
    let again = world.tick(IVec3::new(0, 0, 0));
    assert!(again.is_empty());
    // A moved focus only dispatches the newly wanted coordinates.
    let moved = world.tick(IVec3::new(1, 0, 0));
    assert_eq!(moved.len(), 9);
    for c in moved.iter() {
        assert_eq!(c.x, 2);
    }
}

#[test]
fn resident_chunks_are_not_redispatched() {
    let size = UVec3::new(2, 2, 2);
    let mut world = World::new(0);
    let jobs = world.tick(IVec3::new(0, 0, 0));
    assert_eq!(jobs.len(), 1);
    let mesh_jobs = world.on_chunk_generated(flat_floor_generator(jobs[0], size));
    // The chunk at (0, 0, 0) is all air: nothing to mesh, no neighbours yet.
    assert_eq!(mesh_jobs.len(), 0);
    // Resident now: no further generation work for it.
    let again = world.tick(IVec3::new(0, 0, 0));
    assert!(again.is_empty());
    assert!(world.get_chunk(IVec3::new(0, 0, 0)).is_some());
}

#[test]
fn meshing_is_deduplicated_per_coordinate() {
    let size = UVec3::new(2, 2, 2);
    let mut world = World::new(0);
    // A solid chunk schedules its own meshing once.
    let jobs = world.on_chunk_generated(flat_floor_generator(IVec3::new(0, -1, 0), size));
    assert_eq!(jobs.len(), 1);
    assert_eq!(jobs[0].chunk.grid_position(), IVec3::new(0, -1, 0));
    // A neighbour arriving while that meshing is in flight re-schedules
    // nothing for the same coordinate.
    let jobs = world.on_chunk_generated(flat_floor_generator(IVec3::new(1, -1, 0), size));
    assert_eq!(jobs.len(), 1);
    assert_eq!(jobs[0].chunk.grid_position(), IVec3::new(1, -1, 0));
    // Once the result is drained, the marker is clear and a later arrival
    // re-schedules the neighbour.
    let update = world.on_mesh_result(IVec3::new(0, -1, 0), None, None);
    assert!(update.is_some());
    let jobs = world.on_chunk_generated(flat_floor_generator(IVec3::new(-1, -1, 0), size));
    let coords: Vec<IVec3> = jobs.iter().map(|j| j.chunk.grid_position()).collect();
    assert_eq!(coords, vec![IVec3::new(-1, -1, 0), IVec3::new(0, -1, 0)]);
}

#[test]
fn stale_mesh_results_are_discarded() {
    let size = UVec3::new(2, 2, 2);
    let mut world = World::new(0);
    world.on_chunk_generated(flat_floor_generator(IVec3::new(0, -1, 0), size));
    world.clear();
    // The result of the dispatched job arrives after the clear: the chunk is
    // no longer resident, so the consumer discards it.
    let update = world.on_mesh_result(IVec3::new(0, -1, 0), None, None);
    assert!(update.is_none());
}

#[test]
fn pipeline_converges_to_boundary_consistent_meshes() {
    // Focus at the origin, render distance 1, chunk size 4 cubed, terrain
    // "stone below world height zero, air above". After convergence the top
    // solid chunk has a full quad on its +Y face, and its -Y face stays
    // suppressed: the chunk below it is outside the render distance, so no
    // resident neighbour opens it.
    let size = UVec3::new(4, 4, 4);
    let mut world = World::new(1);
    let gen_jobs = world.tick(IVec3::new(0, 0, 0));
    assert_eq!(gen_jobs.len(), 27);

    let mut registered: HashMap<(i32, i32, i32), RenderUpdate> = HashMap::new();
    for coord in gen_jobs {
        let chunk = flat_floor_generator(coord, size);
        let mesh_jobs = world.on_chunk_generated(chunk);
        // Run each meshing job as a worker would, on its snapshots, and
        // drain the results in order, last write winning per coordinate.
        for job in mesh_jobs {
            let (solid, transparent) = job.chunk.mesh(&job.neighbours);
            let coord = job.chunk.grid_position();
            if let Some(update) = world.on_mesh_result(coord, solid, transparent) {
                if update.solid.is_some() || update.transparent.is_some() {
                    registered.insert((coord.x, coord.y, coord.z), update);
                } else {
                    registered.remove(&(coord.x, coord.y, coord.z));
                }
            }
        }
    }

    let top = registered
        .get(&(0, -1, 0))
        .expect("the solid chunk under the origin was meshed");
    assert_eq!(top.world_position, WorldPosition { x: 0, y: -4, z: 0 });
    let solid = top.solid.as_ref().expect("a solid chunk has an opaque mesh");
    assert!(top.transparent.is_none());
    let top_quads: Vec<_> = solid
        .quads()
        .iter()
        .filter(|q| matches!((q.axis, q.direction), (Axis::Y, Direction::Positive)))
        .collect();
    assert_eq!(top_quads.len(), 1);
    assert_eq!(top_quads[0].position, UVec3::new(0, 4, 0));
    assert_eq!(top_quads[0].size.x, 4);
    assert_eq!(top_quads[0].size.y, 4);
    assert!(
        !solid
            .quads()
            .iter()
            .any(|q| matches!((q.axis, q.direction), (Axis::Y, Direction::Negative))),
        "the -Y boundary has no resident neighbour and stays covered"
    );
    // An all-air chunk contributes nothing to rendering.
    assert!(!registered.contains_key(&(0, 1, 0)));
}

#[test]
fn regenerated_chunk_replaces_the_resident_one() {
    let size = UVec3::new(2, 2, 2);
    let mut world = World::new(0);
    world.on_chunk_generated(flat_floor_generator(IVec3::new(0, -1, 0), size));
    assert!(world.get_chunk(IVec3::new(0, -1, 0)).is_some());
    world.clear();
    assert!(world.get_chunk(IVec3::new(0, -1, 0)).is_none());
    // The same coordinate arrives again after a clear: it becomes resident
    // again, under the same key.
    let mut replacement = Chunk::new(IVec3::new(0, -1, 0), size);
    replacement.set_voxel(UVec3::new(0, 0, 0), Voxel::Snow);
    world.on_chunk_generated(replacement);
    let resident = world.get_chunk(IVec3::new(0, -1, 0)).unwrap();
    assert_eq!(resident.get_voxel(UVec3::new(0, 0, 0)), Some(Voxel::Snow));
    assert_eq!(resident.get_voxel(UVec3::new(1, 0, 0)), Some(Voxel::Air));
}
