use voxel_world::chunk::{Chunk, WorldPosition};
use voxel_world::coords::{IVec3, UVec3};
use voxel_world::voxel::Voxel;

#[test]
fn new_chunk_is_all_air() {
    let chunk = Chunk::new(IVec3::new(0, 0, 0), UVec3::new(3, 3, 3));
    assert!(chunk.is_empty());
    for x in 0..3 {
        for y in 0..3 {
            for z in 0..3 {
                assert_eq!(chunk.get_voxel(UVec3::new(x, y, z)), Some(Voxel::Air));
            }
        }
    }
}

#[test]
fn get_voxel_is_none_out_of_range() {
    let chunk = Chunk::new(IVec3::new(0, 0, 0), UVec3::new(2, 3, 4));
    assert_eq!(chunk.get_voxel(UVec3::new(2, 0, 0)), None);
    assert_eq!(chunk.get_voxel(UVec3::new(0, 3, 0)), None);
    assert_eq!(chunk.get_voxel(UVec3::new(0, 0, 4)), None);
    assert_eq!(chunk.get_voxel(UVec3::new(1, 2, 3)), Some(Voxel::Air));
}

#[test]
fn set_voxel_writes_in_range() {
    let mut chunk = Chunk::new(IVec3::new(0, 0, 0), UVec3::new(2, 2, 2));
    chunk.set_voxel(UVec3::new(1, 0, 1), Voxel::Stone);
    assert_eq!(chunk.get_voxel(UVec3::new(1, 0, 1)), Some(Voxel::Stone));
    assert_eq!(chunk.get_voxel(UVec3::new(0, 0, 1)), Some(Voxel::Air));
    assert!(!chunk.is_empty());
}

#[test]
fn set_voxel_ignores_out_of_range() {
    let mut chunk = Chunk::new(IVec3::new(0, 0, 0), UVec3::new(2, 2, 2));
    chunk.set_voxel(UVec3::new(5, 0, 0), Voxel::Stone);
    chunk.set_voxel(UVec3::new(0, 2, 0), Voxel::Stone);
    assert!(chunk.is_empty());
}

#[test]
fn world_position_multiplies_grid_by_size() {
    let chunk = Chunk::new(IVec3::new(2, -3, 0), UVec3::new(16, 16, 16));
    assert_eq!(
        chunk.world_position(),
        WorldPosition { x: 32, y: -48, z: 0 }
    );
}

#[test]
fn snapshot_copies_every_voxel() {
    let mut chunk = Chunk::new(IVec3::new(1, 2, 3), UVec3::new(2, 2, 2));
    chunk.set_voxel(UVec3::new(0, 1, 0), Voxel::Water);
    let copy = chunk.snapshot();
    assert_eq!(copy.grid_position(), IVec3::new(1, 2, 3));
    assert_eq!(copy.size(), UVec3::new(2, 2, 2));
    assert_eq!(copy.get_voxel(UVec3::new(0, 1, 0)), Some(Voxel::Water));
    assert_eq!(copy.get_voxel(UVec3::new(1, 1, 1)), Some(Voxel::Air));
}

#[test]
fn from_voxels_keeps_storage_order() {
    let mut voxels = vec![Voxel::Air; 8];
    voxels[1] = Voxel::Dirt;
    let chunk = Chunk::from_voxels(IVec3::new(0, 0, 0), UVec3::new(2, 2, 2), voxels);
    assert_eq!(chunk.get_voxel(UVec3::new(1, 0, 0)), Some(Voxel::Dirt));
    assert_eq!(chunk.get_voxel(UVec3::new(0, 1, 0)), Some(Voxel::Air));
}

#[test]
fn degenerate_chunk_has_no_voxels() {
    let chunk = Chunk::new(IVec3::new(0, 0, 0), UVec3::new(0, 4, 4));
    assert!(chunk.is_empty());
    assert_eq!(chunk.get_voxel(UVec3::new(0, 0, 0)), None);
    let neighbours = voxel_world::mesher::ChunkNeighbours::new();
    let (solid, transparent) = chunk.mesh(&neighbours);
    assert!(solid.is_none());
    assert!(transparent.is_none());
}
