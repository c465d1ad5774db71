use voxel_world::chunk::Chunk;
use voxel_world::coords::{IVec3, UVec3};
use voxel_world::generation::{generate_chunk, terrain_voxel_at};
use voxel_world::voxel::Voxel;

#[test]
fn terrain_voxel_layers() {
    // Surface above the sea is grass; the dirt layer sits under it; deeper is
    // stone; above the surface lies water up to the sea level, then air.
    let height = 10;
    let sea = 3;
    let dirt = 2;
    assert_eq!(terrain_voxel_at(10, height, sea, dirt), Voxel::Grass);
    assert_eq!(terrain_voxel_at(9, height, sea, dirt), Voxel::Dirt);
    assert_eq!(terrain_voxel_at(8, height, sea, dirt), Voxel::Dirt);
    assert_eq!(terrain_voxel_at(7, height, sea, dirt), Voxel::Stone);
    assert_eq!(terrain_voxel_at(0, height, sea, dirt), Voxel::Stone);
    assert_eq!(terrain_voxel_at(11, height, sea, dirt), Voxel::Air);
}

#[test]
fn terrain_voxel_under_sea_level() {
    // At or below the sea level the surface and dirt turn to sand, and the
    // space above a low surface fills with water.
    let height = 2;
    let sea = 5;
    let dirt = 1;
    assert_eq!(terrain_voxel_at(2, height, sea, dirt), Voxel::Sand);
    assert_eq!(terrain_voxel_at(1, height, sea, dirt), Voxel::Sand);
    assert_eq!(terrain_voxel_at(0, height, sea, dirt), Voxel::Stone);
    assert_eq!(terrain_voxel_at(3, height, sea, dirt), Voxel::Water);
    assert_eq!(terrain_voxel_at(5, height, sea, dirt), Voxel::Water);
    assert_eq!(terrain_voxel_at(6, height, sea, dirt), Voxel::Air);
}

#[test]
fn terrain_voxel_zero_dirt_thickness() {
    assert_eq!(terrain_voxel_at(4, 5, -10, 0), Voxel::Stone);
    assert_eq!(terrain_voxel_at(5, 5, -10, 0), Voxel::Grass);
}

#[test]
fn generate_chunk_fills_columns_from_heights() {
    // A 2-by-2 footprint with one raised column; heights are world-space,
    // x varying fastest then z.
    let size = UVec3::new(2, 4, 2);
    let heights = vec![1, 2, 0, 0];
    let chunk = generate_chunk(IVec3::new(0, 0, 0), size, &heights, -5, 1);
    assert_eq!(chunk.grid_position(), IVec3::new(0, 0, 0));
    // Column (0, 0): surface at height 1.
    assert_eq!(chunk.get_voxel(UVec3::new(0, 0, 0)), Some(Voxel::Dirt));
    assert_eq!(chunk.get_voxel(UVec3::new(0, 1, 0)), Some(Voxel::Grass));
    assert_eq!(chunk.get_voxel(UVec3::new(0, 2, 0)), Some(Voxel::Air));
    // Column (1, 0): surface at height 2.
    assert_eq!(chunk.get_voxel(UVec3::new(1, 0, 0)), Some(Voxel::Stone));
    assert_eq!(chunk.get_voxel(UVec3::new(1, 1, 0)), Some(Voxel::Dirt));
    assert_eq!(chunk.get_voxel(UVec3::new(1, 2, 0)), Some(Voxel::Grass));
    assert_eq!(chunk.get_voxel(UVec3::new(1, 3, 0)), Some(Voxel::Air));
    // Columns (0, 1) and (1, 1): surface at height 0.
    assert_eq!(chunk.get_voxel(UVec3::new(0, 0, 1)), Some(Voxel::Grass));
    assert_eq!(chunk.get_voxel(UVec3::new(1, 1, 1)), Some(Voxel::Air));
}

#[test]
fn generate_chunk_below_surface_is_stone_and_dirt() {
    // A chunk one step down in the world, under a surface at height 2 with a
    // thick dirt layer reaching into it.
    let size = UVec3::new(1, 4, 1);
    let heights = vec![2];
    let chunk = generate_chunk(IVec3::new(0, -1, 0), size, &heights, -9, 4);
    // Global heights -4..=-1: all within dirt reach (2 - 4 = -2).
    assert_eq!(chunk.get_voxel(UVec3::new(0, 0, 0)), Some(Voxel::Stone));
    assert_eq!(chunk.get_voxel(UVec3::new(0, 1, 0)), Some(Voxel::Stone));
    assert_eq!(chunk.get_voxel(UVec3::new(0, 2, 0)), Some(Voxel::Dirt));
    assert_eq!(chunk.get_voxel(UVec3::new(0, 3, 0)), Some(Voxel::Dirt));
    // Entirely solid, with every neighbour unknown: all faces stay covered.
    let (solid, transparent) = {
        let neighbours = voxel_world::mesher::ChunkNeighbours::new();
        chunk.mesh(&neighbours)
    };
    assert!(solid.is_none());
    assert!(transparent.is_none());
}
