use voxel_world::chunk::Chunk;
use voxel_world::coords::{IVec3, UVec2, UVec3};
use voxel_world::mesh::{Axis, Direction, Quad};
use voxel_world::mesher::{ChunkNeighbours, MeshKind};
use voxel_world::voxel::Voxel;

fn uniform_chunk(grid: IVec3, size: UVec3, voxel: Voxel) -> Chunk {
    let mut chunk = Chunk::new(grid, size);
    for x in 0..size.x {
        for y in 0..size.y {
            for z in 0..size.z {
                chunk.set_voxel(UVec3::new(x, y, z), voxel);
            }
        }
    }
    chunk
}

#[test]
fn meshing_is_deterministic() {
    let size = UVec3::new(3, 3, 3);
    let mut chunk = Chunk::new(IVec3::new(0, 0, 0), size);
    chunk.set_voxel(UVec3::new(0, 0, 0), Voxel::Stone);
    chunk.set_voxel(UVec3::new(1, 0, 0), Voxel::Stone);
    chunk.set_voxel(UVec3::new(1, 1, 0), Voxel::Grass);
    chunk.set_voxel(UVec3::new(2, 2, 2), Voxel::Water);
    let mut neighbours = ChunkNeighbours::new();
    neighbours.set(
        Axis::X,
        Direction::Positive,
        uniform_chunk(IVec3::new(1, 0, 0), size, Voxel::Air),
    );
    let first = chunk.greedy_mesh(&neighbours, MeshKind::Opaque);
    let second = chunk.greedy_mesh(&neighbours, MeshKind::Opaque);
    assert_eq!(first.quads(), second.quads());
    let first_t = chunk.greedy_mesh(&neighbours, MeshKind::Transparent);
    let second_t = chunk.greedy_mesh(&neighbours, MeshKind::Transparent);
    assert_eq!(first_t.quads(), second_t.quads());
}

#[test]
fn known_open_neighbour_exposes_full_boundary_face() {
    // A chunk entirely stone next to a chunk entirely air on +X: exactly one
    // quad, covering the full y-by-z extent of the +X face.
    let size = UVec3::new(2, 2, 2);
    let stone = uniform_chunk(IVec3::new(0, 0, 0), size, Voxel::Stone);
    let mut neighbours = ChunkNeighbours::new();
    neighbours.set(
        Axis::X,
        Direction::Positive,
        uniform_chunk(IVec3::new(1, 0, 0), size, Voxel::Air),
    );
    let mesh = stone.greedy_mesh(&neighbours, MeshKind::Opaque);
    assert_eq!(
        mesh.quads(),
        &vec![Quad {
            position: UVec3::new(2, 0, 0),
            size: UVec2::new(2, 2),
            axis: Axis::X,
            direction: Direction::Positive,
            color: Voxel::Stone.to_color(),
        }]
    );
}

#[test]
fn known_closed_neighbour_hides_boundary_face() {
    // The reverse: a stone neighbour on +X hides the face entirely.
    let size = UVec3::new(2, 2, 2);
    let stone = uniform_chunk(IVec3::new(0, 0, 0), size, Voxel::Stone);
    let mut neighbours = ChunkNeighbours::new();
    neighbours.set(
        Axis::X,
        Direction::Positive,
        uniform_chunk(IVec3::new(1, 0, 0), size, Voxel::Stone),
    );
    let mesh = stone.greedy_mesh(&neighbours, MeshKind::Opaque);
    assert!(mesh.is_empty());
}

#[test]
fn unknown_neighbour_suppresses_boundary_until_remesh() {
    // With no entry for +X the boundary is treated as covered; after the
    // pipeline supplies the neighbour and the chunk is re-meshed, the face
    // appears if and only if the neighbour is open there.
    let size = UVec3::new(2, 2, 2);
    let stone = uniform_chunk(IVec3::new(0, 0, 0), size, Voxel::Stone);
    let no_neighbours = ChunkNeighbours::new();
    let (solid, transparent) = stone.mesh(&no_neighbours);
    assert!(solid.is_none());
    assert!(transparent.is_none());

    let mut open_neighbours = ChunkNeighbours::new();
    open_neighbours.set(
        Axis::X,
        Direction::Positive,
        uniform_chunk(IVec3::new(1, 0, 0), size, Voxel::Air),
    );
    let (solid, _) = stone.mesh(&open_neighbours);
    let solid = solid.expect("the +X face is visible once the open neighbour is known");
    assert_eq!(solid.quads().len(), 1);
    assert_eq!(solid.quads()[0].axis, Axis::X);
    assert_eq!(solid.quads()[0].direction, Direction::Positive);

    let mut closed_neighbours = ChunkNeighbours::new();
    closed_neighbours.set(
        Axis::X,
        Direction::Positive,
        uniform_chunk(IVec3::new(1, 0, 0), size, Voxel::Stone),
    );
    let (solid, _) = stone.mesh(&closed_neighbours);
    assert!(solid.is_none());
}

#[test]
fn all_air_chunk_meshes_to_nothing() {
    let size = UVec3::new(4, 4, 4);
    let air = Chunk::new(IVec3::new(0, 0, 0), size);
    let no_neighbours = ChunkNeighbours::new();
    let (solid, transparent) = air.mesh(&no_neighbours);
    assert!(solid.is_none());
    assert!(transparent.is_none());
    let mut neighbours = ChunkNeighbours::new();
    neighbours.set(
        Axis::Y,
        Direction::Positive,
        uniform_chunk(IVec3::new(0, 1, 0), size, Voxel::Stone),
    );
    neighbours.set(
        Axis::Y,
        Direction::Negative,
        uniform_chunk(IVec3::new(0, -1, 0), size, Voxel::Air),
    );
    let (solid, transparent) = air.mesh(&neighbours);
    assert!(solid.is_none());
    assert!(transparent.is_none());
}

#[test]
fn greedy_merge_emits_one_quad_for_a_slab() {
    // A 2-by-2-by-1 slab of identical stone fully exposed on its +Z face
    // merges into a single 2-by-2 quad, not four unit quads.
    let size = UVec3::new(2, 2, 2);
    let mut chunk = Chunk::new(IVec3::new(0, 0, 0), size);
    chunk.set_voxel(UVec3::new(0, 0, 0), Voxel::Stone);
    chunk.set_voxel(UVec3::new(1, 0, 0), Voxel::Stone);
    chunk.set_voxel(UVec3::new(0, 1, 0), Voxel::Stone);
    chunk.set_voxel(UVec3::new(1, 1, 0), Voxel::Stone);
    let no_neighbours = ChunkNeighbours::new();
    let mesh = chunk.greedy_mesh(&no_neighbours, MeshKind::Opaque);
    assert_eq!(
        mesh.quads(),
        &vec![Quad {
            position: UVec3::new(0, 0, 1),
            size: UVec2::new(2, 2),
            axis: Axis::Z,
            direction: Direction::Positive,
            color: Voxel::Stone.to_color(),
        }]
    );
}

#[test]
fn greedy_merge_stops_at_mismatched_voxel() {
    // A row of stone with one grass cell in it cannot merge across the
    // mismatch: the exposed +Z face splits into more than one quad, each
    // carrying its own colour.
    let size = UVec3::new(3, 1, 1);
    let mut chunk = Chunk::new(IVec3::new(0, 0, 0), size);
    chunk.set_voxel(UVec3::new(0, 0, 0), Voxel::Stone);
    chunk.set_voxel(UVec3::new(1, 0, 0), Voxel::Grass);
    chunk.set_voxel(UVec3::new(2, 0, 0), Voxel::Stone);
    let mut neighbours = ChunkNeighbours::new();
    neighbours.set(
        Axis::Z,
        Direction::Positive,
        uniform_chunk(IVec3::new(0, 0, 1), size, Voxel::Air),
    );
    let mesh = chunk.greedy_mesh(&neighbours, MeshKind::Opaque);
    assert_eq!(mesh.quads().len(), 3);
    assert_eq!(mesh.quads()[0].color, Voxel::Stone.to_color());
    assert_eq!(mesh.quads()[1].color, Voxel::Grass.to_color());
    assert_eq!(mesh.quads()[2].color, Voxel::Stone.to_color());
}

#[test]
fn transparent_mesh_comes_from_liquid_against_air() {
    // Water against air is visible in the transparent mesh; water against
    // water is not; and water never joins the opaque mesh.
    let size = UVec3::new(2, 2, 2);
    let water = uniform_chunk(IVec3::new(0, 0, 0), size, Voxel::Water);
    let mut neighbours = ChunkNeighbours::new();
    neighbours.set(
        Axis::Y,
        Direction::Positive,
        uniform_chunk(IVec3::new(0, 1, 0), size, Voxel::Air),
    );
    neighbours.set(
        Axis::Y,
        Direction::Negative,
        uniform_chunk(IVec3::new(0, -1, 0), size, Voxel::Water),
    );
    let (solid, transparent) = water.mesh(&neighbours);
    assert!(solid.is_none());
    let transparent = transparent.expect("water against air is visible");
    assert_eq!(
        transparent.quads(),
        &vec![Quad {
            position: UVec3::new(0, 2, 0),
            size: UVec2::new(2, 2),
            axis: Axis::Y,
            direction: Direction::Positive,
            color: Voxel::Water.to_color(),
        }]
    );
}
