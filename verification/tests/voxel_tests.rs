use voxel_world::coords::{coord_to_index, IVec3, UVec2, UVec3};
use voxel_world::quad::QuadFace;
use voxel_world::queue::Queue;
use voxel_world::voxel::{Voxel, VoxelColor};

#[test]
fn voxel_classification_is_consistent() {
    let all = [
        Voxel::Air,
        Voxel::Stone,
        Voxel::Grass,
        Voxel::Dirt,
        Voxel::Water,
        Voxel::Sand,
        Voxel::Snow,
    ];
    for v in all {
        assert_eq!(v.is_solid(), !v.is_air() && !v.is_liquid());
    }
    assert!(Voxel::Air.is_air());
    assert!(!Voxel::Air.is_solid());
    assert!(Voxel::Water.is_liquid());
    assert!(!Voxel::Water.is_solid());
    assert!(Voxel::Stone.is_solid());
    assert!(Voxel::Sand.is_solid());
    assert!(Voxel::Snow.is_solid());
}

#[test]
fn voxel_colors_are_total() {
    assert_eq!(Voxel::Air.to_color(), VoxelColor { r: 0, g: 0, b: 0, a: 0 });
    assert_eq!(
        Voxel::Stone.to_color(),
        VoxelColor { r: 176, g: 184, b: 184, a: 255 }
    );
    assert_eq!(Voxel::Water.to_color().a, 204);
    assert_eq!(Voxel::Grass.to_color().a, 255);
}

#[test]
fn coord_to_index_flattens_x_fastest() {
    let size = UVec3::new(4, 4, 4);
    assert_eq!(coord_to_index(UVec3::new(0, 0, 0), size), 0);
    assert_eq!(coord_to_index(UVec3::new(1, 0, 0), size), 1);
    assert_eq!(coord_to_index(UVec3::new(0, 1, 0), size), 4);
    assert_eq!(coord_to_index(UVec3::new(0, 0, 1), size), 16);
    assert_eq!(coord_to_index(UVec3::new(3, 3, 3), size), 63);
    let odd = UVec3::new(2, 3, 5);
    assert_eq!(coord_to_index(UVec3::new(1, 2, 4), odd), 1 + 2 * 2 + 4 * 6);
}

#[test]
fn bounded_queue_evicts_front_when_full() {
    let mut q: Queue<u32> = Queue::new(2);
    q.push(1);
    q.push(2);
    assert_eq!(q.0, vec![1, 2]);
    q.push(3);
    assert_eq!(q.0, vec![2, 3]);
    q.push(4);
    assert_eq!(q.0, vec![3, 4]);
}

#[test]
fn quad_face_normals_are_units() {
    assert_eq!(QuadFace::Right.normal(), IVec3::new(1, 0, 0));
    assert_eq!(QuadFace::Left.normal(), IVec3::new(-1, 0, 0));
    assert_eq!(QuadFace::Top.normal(), IVec3::new(0, 1, 0));
    assert_eq!(QuadFace::Bottom.normal(), IVec3::new(0, -1, 0));
    assert_eq!(QuadFace::Front.normal(), IVec3::new(0, 0, 1));
    assert_eq!(QuadFace::Back.normal(), IVec3::new(0, 0, -1));
    let (axis, direction) = QuadFace::Top.axis_direction();
    assert_eq!(axis.get_normal(direction), QuadFace::Top.normal());
}

#[test]
fn uvec2_holds_components() {
    let s = UVec2::new(7, 9);
    assert_eq!(s.x, 7);
    assert_eq!(s.y, 9);
}
