use voxel_pipeline::mesh::{build_faces, required_capacity, Face};
use voxel_pipeline::world::{Block, SolidBlock, World, WorldDimension, WorldPosition};

#[test]
fn single_cell_shows_six_faces() {
    let mut w = World::new(WorldDimension(1, 1, 1));
    w.set(WorldPosition(0, 0, 0), Block::solid(9, 8, 7));
    let faces = build_faces(&w);
    assert_eq!(faces.len(), 6);
    assert_eq!(faces.len(), w.dims().max_faces());
    for (k, f) in faces.iter().enumerate() {
        assert_eq!(
            *f,
            Face { position: WorldPosition(0, 0, 0), color: SolidBlock(9, 8, 7), direction: k as u32 }
        );
    }
}

#[test]
fn shared_face_is_culled() {
    let mut w = World::new(WorldDimension(2, 1, 1));
    w.set(WorldPosition(0, 0, 0), Block::solid(1, 1, 1));
    w.set(WorldPosition(1, 0, 0), Block::solid(2, 2, 2));
    let faces = build_faces(&w);
    assert_eq!(faces.len(), 10);
    let first: Vec<u32> = faces[..5].iter().map(|f| f.direction).collect();
    let second: Vec<u32> = faces[5..].iter().map(|f| f.direction).collect();
    assert_eq!(first, vec![0, 1, 3, 4, 5]);
    assert_eq!(second, vec![0, 1, 2, 4, 5]);
    assert!(faces[..5].iter().all(|f| f.position == WorldPosition(0, 0, 0)));
    assert!(faces[5..].iter().all(|f| f.position == WorldPosition(1, 0, 0)));
}

#[test]
fn empty_world_has_no_faces() {
    let w = World::new(WorldDimension(3, 3, 3));
    assert!(build_faces(&w).is_empty());
}

#[test]
fn extraction_is_repeatable() {
    let mut w = World::new(WorldDimension(3, 2, 2));
    w.set(WorldPosition(0, 0, 0), Block::solid(1, 0, 0));
    w.set(WorldPosition(1, 0, 0), Block::solid(0, 1, 0));
    w.set(WorldPosition(1, 1, 1), Block::solid(0, 0, 1));
    let a = build_faces(&w);
    let b = build_faces(&w);
    assert_eq!(a, b);
    assert_eq!(a.len(), 6 + 6 - 2 + 6);
}

#[test]
fn full_grid_reaches_bound_only_on_surface() {
    let dims = WorldDimension(2, 2, 2);
    let mut w = World::new(dims);
    for i in 0..8usize {
        w.set(dims.pos(i), Block::solid(5, 5, 5));
    }
    let faces = build_faces(&w);
    assert_eq!(faces.len(), 24);
    assert!(faces.len() <= dims.max_faces());
}

#[test]
fn capacity_grows_but_never_shrinks() {
    let dims = WorldDimension(2, 1, 1);
    assert_eq!(dims.max_faces(), 11);
    assert_eq!(required_capacity(0, dims), 11);
    assert_eq!(required_capacity(12, dims), 12);
    assert_eq!(required_capacity(11, dims), 11);
    assert_eq!(required_capacity(10, dims), 11);
}
