use voxel_pipeline::world::{Block, Direction, SolidBlock, World, WorldDimension, WorldPosition};

#[test]
fn index_round_trip_all_cells() {
    let dims = WorldDimension(2, 3, 4);
    for i in 0..24usize {
        let p = dims.pos(i);
        assert!(p.0 < 2 && p.1 < 3 && p.2 < 4);
        assert_eq!(dims.idx(p), i);
    }
    for z in 0..4u32 {
        for y in 0..3u32 {
            for x in 0..2u32 {
                let p = WorldPosition(x, y, z);
                assert_eq!(dims.pos(dims.idx(p)), p);
            }
        }
    }
}

#[test]
fn index_is_x_fastest() {
    let dims = WorldDimension(2, 3, 4);
    assert_eq!(dims.idx(WorldPosition(1, 0, 0)), 1);
    assert_eq!(dims.idx(WorldPosition(0, 1, 0)), 2);
    assert_eq!(dims.idx(WorldPosition(0, 0, 1)), 6);
    assert_eq!(dims.idx(WorldPosition(1, 2, 3)), 23);
    assert_eq!(dims.pos(1), WorldPosition(1, 0, 0));
    assert_eq!(dims.pos(7), WorldPosition(1, 0, 1));
}

#[test]
fn max_faces_formula() {
    assert_eq!(WorldDimension(1, 1, 1).max_faces(), 6);
    assert_eq!(WorldDimension(2, 3, 4).max_faces(), 24 * 3 + 6 + 8 + 12);
    assert_eq!(WorldDimension(0, 5, 7).max_faces(), 35);
}

#[test]
fn apply_at_boundaries() {
    let dims = WorldDimension(3, 2, 2);
    assert_eq!(Direction::West.apply(dims, WorldPosition(0, 1, 1)), None);
    assert_eq!(Direction::East.apply(dims, WorldPosition(2, 1, 0)), None);
    assert_eq!(Direction::Down.apply(dims, WorldPosition(1, 0, 1)), None);
    assert_eq!(Direction::Up.apply(dims, WorldPosition(1, 1, 1)), None);
    assert_eq!(Direction::North.apply(dims, WorldPosition(1, 1, 0)), None);
    assert_eq!(Direction::South.apply(dims, WorldPosition(1, 1, 1)), None);
}

#[test]
fn apply_steps_inside() {
    let dims = WorldDimension(3, 3, 3);
    let p = WorldPosition(1, 1, 1);
    assert_eq!(Direction::North.apply(dims, p), Some(WorldPosition(1, 1, 0)));
    assert_eq!(Direction::South.apply(dims, p), Some(WorldPosition(1, 1, 2)));
    assert_eq!(Direction::East.apply(dims, p), Some(WorldPosition(2, 1, 1)));
    assert_eq!(Direction::West.apply(dims, p), Some(WorldPosition(0, 1, 1)));
    assert_eq!(Direction::Up.apply(dims, p), Some(WorldPosition(1, 2, 1)));
    assert_eq!(Direction::Down.apply(dims, p), Some(WorldPosition(1, 0, 1)));
}

#[test]
fn direction_ids_and_order() {
    let all = Direction::iter();
    assert_eq!(
        all,
        vec![
            Direction::North,
            Direction::South,
            Direction::East,
            Direction::West,
            Direction::Up,
            Direction::Down
        ]
    );
    for (k, d) in all.iter().enumerate() {
        assert_eq!(d.id(), k as u32);
        assert_eq!(Direction::from_id(k as u32), *d);
    }
}

#[test]
fn color_channels_unpacked() {
    assert_eq!(Block::from_color(0x00112233), Block::solid(0x33, 0x22, 0x11));
    assert_eq!(Block::from_color(0xff010203), Block::Solid(SolidBlock(3, 2, 1)));
    assert_eq!(Block::default(), Block::Empty);
}

#[test]
fn new_world_is_empty() {
    let w = World::new(WorldDimension(2, 2, 2));
    assert_eq!(w.dims(), WorldDimension(2, 2, 2));
    assert!(w.iter().is_empty());
    for i in 0..8usize {
        assert!(!w.test(w.dims().pos(i)));
    }
}

#[test]
fn set_get_and_iter_order() {
    let mut w = World::new(WorldDimension(2, 2, 1));
    w.set(WorldPosition(1, 1, 0), Block::solid(1, 2, 3));
    w.set(WorldPosition(1, 0, 0), Block::solid(4, 5, 6));
    assert!(w.test(WorldPosition(1, 1, 0)));
    assert!(!w.test(WorldPosition(0, 1, 0)));
    assert_eq!(w.get(WorldPosition(1, 0, 0)), Block::solid(4, 5, 6));
    assert_eq!(
        w.iter(),
        vec![
            (WorldPosition(1, 0, 0), SolidBlock(4, 5, 6)),
            (WorldPosition(1, 1, 0), SolidBlock(1, 2, 3)),
        ]
    );
}
