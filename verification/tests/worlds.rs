use voxel_mesh::{
    generate_world, neighbor_place, Chunk, ChunkCoord, ChunkRegistry, ConfigError, Dimensions,
    Direction, InsertError, Neighbors, WorldConfig,
};

fn config(width: i32, height: i32, render_distance: i32, octaves: i32) -> WorldConfig {
    WorldConfig {
        chunk_width: width,
        chunk_height: height,
        render_distance,
        noise_octaves: octaves,
        ground_level: 100,
    }
}

fn chunk_at(x: i32, z: i32, dims: Dimensions, height: i32) -> Chunk {
    let columns = dims.width() * dims.width();
    Chunk::new(0, dims, ChunkCoord { x, z }, &vec![height; columns]).unwrap()
}

#[test]
fn valid_config_gives_its_dimensions() {
    let dims = config(32, 256, 25, 4).validate().unwrap();
    assert_eq!(dims.width(), 32);
    assert_eq!(dims.height(), 256);
}

#[test]
fn config_errors_come_in_a_fixed_order() {
    assert_eq!(config(0, 0, 0, 0).validate(), Err(ConfigError::NonPositiveWidth));
    assert_eq!(config(-1, 4, 1, 1).validate(), Err(ConfigError::NonPositiveWidth));
    assert_eq!(config(4, 0, 0, 0).validate(), Err(ConfigError::NonPositiveHeight));
    assert_eq!(config(4096, 4096, 0, 0).validate(), Err(ConfigError::TooLarge));
    assert_eq!(config(4, 4, 0, 0).validate(), Err(ConfigError::RenderDistance));
    assert_eq!(config(4, 4, -1, 1).validate(), Err(ConfigError::RenderDistance));
    assert_eq!(config(4, 4, 46341, 0).validate(), Err(ConfigError::TooManyChunks));
    assert_eq!(config(4, 4, 1, 0).validate(), Err(ConfigError::Octaves));
    assert_eq!(config(4, 4, 46340, -2).validate(), Err(ConfigError::Octaves));
    assert!(config(4, 4, 46340, 1).validate().is_ok());
    assert!(config(1, 1, 1, 1).validate().is_ok());
}

#[test]
fn chunks_are_numbered_along_z_first() {
    let c = config(4, 4, 3, 1);
    assert_eq!(c.chunk_coord(0), Some(ChunkCoord { x: 0, z: 0 }));
    assert_eq!(c.chunk_coord(1), Some(ChunkCoord { x: 0, z: 1 }));
    assert_eq!(c.chunk_coord(2), Some(ChunkCoord { x: 0, z: 2 }));
    assert_eq!(c.chunk_coord(3), Some(ChunkCoord { x: 1, z: 0 }));
    assert_eq!(c.chunk_coord(8), Some(ChunkCoord { x: 2, z: 2 }));
    assert_eq!(c.chunk_coord(9), None);
    assert_eq!(c.chunk_coord(usize::MAX), None);
    assert_eq!(config(4, 4, 0, 1).chunk_coord(0), None);
    assert_eq!(config(0, 4, 3, 1).chunk_coord(0), None);
}

#[test]
fn generate_world_builds_every_chunk_from_its_surface() {
    let c = config(2, 3, 2, 1);
    let surfaces = vec![vec![0, 1, 2, 3], vec![3; 4], vec![0; 4], vec![1, 1, 2, 2]];
    let registry = generate_world(&c, &surfaces).unwrap();
    assert_eq!(registry.len(), 4);
    assert_eq!(registry.dims(), Dimensions::new(2, 3).unwrap());
    for k in 0..4usize {
        let chunk = registry.chunk(k).unwrap();
        assert_eq!(chunk.id(), k as i32);
        assert_eq!(chunk.coord(), ChunkCoord { x: (k / 2) as i32, z: (k % 2) as i32 });
        assert_eq!(chunk.coord(), c.chunk_coord(k).unwrap());
        for y in 0..3usize {
            for z in 0..2usize {
                for x in 0..2usize {
                    assert_eq!(chunk.is_solid(x, y, z), (y as i32) < surfaces[k][x + z * 2]);
                }
            }
        }
        let found = registry.get(chunk.coord()).unwrap();
        assert_eq!(found.id(), k as i32);
    }
    assert!(registry.chunk(4).is_none());
}

#[test]
fn generate_world_reports_what_is_wrong() {
    let good = vec![vec![0; 4]; 4];
    assert_eq!(generate_world(&config(0, 3, 2, 1), &good).err(), Some(ConfigError::NonPositiveWidth));
    assert_eq!(generate_world(&config(2, 0, 2, 1), &good).err(), Some(ConfigError::NonPositiveHeight));
    assert_eq!(generate_world(&config(2000, 2000, 2, 1), &good).err(), Some(ConfigError::TooLarge));
    assert_eq!(generate_world(&config(2, 3, 0, 1), &good).err(), Some(ConfigError::RenderDistance));
    assert_eq!(generate_world(&config(2, 3, 50000, 1), &good).err(), Some(ConfigError::TooManyChunks));
    assert_eq!(generate_world(&config(2, 3, 2, 0), &good).err(), Some(ConfigError::Octaves));
    assert_eq!(generate_world(&config(2, 3, 3, 1), &good).err(), Some(ConfigError::SurfaceCount));
    assert_eq!(generate_world(&config(2, 3, 2, 1), &vec![]).err(), Some(ConfigError::SurfaceCount));
    let short = vec![vec![0; 4], vec![0; 4], vec![0; 3], vec![0; 4]];
    assert_eq!(generate_world(&config(2, 3, 2, 1), &short).err(), Some(ConfigError::SurfaceLength));
    assert!(generate_world(&config(2, 3, 2, 1), &good).is_ok());
}

#[test]
fn neighbor_place_is_one_step_along_x_or_z() {
    let c = ChunkCoord { x: 3, z: -7 };
    assert_eq!(neighbor_place(c, Direction::PlusX), Some(ChunkCoord { x: 4, z: -7 }));
    assert_eq!(neighbor_place(c, Direction::MinusX), Some(ChunkCoord { x: 2, z: -7 }));
    assert_eq!(neighbor_place(c, Direction::PlusZ), Some(ChunkCoord { x: 3, z: -6 }));
    assert_eq!(neighbor_place(c, Direction::MinusZ), Some(ChunkCoord { x: 3, z: -8 }));
    assert_eq!(neighbor_place(c, Direction::PlusY), None);
    assert_eq!(neighbor_place(c, Direction::MinusY), None);
}

#[test]
fn neighbor_place_ends_where_the_coordinates_end() {
    let far = ChunkCoord { x: i32::MAX, z: i32::MIN };
    assert_eq!(neighbor_place(far, Direction::PlusX), None);
    assert_eq!(neighbor_place(far, Direction::MinusZ), None);
    assert_eq!(
        neighbor_place(far, Direction::MinusX),
        Some(ChunkCoord { x: i32::MAX - 1, z: i32::MIN })
    );
    assert_eq!(
        neighbor_place(far, Direction::PlusZ),
        Some(ChunkCoord { x: i32::MAX, z: i32::MIN + 1 })
    );
}

#[test]
fn registry_finds_chunks_by_their_place() {
    let dims = Dimensions::new(2, 2).unwrap();
    let mut registry = ChunkRegistry::new(dims);
    assert_eq!(registry.len(), 0);
    assert!(registry.get(ChunkCoord { x: 0, z: 0 }).is_none());
    registry.insert(chunk_at(0, 0, dims, 1)).unwrap();
    registry.insert(chunk_at(-1, 0, dims, 2)).unwrap();
    registry.insert(chunk_at(0, 5, dims, 0)).unwrap();
    registry.insert(chunk_at(i32::MAX, i32::MIN, dims, 0)).unwrap();
    registry.insert(chunk_at(i32::MIN, i32::MAX, dims, 0)).unwrap();
    assert_eq!(registry.len(), 5);
    assert_eq!(registry.get(ChunkCoord { x: -1, z: 0 }).unwrap().coord(), ChunkCoord { x: -1, z: 0 });
    assert!(registry.get(ChunkCoord { x: -1, z: 0 }).unwrap().is_solid(0, 1, 0));
    assert!(!registry.get(ChunkCoord { x: 0, z: 0 }).unwrap().is_solid(0, 1, 0));
    assert!(registry.get(ChunkCoord { x: 0, z: -1 }).is_none());
    assert!(registry.get(ChunkCoord { x: 5, z: 0 }).is_none());
    assert!(registry.get(ChunkCoord { x: i32::MAX, z: i32::MIN }).is_some());
    assert!(registry.get(ChunkCoord { x: i32::MIN, z: i32::MAX }).is_some());
    assert!(registry.get(ChunkCoord { x: i32::MIN, z: i32::MIN }).is_none());
    assert_eq!(registry.chunk(1).unwrap().coord(), ChunkCoord { x: -1, z: 0 });
    assert!(registry.chunk(5).is_none());
}

#[test]
fn registry_refuses_a_second_chunk_at_one_place() {
    let dims = Dimensions::new(2, 2).unwrap();
    let mut registry = ChunkRegistry::new(dims);
    assert_eq!(registry.insert(chunk_at(1, 1, dims, 1)), Ok(()));
    assert_eq!(registry.insert(chunk_at(1, 1, dims, 2)), Err(InsertError::Occupied));
    assert_eq!(registry.len(), 1);
    assert!(!registry.get(ChunkCoord { x: 1, z: 1 }).unwrap().is_solid(0, 1, 0));
}

#[test]
fn registry_refuses_a_chunk_of_another_size() {
    let dims = Dimensions::new(2, 2).unwrap();
    let other = Dimensions::new(2, 3).unwrap();
    let mut registry = ChunkRegistry::new(dims);
    assert_eq!(registry.insert(chunk_at(0, 0, other, 1)), Err(InsertError::Dimensions));
    assert_eq!(registry.len(), 0);
    registry.insert(chunk_at(0, 0, dims, 1)).unwrap();
    // The size is looked at before the place.
    assert_eq!(registry.insert(chunk_at(0, 0, other, 1)), Err(InsertError::Dimensions));
    assert_eq!(registry.len(), 1);
}

#[test]
fn neighbors_are_the_chunks_one_step_away() {
    let dims = Dimensions::new(2, 2).unwrap();
    let mut registry = ChunkRegistry::new(dims);
    for (x, z) in [(0, 0), (1, 0), (-1, 0), (0, 1), (0, -1), (1, 1), (2, 0), (0, 2)] {
        registry.insert(chunk_at(x, z, dims, 1)).unwrap();
    }
    let here = ChunkCoord { x: 0, z: 0 };
    let at = |d| registry.neighbor_of(here, d).map(|c: &Chunk| c.coord());
    assert_eq!(at(Direction::PlusX), Some(ChunkCoord { x: 1, z: 0 }));
    assert_eq!(at(Direction::MinusX), Some(ChunkCoord { x: -1, z: 0 }));
    assert_eq!(at(Direction::PlusZ), Some(ChunkCoord { x: 0, z: 1 }));
    assert_eq!(at(Direction::MinusZ), Some(ChunkCoord { x: 0, z: -1 }));
    assert_eq!(at(Direction::PlusY), None);
    assert_eq!(at(Direction::MinusY), None);
    let corner = ChunkCoord { x: 1, z: 1 };
    assert!(registry.neighbor_of(corner, Direction::PlusX).is_none());
    assert!(registry.neighbor_of(corner, Direction::PlusZ).is_none());
    assert_eq!(
        registry.neighbor_of(corner, Direction::MinusX).unwrap().coord(),
        ChunkCoord { x: 0, z: 1 }
    );
    let nbrs = Neighbors::of(&registry, ChunkCoord { x: 2, z: 0 });
    assert!(nbrs.plus_x.is_none() && nbrs.plus_z.is_none() && nbrs.minus_z.is_none());
    assert_eq!(nbrs.minus_x.unwrap().coord(), ChunkCoord { x: 1, z: 0 });
    let far = Neighbors::of(&registry, ChunkCoord { x: i32::MAX, z: i32::MAX });
    assert!(far.plus_x.is_none() && far.minus_x.is_none());
    assert!(far.plus_z.is_none() && far.minus_z.is_none());
}
