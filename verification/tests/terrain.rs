use noise::{NoiseFn, Perlin};
use voxel_mesh::{
    create_cube_mesh, world_column, Chunk, ChunkCoord, Dimensions, Neighbors, WorldConfig,
};

const SCALE: f64 = 0.05;
const AMPLITUDE: f64 = 5.0;

fn surface_height(noises: &[Perlin], ground_level: i32, x: i64, z: i64) -> i32 {
    let mut value = 0.0;
    for noise in noises {
        value += noise.get([x as f64 * SCALE, z as f64 * SCALE]);
    }
    (ground_level as f64 + value * AMPLITUDE).floor() as i32
}

fn surface_of(noises: &[Perlin], config: &WorldConfig, dims: Dimensions, coord: ChunkCoord) -> Vec<i32> {
    let columns = dims.width() * dims.width();
    (0..columns)
        .map(|c| {
            let (x, z) = world_column(dims, coord, c).unwrap();
            surface_height(noises, config.ground_level, x, z)
        })
        .collect()
}

#[test]
fn surface_stays_near_ground_level() {
    let config = WorldConfig {
        chunk_width: 16,
        chunk_height: 256,
        render_distance: 2,
        noise_octaves: 4,
        ground_level: 100,
    };
    let dims = config.validate().unwrap();
    let noises: Vec<Perlin> = (0..config.noise_octaves as u32).map(Perlin::new).collect();
    let reach = (AMPLITUDE * config.noise_octaves as f64) as i32;
    for k in 0..4 {
        let coord = config.chunk_coord(k).unwrap();
        let surface = surface_of(&noises, &config, dims, coord);
        for &h in &surface {
            assert!(config.ground_level - reach <= h && h <= config.ground_level + reach);
        }
        let chunk = Chunk::new(k as i32, dims, coord, &surface).unwrap();
        for z in 0..16 {
            for x in 0..16 {
                assert!(chunk.is_solid(x, 0, z));
                assert!(chunk.is_solid(x, 79, z));
                assert!(!chunk.is_solid(x, 120, z));
                assert!(!chunk.is_solid(x, 255, z));
            }
        }
    }
}

#[test]
fn same_seeds_give_the_same_chunk() {
    let config = WorldConfig {
        chunk_width: 8,
        chunk_height: 128,
        render_distance: 1,
        noise_octaves: 4,
        ground_level: 60,
    };
    let dims = config.validate().unwrap();
    let coord = ChunkCoord { x: 3, z: -2 };
    let build = || {
        let noises: Vec<Perlin> = (0..4).map(|_| Perlin::new(1)).collect();
        let surface = surface_of(&noises, &config, dims, coord);
        (surface.clone(), Chunk::new(0, dims, coord, &surface).unwrap())
    };
    let (first_surface, first) = build();
    let (second_surface, second) = build();
    assert_eq!(first_surface, second_surface);
    for y in 0..128 {
        for z in 0..8 {
            for x in 0..8 {
                assert_eq!(first.block_at(x, y, z), second.block_at(x, y, z));
            }
        }
    }
    let a = create_cube_mesh(&first, &Neighbors::none());
    let b = create_cube_mesh(&second, &Neighbors::none());
    assert_eq!(a.positions, b.positions);
    assert_eq!(a.normals, b.normals);
    assert_eq!(a.indices, b.indices);
}
