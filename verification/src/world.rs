//! A whole world: its configuration, its chunks and their meshes.

use crate::chunk::{built_blocks, dimensions_error, Chunk, ChunkCoord, ConfigError, Dimensions};
use crate::cull::Neighbors;
use crate::mesh::{create_cube_mesh, meshes_chunk, Mesh};
use crate::registry::ChunkRegistry;
use vstd::arithmetic::div_mod::lemma_fundamental_div_mod;
use vstd::arithmetic::mul::{lemma_mul_inequality, lemma_mul_is_commutative};
use vstd::prelude::*;

verus! {

/// The largest render distance whose chunks can all be numbered.
pub const MAX_RENDER_DISTANCE: i32 = 46340;

/// The whole-number part of what a world is generated from.
#[derive(Clone, Copy, Debug, PartialEq, Eq, Structural)]
pub struct WorldConfig {
    /// The number of blocks of a chunk along x, and along z.
    pub chunk_width: i32,
    /// The number of blocks of a chunk along y.
    pub chunk_height: i32,
    /// The number of chunks generated along x, and along z.
    pub render_distance: i32,
    /// The number of noise layers that are summed.
    pub noise_octaves: i32,
    /// The height of the surface where the noise is zero.
    pub ground_level: i32,
}

impl WorldConfig {
    /// The first thing that is wrong with the configuration, if anything is:
    /// the sizes of a chunk are looked at first, then the render distance,
    /// then the octaves.
    pub open spec fn error(self) -> Option<ConfigError> {
        if dimensions_error(self.chunk_width as int, self.chunk_height as int).is_some() {
            dimensions_error(self.chunk_width as int, self.chunk_height as int)
        } else if self.render_distance < 1 {
            Some(ConfigError::RenderDistance)
        } else if self.render_distance > MAX_RENDER_DISTANCE {
            Some(ConfigError::TooManyChunks)
        } else if self.noise_octaves < 1 {
            Some(ConfigError::Octaves)
        } else {
            None
        }
    }

    /// The number of chunks of the world.
    pub open spec fn chunk_count(self) -> int {
        self.render_distance * self.render_distance
    }

    /// The place of chunk number `k`: the chunks are numbered along z first.
    pub open spec fn coord_of(self, k: int) -> ChunkCoord {
        ChunkCoord {
            x: (k / (self.render_distance as int)) as i32,
            z: (k % (self.render_distance as int)) as i32,
        }
    }

    /// Checks the configuration and gives the size of its chunks.
    pub fn validate(&self) -> (r: Result<Dimensions, ConfigError>)
        ensures
            match r {
                Ok(d) => {
                    &&& self.error().is_none()
                    &&& d.wf()
                    &&& d.spec_width() == self.chunk_width
                    &&& d.spec_height() == self.chunk_height
                },
                Err(e) => self.error() == Some(e),
            },
    {
        match Dimensions::new(self.chunk_width, self.chunk_height) {
            Err(e) => Err(e),
            Ok(d) => {
                if self.render_distance < 1 {
                    Err(ConfigError::RenderDistance)
                } else if self.render_distance > MAX_RENDER_DISTANCE {
                    Err(ConfigError::TooManyChunks)
                } else if self.noise_octaves < 1 {
                    Err(ConfigError::Octaves)
                } else {
                    Ok(d)
                }
            },
        }
    }

    /// The place of chunk number `k`, if the configuration is in order and
    /// has that many chunks.
    pub fn chunk_coord(&self, k: usize) -> (r: Option<ChunkCoord>)
        ensures
            self.error().is_none() && k < self.chunk_count() ==> r == Some(self.coord_of(k as int)),
            self.error().is_some() || k >= self.chunk_count() ==> r.is_none(),
    {
        if self.validate().is_err() {
            return None;
        }
        let rd = self.render_distance as usize;
        proof {
            lemma_mul_inequality(rd as int, MAX_RENDER_DISTANCE as int, rd as int);
            lemma_mul_inequality(
                rd as int,
                MAX_RENDER_DISTANCE as int,
                MAX_RENDER_DISTANCE as int,
            );
            lemma_mul_is_commutative(rd as int, MAX_RENDER_DISTANCE as int);
        }
        if k >= rd * rd {
            return None;
        }
        proof {
            lemma_fundamental_div_mod(k as int, rd as int);
            if k as int / rd as int >= rd {
                lemma_mul_inequality(rd as int, k as int / rd as int, rd as int);
                lemma_mul_is_commutative(rd as int, k as int / rd as int);
            }
        }
        Some(ChunkCoord { x: (k / rd) as i32, z: (k % rd) as i32 })
    }
}

/// The first thing that is wrong with a configuration and the surfaces given
/// for its chunks, if anything is: the configuration is looked at first,
/// then the number of surfaces, then the length of each.
pub open spec fn world_error(config: WorldConfig, surfaces: Seq<Vec<i32>>) -> Option<ConfigError> {
    if config.error().is_some() {
        config.error()
    } else if surfaces.len() != config.chunk_count() {
        Some(ConfigError::SurfaceCount)
    } else if exists|k: int|
        0 <= k < surfaces.len() && (#[trigger] surfaces[k]).len() != config.chunk_width
            * config.chunk_width {
        Some(ConfigError::SurfaceLength)
    } else {
        None
    }
}

/// Builds every chunk of a world. `surfaces[k]` holds the surface heights of
/// the columns of chunk number `k`, that of column `(x, z)` at `x + z *
/// width`.
pub fn generate_world(config: &WorldConfig, surfaces: &Vec<Vec<i32>>) -> (r: Result<
    ChunkRegistry,
    ConfigError,
>)
    ensures
        match r {
            Ok(registry) => {
                &&& world_error(*config, surfaces@).is_none()
                &&& registry.wf()
                &&& registry.dims().spec_width() == config.chunk_width
                &&& registry.dims().spec_height() == config.chunk_height
                &&& registry.chunks().len() == config.chunk_count()
                &&& forall|k: int|
                    0 <= k < registry.chunks().len() ==> {
                        let c = #[trigger] registry.chunks()[k];
                        &&& c.id() == k
                        &&& c.coord() == config.coord_of(k)
                        &&& c.blocks() == built_blocks(registry.dims(), surfaces[k]@)
                    }
            },
            Err(e) => world_error(*config, surfaces@) == Some(e),
        },
{
    let dims = match config.validate() {
        Ok(d) => d,
        Err(e) => {
            return Err(e);
        },
    };
    let rd = config.render_distance as usize;
    proof {
        dims.lemma_bounds();
        lemma_mul_inequality(rd as int, MAX_RENDER_DISTANCE as int, rd as int);
        lemma_mul_inequality(rd as int, MAX_RENDER_DISTANCE as int, MAX_RENDER_DISTANCE as int);
        lemma_mul_is_commutative(rd as int, MAX_RENDER_DISTANCE as int);
    }
    let count = rd * rd;
    if surfaces.len() != count {
        return Err(ConfigError::SurfaceCount);
    }
    let mut registry = ChunkRegistry::new(dims);
    let mut k: usize = 0;
    while k < count
        invariant
            config.error().is_none(),
            dims.wf(),
            dims.spec_width() == config.chunk_width,
            dims.spec_height() == config.chunk_height,
            rd == config.render_distance,
            0 < rd <= MAX_RENDER_DISTANCE,
            count == config.chunk_count(),
            count <= i32::MAX,
            surfaces.len() == count,
            k <= count,
            registry.wf(),
            registry.dims() == dims,
            registry.chunks().len() == k,
            forall|j: int|
                0 <= j < k ==> {
                    let c = #[trigger] registry.chunks()[j];
                    &&& c.id() == j
                    &&& c.coord() == config.coord_of(j)
                    &&& c.blocks() == built_blocks(dims, surfaces[j]@)
                },
            forall|j: int| 0 <= j < k ==> (#[trigger] surfaces[j]).len() == dims.layer(),
        decreases count - k,
    {
        proof {
            lemma_coord_of(*config, k as int);
        }
        let coord = ChunkCoord { x: (k / rd) as i32, z: (k % rd) as i32 };
        let chunk = match Chunk::new(k as i32, dims, coord, &surfaces[k]) {
            Ok(c) => c,
            Err(e) => {
                return Err(e);
            },
        };
        proof {
            assert forall|j: int| !registry.holds_at(coord, j) by {
                if registry.holds_at(coord, j) {
                    lemma_coord_of(*config, j);
                    lemma_fundamental_div_mod(j, rd as int);
                    lemma_fundamental_div_mod(k as int, rd as int);
                }
            }
        }
        match registry.insert(chunk) {
            Ok(_) => {},
            Err(_) => {
                return Err(ConfigError::TooManyChunks);
            },
        }
        k += 1;
    }
    Ok(registry)
}

/// The numbers of two different chunks name two different places, each with
/// coordinates from zero up to the render distance.
proof fn lemma_coord_of(config: WorldConfig, k: int)
    requires
        config.error().is_none(),
        0 <= k < config.chunk_count(),
    ensures
        0 <= k / (config.render_distance as int) < config.render_distance,
        0 <= k % (config.render_distance as int) < config.render_distance,
{
    let rd = config.render_distance as int;
    lemma_fundamental_div_mod(k, rd);
    if k / rd >= rd {
        lemma_mul_inequality(rd, k / rd, rd);
        lemma_mul_is_commutative(rd, k / rd);
    }
}

/// Builds the mesh of every chunk of a world, each against the neighbours
/// that the registry holds for it. All chunks are there before the first is
/// meshed.
pub fn mesh_world(registry: &ChunkRegistry) -> (meshes: Vec<Mesh>)
    requires
        registry.wf(),
    ensures
        meshes.len() == registry.chunks().len(),
        forall|i: int|
            0 <= i < meshes.len() ==> {
                &&& (#[trigger] meshes[i]).wf()
                &&& meshes_chunk(
                    &meshes[i],
                    &registry.chunks()[i],
                    &Neighbors::around(registry, registry.chunks()[i].coord()),
                )
            },
{
    let n = registry.len();
    let mut meshes: Vec<Mesh> = Vec::with_capacity(n);
    let mut i: usize = 0;
    while i < n
        invariant
            registry.wf(),
            n == registry.chunks().len(),
            i <= n,
            meshes.len() == i,
            forall|j: int|
                0 <= j < i ==> {
                    &&& (#[trigger] meshes[j]).wf()
                    &&& meshes_chunk(
                        &meshes[j],
                        &registry.chunks()[j],
                        &Neighbors::around(registry, registry.chunks()[j].coord()),
                    )
                },
        decreases n - i,
    {
        match registry.chunk(i) {
            Some(chunk) => {
                let nbrs = Neighbors::of(registry, chunk.coord());
                let m = create_cube_mesh(chunk, &nbrs);
                meshes.push(m);
            },
            None => {},
        }
        i += 1;
    }
    meshes
}

} // verus!
