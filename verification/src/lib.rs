//! Surface meshes for block terrain.
//!
//! A world is a set of chunks, each a dense grid of air and solid blocks. For
//! one chunk this crate finds the faces of solid blocks that can be seen from
//! outside, looking across chunk borders where a neighbour is loaded, merges
//! adjacent faces into larger rectangles and lays the result out as vertex
//! and index buffers.
//!
//! All coordinates are integers. Corner positions and normals are kept in
//! half units, so that the corner of a block at `x` lies at `2 * x - 1` or
//! `2 * x + 1`.

pub mod chunk;
pub mod cull;
pub mod emit;
pub mod geometry;
pub mod group;
pub mod merge;
pub mod mesh;
pub mod quad;
pub mod registry;
pub mod remove;
pub mod settle;
pub mod world;

pub use chunk::{
    get_block, world_column, Block, BlockType, Chunk, ChunkCoord, ConfigError, Dimensions,
    MAX_VOXELS,
};
pub use cull::{is_exposed, visible_faces, Neighbors};
pub use emit::emit_faces;
pub use geometry::{Axis, Direction, IVec3, Point3};
pub use group::{group_by_normal, normal_order, partial_cmp};
pub use merge::{can_merge, merge_faces, merge_pair, merge_pass, merge_sweep, MergeRule};
pub use mesh::{assemble, chunk_quads, create_cube_mesh, random_hues, Mesh, Rgba, MAX_QUADS};
pub use quad::{face_of, generate_cube, Quad, QuadModel, MAX_COORD};
pub use registry::{neighbor_place, ChunkRegistry, InsertError};
pub use remove::{place_of, reversed, sorted_indices, RemoveMultiple};
pub use world::{generate_world, mesh_world, WorldConfig, MAX_RENDER_DISTANCE};
