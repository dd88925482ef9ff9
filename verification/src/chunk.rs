//! Blocks and chunks: the dense grid of one chunk and how it is indexed.

use vstd::arithmetic::div_mod::{lemma_fundamental_div_mod, lemma_fundamental_div_mod_converse};
use vstd::arithmetic::mul::{
    lemma_mul_inequality,
    lemma_mul_is_associative,
    lemma_mul_is_commutative,
    lemma_mul_is_distributive_add,
    lemma_mul_strictly_positive,
    lemma_mul_upper_bound,
};
use vstd::prelude::*;

verus! {

/// The largest number of blocks that one chunk may hold. With at most six
/// faces to a block and four corners to a face, every corner of a chunk's
/// mesh then has a 32-bit index.
pub const MAX_VOXELS: usize = 0x800_0000;

/// What is wrong with the sizes that a caller asked for.
#[derive(Clone, Copy, Debug, PartialEq, Eq, Structural)]
pub enum ConfigError {
    /// The width of a chunk is zero or negative.
    NonPositiveWidth,
    /// The height of a chunk is zero or negative.
    NonPositiveHeight,
    /// A chunk would hold more than `MAX_VOXELS` blocks.
    TooLarge,
    /// The render distance is below one.
    RenderDistance,
    /// There are no noise octaves.
    Octaves,
    /// The number of surface heights is not the number of columns.
    SurfaceLength,
    /// The number of surfaces is not the number of chunks.
    SurfaceCount,
    /// The chunks within the render distance are too many to number.
    TooManyChunks,
}

/// What a block is made of.
#[derive(Clone, Copy, Debug, PartialEq, Eq, Structural)]
pub enum BlockType {
    Air,
    Solid,
}

/// One cell of a chunk's grid.
#[derive(Clone, Copy, Debug, PartialEq, Eq, Structural)]
pub struct Block {
    pub id: i32,
    pub block_type: BlockType,
}

impl Block {
    /// A block with the given identity and kind.
    pub fn new(id: i32, block_type: BlockType) -> (b: Block)
        ensures
            b == (Block { id, block_type }),
    {
        Block { id, block_type }
    }
}

/// The kind of the block at height `y` of a column whose surface lies at
/// `surface_y`: solid below the surface, air from the surface up.
pub open spec fn block_type_at(y: int, surface_y: int) -> BlockType {
    if y < surface_y {
        BlockType::Solid
    } else {
        BlockType::Air
    }
}

/// Chooses the kind of the block at height `y` of a column whose surface lies
/// at `surface_y`.
pub fn get_block(y: i32, surface_y: i32) -> (t: BlockType)
    ensures
        t == block_type_at(y as int, surface_y as int),
{
    if y < surface_y {
        BlockType::Solid
    } else {
        BlockType::Air
    }
}

/// Where a chunk lies in the grid of chunks: one step is one chunk.
#[derive(Clone, Copy, Debug, PartialEq, Eq, Structural)]
pub struct ChunkCoord {
    pub x: i32,
    pub z: i32,
}

/// The size of every chunk of a world: as wide along z as along x.
#[derive(Clone, Copy, Debug, PartialEq, Eq, Structural)]
pub struct Dimensions {
    width: usize,
    height: usize,
}

/// The error in a width and a height, if there is one. The width is looked at
/// first, then the height, then the number of blocks.
pub open spec fn dimensions_error(width: int, height: int) -> Option<ConfigError> {
    if width <= 0 {
        Some(ConfigError::NonPositiveWidth)
    } else if height <= 0 {
        Some(ConfigError::NonPositiveHeight)
    } else if width * width * height > MAX_VOXELS {
        Some(ConfigError::TooLarge)
    } else {
        None
    }
}

impl Dimensions {
    /// The number of blocks along x, and along z.
    pub closed spec fn spec_width(self) -> int {
        self.width as int
    }

    /// The number of blocks along y.
    pub closed spec fn spec_height(self) -> int {
        self.height as int
    }

    /// The number of blocks in one horizontal layer, and of columns.
    pub open spec fn layer(self) -> int {
        self.spec_width() * self.spec_width()
    }

    /// The number of blocks in a chunk.
    pub open spec fn volume(self) -> int {
        self.spec_width() * self.spec_width() * self.spec_height()
    }

    /// Width and height are above zero and the blocks are not too many.
    pub open spec fn wf(self) -> bool {
        dimensions_error(self.spec_width(), self.spec_height()).is_none()
    }

    /// `(x, y, z)` names a block of the chunk.
    pub open spec fn in_bounds(self, x: int, y: int, z: int) -> bool {
        &&& 0 <= x < self.spec_width()
        &&& 0 <= y < self.spec_height()
        &&& 0 <= z < self.spec_width()
    }

    /// The place of block `(x, y, z)` in the chunk's array: x runs fastest,
    /// then z, then y.
    pub open spec fn index_of(self, x: int, y: int, z: int) -> int {
        x + z * self.spec_width() + y * self.layer()
    }

    /// The x coordinate of the block with array index `i`.
    pub open spec fn x_of(self, i: int) -> int {
        i % self.spec_width()
    }

    /// The z coordinate of the block with array index `i`.
    pub open spec fn z_of(self, i: int) -> int {
        (i % self.layer()) / self.spec_width()
    }

    /// The y coordinate of the block with array index `i`.
    pub open spec fn y_of(self, i: int) -> int {
        i / self.layer()
    }

    /// The column of block `i`: its place in a layer.
    pub open spec fn column_of(self, i: int) -> int {
        i % self.layer()
    }

    /// Checks a width and a height and keeps them.
    pub fn new(width: i32, height: i32) -> (r: Result<Dimensions, ConfigError>)
        ensures
            match r {
                Ok(d) => d.wf() && d.spec_width() == width && d.spec_height() == height,
                Err(e) => dimensions_error(width as int, height as int) == Some(e),
            },
    {
        if width <= 0 {
            return Err(ConfigError::NonPositiveWidth);
        }
        if height <= 0 {
            return Err(ConfigError::NonPositiveHeight);
        }
        let w: u64 = width as u64;
        let h: u64 = height as u64;
        proof {
            lemma_mul_strictly_positive(w as int, w as int);
            lemma_mul_inequality(1, w as int, w as int);
            lemma_mul_inequality(1, h as int, w as int * w as int);
            lemma_mul_is_commutative(h as int, w as int * w as int);
            lemma_mul_upper_bound(w as int, 0x8000_0000, w as int, 0x8000_0000);
        }
        if w > MAX_VOXELS as u64 {
            return Err(ConfigError::TooLarge);
        }
        let layer: u64 = w * w;
        if layer > MAX_VOXELS as u64 {
            return Err(ConfigError::TooLarge);
        }
        proof {
            lemma_mul_upper_bound(layer as int, MAX_VOXELS as int, h as int, 0x8000_0000);
        }
        let volume: u64 = layer * h;
        if volume > MAX_VOXELS as u64 {
            return Err(ConfigError::TooLarge);
        }
        Ok(Dimensions { width: width as usize, height: height as usize })
    }

    /// The number of blocks along x, and along z.
    #[verifier::when_used_as_spec(spec_width_usize)]
    pub fn width(&self) -> (w: usize)
        ensures
            w == self.spec_width(),
    {
        self.width
    }

    /// The number of blocks along y.
    #[verifier::when_used_as_spec(spec_height_usize)]
    pub fn height(&self) -> (h: usize)
        ensures
            h == self.spec_height(),
    {
        self.height
    }

    /// The width as a machine integer.
    pub closed spec fn spec_width_usize(&self) -> usize {
        self.width
    }

    /// The height as a machine integer.
    pub closed spec fn spec_height_usize(&self) -> usize {
        self.height
    }

    /// What the sizes of a well-formed chunk are bounded by.
    pub proof fn lemma_bounds(self)
        requires
            self.wf(),
        ensures
            0 < self.spec_width() <= self.layer() <= self.volume() <= MAX_VOXELS,
            0 < self.spec_height() <= self.volume(),
            self.volume() == self.layer() * self.spec_height(),
            self.width() == self.spec_width(),
            self.height() == self.spec_height(),
    {
        let w = self.spec_width();
        let h = self.spec_height();
        lemma_mul_strictly_positive(w, w);
        lemma_mul_inequality(1, w, w);
        lemma_mul_inequality(1, h, w * w);
        lemma_mul_is_commutative(h, w * w);
        lemma_mul_inequality(1, w * w, h);
    }

    /// The array index of a block names that block, and no other.
    pub proof fn lemma_index_of(self, x: int, y: int, z: int)
        requires
            self.wf(),
            self.in_bounds(x, y, z),
        ensures
            0 <= self.index_of(x, y, z) < self.volume(),
            self.x_of(self.index_of(x, y, z)) == x,
            self.y_of(self.index_of(x, y, z)) == y,
            self.z_of(self.index_of(x, y, z)) == z,
            self.column_of(self.index_of(x, y, z)) == x + z * self.spec_width(),
            0 <= x + z * self.spec_width() < self.layer(),
    {
        let w = self.spec_width();
        let h = self.spec_height();
        let l = self.layer();
        let c = x + z * w;
        let i = self.index_of(x, y, z);
        self.lemma_bounds();
        lemma_mul_inequality(0, z, w);
        lemma_mul_inequality(z, w - 1, w);
        lemma_mul_is_distributive_add(w, w - 1, 1);
        lemma_mul_is_commutative(w, w - 1);
        assert(0 <= c < l);
        lemma_mul_inequality(0, y, l);
        lemma_mul_inequality(y, h - 1, l);
        lemma_mul_is_distributive_add(l, h - 1, 1);
        lemma_mul_is_commutative(l, h - 1);
        assert(0 <= i < l * h);
        lemma_fundamental_div_mod_converse(i, l, y, c);
        lemma_fundamental_div_mod_converse(c, w, z, x);
        lemma_mul_is_associative(y, w, w);
        lemma_mul_is_distributive_add(w, z, y * w);
        lemma_mul_is_commutative(w, z);
        lemma_mul_is_commutative(w, y * w);
        lemma_mul_is_commutative(w, z + y * w);
        assert(i == (z + y * w) * w + x);
        lemma_fundamental_div_mod_converse(i, w, z + y * w, x);
    }

    /// Every array index below the volume is the index of one block.
    pub proof fn lemma_index_decode(self, i: int)
        requires
            self.wf(),
            0 <= i < self.volume(),
        ensures
            self.in_bounds(self.x_of(i), self.y_of(i), self.z_of(i)),
            self.index_of(self.x_of(i), self.y_of(i), self.z_of(i)) == i,
    {
        let w = self.spec_width();
        let h = self.spec_height();
        let l = self.layer();
        self.lemma_bounds();
        let y = i / l;
        let c = i % l;
        lemma_fundamental_div_mod(i, l);
        lemma_fundamental_div_mod(c, w);
        lemma_mul_is_commutative(l, y);
        lemma_mul_is_commutative(w, c / w);
        if y >= h {
            lemma_mul_inequality(h, y, l);
            lemma_mul_is_commutative(h, l);
        }
        if c / w >= w {
            lemma_mul_inequality(w, c / w, w);
        }
        assert(0 <= c / w);
        let x = c % w;
        let z = c / w;
        assert(self.in_bounds(x, y, z));
        assert(i == x + z * w + y * l);
        self.lemma_index_of(x, y, z);
    }
}

/// The blocks of a chunk with the given surface heights, one height for each
/// column: block `i` has the identity `i`, and is solid where it lies below
/// the surface of its column.
pub open spec fn built_blocks(dims: Dimensions, surface: Seq<i32>) -> Seq<Block> {
    Seq::new(
        dims.volume() as nat,
        |i: int|
            Block {
                id: i as i32,
                block_type: block_type_at(dims.y_of(i), surface[dims.column_of(i)] as int),
            },
    )
}

/// A dense grid of blocks. It does not change once it is built.
#[derive(Debug)]
pub struct Chunk {
    id: i32,
    dims: Dimensions,
    coord: ChunkCoord,
    blocks: Vec<Block>,
}

impl Chunk {
    /// The number that the chunk was given.
    pub closed spec fn spec_id(&self) -> i32 {
        self.id
    }

    /// The size of the chunk.
    pub closed spec fn spec_dims(&self) -> Dimensions {
        self.dims
    }

    /// The place of the chunk in the grid of chunks.
    pub closed spec fn spec_coord(&self) -> ChunkCoord {
        self.coord
    }

    /// The blocks of the chunk, in the order of their array indices.
    pub closed spec fn blocks(&self) -> Seq<Block> {
        self.blocks@
    }

    /// The size is in order and there is one block for every place of the grid.
    pub open spec fn wf(&self) -> bool {
        &&& self.dims().wf()
        &&& self.blocks().len() == self.dims().volume()
    }

    /// `(x, y, z)` names a block of this chunk, and that block is solid.
    pub open spec fn solid_at(&self, x: int, y: int, z: int) -> bool {
        &&& self.dims().in_bounds(x, y, z)
        &&& self.blocks()[self.dims().index_of(x, y, z)].block_type == BlockType::Solid
    }

    /// Builds the chunk at `coord` from the surface heights of its columns.
    /// `surface` holds one height for each column, that of column `(x, z)` at
    /// `x + z * width`, rounded down to a whole number.
    pub fn new(id: i32, dims: Dimensions, coord: ChunkCoord, surface: &Vec<i32>) -> (r: Result<
        Chunk,
        ConfigError,
    >)
        requires
            dims.wf(),
        ensures
            match r {
                Ok(c) => {
                    &&& surface.len() == dims.layer()
                    &&& c.wf()
                    &&& c.id() == id
                    &&& c.dims() == dims
                    &&& c.coord() == coord
                    &&& c.blocks() == built_blocks(dims, surface@)
                },
                Err(e) => surface.len() != dims.layer() && e == ConfigError::SurfaceLength,
            },
    {
        proof {
            dims.lemma_bounds();
        }
        let w = dims.width();
        let h = dims.height();
        let layer = w * w;
        if surface.len() != layer {
            return Err(ConfigError::SurfaceLength);
        }
        let num_voxels = layer * h;
        let mut blocks: Vec<Block> = Vec::with_capacity(num_voxels);
        let mut i: usize = 0;
        while i < num_voxels
            invariant
                dims.wf(),
                layer == dims.layer(),
                0 < layer,
                num_voxels == dims.volume(),
                num_voxels <= MAX_VOXELS,
                surface.len() == layer,
                i <= num_voxels,
                blocks.len() == i,
                forall|k: int| 0 <= k < i ==> blocks[k] == #[trigger] built_blocks(dims, surface@)[k],
            decreases num_voxels - i,
        {
            let y = i / layer;
            let column = i % layer;
            blocks.push(Block::new(i as i32, get_block(y as i32, surface[column])));
            i += 1;
        }
        assert(blocks@ =~= built_blocks(dims, surface@));
        Ok(Chunk { id, dims, coord, blocks })
    }

    /// The number that the chunk was given.
    #[verifier::when_used_as_spec(spec_id)]
    pub fn id(&self) -> (id: i32)
        ensures
            id == self.spec_id(),
    {
        self.id
    }

    /// The size of the chunk.
    #[verifier::when_used_as_spec(spec_dims)]
    pub fn dims(&self) -> (d: Dimensions)
        ensures
            d == self.spec_dims(),
    {
        self.dims
    }

    /// The place of the chunk in the grid of chunks.
    #[verifier::when_used_as_spec(spec_coord)]
    pub fn coord(&self) -> (c: ChunkCoord)
        ensures
            c == self.spec_coord(),
    {
        self.coord
    }

    /// The kind of the block at `(x, y, z)`, if the chunk has such a block.
    pub fn block_at(&self, x: usize, y: usize, z: usize) -> (t: Option<BlockType>)
        requires
            self.wf(),
        ensures
            self.dims().in_bounds(x as int, y as int, z as int) ==> t == Some(
                self.blocks()[self.dims().index_of(x as int, y as int, z as int)].block_type,
            ),
            !self.dims().in_bounds(x as int, y as int, z as int) ==> t.is_none(),
    {
        let w = self.dims.width();
        let h = self.dims.height();
        if x >= w || y >= h || z >= w {
            return None;
        }
        proof {
            self.dims.lemma_bounds();
            self.dims.lemma_index_of(x as int, y as int, z as int);
            lemma_mul_inequality(z as int, w as int, w as int);
            lemma_mul_inequality(y as int, h as int, w as int * w as int);
            lemma_mul_is_commutative(h as int, w as int * w as int);
        }
        let i = x + z * w + y * (w * w);
        Some(self.blocks[i].block_type)
    }

    /// Whether `(x, y, z)` names a block of this chunk that is solid.
    pub fn is_solid(&self, x: usize, y: usize, z: usize) -> (r: bool)
        requires
            self.wf(),
        ensures
            r == self.solid_at(x as int, y as int, z as int),
    {
        match self.block_at(x, y, z) {
            Some(BlockType::Solid) => true,
            _ => false,
        }
    }

    /// Where the chunk begins in the world, in blocks: its place in the grid
    /// of chunks times the width of a chunk, at height zero.
    pub fn origin(&self) -> (o: (i64, i64, i64))
        requires
            self.wf(),
        ensures
            o.0 == self.coord().x * self.dims().spec_width(),
            o.1 == 0,
            o.2 == self.coord().z * self.dims().spec_width(),
    {
        proof {
            self.dims.lemma_bounds();
        }
        let w = self.dims.width() as i64;
        assert(-0x8000_0000 * 0x800_0000 <= self.coord.x * w <= 0x8000_0000 * 0x800_0000)
            by (nonlinear_arith)
            requires
                -0x8000_0000 <= self.coord.x <= 0x8000_0000,
                0 < w <= 0x800_0000,
        ;
        assert(-0x8000_0000 * 0x800_0000 <= self.coord.z * w <= 0x8000_0000 * 0x800_0000)
            by (nonlinear_arith)
            requires
                -0x8000_0000 <= self.coord.z <= 0x8000_0000,
                0 < w <= 0x800_0000,
        ;
        ((self.coord.x as i64) * w, 0, (self.coord.z as i64) * w)
    }
}

/// The world coordinates `(x, z)` of a column of the chunk at `coord`, or
/// nothing if the chunk has no column of that number.
pub fn world_column(dims: Dimensions, coord: ChunkCoord, column: usize) -> (r: Option<(i64, i64)>)
    requires
        dims.wf(),
    ensures
        column < dims.layer() ==> r == Some(
            (
                (coord.x * dims.spec_width() + column as int % dims.spec_width()) as i64,
                (coord.z * dims.spec_width() + column as int / dims.spec_width()) as i64,
            ),
        ),
        column >= dims.layer() ==> r.is_none(),
{
    proof {
        dims.lemma_bounds();
    }
    let w = dims.width();
    if column >= w * w {
        return None;
    }
    let wi = w as i64;
    assert(-0x8000_0000 * 0x800_0000 <= coord.x * wi <= 0x8000_0000 * 0x800_0000)
        by (nonlinear_arith)
        requires
            -0x8000_0000 <= coord.x <= 0x8000_0000,
            0 < wi <= 0x800_0000,
    ;
    assert(-0x8000_0000 * 0x800_0000 <= coord.z * wi <= 0x8000_0000 * 0x800_0000)
        by (nonlinear_arith)
        requires
            -0x8000_0000 <= coord.z <= 0x8000_0000,
            0 < wi <= 0x800_0000,
    ;
    let x = (column % w) as i64;
    let z = (column / w) as i64;
    Some(((coord.x as i64) * wi + x, (coord.z as i64) * wi + z))
}

/// A chunk built from surface heights is solid exactly below the surface:
/// the block at `(x, y, z)` is solid if and only if `y` is less than the
/// height given for column `(x, z)`.
pub proof fn lemma_built_chunk_follows_surface(
    c: Chunk,
    surface: Seq<i32>,
    x: int,
    y: int,
    z: int,
)
    requires
        c.wf(),
        surface.len() == c.dims().layer(),
        c.blocks() == built_blocks(c.dims(), surface),
        c.dims().in_bounds(x, y, z),
    ensures
        c.solid_at(x, y, z) <==> y < surface[x + z * c.dims().spec_width()],
{
    c.dims().lemma_index_of(x, y, z);
}

/// Building is a function of the sizes and the surface heights alone: two
/// chunks built from the same heights hold the same blocks, whenever and
/// wherever they are built.
pub proof fn lemma_build_is_deterministic(a: Chunk, b: Chunk, dims: Dimensions, surface: Seq<i32>)
    requires
        a.dims() == dims,
        b.dims() == dims,
        a.blocks() == built_blocks(dims, surface),
        b.blocks() == built_blocks(dims, surface),
    ensures
        a.blocks() == b.blocks(),
        forall|x: int, y: int, z: int| a.solid_at(x, y, z) == b.solid_at(x, y, z),
{
}

} // verus!
