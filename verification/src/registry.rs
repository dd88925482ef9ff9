//! The chunks of a world, found by their place in the grid of chunks.

use crate::chunk::{Chunk, ChunkCoord, Dimensions};
use crate::geometry::Direction;
use std::collections::HashMap;
use vstd::prelude::*;

verus! {

broadcast use vstd::std_specs::hash::group_hash_axioms;

/// Why a chunk was not taken into a registry.
#[derive(Clone, Copy, Debug, PartialEq, Eq, Structural)]
pub enum InsertError {
    /// The chunk does not have the size of the registry's chunks.
    Dimensions,
    /// The registry already holds a chunk at that place.
    Occupied,
}

/// The number under which a place in the grid of chunks is filed.
pub open spec fn coord_key(c: ChunkCoord) -> u64 {
    ((c.x + 0x8000_0000) * 0x1_0000_0000 + (c.z + 0x8000_0000)) as u64
}

/// Computes the number under which a place is filed.
fn key_of(c: ChunkCoord) -> (k: u64)
    ensures
        k == coord_key(c),
{
    let hi: u64 = (c.x as i64 + 0x8000_0000) as u64;
    let lo: u64 = (c.z as i64 + 0x8000_0000) as u64;
    hi * 0x1_0000_0000 + lo
}

/// The place next to `coord` in direction `d`, if chunks have neighbours in
/// that direction and the place has coordinates.
pub open spec fn neighbor_coord(coord: ChunkCoord, d: Direction) -> Option<ChunkCoord> {
    match d {
        Direction::PlusX => if coord.x < i32::MAX {
            Some(ChunkCoord { x: (coord.x + 1) as i32, z: coord.z })
        } else {
            None
        },
        Direction::MinusX => if coord.x > i32::MIN {
            Some(ChunkCoord { x: (coord.x - 1) as i32, z: coord.z })
        } else {
            None
        },
        Direction::PlusZ => if coord.z < i32::MAX {
            Some(ChunkCoord { x: coord.x, z: (coord.z + 1) as i32 })
        } else {
            None
        },
        Direction::MinusZ => if coord.z > i32::MIN {
            Some(ChunkCoord { x: coord.x, z: (coord.z - 1) as i32 })
        } else {
            None
        },
        Direction::PlusY | Direction::MinusY => None,
    }
}

/// Seen in blocks, a neighbour begins one chunk width further: `b` is the place
/// next to `a` along x or z exactly if the world coordinates at which a chunk
/// at `b` begins are those of `a` with the width `w` added or taken away
/// along that axis.
pub proof fn lemma_neighbor_begins_one_width_on(a: ChunkCoord, b: ChunkCoord, w: int, d: Direction)
    requires
        w > 0,
    ensures
        neighbor_coord(a, d) == Some(b) <==> match d {
            Direction::PlusX => b.x * w == a.x * w + w && b.z * w == a.z * w,
            Direction::MinusX => b.x * w == a.x * w - w && b.z * w == a.z * w,
            Direction::PlusZ => b.x * w == a.x * w && b.z * w == a.z * w + w,
            Direction::MinusZ => b.x * w == a.x * w && b.z * w == a.z * w - w,
            Direction::PlusY | Direction::MinusY => false,
        },
{
    let (ax, az, bx, bz) = (a.x as int, a.z as int, b.x as int, b.z as int);
    assert(bx * w == ax * w + w <==> bx == ax + 1) by (nonlinear_arith)
        requires
            w > 0,
    ;
    assert(bx * w == ax * w - w <==> bx == ax - 1) by (nonlinear_arith)
        requires
            w > 0,
    ;
    assert(bx * w == ax * w <==> bx == ax) by (nonlinear_arith)
        requires
            w > 0,
    ;
    assert(bz * w == az * w + w <==> bz == az + 1) by (nonlinear_arith)
        requires
            w > 0,
    ;
    assert(bz * w == az * w - w <==> bz == az - 1) by (nonlinear_arith)
        requires
            w > 0,
    ;
    assert(bz * w == az * w <==> bz == az) by (nonlinear_arith)
        requires
            w > 0,
    ;
}

/// The place next to `coord` in direction `d`. Chunks are not stacked, so
/// there is none above or below.
pub fn neighbor_place(coord: ChunkCoord, d: Direction) -> (r: Option<ChunkCoord>)
    ensures
        r == neighbor_coord(coord, d),
{
    match d {
        Direction::PlusX => if coord.x < i32::MAX {
            Some(ChunkCoord { x: coord.x + 1, z: coord.z })
        } else {
            None
        },
        Direction::MinusX => if coord.x > i32::MIN {
            Some(ChunkCoord { x: coord.x - 1, z: coord.z })
        } else {
            None
        },
        Direction::PlusZ => if coord.z < i32::MAX {
            Some(ChunkCoord { x: coord.x, z: coord.z + 1 })
        } else {
            None
        },
        Direction::MinusZ => if coord.z > i32::MIN {
            Some(ChunkCoord { x: coord.x, z: coord.z - 1 })
        } else {
            None
        },
        Direction::PlusY => None,
        Direction::MinusY => None,
    }
}

/// All chunks of a world. Every chunk has the same size, and no two lie at
/// the same place.
pub struct ChunkRegistry {
    dims: Dimensions,
    chunks: Vec<Chunk>,
    index: HashMap<u64, usize>,
}

impl ChunkRegistry {
    /// The size of every chunk of the registry.
    pub closed spec fn spec_dims(&self) -> Dimensions {
        self.dims
    }

    /// The chunks in the order in which they came.
    pub closed spec fn chunks(&self) -> Seq<Chunk> {
        self.chunks@
    }

    /// The index finds each chunk under the number of its place, and nothing else.
    pub closed spec fn index_agrees(&self) -> bool {
        &&& forall|i: int|
            0 <= i < self.chunks@.len() ==> {
                &&& self.index@.contains_key(#[trigger] coord_key(self.chunks@[i].coord()))
                &&& self.index@[coord_key(self.chunks@[i].coord())] == i
            }
        &&& forall|k: u64| #[trigger]
            self.index@.contains_key(k) ==> {
                &&& self.index@[k] < self.chunks@.len()
                &&& coord_key(self.chunks@[self.index@[k] as int].coord()) == k
            }
    }

    /// Every chunk is well formed and of the registry's size, no two chunks
    /// lie at one place, and the index agrees with the chunks.
    pub open spec fn wf(&self) -> bool {
        &&& self.dims().wf()
        &&& forall|i: int|
            0 <= i < self.chunks().len() ==> {
                &&& (#[trigger] self.chunks()[i]).wf()
                &&& self.chunks()[i].dims() == self.dims()
            }
        &&& forall|i: int, j: int|
            0 <= i < self.chunks().len() && 0 <= j < self.chunks().len() && i != j ==> (
            #[trigger] self.chunks()[i]).coord() != (#[trigger] self.chunks()[j]).coord()
        &&& self.index_agrees()
    }

    /// `i` is the place in `chunks()` of the chunk that lies at `coord`.
    pub open spec fn holds_at(&self, coord: ChunkCoord, i: int) -> bool {
        0 <= i < self.chunks().len() && self.chunks()[i].coord() == coord
    }

    /// The registry holds a chunk at `coord`.
    pub open spec fn has(&self, coord: ChunkCoord) -> bool {
        exists|i: int| self.holds_at(coord, i)
    }

    /// The chunk at `coord`, where the registry has one.
    pub open spec fn at(&self, coord: ChunkCoord) -> Chunk {
        self.chunks()[choose|i: int| self.holds_at(coord, i)]
    }

    /// The chunk next to `coord` in direction `d`, if the registry holds it.
    pub open spec fn neighbor(&self, coord: ChunkCoord, d: Direction) -> Option<Chunk> {
        match neighbor_coord(coord, d) {
            Some(c) => if self.has(c) {
                Some(self.at(c))
            } else {
                None
            },
            None => None,
        }
    }

    /// An empty registry for chunks of size `dims`.
    pub fn new(dims: Dimensions) -> (r: ChunkRegistry)
        requires
            dims.wf(),
        ensures
            r.wf(),
            r.dims() == dims,
            r.chunks().len() == 0,
    {
        ChunkRegistry { dims, chunks: Vec::new(), index: HashMap::new() }
    }

    /// The size of every chunk of the registry.
    #[verifier::when_used_as_spec(spec_dims)]
    pub fn dims(&self) -> (d: Dimensions)
        ensures
            d == self.spec_dims(),
    {
        self.dims
    }

    /// The number of chunks.
    pub fn len(&self) -> (n: usize)
        ensures
            n == self.chunks().len(),
    {
        self.chunks.len()
    }

    /// The chunk that came as number `i`.
    pub fn chunk(&self, i: usize) -> (c: Option<&Chunk>)
        ensures
            i < self.chunks().len() ==> c == Some(&self.chunks()[i as int]),
            i >= self.chunks().len() ==> c.is_none(),
    {
        if i < self.chunks.len() {
            Some(&self.chunks[i])
        } else {
            None
        }
    }

    /// Two places with the same number are the same place.
    proof fn lemma_key_injective(a: ChunkCoord, b: ChunkCoord)
        requires
            coord_key(a) == coord_key(b),
        ensures
            a == b,
    {
    }

    /// The chunk at `coord`, if the registry holds one.
    pub fn get(&self, coord: ChunkCoord) -> (r: Option<&Chunk>)
        requires
            self.wf(),
        ensures
            match r {
                Some(c) => self.has(coord) && *c == self.at(coord) && c.coord() == coord && c.wf()
                    && c.dims() == self.dims(),
                None => !self.has(coord),
            },
    {
        let k = key_of(coord);
        match self.index.get(&k) {
            Some(i) => {
                let c = &self.chunks[*i];
                proof {
                    Self::lemma_key_injective(c.coord(), coord);
                    assert(self.holds_at(coord, *i as int));
                    let j = choose|j: int| self.holds_at(coord, j);
                    assert(j == *i);
                }
                Some(c)
            },
            None => {
                proof {
                    assert forall|i: int| !self.holds_at(coord, i) by {
                        if self.holds_at(coord, i) {
                            assert(self.index@.contains_key(coord_key(self.chunks@[i].coord())));
                        }
                    }
                }
                None
            },
        }
    }

    /// The chunk next to the place `coord` in direction `d`, if the registry
    /// holds one.
    pub fn neighbor_of(&self, coord: ChunkCoord, d: Direction) -> (r: Option<&Chunk>)
        requires
            self.wf(),
        ensures
            match r {
                Some(c) => self.neighbor(coord, d) == Some(*c) && c.wf() && c.dims() == self.dims()
                    && Some(c.coord()) == neighbor_coord(coord, d),
                None => self.neighbor(coord, d).is_none(),
            },
    {
        match neighbor_place(coord, d) {
            Some(c) => self.get(c),
            None => None,
        }
    }

    /// Takes a chunk into the registry, unless it has another size than the
    /// registry's chunks or its place is taken.
    pub fn insert(&mut self, chunk: Chunk) -> (r: Result<(), InsertError>)
        requires
            old(self).wf(),
            chunk.wf(),
        ensures
            final(self).wf(),
            final(self).dims() == old(self).dims(),
            match r {
                Ok(_) => {
                    &&& chunk.dims() == old(self).dims()
                    &&& !old(self).has(chunk.coord())
                    &&& final(self).chunks() == old(self).chunks().push(chunk)
                },
                Err(e) => {
                    &&& final(self).chunks() == old(self).chunks()
                    &&& e == InsertError::Dimensions <==> chunk.dims() != old(self).dims()
                    &&& e == InsertError::Occupied <==> chunk.dims() == old(self).dims() && old(
                        self,
                    ).has(chunk.coord())
                },
            },
    {
        if chunk.dims() != self.dims {
            return Err(InsertError::Dimensions);
        }
        let coord = chunk.coord();
        if self.get(coord).is_some() {
            return Err(InsertError::Occupied);
        }
        let k = key_of(coord);
        let n = self.chunks.len();
        proof {
            if self.index@.contains_key(k) {
                let i = self.index@[k] as int;
                Self::lemma_key_injective(self.chunks@[i].coord(), coord);
                assert(self.holds_at(coord, i));
            }
        }
        self.index.insert(k, n);
        self.chunks.push(chunk);
        proof {
            assert forall|i: int, j: int|
                0 <= i < self.chunks().len() && 0 <= j < self.chunks().len() && i != j implies (
            #[trigger] self.chunks()[i]).coord() != (#[trigger] self.chunks()[j]).coord() by {
                if i == n {
                    assert(old(self).holds_at(coord, j) || self.chunks()[j].coord() != coord);
                }
                if j == n {
                    assert(old(self).holds_at(coord, i) || self.chunks()[i].coord() != coord);
                }
            }
            assert forall|i: int| 0 <= i < self.chunks@.len() implies {
                &&& self.index@.contains_key(#[trigger] coord_key(self.chunks@[i].coord()))
                &&& self.index@[coord_key(self.chunks@[i].coord())] == i
            } by {
                if i < n {
                    assert(old(self).chunks@[i] == self.chunks@[i]);
                    assert(old(self).holds_at(coord, i) || self.chunks()[i].coord() != coord);
                    if coord_key(self.chunks@[i].coord()) == k {
                        Self::lemma_key_injective(self.chunks@[i].coord(), coord);
                    }
                }
            }
        }
        Ok(())
    }
}

} // verus!
