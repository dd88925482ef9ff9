//! Which faces of a block can be seen from outside.

use crate::chunk::{Chunk, ChunkCoord};
use crate::geometry::Direction;
use crate::registry::ChunkRegistry;
use vstd::prelude::*;

verus! {

/// The chunks next to a chunk along x and z. A side without a loaded chunk
/// holds `None`.
#[derive(Clone, Copy)]
pub struct Neighbors<'a> {
    pub plus_x: Option<&'a Chunk>,
    pub minus_x: Option<&'a Chunk>,
    pub plus_z: Option<&'a Chunk>,
    pub minus_z: Option<&'a Chunk>,
}

/// A chunk of a specification, as a reference to it.
pub open spec fn borrowed<'a>(c: Option<Chunk>) -> Option<&'a Chunk> {
    match c {
        Some(c) => Some(&c),
        None => None,
    }
}

impl<'a> Neighbors<'a> {
    /// The neighbour in direction `d`. There is none above or below.
    pub open spec fn toward(&self, d: Direction) -> Option<&'a Chunk> {
        match d {
            Direction::PlusX => self.plus_x,
            Direction::MinusX => self.minus_x,
            Direction::PlusZ => self.plus_z,
            Direction::MinusZ => self.minus_z,
            Direction::PlusY | Direction::MinusY => None,
        }
    }

    /// Every neighbour is a well-formed chunk of the size of `chunk`.
    pub open spec fn fits(&self, chunk: &Chunk) -> bool {
        forall|d: Direction|
            (#[trigger] self.toward(d)) matches Some(n) ==> n.wf() && n.dims() == chunk.dims()
    }

    /// No neighbour on any side.
    pub fn none() -> (r: Neighbors<'a>)
        ensures
            forall|d: Direction| (#[trigger] r.toward(d)).is_none(),
    {
        Neighbors { plus_x: None, minus_x: None, plus_z: None, minus_z: None }
    }

    /// The neighbours that `registry` holds round the place `coord`.
    pub open spec fn around(registry: &'a ChunkRegistry, coord: ChunkCoord) -> Neighbors<'a> {
        Neighbors {
            plus_x: borrowed(registry.neighbor(coord, Direction::PlusX)),
            minus_x: borrowed(registry.neighbor(coord, Direction::MinusX)),
            plus_z: borrowed(registry.neighbor(coord, Direction::PlusZ)),
            minus_z: borrowed(registry.neighbor(coord, Direction::MinusZ)),
        }
    }

    /// The neighbours that `registry` holds round the place `coord`.
    pub fn of(registry: &'a ChunkRegistry, coord: ChunkCoord) -> (r: Neighbors<'a>)
        requires
            registry.wf(),
        ensures
            r == Neighbors::around(registry, coord),
            forall|d: Direction|
                (#[trigger] r.toward(d)) matches Some(n) ==> n.wf() && n.dims() == registry.dims(),
    {
        Neighbors {
            plus_x: registry.neighbor_of(coord, Direction::PlusX),
            minus_x: registry.neighbor_of(coord, Direction::MinusX),
            plus_z: registry.neighbor_of(coord, Direction::PlusZ),
            minus_z: registry.neighbor_of(coord, Direction::MinusZ),
        }
    }
}

/// Nothing solid lies against the face that the block at `(x, y, z)` of
/// `chunk` has in direction `d`. Inside the chunk that is so where the next
/// block is air. Across a side of the chunk it is so where no neighbour is
/// loaded, or where the block of the neighbour that lies against the face is
/// air. The top and the bottom of the chunk are always open.
pub open spec fn exposed(chunk: &Chunk, nbrs: &Neighbors, x: int, y: int, z: int, d: Direction) -> bool {
    let w = chunk.dims().spec_width();
    let h = chunk.dims().spec_height();
    match d {
        Direction::PlusX => if x + 1 < w {
            !chunk.solid_at(x + 1, y, z)
        } else {
            match nbrs.plus_x {
                Some(n) => !n.solid_at(0, y, z),
                None => true,
            }
        },
        Direction::MinusX => if x > 0 {
            !chunk.solid_at(x - 1, y, z)
        } else {
            match nbrs.minus_x {
                Some(n) => !n.solid_at(w - 1, y, z),
                None => true,
            }
        },
        Direction::PlusY => if y + 1 < h {
            !chunk.solid_at(x, y + 1, z)
        } else {
            true
        },
        Direction::MinusY => if y > 0 {
            !chunk.solid_at(x, y - 1, z)
        } else {
            true
        },
        Direction::PlusZ => if z + 1 < w {
            !chunk.solid_at(x, y, z + 1)
        } else {
            match nbrs.plus_z {
                Some(n) => !n.solid_at(x, y, 0),
                None => true,
            }
        },
        Direction::MinusZ => if z > 0 {
            !chunk.solid_at(x, y, z - 1)
        } else {
            match nbrs.minus_z {
                Some(n) => !n.solid_at(x, y, w - 1),
                None => true,
            }
        },
    }
}

/// The block at `(x, y, z)` of `chunk` is solid and its face in direction `d`
/// can be seen.
pub open spec fn visible(chunk: &Chunk, nbrs: &Neighbors, x: int, y: int, z: int, d: Direction) -> bool {
    chunk.solid_at(x, y, z) && exposed(chunk, nbrs, x, y, z, d)
}

/// `d` alone where `keep` holds, nothing where it does not.
pub open spec fn one_if(keep: bool, d: Direction) -> Seq<Direction> {
    if keep {
        seq![d]
    } else {
        Seq::empty()
    }
}

/// The directions in which the block at `(x, y, z)` has a face that can be
/// seen, in the order `+X, -X, +Y, -Y, +Z, -Z`.
pub open spec fn visible_directions(chunk: &Chunk, nbrs: &Neighbors, x: int, y: int, z: int) -> Seq<
    Direction,
> {
    one_if(visible(chunk, nbrs, x, y, z, Direction::PlusX), Direction::PlusX) + one_if(
        visible(chunk, nbrs, x, y, z, Direction::MinusX),
        Direction::MinusX,
    ) + one_if(visible(chunk, nbrs, x, y, z, Direction::PlusY), Direction::PlusY) + one_if(
        visible(chunk, nbrs, x, y, z, Direction::MinusY),
        Direction::MinusY,
    ) + one_if(visible(chunk, nbrs, x, y, z, Direction::PlusZ), Direction::PlusZ) + one_if(
        visible(chunk, nbrs, x, y, z, Direction::MinusZ),
        Direction::MinusZ,
    )
}

/// Whether nothing solid lies against the face that the block at `(x, y, z)`
/// has in direction `d`.
pub fn is_exposed(chunk: &Chunk, nbrs: &Neighbors, x: usize, y: usize, z: usize, d: Direction) -> (r:
    bool)
    requires
        chunk.wf(),
        nbrs.fits(chunk),
        chunk.dims().in_bounds(x as int, y as int, z as int),
    ensures
        r == exposed(chunk, nbrs, x as int, y as int, z as int, d),
{
    proof {
        chunk.dims().lemma_bounds();
        assert(nbrs.toward(Direction::PlusX) == nbrs.plus_x);
        assert(nbrs.toward(Direction::MinusX) == nbrs.minus_x);
        assert(nbrs.toward(Direction::PlusZ) == nbrs.plus_z);
        assert(nbrs.toward(Direction::MinusZ) == nbrs.minus_z);
    }
    let w = chunk.dims().width();
    let h = chunk.dims().height();
    match d {
        Direction::PlusX => if x + 1 < w {
            !chunk.is_solid(x + 1, y, z)
        } else {
            match nbrs.plus_x {
                Some(n) => !n.is_solid(0, y, z),
                None => true,
            }
        },
        Direction::MinusX => if x > 0 {
            !chunk.is_solid(x - 1, y, z)
        } else {
            match nbrs.minus_x {
                Some(n) => !n.is_solid(w - 1, y, z),
                None => true,
            }
        },
        Direction::PlusY => if y + 1 < h {
            !chunk.is_solid(x, y + 1, z)
        } else {
            true
        },
        Direction::MinusY => if y > 0 {
            !chunk.is_solid(x, y - 1, z)
        } else {
            true
        },
        Direction::PlusZ => if z + 1 < w {
            !chunk.is_solid(x, y, z + 1)
        } else {
            match nbrs.plus_z {
                Some(n) => !n.is_solid(x, y, 0),
                None => true,
            }
        },
        Direction::MinusZ => if z > 0 {
            !chunk.is_solid(x, y, z - 1)
        } else {
            match nbrs.minus_z {
                Some(n) => !n.is_solid(x, y, w - 1),
                None => true,
            }
        },
    }
}

/// The directions in which the block at `(x, y, z)` has a face that can be
/// seen. A place without a solid block has none.
pub fn visible_faces(chunk: &Chunk, nbrs: &Neighbors, x: usize, y: usize, z: usize) -> (vfaces: Vec<
    Direction,
>)
    requires
        chunk.wf(),
        nbrs.fits(chunk),
    ensures
        vfaces@ == visible_directions(chunk, nbrs, x as int, y as int, z as int),
{
    let mut vfaces: Vec<Direction> = Vec::new();
    if !chunk.is_solid(x, y, z) {
        assert(vfaces@ =~= visible_directions(chunk, nbrs, x as int, y as int, z as int));
        return vfaces;
    }
    let ghost (xi, yi, zi) = (x as int, y as int, z as int);
    if is_exposed(chunk, nbrs, x, y, z, Direction::PlusX) {
        vfaces.push(Direction::PlusX);
    }
    if is_exposed(chunk, nbrs, x, y, z, Direction::MinusX) {
        vfaces.push(Direction::MinusX);
    }
    if is_exposed(chunk, nbrs, x, y, z, Direction::PlusY) {
        vfaces.push(Direction::PlusY);
    }
    if is_exposed(chunk, nbrs, x, y, z, Direction::MinusY) {
        vfaces.push(Direction::MinusY);
    }
    if is_exposed(chunk, nbrs, x, y, z, Direction::PlusZ) {
        vfaces.push(Direction::PlusZ);
    }
    if is_exposed(chunk, nbrs, x, y, z, Direction::MinusZ) {
        vfaces.push(Direction::MinusZ);
    }
    assert(vfaces@ =~= visible_directions(chunk, nbrs, xi, yi, zi));
    vfaces
}

/// The directions of a block's visible faces are at most six, none of them
/// twice, and a direction is among them if and only if the block is solid
/// and nothing solid lies against its face in that direction.
pub proof fn lemma_visible_directions(chunk: &Chunk, nbrs: &Neighbors, x: int, y: int, z: int)
    ensures
        visible_directions(chunk, nbrs, x, y, z).len() <= 6,
        visible_directions(chunk, nbrs, x, y, z).no_duplicates(),
        forall|d: Direction|
            visible_directions(chunk, nbrs, x, y, z).contains(d) <==> #[trigger] visible(
                chunk,
                nbrs,
                x,
                y,
                z,
                d,
            ),
{
    lemma_upto(chunk, nbrs, x, y, z);
    lemma_upto_sorted(chunk, nbrs, x, y, z, 6);
    assert forall|d: Direction| #[trigger] visible(chunk, nbrs, x, y, z, d) implies visible_directions(
        chunk,
        nbrs,
        x,
        y,
        z,
    ).contains(d) by {
        assert(Direction::at(d.spec_index()) == d);
    }
}

/// The visible directions among the first `k` of the fixed order.
spec fn visible_upto(chunk: &Chunk, nbrs: &Neighbors, x: int, y: int, z: int, k: int) -> Seq<
    Direction,
>
    decreases k,
{
    if k <= 0 {
        Seq::empty()
    } else {
        visible_upto(chunk, nbrs, x, y, z, k - 1) + one_if(
            visible(chunk, nbrs, x, y, z, Direction::at(k - 1)),
            Direction::at(k - 1),
        )
    }
}

/// All six places of the fixed order give all visible directions.
proof fn lemma_upto(chunk: &Chunk, nbrs: &Neighbors, x: int, y: int, z: int)
    ensures
        visible_directions(chunk, nbrs, x, y, z) == visible_upto(chunk, nbrs, x, y, z, 6),
{
    reveal_with_fuel(visible_upto, 7);
    assert(visible_directions(chunk, nbrs, x, y, z) =~= visible_upto(chunk, nbrs, x, y, z, 6));
}

/// The visible directions among the first `k` stand in the fixed order, each
/// at most once, and none that is visible is missing.
proof fn lemma_upto_sorted(chunk: &Chunk, nbrs: &Neighbors, x: int, y: int, z: int, k: int)
    requires
        0 <= k <= 6,
    ensures
        visible_upto(chunk, nbrs, x, y, z, k).len() <= k,
        forall|i: int|
            0 <= i < visible_upto(chunk, nbrs, x, y, z, k).len() ==> {
                let d = #[trigger] visible_upto(chunk, nbrs, x, y, z, k)[i];
                &&& i <= d.spec_index() < k
                &&& visible(chunk, nbrs, x, y, z, d)
            },
        forall|i: int, j: int|
            0 <= i < j < visible_upto(chunk, nbrs, x, y, z, k).len() ==> (#[trigger] visible_upto(
                chunk,
                nbrs,
                x,
                y,
                z,
                k,
            )[i]).spec_index() < (#[trigger] visible_upto(chunk, nbrs, x, y, z, k)[j]).spec_index(),
        forall|m: int|
            0 <= m < k && visible(chunk, nbrs, x, y, z, Direction::at(m)) ==> visible_upto(
                chunk,
                nbrs,
                x,
                y,
                z,
                k,
            ).contains(#[trigger] Direction::at(m)),
    decreases k,
{
    if k > 0 {
        lemma_upto_sorted(chunk, nbrs, x, y, z, k - 1);
        let before = visible_upto(chunk, nbrs, x, y, z, k - 1);
        let now = visible_upto(chunk, nbrs, x, y, z, k);
        let d = Direction::at(k - 1);
        assert(d.spec_index() == k - 1);
        assert forall|m: int|
            0 <= m < k && visible(chunk, nbrs, x, y, z, Direction::at(m)) implies now.contains(
            #[trigger] Direction::at(m),
        ) by {
            if m < k - 1 {
                let i = choose|i: int| 0 <= i < before.len() && before[i] == Direction::at(m);
                assert(now[i] == Direction::at(m));
            } else {
                assert(now[now.len() - 1] == d);
            }
        }
    }
}

} // verus!
