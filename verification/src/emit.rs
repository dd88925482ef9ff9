//! The faces of a whole chunk, before any are merged.

use crate::chunk::Chunk;
use crate::cull::{lemma_visible_directions, visible, visible_directions, visible_faces, Neighbors};
use crate::geometry::Direction;
use crate::merge::all_rectangles;
use crate::quad::{
    cube_faces, generate_cube, lemma_unit_face_is_rectangle, quads_of, unit_face, Quad, QuadModel,
};
use vstd::prelude::*;
use vstd::seq_lib::lemma_no_dup_in_concat;

verus! {

/// The visible faces of the block with array index `i`.
pub open spec fn voxel_faces(chunk: &Chunk, nbrs: &Neighbors, i: int) -> Seq<QuadModel> {
    let d = chunk.dims();
    cube_faces(
        d.x_of(i),
        d.y_of(i),
        d.z_of(i),
        visible_directions(chunk, nbrs, d.x_of(i), d.y_of(i), d.z_of(i)),
    )
}

/// The visible faces of the first `n` blocks, block after block.
pub open spec fn faces_upto(chunk: &Chunk, nbrs: &Neighbors, n: int) -> Seq<QuadModel>
    decreases n,
{
    if n <= 0 {
        Seq::empty()
    } else {
        faces_upto(chunk, nbrs, n - 1) + voxel_faces(chunk, nbrs, n - 1)
    }
}

/// The visible faces of all blocks of `chunk`, in the order of the blocks'
/// array indices and, for one block, of its directions.
pub open spec fn chunk_faces(chunk: &Chunk, nbrs: &Neighbors) -> Seq<QuadModel> {
    faces_upto(chunk, nbrs, chunk.dims().volume())
}

/// Collects the visible faces of every block of `chunk`.
pub fn emit_faces(chunk: &Chunk, nbrs: &Neighbors) -> (faces: Vec<Quad>)
    requires
        chunk.wf(),
        nbrs.fits(chunk),
    ensures
        quads_of(faces@) == chunk_faces(chunk, nbrs),
        faces.len() <= 6 * chunk.dims().volume(),
{
    proof {
        chunk.dims().lemma_bounds();
    }
    let w = chunk.dims().width();
    let h = chunk.dims().height();
    let layer = w * w;
    let num_voxels = layer * h;
    let mut faces: Vec<Quad> = Vec::new();
    let mut i: usize = 0;
    assert(quads_of(faces@) =~= faces_upto(chunk, nbrs, 0));
    while i < num_voxels
        invariant
            chunk.wf(),
            nbrs.fits(chunk),
            w == chunk.dims().spec_width(),
            0 < w,
            layer == chunk.dims().layer(),
            0 < layer,
            num_voxels == chunk.dims().volume(),
            num_voxels <= crate::chunk::MAX_VOXELS,
            i <= num_voxels,
            faces.len() <= 6 * i,
            quads_of(faces@) == faces_upto(chunk, nbrs, i as int),
        decreases num_voxels - i,
    {
        let x = i % w;
        let z = (i % layer) / w;
        let y = i / layer;
        proof {
            chunk.dims().lemma_bounds();
            chunk.dims().lemma_index_decode(i as int);
            lemma_visible_directions(chunk, nbrs, x as int, y as int, z as int);
        }
        let vfaces = visible_faces(chunk, nbrs, x, y, z);
        let ghost before = faces@;
        generate_cube(&mut faces, &vfaces, x, y, z);
        assert(faces@.len() == quads_of(faces@).len());
        assert(before.len() == quads_of(before).len());
        i += 1;
    }
    faces
}

/// Every face of a chunk is a rectangle.
pub proof fn lemma_chunk_faces_are_rectangles(chunk: &Chunk, nbrs: &Neighbors, n: int)
    ensures
        all_rectangles(faces_upto(chunk, nbrs, n)),
    decreases n,
{
    if n > 0 {
        lemma_chunk_faces_are_rectangles(chunk, nbrs, n - 1);
        let before = faces_upto(chunk, nbrs, n - 1);
        let last = voxel_faces(chunk, nbrs, n - 1);
        let dims = chunk.dims();
        let (x, y, z) = (dims.x_of(n - 1), dims.y_of(n - 1), dims.z_of(n - 1));
        assert forall|i: int| 0 <= i < (before + last).len() implies (#[trigger] (before
            + last)[i]).is_rectangle() by {
            if i < before.len() {
                assert((before + last)[i] == before[i]);
            } else {
                let k = i - before.len();
                lemma_unit_face_is_rectangle(x, y, z, visible_directions(chunk, nbrs, x, y, z)[k]);
            }
        }
    }
}

/// A face of a block tells which block it belongs to and which way it faces.
pub proof fn lemma_unit_face_injective(
    x: int,
    y: int,
    z: int,
    d: Direction,
    x2: int,
    y2: int,
    z2: int,
    d2: Direction,
)
    requires
        unit_face(x, y, z, d) == unit_face(x2, y2, z2, d2),
    ensures
        x == x2,
        y == y2,
        z == z2,
        d == d2,
{
    assert(unit_face(x, y, z, d).normal == unit_face(x2, y2, z2, d2).normal);
    assert(unit_face(x, y, z, d).c0 == unit_face(x2, y2, z2, d2).c0);
}

/// A face is among those of the first `n` blocks exactly if it is a face of
/// one of these blocks.
proof fn lemma_faces_upto_members(chunk: &Chunk, nbrs: &Neighbors, n: int, q: QuadModel)
    requires
        0 <= n,
    ensures
        faces_upto(chunk, nbrs, n).contains(q) <==> exists|i: int|
            0 <= i < n && (#[trigger] voxel_faces(chunk, nbrs, i)).contains(q),
    decreases n,
{
    if n > 0 {
        lemma_faces_upto_members(chunk, nbrs, n - 1, q);
        let before = faces_upto(chunk, nbrs, n - 1);
        let last = voxel_faces(chunk, nbrs, n - 1);
        let all = faces_upto(chunk, nbrs, n);
        if all.contains(q) {
            let k = choose|k: int| 0 <= k < all.len() && all[k] == q;
            if k < before.len() {
                assert(before[k] == q);
            } else {
                assert(last[k - before.len()] == q);
            }
        }
        if before.contains(q) {
            let k = choose|k: int| 0 <= k < before.len() && before[k] == q;
            assert(all[k] == q);
        }
        if last.contains(q) {
            let k = choose|k: int| 0 <= k < last.len() && last[k] == q;
            assert(all[before.len() + k] == q);
        }
    }
}

/// No face of a chunk is emitted twice.
pub proof fn lemma_chunk_faces_are_distinct(chunk: &Chunk, nbrs: &Neighbors, n: int)
    requires
        chunk.wf(),
        0 <= n <= chunk.dims().volume(),
    ensures
        faces_upto(chunk, nbrs, n).no_duplicates(),
    decreases n,
{
    if n > 0 {
        let dims = chunk.dims();
        let before = faces_upto(chunk, nbrs, n - 1);
        let last = voxel_faces(chunk, nbrs, n - 1);
        let (x, y, z) = (dims.x_of(n - 1), dims.y_of(n - 1), dims.z_of(n - 1));
        let dirs = visible_directions(chunk, nbrs, x, y, z);
        lemma_chunk_faces_are_distinct(chunk, nbrs, n - 1);
        lemma_visible_directions(chunk, nbrs, x, y, z);
        dims.lemma_index_decode(n - 1);
        assert forall|i: int, j: int| 0 <= i < last.len() && 0 <= j < last.len() && i != j implies last[i]
            != last[j] by {
            if last[i] == last[j] {
                lemma_unit_face_injective(x, y, z, dirs[i], x, y, z, dirs[j]);
            }
        }
        assert forall|i: int, j: int| 0 <= i < before.len() && 0 <= j < last.len() implies before[i]
            != last[j] by {
            if before[i] == last[j] {
                lemma_faces_upto_members(chunk, nbrs, n - 1, before[i]);
                let k = choose|k: int|
                    0 <= k < n - 1 && (#[trigger] voxel_faces(chunk, nbrs, k)).contains(before[i]);
                let other = voxel_faces(chunk, nbrs, k);
                let m = choose|m: int| 0 <= m < other.len() && other[m] == before[i];
                let (x2, y2, z2) = (dims.x_of(k), dims.y_of(k), dims.z_of(k));
                let dirs2 = visible_directions(chunk, nbrs, x2, y2, z2);
                lemma_unit_face_injective(x, y, z, dirs[j], x2, y2, z2, dirs2[m]);
                dims.lemma_index_decode(k);
            }
        }
        lemma_no_dup_in_concat(before, last);
    }
}

/// A face is emitted exactly where it can be seen: the face of the block at
/// `(x, y, z)` in direction `d` is among the faces of the chunk if and only if
/// that block is a solid block of the chunk and nothing solid lies against
/// the face, in the chunk or, across a side, in a loaded neighbour. So no
/// face is emitted between two solid blocks that touch.
pub proof fn lemma_face_emitted_iff_visible(
    chunk: &Chunk,
    nbrs: &Neighbors,
    x: int,
    y: int,
    z: int,
    d: Direction,
)
    requires
        chunk.wf(),
    ensures
        chunk_faces(chunk, nbrs).contains(unit_face(x, y, z, d)) <==> visible(
            chunk,
            nbrs,
            x,
            y,
            z,
            d,
        ),
{
    let dims = chunk.dims();
    let q = unit_face(x, y, z, d);
    dims.lemma_bounds();
    lemma_faces_upto_members(chunk, nbrs, dims.volume(), q);
    if visible(chunk, nbrs, x, y, z, d) {
        dims.lemma_index_of(x, y, z);
        let i = dims.index_of(x, y, z);
        lemma_visible_directions(chunk, nbrs, x, y, z);
        let dirs = visible_directions(chunk, nbrs, x, y, z);
        let k = choose|k: int| 0 <= k < dirs.len() && dirs[k] == d;
        assert(voxel_faces(chunk, nbrs, i)[k] == q);
        assert(voxel_faces(chunk, nbrs, i).contains(q));
    }
    if chunk_faces(chunk, nbrs).contains(q) {
        let i = choose|i: int|
            0 <= i < dims.volume() && (#[trigger] voxel_faces(chunk, nbrs, i)).contains(q);
        let (x2, y2, z2) = (dims.x_of(i), dims.y_of(i), dims.z_of(i));
        let dirs = visible_directions(chunk, nbrs, x2, y2, z2);
        let k = choose|k: int|
            0 <= k < voxel_faces(chunk, nbrs, i).len() && voxel_faces(chunk, nbrs, i)[k] == q;
        lemma_unit_face_injective(x, y, z, d, x2, y2, z2, dirs[k]);
        lemma_visible_directions(chunk, nbrs, x2, y2, z2);
        assert(dirs.contains(dirs[k]));
    }
}

} // verus!
