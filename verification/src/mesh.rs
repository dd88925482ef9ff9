//! The mesh of a chunk: corner, normal, colour and index buffers.

use crate::chunk::Chunk;
use crate::cull::Neighbors;
use crate::emit::{chunk_faces, emit_faces, lemma_chunk_faces_are_rectangles};
use crate::geometry::{Direction, IVec3};
use crate::group::{group_by_normal, lemma_sorted_keeps_area, sorted_by_normal};
use crate::merge::{
    all_rectangles, lemma_merged_from_keeps_area, merge_faces, merged_from, total_area4,
};
use crate::quad::{quads_of, Quad, QuadModel};
use vstd::prelude::*;

verus! {

/// The largest number of quads whose corners all have a 32-bit index.
pub const MAX_QUADS: usize = 0x3fff_ffff;

/// A colour with red, green, blue and opacity from 0 to 255.
#[derive(Clone, Copy, Debug, PartialEq, Eq, Structural)]
pub struct Rgba {
    pub r: u8,
    pub g: u8,
    pub b: u8,
    pub a: u8,
}

/// The opaque blue of brightness `hue`.
pub open spec fn hue_color(hue: u8) -> Rgba {
    Rgba { r: 0, g: 0, b: hue, a: 255 }
}

/// Which corner of a quad the `m`-th index of its two triangles names: the
/// triangles are corners 0, 1, 2 and corners 2, 3, 0.
pub open spec fn triangle_corner(m: int) -> int {
    if m == 0 {
        0
    } else if m == 1 {
        1
    } else if m == 2 {
        2
    } else if m == 3 {
        2
    } else if m == 4 {
        3
    } else {
        0
    }
}

/// A triangle mesh. Corner `i` has the position `positions[i]`, in half
/// units, the normal `normals[i]` and the colour `colors[i]`. Each three
/// entries of `indices` name the corners of one triangle.
#[derive(Debug)]
pub struct Mesh {
    pub positions: Vec<IVec3>,
    pub normals: Vec<IVec3>,
    pub colors: Vec<Rgba>,
    pub indices: Vec<u32>,
}

impl Mesh {
    /// The buffers are of one length, the indices come in threes, and every
    /// index names a corner.
    pub open spec fn wf(&self) -> bool {
        &&& self.positions@.len() == self.normals@.len()
        &&& self.positions@.len() == self.colors@.len()
        &&& self.indices@.len() % 3 == 0
        &&& forall|j: int|
            0 <= j < self.indices@.len() ==> (#[trigger] self.indices@[j]) < self.positions@.len()
    }

    /// The buffers hold exactly `quads`, quad after quad: four corners for
    /// each, in their winding order, with the quad's normal and the colour of
    /// its hue at every one of them, and six indices for each, which make
    /// two triangles of its corners.
    pub open spec fn lays_out(&self, quads: Seq<QuadModel>, hues: Seq<u8>) -> bool {
        &&& hues.len() == quads.len()
        &&& self.positions@.len() == 4 * quads.len()
        &&& self.normals@.len() == 4 * quads.len()
        &&& self.colors@.len() == 4 * quads.len()
        &&& self.indices@.len() == 6 * quads.len()
        &&& forall|i: int|
            0 <= i < 4 * quads.len() ==> (#[trigger] self.positions@[i])@ == quads[i / 4].corner(
                i % 4,
            )
        &&& forall|i: int|
            0 <= i < 4 * quads.len() ==> (#[trigger] self.normals@[i])@ == quads[i
                / 4].normal.normal_point()
        &&& forall|i: int|
            0 <= i < 4 * quads.len() ==> #[trigger] self.colors@[i] == hue_color(hues[i / 4])
        &&& forall|j: int|
            0 <= j < 6 * quads.len() ==> #[trigger] self.indices@[j] == 4 * (j / 6)
                + triangle_corner(j % 6)
    }

    /// A mesh without any corner.
    pub fn empty() -> (m: Mesh)
        ensures
            m.lays_out(Seq::empty(), Seq::empty()),
            m.wf(),
    {
        Mesh { positions: Vec::new(), normals: Vec::new(), colors: Vec::new(), indices: Vec::new() }
    }
}

/// A mesh that lays out quads is well formed, and the four corners of each of
/// its quads have one colour.
pub proof fn lemma_laid_out_mesh(m: &Mesh, quads: Seq<QuadModel>, hues: Seq<u8>)
    requires
        m.lays_out(quads, hues),
    ensures
        m.wf(),
        m.indices@.len() % 6 == 0,
        forall|i: int|
            0 <= i < m.colors@.len() ==> #[trigger] m.colors@[i] == m.colors@[4 * (i / 4)],
{
    assert forall|j: int| 0 <= j < m.indices@.len() implies (#[trigger] m.indices@[j])
        < m.positions@.len() by {
        assert(0 <= triangle_corner(j % 6) <= 3);
    }
    assert forall|i: int| 0 <= i < m.colors@.len() implies #[trigger] m.colors@[i] == m.colors@[4
        * (i / 4)] by {
        assert((4 * (i / 4)) / 4 == i / 4);
    }
}

/// Lays quads out as a mesh. Quad `q` gets the colour of `hues[q]` at its
/// four corners.
pub fn assemble(quads: &Vec<Quad>, hues: &Vec<u8>) -> (m: Mesh)
    requires
        hues.len() == quads.len(),
        quads.len() <= MAX_QUADS,
    ensures
        m.lays_out(quads_of(quads@), hues@),
{
    let n = quads.len();
    let mut positions: Vec<IVec3> = Vec::new();
    let mut normals: Vec<IVec3> = Vec::new();
    let mut colors: Vec<Rgba> = Vec::new();
    let mut indices: Vec<u32> = Vec::new();
    let mut q: usize = 0;
    while q < n
        invariant
            n == quads.len(),
            n == hues.len(),
            n <= MAX_QUADS,
            q <= n,
            positions@.len() == 4 * q,
            normals@.len() == 4 * q,
            colors@.len() == 4 * q,
            indices@.len() == 6 * q,
            forall|i: int|
                0 <= i < 4 * q ==> (#[trigger] positions@[i])@ == quads@[i / 4]@.corner(i % 4),
            forall|i: int|
                0 <= i < 4 * q ==> (#[trigger] normals@[i])@ == quads@[i / 4].normal.normal_point(),
            forall|i: int| 0 <= i < 4 * q ==> #[trigger] colors@[i] == hue_color(hues@[i / 4]),
            forall|j: int|
                0 <= j < 6 * q ==> #[trigger] indices@[j] == 4 * (j / 6) + triangle_corner(j % 6),
        decreases n - q,
    {
        let quad = quads[q];
        let normal = quad.normal.normal();
        let color = Rgba { r: 0, g: 0, b: hues[q], a: 255 };
        let base: u32 = 4 * (q as u32);
        positions.push(quad.c0);
        positions.push(quad.c1);
        positions.push(quad.c2);
        positions.push(quad.c3);
        normals.push(normal);
        normals.push(normal);
        normals.push(normal);
        normals.push(normal);
        colors.push(color);
        colors.push(color);
        colors.push(color);
        colors.push(color);
        indices.push(base);
        indices.push(base + 1);
        indices.push(base + 2);
        indices.push(base + 2);
        indices.push(base + 3);
        indices.push(base);
        q += 1;
    }
    let m = Mesh { positions, normals, colors, indices };
    assert(m.lays_out(quads_of(quads@), hues@));
    m
}

/// Draws a brightness from 0 to 255.
///
/// This is `gen_range` of the `rand` crate, on the generator that
/// `thread_rng` hands out, with the whole range of a byte. Each call may give
/// another value, so nothing is stated of the result.
#[verifier::external_body]
fn random_hue() -> (hue: u8) {
    rand::Rng::gen_range(&mut rand::thread_rng(), 0..=u8::MAX)
}

/// Draws `n` hues.
pub fn random_hues(n: usize) -> (hues: Vec<u8>)
    ensures
        hues.len() == n,
{
    let mut hues: Vec<u8> = Vec::with_capacity(n);
    let mut k: usize = 0;
    while k < n
        invariant
            k <= n,
            hues.len() == k,
        decreases n - k,
    {
        hues.push(random_hue());
        k += 1;
    }
    hues
}

/// `quads` are what merging leaves of the visible faces of `chunk`: the
/// faces, ordered by their normals, after the first pass and then the second
/// have merged all that they can.
pub open spec fn quads_of_chunk(chunk: &Chunk, nbrs: &Neighbors, quads: Seq<QuadModel>) -> bool {
    exists|first: nat, second: nat| #[trigger]
        merged_from(sorted_by_normal(chunk_faces(chunk, nbrs)), quads, first, second)
}

/// `m` is a mesh of the surface of `chunk`: it lays out, in some colours,
/// what merging leaves of the visible faces of the chunk.
pub open spec fn meshes_chunk(m: &Mesh, chunk: &Chunk, nbrs: &Neighbors) -> bool {
    exists|quads: Seq<QuadModel>, hues: Seq<u8>| #[trigger]
        m.lays_out(quads, hues) && quads_of_chunk(chunk, nbrs, quads)
}

/// The quads of a chunk's mesh are no more than its visible faces, they are
/// rectangles, and for each direction they cover the area that the faces of
/// that direction cover: merging loses no area and counts none twice.
pub proof fn lemma_quads_cover_faces(
    chunk: &Chunk,
    nbrs: &Neighbors,
    quads: Seq<QuadModel>,
    d: Direction,
)
    requires
        quads_of_chunk(chunk, nbrs, quads),
    ensures
        quads.len() <= chunk_faces(chunk, nbrs).len(),
        all_rectangles(quads),
        total_area4(quads, d) == total_area4(chunk_faces(chunk, nbrs), d),
{
    let faces = chunk_faces(chunk, nbrs);
    let (first, second) = choose|first: nat, second: nat| #[trigger]
        merged_from(sorted_by_normal(faces), quads, first, second);
    lemma_chunk_faces_are_rectangles(chunk, nbrs, chunk.dims().volume());
    lemma_sorted_keeps_area(faces, d);
    lemma_merged_from_keeps_area(sorted_by_normal(faces), quads, first, second, d);
}

/// The merged quads of the visible faces of `chunk`, ordered by normal.
pub fn chunk_quads(chunk: &Chunk, nbrs: &Neighbors) -> (quads: Vec<Quad>)
    requires
        chunk.wf(),
        nbrs.fits(chunk),
    ensures
        quads_of_chunk(chunk, nbrs, quads_of(quads@)),
        quads.len() <= 6 * chunk.dims().volume(),
        quads.len() <= MAX_QUADS,
{
    proof {
        chunk.dims().lemma_bounds();
    }
    let mut quads = emit_faces(chunk, nbrs);
    group_by_normal(&mut quads);
    let merges = merge_faces(&mut quads);
    assert(merged_from(
        sorted_by_normal(chunk_faces(chunk, nbrs)),
        quads_of(quads@),
        merges.0 as nat,
        merges.1 as nat,
    ));
    quads
}

/// Builds the mesh of the surface of `chunk`: finds the faces that can be
/// seen, merges them, and lays the quads out with one colour drawn for each.
pub fn create_cube_mesh(chunk: &Chunk, nbrs: &Neighbors) -> (m: Mesh)
    requires
        chunk.wf(),
        nbrs.fits(chunk),
    ensures
        meshes_chunk(&m, chunk, nbrs),
        m.wf(),
{
    let quads = chunk_quads(chunk, nbrs);
    let hues = random_hues(quads.len());
    let m = assemble(&quads, &hues);
    proof {
        lemma_laid_out_mesh(&m, quads_of(quads@), hues@);
    }
    m
}

} // verus!
