//! Why the quads of a chunk are final: once the two passes have run over the
//! faces of blocks, neither rule finds a pair to merge.
//!
//! The second pass stacks rows on top of each other, and a stack could in
//! general come to lie beside a quad of its height, which the first rule
//! would then merge. With faces of blocks that does not happen. The first
//! pass leaves rows that cannot grow: the places at both ends of a row hold
//! no face. The second pass only stacks such rows, so at both ends of every
//! row of a stack there is still no face, and hence no quad.

use crate::chunk::Chunk;
use crate::cull::{visible_directions, Neighbors};
use crate::emit::{chunk_faces, faces_upto, lemma_chunk_faces_are_distinct, voxel_faces};
use crate::geometry::{Direction, Point3};
use crate::group::{lemma_sorted_members, sorted_by_normal};
use crate::mesh::quads_of_chunk;
use crate::merge::{
    can_merge_at, is_merge_step, lemma_merged_twice, merge_at, mergeable, merged, merged_from,
    merges_into, settled, MergeRule,
};
use crate::quad::{unit_face, QuadModel};
use vstd::prelude::*;

verus! {

/// The place of one face of a block: the direction it faces, the plane it
/// lies in, and its first corner within that plane.
pub struct Cell {
    pub d: Direction,
    pub w: int,
    pub u: int,
    pub v: int,
}

/// Corners of blocks have odd coordinates, in half units.
pub open spec fn odd(x: int) -> bool {
    x % 2 == 1
}

impl QuadModel {
    /// The coordinate of the quad's plane along its normal.
    pub open spec fn plane(self) -> int {
        self.normal.w_of(self.c0)
    }

    /// Where the quad begins along its rows.
    pub open spec fn lo_u(self) -> int {
        self.normal.u_of(self.c0)
    }

    /// Where the quad ends along its rows.
    pub open spec fn hi_u(self) -> int {
        self.normal.u_of(self.c1)
    }

    /// Where the first row of the quad begins.
    pub open spec fn lo_v(self) -> int {
        self.normal.v_of(self.c0)
    }

    /// Where the last row of the quad ends.
    pub open spec fn hi_v(self) -> int {
        self.normal.v_of(self.c3)
    }

    /// The quad is a rectangle whose corners are corners of blocks.
    pub open spec fn on_grid(self) -> bool {
        &&& self.is_rectangle()
        &&& odd(self.lo_u())
        &&& odd(self.hi_u())
        &&& odd(self.lo_v())
        &&& odd(self.hi_v())
    }

    /// The quad is the face of one block.
    pub open spec fn is_unit(self) -> bool {
        self.on_grid() && self.width() == 2 && self.height() == 2
    }

    /// The place of the face at the first corner of the quad.
    pub open spec fn cell(self) -> Cell {
        Cell { d: self.normal, w: self.plane(), u: self.lo_u(), v: self.lo_v() }
    }

    /// The quad covers the face at the place `c`.
    pub open spec fn covers(self, c: Cell) -> bool {
        &&& self.normal == c.d
        &&& self.plane() == c.w
        &&& odd(c.u)
        &&& odd(c.v)
        &&& self.lo_u() <= c.u < self.hi_u()
        &&& self.lo_v() <= c.v < self.hi_v()
    }

    /// `v` is one of the rows that the quad covers.
    pub open spec fn has_row(self, v: int) -> bool {
        odd(v) && self.lo_v() <= v < self.hi_v()
    }

    /// The place before the first face of row `v` of the quad.
    pub open spec fn before_row(self, v: int) -> Cell {
        Cell { d: self.normal, w: self.plane(), u: self.lo_u() - 2, v }
    }

    /// The place behind the last face of row `v` of the quad.
    pub open spec fn behind_row(self, v: int) -> Cell {
        Cell { d: self.normal, w: self.plane(), u: self.hi_u(), v }
    }
}

/// One of the faces `base` lies at the place `c`.
pub open spec fn occupied(base: Seq<QuadModel>, c: Cell) -> bool {
    exists|k: int| 0 <= k < base.len() && (#[trigger] base[k]).cell() == c
}

/// One of the quads `s` covers the face at the place `c`.
pub open spec fn covered(s: Seq<QuadModel>, c: Cell) -> bool {
    exists|i: int| 0 <= i < s.len() && (#[trigger] s[i]).covers(c)
}

/// Every quad of `base` is the face of one block.
pub open spec fn all_units(base: Seq<QuadModel>) -> bool {
    forall|k: int| 0 <= k < base.len() ==> (#[trigger] base[k]).is_unit()
}

/// The quads `s` cover the faces `base` and nothing else, and no face twice.
pub open spec fn tiles(base: Seq<QuadModel>, s: Seq<QuadModel>) -> bool {
    &&& forall|i: int| 0 <= i < s.len() ==> (#[trigger] s[i]).on_grid()
    &&& forall|i: int, c: Cell| 0 <= i < s.len() && #[trigger] s[i].covers(c) ==> occupied(base, c)
    &&& forall|k: int| 0 <= k < base.len() ==> covered(s, (#[trigger] base[k]).cell())
    &&& forall|i: int, j: int, c: Cell|
        0 <= i < s.len() && 0 <= j < s.len() && i != j && #[trigger] s[i].covers(c)
            ==> !#[trigger] s[j].covers(c)
}

/// Every quad of `s` is one row high.
pub open spec fn flat(s: Seq<QuadModel>) -> bool {
    forall|i: int| 0 <= i < s.len() ==> (#[trigger] s[i]).height() == 2
}

/// No row of a quad of `s` can grow: the places before and behind it hold no
/// face of `base`.
pub open spec fn rows_closed(base: Seq<QuadModel>, s: Seq<QuadModel>) -> bool {
    forall|i: int, v: int|
        0 <= i < s.len() && #[trigger] s[i].has_row(v) ==> !occupied(base, s[i].before_row(v))
            && !occupied(base, s[i].behind_row(v))
}

/// A point is known by its three coordinates in the frame of a direction.
proof fn lemma_frame(d: Direction, p: Point3, q: Point3)
    requires
        d.u_of(p) == d.u_of(q),
        d.v_of(p) == d.v_of(q),
        d.w_of(p) == d.w_of(q),
    ensures
        p == q,
{
}

/// What a merged quad covers is what the two quads covered.
proof fn lemma_merged_covers(rule: MergeRule, a: QuadModel, b: QuadModel)
    requires
        a.on_grid(),
        b.on_grid(),
        mergeable(rule, a, b),
    ensures
        merged(rule, a, b).on_grid(),
        merged(rule, a, b).normal == a.normal,
        merged(rule, a, b).plane() == a.plane(),
        a.plane() == b.plane(),
        forall|c: Cell| #[trigger] merged(rule, a, b).covers(c) <==> a.covers(c) || b.covers(c),
        rule == MergeRule::First ==> {
            &&& merged(rule, a, b).height() == a.height()
            &&& a.height() == b.height()
        },
        rule == MergeRule::Second ==> {
            &&& merged(rule, a, b).lo_u() == a.lo_u()
            &&& merged(rule, a, b).hi_u() == a.hi_u()
            &&& b.lo_u() == a.lo_u()
            &&& b.hi_u() == a.hi_u()
            &&& merged(rule, a, b).lo_v() == a.lo_v()
            &&& merged(rule, a, b).hi_v() == b.hi_v()
            &&& a.hi_v() == b.lo_v()
        },
{
}

/// Where the quads of a buffer stand after a merge: the quads before the one
/// that left keep their places, those behind it move up by one, and the
/// merged quad stands where the quad stood that took the other up.
proof fn lemma_merge_at_index(rule: MergeRule, s: Seq<QuadModel>, i: int, j: int, p: int)
    requires
        can_merge_at(rule, s, i, j),
        0 <= p < merge_at(rule, s, i, j).len(),
    ensures
        ({
            let from = if p < j {
                p
            } else {
                p + 1
            };
            &&& 0 <= from < s.len()
            &&& from != j
            &&& merge_at(rule, s, i, j)[p] == if from == i {
                merged(rule, s[i], s[j])
            } else {
                s[from]
            }
        }),
        merge_at(rule, s, i, j).len() == s.len() - 1,
{
}

/// The place to which a quad moves in a merge that takes out quad `j`.
spec fn moved(j: int, from: int) -> int {
    if from < j {
        from
    } else {
        from - 1
    }
}

/// A merge keeps the quads covering the faces, each once.
proof fn lemma_step_tiles(rule: MergeRule, base: Seq<QuadModel>, s: Seq<QuadModel>, i: int, j: int)
    requires
        tiles(base, s),
        can_merge_at(rule, s, i, j),
    ensures
        tiles(base, merge_at(rule, s, i, j)),
{
    let t = merge_at(rule, s, i, j);
    let m = merged(rule, s[i], s[j]);
    lemma_merged_covers(rule, s[i], s[j]);
    assert forall|p: int| 0 <= p < t.len() implies (#[trigger] t[p]).on_grid() by {
        lemma_merge_at_index(rule, s, i, j, p);
    }
    assert forall|p: int, c: Cell| 0 <= p < t.len() && #[trigger] t[p].covers(c) implies occupied(
        base,
        c,
    ) by {
        lemma_merge_at_index(rule, s, i, j, p);
        let from = if p < j {
            p
        } else {
            p + 1
        };
        if from == i {
            assert(m.covers(c));
            assert(s[i].covers(c) || s[j].covers(c));
        } else {
            assert(s[from].covers(c));
        }
    }
    assert forall|k: int| 0 <= k < base.len() implies covered(t, (#[trigger] base[k]).cell()) by {
        let c = base[k].cell();
        assert(covered(s, c));
        let from = choose|from: int| 0 <= from < s.len() && (#[trigger] s[from]).covers(c);
        let to = if from == j {
            moved(j, i)
        } else {
            moved(j, from)
        };
        lemma_merge_at_index(rule, s, i, j, to);
        assert(m.covers(c) <==> s[i].covers(c) || s[j].covers(c));
        assert(t[to].covers(c));
    }
    assert forall|p: int, q: int, c: Cell|
        0 <= p < t.len() && 0 <= q < t.len() && p != q && #[trigger] t[p].covers(
            c,
        ) implies !#[trigger] t[q].covers(c) by {
        lemma_merge_at_index(rule, s, i, j, p);
        lemma_merge_at_index(rule, s, i, j, q);
        let pf = if p < j {
            p
        } else {
            p + 1
        };
        let qf = if q < j {
            q
        } else {
            q + 1
        };
        assert(m.covers(c) <==> s[i].covers(c) || s[j].covers(c));
        if t[q].covers(c) {
            if pf == i {
                assert(s[qf].covers(c));
                if s[i].covers(c) {
                    assert(!s[qf].covers(c));
                } else {
                    assert(s[j].covers(c));
                    assert(!s[qf].covers(c));
                }
            } else if qf == i {
                assert(s[pf].covers(c));
                if s[i].covers(c) {
                    assert(!s[pf].covers(c));
                } else {
                    assert(s[j].covers(c));
                    assert(!s[pf].covers(c));
                }
            } else {
                assert(s[pf].covers(c));
                assert(!s[qf].covers(c));
            }
        }
    }
}

/// A merge under the first rule keeps every quad one row high.
proof fn lemma_step_flat(s: Seq<QuadModel>, base: Seq<QuadModel>, i: int, j: int)
    requires
        tiles(base, s),
        flat(s),
        can_merge_at(MergeRule::First, s, i, j),
    ensures
        flat(merge_at(MergeRule::First, s, i, j)),
{
    let t = merge_at(MergeRule::First, s, i, j);
    lemma_merged_covers(MergeRule::First, s[i], s[j]);
    assert forall|p: int| 0 <= p < t.len() implies (#[trigger] t[p]).height() == 2 by {
        lemma_merge_at_index(MergeRule::First, s, i, j, p);
    }
}

/// A merge under the second rule stacks rows that cannot grow.
proof fn lemma_step_rows(base: Seq<QuadModel>, s: Seq<QuadModel>, i: int, j: int)
    requires
        tiles(base, s),
        rows_closed(base, s),
        can_merge_at(MergeRule::Second, s, i, j),
    ensures
        rows_closed(base, merge_at(MergeRule::Second, s, i, j)),
{
    let t = merge_at(MergeRule::Second, s, i, j);
    let m = merged(MergeRule::Second, s[i], s[j]);
    lemma_merged_covers(MergeRule::Second, s[i], s[j]);
    assert forall|p: int, v: int| 0 <= p < t.len() && #[trigger] t[p].has_row(v) implies !occupied(
        base,
        t[p].before_row(v),
    ) && !occupied(base, t[p].behind_row(v)) by {
        lemma_merge_at_index(MergeRule::Second, s, i, j, p);
        let from = if p < j {
            p
        } else {
            p + 1
        };
        if from == i {
            if v < s[i].hi_v() {
                assert(s[i].has_row(v));
                assert(m.before_row(v) == s[i].before_row(v));
                assert(m.behind_row(v) == s[i].behind_row(v));
            } else {
                assert(s[j].has_row(v));
                assert(m.before_row(v) == s[j].before_row(v));
                assert(m.behind_row(v) == s[j].behind_row(v));
            }
        } else {
            assert(s[from].has_row(v));
        }
    }
}

/// The first pass keeps the quads covering the faces, in single rows.
proof fn lemma_first_pass_keeps(
    base: Seq<QuadModel>,
    before: Seq<QuadModel>,
    after: Seq<QuadModel>,
    n: nat,
)
    requires
        tiles(base, before),
        flat(before),
        merges_into(MergeRule::First, before, after, n),
    ensures
        tiles(base, after),
        flat(after),
    decreases n,
{
    if n > 0 {
        let mid = choose|mid: Seq<QuadModel>| #[trigger]
            is_merge_step(MergeRule::First, before, mid) && merges_into(
                MergeRule::First,
                mid,
                after,
                (n - 1) as nat,
            );
        let (i, j) = choose|i: int, j: int| #[trigger]
            can_merge_at(MergeRule::First, before, i, j) && mid == merge_at(
                MergeRule::First,
                before,
                i,
                j,
            );
        lemma_step_tiles(MergeRule::First, base, before, i, j);
        lemma_step_flat(before, base, i, j);
        lemma_first_pass_keeps(base, mid, after, (n - 1) as nat);
    }
}

/// The second pass keeps the quads covering the faces, in rows that cannot grow.
proof fn lemma_second_pass_keeps(
    base: Seq<QuadModel>,
    before: Seq<QuadModel>,
    after: Seq<QuadModel>,
    n: nat,
)
    requires
        tiles(base, before),
        rows_closed(base, before),
        merges_into(MergeRule::Second, before, after, n),
    ensures
        tiles(base, after),
        rows_closed(base, after),
    decreases n,
{
    if n > 0 {
        let mid = choose|mid: Seq<QuadModel>| #[trigger]
            is_merge_step(MergeRule::Second, before, mid) && merges_into(
                MergeRule::Second,
                mid,
                after,
                (n - 1) as nat,
            );
        let (i, j) = choose|i: int, j: int| #[trigger]
            can_merge_at(MergeRule::Second, before, i, j) && mid == merge_at(
                MergeRule::Second,
                before,
                i,
                j,
            );
        lemma_step_tiles(MergeRule::Second, base, before, i, j);
        lemma_step_rows(base, before, i, j);
        lemma_second_pass_keeps(base, mid, after, (n - 1) as nat);
    }
}

/// Faces of blocks, each once, cover themselves.
proof fn lemma_units_tile(base: Seq<QuadModel>)
    requires
        all_units(base),
        base.no_duplicates(),
    ensures
        tiles(base, base),
        flat(base),
{
    assert forall|i: int, c: Cell| 0 <= i < base.len() && #[trigger] base[i].covers(
        c,
    ) implies base[i].cell() == c by {
        assert(base[i].is_unit());
    }
    assert forall|k: int| 0 <= k < base.len() implies covered(base, (#[trigger] base[k]).cell()) by {
        assert(base[k].is_unit());
        assert(base[k].covers(base[k].cell()));
    }
    assert forall|i: int, j: int, c: Cell|
        0 <= i < base.len() && 0 <= j < base.len() && i != j && #[trigger] base[i].covers(
            c,
        ) implies !#[trigger] base[j].covers(c) by {
        if base[j].covers(c) {
            let a = base[i];
            let b = base[j];
            assert(a.is_unit() && b.is_unit());
            assert(a.cell() == c && b.cell() == c);
            let d = a.normal;
            lemma_frame(d, a.c0, b.c0);
            lemma_frame(d, a.c1, b.c1);
            lemma_frame(d, a.c2, b.c2);
            lemma_frame(d, a.c3, b.c3);
            assert(a == b);
        }
    }
}

/// Where no two rows can merge, no row can grow.
proof fn lemma_rows_closed_after_first(base: Seq<QuadModel>, s: Seq<QuadModel>)
    requires
        tiles(base, s),
        flat(s),
        settled(MergeRule::First, s),
    ensures
        rows_closed(base, s),
{
    assert forall|i: int, v: int| 0 <= i < s.len() && #[trigger] s[i].has_row(v) implies !occupied(
        base,
        s[i].before_row(v),
    ) && !occupied(base, s[i].behind_row(v)) by {
        let a = s[i];
        let d = a.normal;
        assert(a.on_grid() && a.height() == 2);
        assert(v == a.lo_v());
        if occupied(base, a.behind_row(v)) {
            let c = a.behind_row(v);
            let k = choose|k: int| 0 <= k < base.len() && (#[trigger] base[k]).cell() == c;
            assert(covered(s, base[k].cell()));
            let j = choose|j: int| 0 <= j < s.len() && (#[trigger] s[j]).covers(c);
            let b = s[j];
            assert(b.on_grid() && b.height() == 2);
            assert(b.lo_v() == v);
            if b.lo_u() == a.hi_u() {
                lemma_frame(d, b.c0, a.c1);
                lemma_frame(d, b.c3, a.c2);
                assert(can_merge_at(MergeRule::First, s, j, i));
            } else {
                let shared = Cell { d, w: a.plane(), u: a.hi_u() - 2, v };
                assert(a.covers(shared));
                assert(b.covers(shared));
            }
        }
        if occupied(base, a.before_row(v)) {
            let c = a.before_row(v);
            let k = choose|k: int| 0 <= k < base.len() && (#[trigger] base[k]).cell() == c;
            assert(covered(s, base[k].cell()));
            let j = choose|j: int| 0 <= j < s.len() && (#[trigger] s[j]).covers(c);
            let b = s[j];
            assert(b.on_grid() && b.height() == 2);
            assert(b.lo_v() == v);
            if b.hi_u() == a.lo_u() {
                lemma_frame(d, a.c0, b.c1);
                lemma_frame(d, a.c3, b.c2);
                assert(can_merge_at(MergeRule::First, s, i, j));
            } else {
                let shared = Cell { d, w: a.plane(), u: a.lo_u(), v };
                assert(a.covers(shared));
                assert(b.covers(shared));
            }
        }
    }
}

/// Where no row can grow, the first rule finds nothing to merge.
proof fn lemma_closed_rows_are_settled(base: Seq<QuadModel>, s: Seq<QuadModel>)
    requires
        tiles(base, s),
        rows_closed(base, s),
    ensures
        settled(MergeRule::First, s),
{
    assert forall|i: int, j: int| !#[trigger] can_merge_at(MergeRule::First, s, i, j) by {
        if can_merge_at(MergeRule::First, s, i, j) {
            let a = s[i];
            let b = s[j];
            assert(a.on_grid() && b.on_grid());
            let v = a.lo_v();
            let c = a.before_row(v);
            assert(a.has_row(v));
            assert(b.covers(c));
            assert(occupied(base, c));
        }
    }
}

/// When the two passes have run over faces of blocks, none of them twice,
/// neither rule finds a pair to merge in what they leave.
pub proof fn lemma_merged_faces_are_settled(
    base: Seq<QuadModel>,
    after: Seq<QuadModel>,
    first: nat,
    second: nat,
)
    requires
        all_units(base),
        base.no_duplicates(),
        merged_from(base, after, first, second),
    ensures
        settled(MergeRule::First, after),
        settled(MergeRule::Second, after),
{
    let mid = choose|mid: Seq<QuadModel>|
        {
            &&& #[trigger] merges_into(MergeRule::First, base, mid, first)
            &&& settled(MergeRule::First, mid)
            &&& merges_into(MergeRule::Second, mid, after, second)
            &&& settled(MergeRule::Second, after)
        };
    lemma_units_tile(base);
    lemma_first_pass_keeps(base, base, mid, first);
    lemma_rows_closed_after_first(base, mid);
    lemma_second_pass_keeps(base, mid, after, second);
    lemma_closed_rows_are_settled(base, after);
}

/// Every face of a chunk is the face of one block.
proof fn lemma_chunk_faces_are_units(chunk: &Chunk, nbrs: &Neighbors, n: int)
    ensures
        all_units(faces_upto(chunk, nbrs, n)),
    decreases n,
{
    if n > 0 {
        lemma_chunk_faces_are_units(chunk, nbrs, n - 1);
        let before = faces_upto(chunk, nbrs, n - 1);
        let last = voxel_faces(chunk, nbrs, n - 1);
        let dims = chunk.dims();
        let (x, y, z) = (dims.x_of(n - 1), dims.y_of(n - 1), dims.z_of(n - 1));
        let dirs = visible_directions(chunk, nbrs, x, y, z);
        assert forall|i: int| 0 <= i < (before + last).len() implies (#[trigger] (before
            + last)[i]).is_unit() by {
            if i < before.len() {
                assert((before + last)[i] == before[i]);
            } else {
                assert((before + last)[i] == unit_face(x, y, z, dirs[i - before.len()]));
            }
        }
    }
}

/// The quads of a chunk's mesh are final: neither rule finds a pair to merge
/// among them.
pub proof fn lemma_chunk_quads_are_settled(chunk: &Chunk, nbrs: &Neighbors, quads: Seq<QuadModel>)
    requires
        chunk.wf(),
        quads_of_chunk(chunk, nbrs, quads),
    ensures
        settled(MergeRule::First, quads),
        settled(MergeRule::Second, quads),
{
    let faces = chunk_faces(chunk, nbrs);
    let base = sorted_by_normal(faces);
    let (first, second) = choose|first: nat, second: nat| #[trigger]
        merged_from(base, quads, first, second);
    chunk.dims().lemma_bounds();
    lemma_chunk_faces_are_units(chunk, nbrs, chunk.dims().volume());
    lemma_chunk_faces_are_distinct(chunk, nbrs, chunk.dims().volume());
    lemma_sorted_members(faces);
    assert forall|k: int| 0 <= k < base.len() implies (#[trigger] base[k]).is_unit() by {
        let i = choose|i: int| 0 <= i < faces.len() && faces[i] == base[k];
        assert(faces[i].is_unit());
    }
    lemma_merged_faces_are_settled(base, quads, first, second);
}

/// Merging the quads of a chunk's mesh once more makes no merge and leaves
/// every quad as it is.
pub proof fn lemma_chunk_quads_merge_no_further(
    chunk: &Chunk,
    nbrs: &Neighbors,
    quads: Seq<QuadModel>,
    again: Seq<QuadModel>,
    first: nat,
    second: nat,
)
    requires
        chunk.wf(),
        quads_of_chunk(chunk, nbrs, quads),
        merged_from(quads, again, first, second),
    ensures
        first == 0,
        second == 0,
        again == quads,
{
    let base = sorted_by_normal(chunk_faces(chunk, nbrs));
    let (n, m) = choose|n: nat, m: nat| #[trigger] merged_from(base, quads, n, m);
    lemma_chunk_quads_are_settled(chunk, nbrs, quads);
    lemma_merged_twice(base, quads, again, n, m, first, second);
}

} // verus!
