//! Ordering quads by their normals, so that the quads of one direction stand
//! together.

use crate::geometry::{Direction, IVec3, Point3};
use crate::merge::{all_rectangles, area4_facing, total_area4};
use crate::quad::{quads_of, Quad, QuadModel};
use std::cmp::Ordering;
use vstd::prelude::*;
use vstd::seq_lib::lemma_no_dup_in_concat;

verus! {

/// How `a` compares with `b` when the coordinates are compared one after the
/// other: x first, then y, then z.
pub open spec fn lex_order(a: Point3, b: Point3) -> Ordering {
    if a.x < b.x {
        Ordering::Less
    } else if a.x > b.x {
        Ordering::Greater
    } else if a.y < b.y {
        Ordering::Less
    } else if a.y > b.y {
        Ordering::Greater
    } else if a.z < b.z {
        Ordering::Less
    } else if a.z > b.z {
        Ordering::Greater
    } else {
        Ordering::Equal
    }
}

/// Compares the x, y and z components of two vectors, in that order. Two
/// vectors of integers always compare.
pub fn partial_cmp(one: &IVec3, other: &IVec3) -> (r: Option<Ordering>)
    ensures
        r == Some(lex_order(one@, other@)),
{
    if one.x < other.x {
        Some(Ordering::Less)
    } else if one.x > other.x {
        Some(Ordering::Greater)
    } else if one.y < other.y {
        Some(Ordering::Less)
    } else if one.y > other.y {
        Some(Ordering::Greater)
    } else if one.z < other.z {
        Some(Ordering::Less)
    } else if one.z > other.z {
        Some(Ordering::Greater)
    } else {
        Some(Ordering::Equal)
    }
}

/// How the normal of `a` compares with the normal of `b`.
pub fn normal_order(a: &Quad, b: &Quad) -> (r: Ordering)
    ensures
        r == lex_order(a.normal.normal_point(), b.normal.normal_point()),
{
    let na = a.normal.normal();
    let nb = b.normal.normal();
    match partial_cmp(&na, &nb) {
        Some(o) => o,
        None => Ordering::Equal,
    }
}

/// The normal of `a` does not come after the normal of `b`.
pub open spec fn normal_not_after(a: Direction, b: Direction) -> bool {
    lex_order(a.normal_point(), b.normal_point()) != Ordering::Greater
}

/// The quads of `s` are in the order of their normals.
pub open spec fn ordered_by_normal(s: Seq<QuadModel>) -> bool {
    forall|i: int, j: int|
        0 <= i < j < s.len() ==> normal_not_after((#[trigger] s[i]).normal, (#[trigger] s[j]).normal)
}

/// `q` alone where it faces `d`, nothing where it does not.
pub open spec fn quad_if_facing(q: QuadModel, d: Direction) -> Seq<QuadModel> {
    if q.normal == d {
        seq![q]
    } else {
        Seq::empty()
    }
}

/// The quads of `s` that face `d`, in the order in which `s` holds them.
pub open spec fn facing(s: Seq<QuadModel>, d: Direction) -> Seq<QuadModel>
    decreases s.len(),
{
    if s.len() == 0 {
        Seq::empty()
    } else {
        facing(s.drop_last(), d) + quad_if_facing(s.last(), d)
    }
}

/// The quads of `s` ordered by their normals, those with the same normal in
/// the order in which `s` holds them. Compared coordinate by coordinate the
/// normals come in the order `-X, -Y, -Z, +Z, +Y, +X`.
pub open spec fn sorted_by_normal(s: Seq<QuadModel>) -> Seq<QuadModel> {
    facing(s, Direction::MinusX) + facing(s, Direction::MinusY) + facing(s, Direction::MinusZ)
        + facing(s, Direction::PlusZ) + facing(s, Direction::PlusY) + facing(s, Direction::PlusX)
}

/// Sorts the buffer by the normals of its quads and keeps quads with the same
/// normal in the order in which they stood.
///
/// This is `sort_by` of the standard library, called with `normal_order`.
/// Nothing of it is proved here. What is taken from its documentation: the
/// slice comes out ordered by the comparison, and elements that compare
/// equal keep their order, so that for each direction the quads that face it
/// are the same sequence as before.
#[verifier::external_body]
fn sort_by_normal(quads: &mut Vec<Quad>)
    ensures
        ordered_by_normal(quads_of(final(quads)@)),
        forall|d: Direction| #[trigger]
            facing(quads_of(final(quads)@), d) == facing(quads_of(old(quads)@), d),
{
    quads.sort_by(|a, b| normal_order(a, b));
}

/// Where no quad faces `d`, there are no quads facing `d`.
proof fn lemma_facing_none(s: Seq<QuadModel>, d: Direction)
    requires
        forall|i: int| 0 <= i < s.len() ==> (#[trigger] s[i]).normal != d,
    ensures
        facing(s, d) == Seq::<QuadModel>::empty(),
    decreases s.len(),
{
    if s.len() > 0 {
        assert(s.last() == s[s.len() - 1]);
        assert forall|i: int| 0 <= i < s.drop_last().len() implies (#[trigger] s.drop_last()[i]).normal
            != d by {
            assert(s.drop_last()[i] == s[i]);
        }
        lemma_facing_none(s.drop_last(), d);
    }
}

/// A buffer that is ordered by normal is the sequence of its quads that face
/// `-X`, then of those that face `-Y`, and so on.
pub proof fn lemma_ordered_is_sorted(s: Seq<QuadModel>)
    requires
        ordered_by_normal(s),
    ensures
        s == sorted_by_normal(s),
    decreases s.len(),
{
    if s.len() == 0 {
        assert(s =~= sorted_by_normal(s));
    } else {
        let t = s.drop_last();
        let q = s.last();
        assert forall|i: int, j: int| 0 <= i < j < t.len() implies normal_not_after(
            (#[trigger] t[i]).normal,
            (#[trigger] t[j]).normal,
        ) by {
            assert(t[i] == s[i] && t[j] == s[j]);
        }
        lemma_ordered_is_sorted(t);
        assert forall|d: Direction| !normal_not_after(d, q.normal) implies #[trigger] facing(t, d)
            == Seq::<QuadModel>::empty() by {
            assert forall|i: int| 0 <= i < t.len() implies (#[trigger] t[i]).normal != d by {
                assert(t[i] == s[i]);
                assert(q == s[s.len() - 1]);
            }
            lemma_facing_none(t, d);
        }
        assert(sorted_by_normal(s) =~= sorted_by_normal(t).push(q));
        assert(s =~= t.push(q));
    }
}

/// Ordering by normal neither adds nor drops a quad.
pub proof fn lemma_sorted_len(s: Seq<QuadModel>)
    ensures
        sorted_by_normal(s).len() == s.len(),
    decreases s.len(),
{
    if s.len() > 0 {
        lemma_sorted_len(s.drop_last());
    }
}

/// The area of two buffers is the sum of their areas.
proof fn lemma_total_area_concat(a: Seq<QuadModel>, b: Seq<QuadModel>, d: Direction)
    ensures
        total_area4(a + b, d) == total_area4(a, d) + total_area4(b, d),
    decreases b.len(),
{
    if b.len() == 0 {
        assert(a + b =~= a);
    } else {
        assert((a + b).drop_last() =~= a + b.drop_last());
        lemma_total_area_concat(a, b.drop_last(), d);
    }
}

/// The quads facing `e` are quads of the buffer, and they cover all its area
/// that faces `e` and none that faces another way.
proof fn lemma_facing_keeps(s: Seq<QuadModel>, e: Direction, d: Direction)
    ensures
        total_area4(facing(s, e), d) == if e == d {
            total_area4(s, d)
        } else {
            0
        },
        all_rectangles(s) ==> all_rectangles(facing(s, e)),
        forall|i: int| 0 <= i < facing(s, e).len() ==> s.contains(#[trigger] facing(s, e)[i]),
    decreases s.len(),
{
    if s.len() > 0 {
        let t = s.drop_last();
        let q = s.last();
        lemma_facing_keeps(t, e, d);
        lemma_total_area_concat(facing(t, e), quad_if_facing(q, e), d);
        if q.normal == e {
            assert(seq![q].drop_last() =~= Seq::<QuadModel>::empty());
            assert(seq![q].last() == q);
            assert(total_area4(Seq::<QuadModel>::empty(), d) == 0);
            assert(total_area4(seq![q], d) == area4_facing(q, d));
        }
        assert forall|i: int| 0 <= i < facing(s, e).len() implies s.contains(
            #[trigger] facing(s, e)[i],
        ) by {
            if i < facing(t, e).len() {
                let k = choose|k: int| 0 <= k < t.len() && t[k] == facing(t, e)[i];
                assert(s[k] == facing(s, e)[i]);
            } else {
                assert(s[s.len() - 1] == facing(s, e)[i]);
            }
        }
        if all_rectangles(s) {
            assert forall|i: int| 0 <= i < t.len() implies (#[trigger] t[i]).is_rectangle() by {
                assert(t[i] == s[i]);
            }
            assert(s[s.len() - 1].is_rectangle());
        }
    }
}

/// Ordering by normal keeps every quad: rectangles stay rectangles, and the
/// area that faces each direction stays what it was.
pub proof fn lemma_sorted_keeps_area(s: Seq<QuadModel>, d: Direction)
    ensures
        sorted_by_normal(s).len() == s.len(),
        all_rectangles(s) ==> all_rectangles(sorted_by_normal(s)),
        total_area4(sorted_by_normal(s), d) == total_area4(s, d),
{
    lemma_sorted_len(s);
    let a = facing(s, Direction::MinusX);
    let b = a + facing(s, Direction::MinusY);
    let c = b + facing(s, Direction::MinusZ);
    let e = c + facing(s, Direction::PlusZ);
    let f = e + facing(s, Direction::PlusY);
    lemma_facing_keeps(s, Direction::MinusX, d);
    lemma_facing_keeps(s, Direction::MinusY, d);
    lemma_facing_keeps(s, Direction::MinusZ, d);
    lemma_facing_keeps(s, Direction::PlusZ, d);
    lemma_facing_keeps(s, Direction::PlusY, d);
    lemma_facing_keeps(s, Direction::PlusX, d);
    lemma_total_area_concat(a, facing(s, Direction::MinusY), d);
    lemma_total_area_concat(b, facing(s, Direction::MinusZ), d);
    lemma_total_area_concat(c, facing(s, Direction::PlusZ), d);
    lemma_total_area_concat(e, facing(s, Direction::PlusY), d);
    lemma_total_area_concat(f, facing(s, Direction::PlusX), d);
}

/// The quads facing `d` face `d`, stood in the buffer, and are distinct where
/// the quads of the buffer are.
proof fn lemma_facing_members(s: Seq<QuadModel>, d: Direction)
    ensures
        forall|i: int|
            0 <= i < facing(s, d).len() ==> (#[trigger] facing(s, d)[i]).normal == d && s.contains(
                facing(s, d)[i],
            ),
        s.no_duplicates() ==> facing(s, d).no_duplicates(),
    decreases s.len(),
{
    if s.len() > 0 {
        let t = s.drop_last();
        let q = s.last();
        let f = facing(t, d);
        lemma_facing_members(t, d);
        assert forall|i: int| 0 <= i < facing(s, d).len() implies (#[trigger] facing(
            s,
            d,
        )[i]).normal == d && s.contains(facing(s, d)[i]) by {
            if i < f.len() {
                let k = choose|k: int| 0 <= k < t.len() && t[k] == f[i];
                assert(s[k] == facing(s, d)[i]);
            } else {
                assert(s[s.len() - 1] == facing(s, d)[i]);
            }
        }
        if s.no_duplicates() {
            assert forall|i: int, j: int| 0 <= i < t.len() && 0 <= j < t.len() && i != j implies t[i]
                != t[j] by {
                assert(t[i] == s[i] && t[j] == s[j]);
            }
            assert forall|i: int, j: int|
                0 <= i < f.len() && 0 <= j < quad_if_facing(q, d).len() implies f[i]
                != quad_if_facing(q, d)[j] by {
                let k = choose|k: int| 0 <= k < t.len() && t[k] == f[i];
                assert(s[k] == f[i]);
                assert(s[s.len() - 1] == q);
            }
            lemma_no_dup_in_concat(f, quad_if_facing(q, d));
        }
    }
}

/// Ordering by normal keeps the quads that it is given: what comes out held
/// the buffer before, and quads that stood there once come out once.
pub proof fn lemma_sorted_members(s: Seq<QuadModel>)
    ensures
        forall|i: int|
            0 <= i < sorted_by_normal(s).len() ==> s.contains(#[trigger] sorted_by_normal(s)[i]),
        s.no_duplicates() ==> sorted_by_normal(s).no_duplicates(),
{
    let g0 = facing(s, Direction::MinusX);
    let g1 = facing(s, Direction::MinusY);
    let g2 = facing(s, Direction::MinusZ);
    let g3 = facing(s, Direction::PlusZ);
    let g4 = facing(s, Direction::PlusY);
    let g5 = facing(s, Direction::PlusX);
    lemma_facing_members(s, Direction::MinusX);
    lemma_facing_members(s, Direction::MinusY);
    lemma_facing_members(s, Direction::MinusZ);
    lemma_facing_members(s, Direction::PlusZ);
    lemma_facing_members(s, Direction::PlusY);
    lemma_facing_members(s, Direction::PlusX);
    if s.no_duplicates() {
        lemma_no_dup_in_concat(g0, g1);
        lemma_no_dup_in_concat(g0 + g1, g2);
        lemma_no_dup_in_concat(g0 + g1 + g2, g3);
        lemma_no_dup_in_concat(g0 + g1 + g2 + g3, g4);
        lemma_no_dup_in_concat(g0 + g1 + g2 + g3 + g4, g5);
    }
}

/// Puts the quads in the order of their normals. Quads with the same normal
/// keep the order in which they stood.
pub fn group_by_normal(quads: &mut Vec<Quad>)
    ensures
        quads_of(final(quads)@) == sorted_by_normal(quads_of(old(quads)@)),
        final(quads).len() == old(quads).len(),
{
    sort_by_normal(quads);
    proof {
        lemma_ordered_is_sorted(quads_of(quads@));
        lemma_sorted_len(quads_of(old(quads)@));
    }
}

} // verus!
