//! Merging adjacent faces into larger rectangles.
//!
//! Two quads that face the same way and share an edge can be replaced by one
//! quad that covers both. There are two rules, one for each pair of opposite
//! edges; a pass applies one rule until no two quads of the buffer fit it.

use crate::geometry::Direction;
use crate::quad::{quads_of, Quad, QuadModel};
use vstd::prelude::*;

verus! {

/// Which edge of a quad the other quad must share with it.
#[derive(Clone, Copy, Debug, PartialEq, Eq, Structural)]
pub enum MergeRule {
    /// The other quad lies across the edge from the first corner to the fourth.
    First,
    /// The other quad lies across the edge from the fourth corner to the third.
    Second,
}

/// Quad `a` can take up quad `b` under `rule`: they face the same way and
/// the named edge of `a` is the opposite edge of `b`.
pub open spec fn mergeable(rule: MergeRule, a: QuadModel, b: QuadModel) -> bool {
    &&& a.normal == b.normal
    &&& match rule {
        MergeRule::First => a.c0 == b.c1 && a.c3 == b.c2,
        MergeRule::Second => a.c3 == b.c0 && a.c2 == b.c1,
    }
}

/// The quad that covers `a` and `b`: `a` with the two corners of the shared
/// edge replaced by the far corners of `b`.
pub open spec fn merged(rule: MergeRule, a: QuadModel, b: QuadModel) -> QuadModel {
    match rule {
        MergeRule::First => QuadModel { c0: b.c0, c1: a.c1, c2: a.c2, c3: b.c3, normal: a.normal },
        MergeRule::Second => QuadModel { c0: a.c0, c1: a.c1, c2: b.c2, c3: b.c3, normal: a.normal },
    }
}

/// Quads `i` and `j` of `s` are two different quads of which the first can
/// take up the second.
pub open spec fn can_merge_at(rule: MergeRule, s: Seq<QuadModel>, i: int, j: int) -> bool {
    &&& 0 <= i < s.len()
    &&& 0 <= j < s.len()
    &&& i != j
    &&& mergeable(rule, s[i], s[j])
}

/// The buffer after quad `i` has taken up quad `j`: the merged quad stands in
/// the place of quad `i`, and quad `j` has left.
pub open spec fn merge_at(rule: MergeRule, s: Seq<QuadModel>, i: int, j: int) -> Seq<QuadModel> {
    s.update(i, merged(rule, s[i], s[j])).remove(j)
}

/// `after` is `before` with one pair of quads merged.
pub open spec fn is_merge_step(rule: MergeRule, before: Seq<QuadModel>, after: Seq<QuadModel>) -> bool {
    exists|i: int, j: int| #[trigger]
        can_merge_at(rule, before, i, j) && after == merge_at(rule, before, i, j)
}

/// `after` comes from `before` by `n` merges, one after the other.
pub open spec fn merges_into(
    rule: MergeRule,
    before: Seq<QuadModel>,
    after: Seq<QuadModel>,
    n: nat,
) -> bool
    decreases n,
{
    if n == 0 {
        after == before
    } else {
        exists|mid: Seq<QuadModel>| #[trigger]
            is_merge_step(rule, before, mid) && merges_into(rule, mid, after, (n - 1) as nat)
    }
}

/// No quad of `s` can take up another under `rule`.
pub open spec fn settled(rule: MergeRule, s: Seq<QuadModel>) -> bool {
    forall|i: int, j: int| !#[trigger] can_merge_at(rule, s, i, j)
}

/// A chain of merges followed by a second chain is one chain.
pub proof fn lemma_merges_chain(
    rule: MergeRule,
    a: Seq<QuadModel>,
    b: Seq<QuadModel>,
    c: Seq<QuadModel>,
    n: nat,
    m: nat,
)
    requires
        merges_into(rule, a, b, n),
        merges_into(rule, b, c, m),
    ensures
        merges_into(rule, a, c, n + m),
    decreases n,
{
    if n > 0 {
        let mid = choose|mid: Seq<QuadModel>| #[trigger]
            is_merge_step(rule, a, mid) && merges_into(rule, mid, b, (n - 1) as nat);
        lemma_merges_chain(rule, mid, b, c, (n - 1) as nat, m);
        assert(is_merge_step(rule, a, mid) && merges_into(rule, mid, c, (n + m - 1) as nat));
    }
}

/// A chain of merges with one more merge at its end is a chain.
pub proof fn lemma_merges_then_step(
    rule: MergeRule,
    a: Seq<QuadModel>,
    b: Seq<QuadModel>,
    n: nat,
    i: int,
    j: int,
)
    requires
        merges_into(rule, a, b, n),
        can_merge_at(rule, b, i, j),
    ensures
        merges_into(rule, a, merge_at(rule, b, i, j), n + 1),
{
    let c = merge_at(rule, b, i, j);
    assert(is_merge_step(rule, b, c));
    assert(merges_into(rule, c, c, 0));
    assert(is_merge_step(rule, b, c) && merges_into(rule, c, c, 0));
    assert(merges_into(rule, b, c, 1));
    lemma_merges_chain(rule, a, b, c, n, 1);
}

/// `after` comes from `before` by the two passes: `first` merges under the
/// first rule, up to a buffer in which no pair fits that rule, then `second`
/// merges under the second rule, up to one in which no pair fits that one.
pub open spec fn merged_from(
    before: Seq<QuadModel>,
    after: Seq<QuadModel>,
    first: nat,
    second: nat,
) -> bool {
    exists|mid: Seq<QuadModel>|
        {
            &&& #[trigger] merges_into(MergeRule::First, before, mid, first)
            &&& settled(MergeRule::First, mid)
            &&& merges_into(MergeRule::Second, mid, after, second)
            &&& settled(MergeRule::Second, after)
        }
}

/// Every quad of `s` is a rectangle.
pub open spec fn all_rectangles(s: Seq<QuadModel>) -> bool {
    forall|i: int| 0 <= i < s.len() ==> (#[trigger] s[i]).is_rectangle()
}

/// What `q` adds to the area that faces `d`.
pub open spec fn area4_facing(q: QuadModel, d: Direction) -> int {
    if q.normal == d {
        q.area4()
    } else {
        0
    }
}

/// Four times the area that the quads of `s` facing `d` cover together.
pub open spec fn total_area4(s: Seq<QuadModel>, d: Direction) -> int
    decreases s.len(),
{
    if s.len() == 0 {
        0
    } else {
        total_area4(s.drop_last(), d) + area4_facing(s.last(), d)
    }
}

/// Two rectangles that can merge give a rectangle that faces the same way and
/// has the area of both.
pub proof fn lemma_merged_rectangle(rule: MergeRule, a: QuadModel, b: QuadModel)
    requires
        a.is_rectangle(),
        b.is_rectangle(),
        mergeable(rule, a, b),
    ensures
        merged(rule, a, b).is_rectangle(),
        merged(rule, a, b).normal == a.normal,
        merged(rule, a, b).area4() == a.area4() + b.area4(),
{
    let m = merged(rule, a, b);
    match rule {
        MergeRule::First => {
            assert(m.height() == a.height() && m.height() == b.height());
            assert(m.width() == a.width() + b.width());
        },
        MergeRule::Second => {
            assert(m.width() == a.width() && m.width() == b.width());
            assert(m.height() == a.height() + b.height());
        },
    }
    assert(m.width() * m.height() == a.width() * a.height() + b.width() * b.height())
        by (nonlinear_arith)
        requires
            (m.height() == a.height() && m.height() == b.height() && m.width() == a.width()
                + b.width()) || (m.width() == a.width() && m.width() == b.width() && m.height()
                == a.height() + b.height()),
    ;
}

/// Replacing a quad changes the area by the difference of the two quads.
proof fn lemma_total_area_update(s: Seq<QuadModel>, i: int, q: QuadModel, d: Direction)
    requires
        0 <= i < s.len(),
    ensures
        total_area4(s.update(i, q), d) == total_area4(s, d) - area4_facing(s[i], d) + area4_facing(
            q,
            d,
        ),
    decreases s.len(),
{
    let t = s.update(i, q);
    if i == s.len() - 1 {
        assert(t.drop_last() =~= s.drop_last());
    } else {
        assert(t.drop_last() =~= s.drop_last().update(i, q));
        lemma_total_area_update(s.drop_last(), i, q, d);
    }
}

/// Removing a quad takes its area away.
proof fn lemma_total_area_remove(s: Seq<QuadModel>, j: int, d: Direction)
    requires
        0 <= j < s.len(),
    ensures
        total_area4(s.remove(j), d) == total_area4(s, d) - area4_facing(s[j], d),
    decreases s.len(),
{
    let t = s.remove(j);
    if j == s.len() - 1 {
        assert(t =~= s.drop_last());
    } else {
        assert(t.drop_last() =~= s.drop_last().remove(j));
        assert(t.last() == s.last());
        lemma_total_area_remove(s.drop_last(), j, d);
    }
}

/// One merge takes one quad out of a buffer of rectangles, leaves rectangles,
/// and changes the area that faces any direction by nothing.
pub proof fn lemma_merge_at_keeps_area(
    rule: MergeRule,
    s: Seq<QuadModel>,
    i: int,
    j: int,
    d: Direction,
)
    requires
        all_rectangles(s),
        can_merge_at(rule, s, i, j),
    ensures
        merge_at(rule, s, i, j).len() + 1 == s.len(),
        all_rectangles(merge_at(rule, s, i, j)),
        total_area4(merge_at(rule, s, i, j), d) == total_area4(s, d),
{
    let m = merged(rule, s[i], s[j]);
    let t = s.update(i, m);
    lemma_merged_rectangle(rule, s[i], s[j]);
    lemma_total_area_update(s, i, m, d);
    lemma_total_area_remove(t, j, d);
    assert(t[j] == s[j]);
    assert(all_rectangles(t.remove(j))) by {
        assert forall|k: int| 0 <= k < t.remove(j).len() implies (#[trigger] t.remove(
            j,
        )[k]).is_rectangle() by {
            if k < j {
                assert(t.remove(j)[k] == t[k]);
            } else {
                assert(t.remove(j)[k] == t[k + 1]);
            }
        }
    }
}

/// Merging never adds a quad and loses no area: after `n` merges the buffer
/// has `n` quads fewer, and where it held rectangles it still holds
/// rectangles, which cover for each direction the area that they covered
/// before.
pub proof fn lemma_merges_keep_area(
    rule: MergeRule,
    before: Seq<QuadModel>,
    after: Seq<QuadModel>,
    n: nat,
    d: Direction,
)
    requires
        merges_into(rule, before, after, n),
    ensures
        after.len() + n == before.len(),
        after.len() <= before.len(),
        all_rectangles(before) ==> all_rectangles(after) && total_area4(after, d) == total_area4(
            before,
            d,
        ),
    decreases n,
{
    if n > 0 {
        let mid = choose|mid: Seq<QuadModel>| #[trigger]
            is_merge_step(rule, before, mid) && merges_into(rule, mid, after, (n - 1) as nat);
        let (i, j) = choose|i: int, j: int| #[trigger]
            can_merge_at(rule, before, i, j) && mid == merge_at(rule, before, i, j);
        if all_rectangles(before) {
            lemma_merge_at_keeps_area(rule, before, i, j, d);
        }
        lemma_merges_keep_area(rule, mid, after, (n - 1) as nat, d);
    }
}

/// The two passes together never add a quad and lose no area.
pub proof fn lemma_merged_from_keeps_area(
    before: Seq<QuadModel>,
    after: Seq<QuadModel>,
    first: nat,
    second: nat,
    d: Direction,
)
    requires
        merged_from(before, after, first, second),
    ensures
        after.len() + first + second == before.len(),
        after.len() <= before.len(),
        all_rectangles(before) ==> all_rectangles(after) && total_area4(after, d) == total_area4(
            before,
            d,
        ),
{
    let mid = choose|mid: Seq<QuadModel>|
        {
            &&& #[trigger] merges_into(MergeRule::First, before, mid, first)
            &&& settled(MergeRule::First, mid)
            &&& merges_into(MergeRule::Second, mid, after, second)
            &&& settled(MergeRule::Second, after)
        };
    lemma_merges_keep_area(MergeRule::First, before, mid, first, d);
    lemma_merges_keep_area(MergeRule::Second, mid, after, second, d);
}

/// In a buffer in which no pair fits the rule there is nothing to merge: a
/// pass over it makes no merge and leaves it as it is.
pub proof fn lemma_settled_is_fixed(
    rule: MergeRule,
    before: Seq<QuadModel>,
    after: Seq<QuadModel>,
    n: nat,
)
    requires
        settled(rule, before),
        merges_into(rule, before, after, n),
    ensures
        n == 0,
        after == before,
{
    if n > 0 {
        let mid = choose|mid: Seq<QuadModel>| #[trigger]
            is_merge_step(rule, before, mid) && merges_into(rule, mid, after, (n - 1) as nat);
        let (i, j) = choose|i: int, j: int| #[trigger]
            can_merge_at(rule, before, i, j) && mid == merge_at(rule, before, i, j);
        assert(false);
    }
}

/// A second run of a pass on what the first run left makes no merge and
/// changes nothing.
pub proof fn lemma_pass_twice(
    rule: MergeRule,
    start: Seq<QuadModel>,
    once: Seq<QuadModel>,
    twice: Seq<QuadModel>,
    n: nat,
    m: nat,
)
    requires
        merges_into(rule, start, once, n),
        settled(rule, once),
        merges_into(rule, once, twice, m),
    ensures
        m == 0,
        twice == once,
{
    lemma_settled_is_fixed(rule, once, twice, m);
}

/// A second run of both passes, on a buffer that the first run left and in
/// which no pair fits the first rule, makes no merge and changes nothing.
pub proof fn lemma_merged_twice(
    start: Seq<QuadModel>,
    once: Seq<QuadModel>,
    twice: Seq<QuadModel>,
    first: nat,
    second: nat,
    first_again: nat,
    second_again: nat,
)
    requires
        merged_from(start, once, first, second),
        settled(MergeRule::First, once),
        merged_from(once, twice, first_again, second_again),
    ensures
        first_again == 0,
        second_again == 0,
        twice == once,
{
    let mid = choose|mid: Seq<QuadModel>|
        {
            &&& #[trigger] merges_into(MergeRule::First, once, mid, first_again)
            &&& settled(MergeRule::First, mid)
            &&& merges_into(MergeRule::Second, mid, twice, second_again)
            &&& settled(MergeRule::Second, twice)
        };
    lemma_settled_is_fixed(MergeRule::First, once, mid, first_again);
    lemma_settled_is_fixed(MergeRule::Second, once, twice, second_again);
}

/// Whether `a` can take up `b` under `rule`.
pub fn can_merge(rule: MergeRule, a: &Quad, b: &Quad) -> (r: bool)
    ensures
        r == mergeable(rule, a@, b@),
{
    a.normal == b.normal && match rule {
        MergeRule::First => a.c0 == b.c1 && a.c3 == b.c2,
        MergeRule::Second => a.c3 == b.c0 && a.c2 == b.c1,
    }
}

/// The quad that covers `a` and `b`.
pub fn merge_pair(rule: MergeRule, a: &Quad, b: &Quad) -> (q: Quad)
    ensures
        q@ == merged(rule, a@, b@),
{
    match rule {
        MergeRule::First => Quad { c0: b.c0, c1: a.c1, c2: a.c2, c3: b.c3, normal: a.normal },
        MergeRule::Second => Quad { c0: a.c0, c1: a.c1, c2: b.c2, c3: b.c3, normal: a.normal },
    }
}

/// Looks at every ordered pair of quads once and merges each pair that fits
/// `rule` as it is met. Returns the number of merges. When it returns zero
/// the buffer is unchanged and holds no pair that fits.
pub fn merge_sweep(quads: &mut Vec<Quad>, rule: MergeRule) -> (found: usize)
    ensures
        merges_into(rule, quads_of(old(quads)@), quads_of(final(quads)@), found as nat),
        final(quads).len() + found == old(quads).len(),
        found == 0 ==> settled(rule, quads_of(final(quads)@)),
{
    let ghost start = quads_of(quads@);
    let mut found: usize = 0;
    let mut i: usize = 0;
    while i < quads.len()
        invariant
            i <= quads.len(),
            start.len() == old(quads).len(),
            merges_into(rule, start, quads_of(quads@), found as nat),
            quads.len() + found == start.len(),
            found == 0 ==> forall|p: int, q: int|
                0 <= p < i ==> !#[trigger] can_merge_at(rule, quads_of(quads@), p, q),
        decreases quads.len() - i,
    {
        let ghost left = quads.len() - i;
        let mut j: usize = 0;
        while j < quads.len()
            invariant
                i < quads.len(),
                quads.len() - i <= left,
                j <= quads.len(),
                start.len() == old(quads).len(),
                merges_into(rule, start, quads_of(quads@), found as nat),
                quads.len() + found == start.len(),
                found == 0 ==> forall|p: int, q: int|
                    0 <= p < i ==> !#[trigger] can_merge_at(rule, quads_of(quads@), p, q),
                found == 0 ==> forall|q: int|
                    0 <= q < j ==> !#[trigger] can_merge_at(rule, quads_of(quads@), i as int, q),
            decreases quads.len() - j,
        {
            if j != i && can_merge(rule, &quads[i], &quads[j]) {
                let ghost before = quads@;
                let m = merge_pair(rule, &quads[i], &quads[j]);
                quads.set(i, m);
                quads.remove(j);
                proof {
                    assert(can_merge_at(rule, quads_of(before), i as int, j as int));
                    assert(quads_of(quads@) =~= merge_at(
                        rule,
                        quads_of(before),
                        i as int,
                        j as int,
                    ));
                    lemma_merges_then_step(
                        rule,
                        start,
                        quads_of(before),
                        found as nat,
                        i as int,
                        j as int,
                    );
                }
                if j < i {
                    i -= 1;
                }
                found += 1;
            } else {
                j += 1;
            }
        }
        i += 1;
    }
    found
}

/// Applies `rule` until no two quads of the buffer fit it. Returns the number
/// of merges, each of which took one quad out of the buffer.
pub fn merge_pass(quads: &mut Vec<Quad>, rule: MergeRule) -> (merges: usize)
    ensures
        merges_into(rule, quads_of(old(quads)@), quads_of(final(quads)@), merges as nat),
        settled(rule, quads_of(final(quads)@)),
        final(quads).len() + merges == old(quads).len(),
{
    let ghost start = quads_of(quads@);
    let mut merges: usize = 0;
    loop
        invariant
            start == quads_of(old(quads)@),
            merges_into(rule, start, quads_of(quads@), merges as nat),
            quads.len() + merges == old(quads).len(),
        ensures
            merges_into(rule, start, quads_of(quads@), merges as nat),
            settled(rule, quads_of(quads@)),
            quads.len() + merges == old(quads).len(),
        decreases quads.len(),
    {
        let ghost before = quads_of(quads@);
        let found = merge_sweep(quads, rule);
        proof {
            lemma_merges_chain(rule, start, before, quads_of(quads@), merges as nat, found as nat);
        }
        if found == 0 {
            break ;
        }
        merges += found;
    }
    merges
}

/// Merges the quads of the buffer: the first rule until no pair fits it, then
/// the second. Returns the number of merges of each pass.
pub fn merge_faces(quads: &mut Vec<Quad>) -> (merges: (usize, usize))
    ensures
        merged_from(
            quads_of(old(quads)@),
            quads_of(final(quads)@),
            merges.0 as nat,
            merges.1 as nat,
        ),
        final(quads).len() + merges.0 + merges.1 == old(quads).len(),
{
    let first = merge_pass(quads, MergeRule::First);
    let ghost mid = quads_of(quads@);
    let second = merge_pass(quads, MergeRule::Second);
    assert(merges_into(MergeRule::First, quads_of(old(quads)@), mid, first as nat));
    (first, second)
}

} // verus!
