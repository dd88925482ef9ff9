//! Removing several elements of a vector at once, by their indices.
//!
//! The indices are put in ascending order and worked off from the largest to
//! the smallest, so that a removal moves no element that is still to be
//! removed. An index that stands twice is worked off twice.

use vstd::prelude::*;
use vstd::relations::{sorted_by, total_ordering};
use vstd::seq_lib::lemma_sorted_unique;

verus! {

/// The order of indices: smaller or equal.
pub open spec fn index_leq() -> spec_fn(usize, usize) -> bool {
    |a: usize, b: usize| a <= b
}

/// The indices of `idx` in ascending order.
pub open spec fn ascending(idx: Seq<usize>) -> Seq<usize> {
    idx.sort_by(index_leq())
}

/// Removing at the indices `idx`, from the last of them to the first, stays
/// within a sequence of `n` elements.
pub open spec fn removable(n: int, idx: Seq<usize>) -> bool
    decreases idx.len(),
{
    idx.len() == 0 || (idx.last() < n && removable(n - 1, idx.drop_last()))
}

/// What is left of `s` after removing at the indices `idx`, from the last of
/// them to the first. What stood behind a removed element moves up.
pub open spec fn removed<T>(s: Seq<T>, idx: Seq<usize>) -> Seq<T>
    decreases idx.len(),
{
    if idx.len() == 0 {
        s
    } else {
        removed(s.remove(idx.last() as int), idx.drop_last())
    }
}

/// The elements that leave `s` when removing at the indices `idx`, from the
/// last of them to the first: the element that left at `idx[k]` stands at `k`.
pub open spec fn taken<T>(s: Seq<T>, idx: Seq<usize>) -> Seq<T>
    decreases idx.len(),
{
    if idx.len() == 0 {
        Seq::empty()
    } else {
        taken(s.remove(idx.last() as int), idx.drop_last()).push(s[idx.last() as int])
    }
}

/// `s` after its element at `i` has been replaced by its last element and
/// the last place has been dropped.
pub open spec fn swap_remove_at<T>(s: Seq<T>, i: int) -> Seq<T> {
    s.update(i, s.last()).drop_last()
}

/// What is left of `s` after swap-removing at the indices `idx`, from the
/// last of them to the first.
pub open spec fn swap_removed<T>(s: Seq<T>, idx: Seq<usize>) -> Seq<T>
    decreases idx.len(),
{
    if idx.len() == 0 {
        s
    } else {
        swap_removed(swap_remove_at(s, idx.last() as int), idx.drop_last())
    }
}

/// The elements that leave `s` when swap-removing at the indices `idx`, from
/// the last of them to the first, in the order in which they leave.
pub open spec fn swap_taken<T>(s: Seq<T>, idx: Seq<usize>) -> Seq<T>
    decreases idx.len(),
{
    if idx.len() == 0 {
        Seq::empty()
    } else {
        seq![s[idx.last() as int]] + swap_taken(
            swap_remove_at(s, idx.last() as int),
            idx.drop_last(),
        )
    }
}

/// Index `j` of `idx` is worked off after index `i`: it holds a smaller
/// number, or the same number and stands earlier.
pub open spec fn comes_before(idx: Seq<usize>, j: int, i: int) -> bool {
    idx[j] < idx[i] || (idx[j] == idx[i] && j < i)
}

/// How many of the first `n` places of `idx` come before place `i`.
pub open spec fn count_before(idx: Seq<usize>, i: int, n: int) -> int
    decreases n,
{
    if n <= 0 {
        0
    } else {
        count_before(idx, i, n - 1) + if comes_before(idx, n - 1, i) {
            1int
        } else {
            0int
        }
    }
}

/// The place that `idx[i]` has when `idx` is put in ascending order and equal
/// numbers keep their order.
pub open spec fn place(idx: Seq<usize>, i: int) -> int {
    count_before(idx, i, idx.len() as int)
}

/// An index that comes before another has fewer indices before it.
proof fn lemma_count_before(idx: Seq<usize>, i: int, k: int, n: int)
    requires
        0 <= i < idx.len(),
        0 <= k < idx.len(),
        0 <= n <= idx.len(),
        comes_before(idx, i, k),
    ensures
        0 <= count_before(idx, i, n) <= count_before(idx, k, n),
        n > i ==> count_before(idx, i, n) < count_before(idx, k, n),
        count_before(idx, k, n) <= n,
        n > k ==> count_before(idx, k, n) < n,
    decreases n,
{
    if n > 0 {
        lemma_count_before(idx, i, k, n - 1);
    }
}

/// The places of the indices are the numbers below the length, each once.
pub proof fn lemma_place(idx: Seq<usize>, i: int, k: int)
    requires
        0 <= i < idx.len(),
        0 <= k < idx.len(),
    ensures
        0 <= place(idx, i) < idx.len(),
        i != k ==> place(idx, i) != place(idx, k),
{
    let n = idx.len() as int;
    if comes_before(idx, i, k) {
        lemma_count_before(idx, i, k, n);
    } else if comes_before(idx, k, i) {
        lemma_count_before(idx, k, i, n);
    } else {
        assert(i == k);
        lemma_count_only(idx, i, n);
    }
}

/// Fewer indices come before an index than there are indices.
proof fn lemma_count_only(idx: Seq<usize>, i: int, n: int)
    requires
        0 <= i < idx.len(),
        0 <= n <= idx.len(),
    ensures
        0 <= count_before(idx, i, n) <= n,
        n > i ==> count_before(idx, i, n) < n,
    decreases n,
{
    if n > 0 {
        lemma_count_only(idx, i, n - 1);
    }
}

/// Sorts indices in ascending order.
///
/// This is `sort` of the standard library's slices. Nothing of it is proved
/// here. What is taken from its documentation: the slice comes out in
/// ascending order and holds the elements that it held, each as often as
/// before.
#[verifier::external_body]
fn sort_indices(v: &mut Vec<usize>)
    ensures
        sorted_by(final(v)@, index_leq()),
        final(v)@.to_multiset() == old(v)@.to_multiset(),
{
    v.sort();
}

/// The indices of `v` in ascending order.
pub fn sorted_indices(v: Vec<usize>) -> (r: Vec<usize>)
    ensures
        r@ == ascending(v@),
{
    let mut r = v;
    sort_indices(&mut r);
    proof {
        assert(total_ordering(index_leq()));
        v@.lemma_sort_by_ensures(index_leq());
        lemma_sorted_unique(r@, ascending(v@), index_leq());
    }
    r
}

/// A collection from which several elements can be removed at once.
pub trait RemoveMultiple<T> {
    /// The elements of the collection, in their order.
    spec fn items(&self) -> Seq<T>;

    /// Remove multiple indices
    fn remove_multiple(&mut self, to_remove: Vec<usize>)
        requires
            removable(old(self).items().len() as int, ascending(to_remove@)),
        ensures
            final(self).items() == removed(old(self).items(), ascending(to_remove@)),
    ;

    /// Remove multiple indices with swap_remove, this is faster but reorders elements
    fn swap_remove_multiple(&mut self, to_remove: Vec<usize>)
        requires
            removable(old(self).items().len() as int, ascending(to_remove@)),
        ensures
            final(self).items() == swap_removed(old(self).items(), ascending(to_remove@)),
    ;

    /// Remove and return multiple indices
    fn take_multiple(&mut self, to_remove: Vec<usize>) -> (collected: Vec<T>)
        requires
            removable(old(self).items().len() as int, ascending(to_remove@)),
        ensures
            final(self).items() == removed(old(self).items(), ascending(to_remove@)),
            collected@ == taken(old(self).items(), ascending(to_remove@)),
    ;

    /// Remove and return multiple indices, preserving the order specified in the index list
    fn take_multiple_in_order(&mut self, to_remove: &[usize]) -> (collected: Vec<T>)
        requires
            removable(old(self).items().len() as int, ascending(to_remove@)),
        ensures
            final(self).items() == removed(old(self).items(), ascending(to_remove@)),
            collected@.len() == to_remove@.len(),
            forall|i: int|
                0 <= i < to_remove@.len() ==> #[trigger] collected@[i] == taken(
                    old(self).items(),
                    ascending(to_remove@),
                )[place(to_remove@, i)],
    ;

    /// Remove and return multiple indices with swap_remove, this is faster but reorders elements and the results are in reverse order
    fn swap_take_multiple(&mut self, to_remove: Vec<usize>) -> (collected: Vec<T>)
        requires
            removable(old(self).items().len() as int, ascending(to_remove@)),
        ensures
            final(self).items() == swap_removed(old(self).items(), ascending(to_remove@)),
            collected@ == swap_taken(old(self).items(), ascending(to_remove@)),
    ;
}

impl<T> RemoveMultiple<T> for Vec<T> {
    open spec fn items(&self) -> Seq<T> {
        self@
    }

    fn remove_multiple(&mut self, to_remove: Vec<usize>) {
        let sorted = sorted_indices(to_remove);
        let mut k: usize = sorted.len();
        assert(sorted@.take(k as int) =~= sorted@);
        while k > 0
            invariant
                k <= sorted.len(),
                removable(self@.len() as int, sorted@.take(k as int)),
                removed(self@, sorted@.take(k as int)) == removed(old(self)@, sorted@),
            decreases k,
        {
            let ghost idx = sorted@.take(k as int);
            assert(idx.last() == sorted@[k - 1]);
            assert(idx.drop_last() == sorted@.take(k - 1));
            k -= 1;
            self.remove(sorted[k]);
        }
    }

    fn swap_remove_multiple(&mut self, to_remove: Vec<usize>) {
        let sorted = sorted_indices(to_remove);
        let mut k: usize = sorted.len();
        assert(sorted@.take(k as int) =~= sorted@);
        while k > 0
            invariant
                k <= sorted.len(),
                removable(self@.len() as int, sorted@.take(k as int)),
                swap_removed(self@, sorted@.take(k as int)) == swap_removed(old(self)@, sorted@),
            decreases k,
        {
            let ghost idx = sorted@.take(k as int);
            assert(idx.last() == sorted@[k - 1]);
            assert(idx.drop_last() == sorted@.take(k - 1));
            k -= 1;
            self.swap_remove(sorted[k]);
        }
    }

    fn take_multiple(&mut self, to_remove: Vec<usize>) -> (collected: Vec<T>) {
        let sorted = sorted_indices(to_remove);
        let mut collected: Vec<T> = Vec::new();
        let mut k: usize = sorted.len();
        assert(sorted@.take(k as int) =~= sorted@);
        while k > 0
            invariant
                k <= sorted.len(),
                removable(self@.len() as int, sorted@.take(k as int)),
                removed(self@, sorted@.take(k as int)) == removed(old(self)@, sorted@),
                taken(self@, sorted@.take(k as int)) + collected@.reverse() == taken(
                    old(self)@,
                    sorted@,
                ),
            decreases k,
        {
            let ghost idx = sorted@.take(k as int);
            let ghost before = self@;
            let ghost held = collected@;
            assert(idx.last() == sorted@[k - 1]);
            assert(idx.drop_last() == sorted@.take(k - 1));
            k -= 1;
            let e = self.remove(sorted[k]);
            collected.push(e);
            assert(taken(before, idx) + held.reverse() =~= taken(self@, sorted@.take(k as int))
                + collected@.reverse());
        }
        assert(taken(self@, sorted@.take(0)) =~= Seq::<T>::empty());
        let ghost backwards = collected@;
        let collected = reversed(collected);
        assert(backwards.reverse() =~= taken(old(self)@, sorted@));
        collected
    }

    fn take_multiple_in_order(&mut self, to_remove: &[usize]) -> (collected: Vec<T>) {
        let n = to_remove.len();
        let mut all: Vec<usize> = Vec::with_capacity(n);
        let mut i: usize = 0;
        while i < n
            invariant
                n == to_remove@.len(),
                i <= n,
                all@ == to_remove@.take(i as int),
            decreases n - i,
        {
            all.push(to_remove[i]);
            assert(to_remove@.take(i + 1) =~= to_remove@.take(i as int).push(to_remove@[i as int]));
            i += 1;
        }
        assert(all@ =~= to_remove@);
        let ghost leaving = taken(old(self)@, ascending(to_remove@));
        let mut rest = reversed(self.take_multiple(all));
        proof {
            lemma_taken_len(old(self)@, ascending(to_remove@));
            to_remove@.lemma_sort_by_ensures(index_leq());
            to_remove@.to_multiset_ensures();
            ascending(to_remove@).to_multiset_ensures();
        }
        let mut slots: Vec<Option<T>> = Vec::with_capacity(n);
        while rest.len() > 0
            invariant
                leaving.len() == n,
                slots@.len() + rest@.len() == n,
                forall|q: int| 0 <= q < slots@.len() ==> slots@[q] == Some(leaving[q]),
                forall|q: int|
                    0 <= q < rest@.len() ==> rest@[q] == leaving[leaving.len() - 1 - q],
            decreases rest.len(),
        {
            match rest.pop() {
                Some(e) => slots.push(Some(e)),
                None => {},
            }
        }
        let mut collected: Vec<T> = Vec::with_capacity(n);
        let mut i: usize = 0;
        proof {
            assert forall|j: int| 0 <= j < n implies slot_holds(
                slots@,
                leaving,
                #[trigger] place(to_remove@, j),
            ) by {
                lemma_place(to_remove@, j, j);
            }
        }
        while i < n
            invariant
                n == to_remove@.len(),
                leaving.len() == n,
                slots@.len() == n,
                i <= n,
                collected@.len() == i,
                forall|j: int|
                    0 <= j < i ==> #[trigger] collected@[j] == leaving[place(to_remove@, j)],
                forall|j: int|
                    i <= j < n ==> slot_holds(slots@, leaving, #[trigger] place(to_remove@, j)),
            decreases n - i,
        {
            let p = place_of(to_remove, i);
            let ghost before = slots@;
            assert(slot_holds(before, leaving, place(to_remove@, i as int)));
            slots.push(None);
            let e = slots.swap_remove(p);
            assert(slots@ =~= before.update(p as int, None));
            proof {
                assert forall|j: int| i < j < n implies slot_holds(
                    slots@,
                    leaving,
                    #[trigger] place(to_remove@, j),
                ) by {
                    lemma_place(to_remove@, i as int, j);
                    assert(slot_holds(before, leaving, place(to_remove@, j)));
                }
            }
            match e {
                Some(x) => collected.push(x),
                None => {},
            }
            i += 1;
        }
        collected
    }

    fn swap_take_multiple(&mut self, to_remove: Vec<usize>) -> (collected: Vec<T>) {
        let sorted = sorted_indices(to_remove);
        let mut collected: Vec<T> = Vec::new();
        let mut k: usize = sorted.len();
        assert(sorted@.take(k as int) =~= sorted@);
        while k > 0
            invariant
                k <= sorted.len(),
                removable(self@.len() as int, sorted@.take(k as int)),
                swap_removed(self@, sorted@.take(k as int)) == swap_removed(old(self)@, sorted@),
                collected@ + swap_taken(self@, sorted@.take(k as int)) == swap_taken(
                    old(self)@,
                    sorted@,
                ),
            decreases k,
        {
            let ghost idx = sorted@.take(k as int);
            let ghost before = self@;
            let ghost held = collected@;
            assert(idx.last() == sorted@[k - 1]);
            assert(idx.drop_last() == sorted@.take(k - 1));
            k -= 1;
            let e = self.swap_remove(sorted[k]);
            collected.push(e);
            assert(held + swap_taken(before, idx) =~= collected@ + swap_taken(
                self@,
                sorted@.take(k as int),
            ));
        }
        assert(swap_taken(self@, sorted@.take(0)) =~= Seq::<T>::empty());
        collected
    }
}

/// Slot `p` still holds the element that left at place `p`.
pub open spec fn slot_holds<T>(slots: Seq<Option<T>>, leaving: Seq<T>, p: int) -> bool {
    0 <= p < slots.len() && p < leaving.len() && slots[p] == Some(leaving[p])
}

/// As many elements leave as there are indices.
pub proof fn lemma_taken_len<T>(s: Seq<T>, idx: Seq<usize>)
    ensures
        taken(s, idx).len() == idx.len(),
    decreases idx.len(),
{
    if idx.len() > 0 {
        lemma_taken_len(s.remove(idx.last() as int), idx.drop_last());
    }
}

/// The place of `idx[i]` in the ascending order of `idx`.
pub fn place_of(idx: &[usize], i: usize) -> (p: usize)
    requires
        i < idx@.len(),
    ensures
        p == place(idx@, i as int),
{
    let n = idx.len();
    let mut p: usize = 0;
    let mut j: usize = 0;
    while j < n
        invariant
            n == idx@.len(),
            i < n,
            j <= n,
            p == count_before(idx@, i as int, j as int),
            p <= j,
        decreases n - j,
    {
        if idx[j] < idx[i] || (idx[j] == idx[i] && j < i) {
            p += 1;
        }
        j += 1;
    }
    p
}

/// The elements of `v` from the last to the first.
pub fn reversed<T>(v: Vec<T>) -> (r: Vec<T>)
    ensures
        r@ == v@.reverse(),
{
    let mut v = v;
    let ghost all = v@;
    let mut r: Vec<T> = Vec::with_capacity(v.len());
    while v.len() > 0
        invariant
            v@.len() + r@.len() == all.len(),
            v@ == all.take(v@.len() as int),
            forall|i: int| 0 <= i < r@.len() ==> r@[i] == all[all.len() - 1 - i],
        decreases v.len(),
    {
        match v.pop() {
            Some(e) => r.push(e),
            None => {},
        }
    }
    assert(r@ =~= all.reverse());
    r
}

} // verus!
