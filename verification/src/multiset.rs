use vstd::prelude::*;

verus! {

use crate::model::{
    any_lesser, chosen_seq, count_non_zeros, count_zeros, disjoint_seqs, inter_seq, is_chosen_at,
    seq_sum, subset_of, svals, union_seq, wrapped_prefix_sum,
};
use vstd::arithmetic::div_mod::{lemma_add_mod_noop, lemma_small_mod};
use crate::storage::MultisetStorage;

broadcast use vstd::array::group_array_axioms;

/// A multiset over a domain of `N` elements, fixed at compile time: slot `i`
/// holds the count of domain element `i`, as a counter of width `T`.
#[derive(Debug, Copy, Clone)]
pub struct Bag<T, const N: usize> {
    data: [T; N],
}

impl<T: MultisetStorage, const N: usize> View for Bag<T, N> {
    type V = Seq<int>;

    closed spec fn view(&self) -> Seq<int> {
        svals(self.data@)
    }
}

impl<T: MultisetStorage, const N: usize> Bag<T, N> {
    /// A multiset with every count set to `elem`.
    pub fn repeat(elem: T) -> (r: Self)
        ensures
            r@.len() == N,
            forall|i: int| 0 <= i < N ==> r@[i] == elem.sval(),
    {
        Bag { data: vstd::array::array_fill_for_copy_types::<T, N>(elem) }
    }

    /// A multiset with every count zero.
    pub fn empty() -> (r: Self)
        ensures
            r@.len() == N,
            forall|i: int| 0 <= i < N ==> r@[i] == 0,
    {
        Self::repeat(T::zero())
    }

    /// A multiset whose counts are copied from a slice of exactly `N`
    /// scalars.
    pub fn from_slice(slice: &[T]) -> (r: Self)
        requires
            slice@.len() == N,
        ensures
            r@ == svals(slice@),
    {
        let mut data: [T; N] = vstd::array::array_fill_for_copy_types::<T, N>(T::zero());
        for i in 0..N
            invariant
                slice@.len() == N,
                forall|j: int| 0 <= j < i ==> data@[j] == slice@[j],
        {
            data[i] = *vstd::slice::slice_index_get(slice, i);
        }
        let r = Bag { data };
        proof {
            assert(r@ =~= svals(slice@));
        }
        r
    }

    /// A multiset fed from the first `N` items of a vector: a shortfall is
    /// padded with zeros, items beyond `N` are ignored.
    pub fn from_iter(items: Vec<T>) -> (r: Self)
        ensures
            r@.len() == N,
            forall|i: int|
                0 <= i < N ==> r@[i] == (if i < items@.len() {
                    items@[i].sval()
                } else {
                    0
                }),
    {
        let mut data: [T; N] = vstd::array::array_fill_for_copy_types::<T, N>(T::zero());
        for i in 0..N
            invariant
                forall|j: int| i <= j < N ==> data@[j].sval() == 0,
                forall|j: int|
                    0 <= j < i ==> data@[j].sval() == (if j < items@.len() {
                        items@[j].sval()
                    } else {
                        0
                    }),
        {
            if i < items.len() {
                data[i] = items[i];
            }
        }
        Bag { data }
    }

    /// The domain size `N`.
    pub fn len() -> (r: usize)
        ensures
            r == N,
    {
        N
    }

    /// The count of element `elem`, or nothing when `elem` is outside the
    /// domain; never fails.
    pub fn get(self, elem: usize) -> (r: Option<T>)
        ensures
            elem < N ==> (r matches Some(v) && v.sval() == self@[elem as int]),
            elem >= N ==> r is None,
    {
        if elem < N {
            Some(self.data[elem])
        } else {
            None
        }
    }

    /// The count of element `elem`; the caller must show the index in range.
    pub fn get_unchecked(self, elem: usize) -> (r: T)
        requires
            elem < N,
        ensures
            r.sval() == self@[elem as int],
    {
        self.data[elem]
    }

    /// Sets every count to zero in place.
    pub fn clear(&mut self)
        ensures
            final(self)@.len() == N,
            forall|i: int| 0 <= i < N ==> final(self)@[i] == 0,
    {
        for i in 0..N
            invariant
                forall|j: int| 0 <= j < i ==> self.data@[j].sval() == 0,
        {
            self.data[i] = T::zero();
        }
    }

    /// Whether element `elem` has at least one member; false outside the
    /// domain.
    pub fn contains(self, elem: usize) -> (r: bool)
        ensures
            r == (elem < N && self@[elem as int] > 0),
    {
        elem < N && T::zero().lt(self.data[elem])
    }

    /// Whether element `elem` has at least one member; the caller must show
    /// the index in range.
    pub fn contains_unchecked(self, elem: usize) -> (r: bool)
        requires
            elem < N,
        ensures
            r == (self@[elem as int] > 0),
    {
        T::zero().lt(self.data[elem])
    }

    /// Sets the count of element `elem` to `amount`; outside the domain this
    /// is a no-op.
    pub fn insert(&mut self, elem: usize, amount: T)
        ensures
            elem < N ==> final(self)@ == old(self)@.update(elem as int, amount.sval()),
            elem >= N ==> final(self)@ == old(self)@,
    {
        if elem < N {
            self.data[elem] = amount;
            proof {
                assert(self@ =~= old(self)@.update(elem as int, amount.sval()));
            }
        }
    }

    /// Sets the count of element `elem` to `amount`; the caller must show the
    /// index in range.
    pub fn insert_unchecked(&mut self, elem: usize, amount: T)
        requires
            elem < N,
        ensures
            final(self)@ == old(self)@.update(elem as int, amount.sval()),
    {
        self.data[elem] = amount;
        proof {
            assert(self@ =~= old(self)@.update(elem as int, amount.sval()));
        }
    }

    /// Sets the count of element `elem` to zero; outside the domain this is a
    /// no-op.
    pub fn remove(&mut self, elem: usize)
        ensures
            elem < N ==> final(self)@ == old(self)@.update(elem as int, 0),
            elem >= N ==> final(self)@ == old(self)@,
    {
        if elem < N {
            self.data[elem] = T::zero();
            proof {
                assert(self@ =~= old(self)@.update(elem as int, 0));
            }
        }
    }

    /// Sets the count of element `elem` to zero; the caller must show the
    /// index in range.
    pub fn remove_unchecked(&mut self, elem: usize)
        requires
            elem < N,
        ensures
            final(self)@ == old(self)@.update(elem as int, 0),
    {
        self.data[elem] = T::zero();
        proof {
            assert(self@ =~= old(self)@.update(elem as int, 0));
        }
    }

    /// The multiset whose counts are the pointwise minimum of the two.
    pub fn intersection(&self, other: &Self) -> (r: Self)
        ensures
            r@ == inter_seq(self@, other@),
    {
        let mut data: [T; N] = vstd::array::array_fill_for_copy_types::<T, N>(T::zero());
        for i in 0..N
            invariant
                forall|j: int|
                    0 <= j < i ==> data@[j].sval() == vstd::math::min(self@[j], other@[j]),
        {
            data[i] = self.data[i].min(other.data[i]);
        }
        let r = Bag { data };
        proof {
            assert(r@ =~= inter_seq(self@, other@));
        }
        r
    }

    /// The multiset whose counts are the pointwise maximum of the two.
    pub fn union(&self, other: &Self) -> (r: Self)
        ensures
            r@ == union_seq(self@, other@),
    {
        let mut data: [T; N] = vstd::array::array_fill_for_copy_types::<T, N>(T::zero());
        for i in 0..N
            invariant
                forall|j: int|
                    0 <= j < i ==> data@[j].sval() == vstd::math::max(self@[j], other@[j]),
        {
            data[i] = self.data[i].max(other.data[i]);
        }
        let r = Bag { data };
        proof {
            assert(r@ =~= union_seq(self@, other@));
        }
        r
    }

    /// Whether every count of `self` is at most the matching count of
    /// `other`.
    pub fn is_subset(&self, other: &Self) -> (r: bool)
        ensures
            r == subset_of(self@, other@),
    {
        for i in 0..N
            invariant
                forall|j: int| 0 <= j < i ==> self@[j] <= other@[j],
        {
            if !self.data[i].le(other.data[i]) {
                assert(!(self@[i as int] <= other@[i as int]));
                return false;
            }
        }
        true
    }

    /// Whether every count of `self` is at least the matching count of
    /// `other`.
    pub fn is_superset(&self, other: &Self) -> (r: bool)
        ensures
            r == subset_of(other@, self@),
    {
        other.is_subset(self)
    }

    /// Whether some count of `self` is strictly below the matching count of
    /// `other`.
    pub fn is_any_lesser(&self, other: &Self) -> (r: bool)
        ensures
            r == any_lesser(self@, other@),
    {
        for i in 0..N
            invariant
                forall|j: int| 0 <= j < i ==> !(self@[j] < other@[j]),
        {
            if self.data[i].lt(other.data[i]) {
                assert(self@[i as int] < other@[i as int]);
                return true;
            }
        }
        false
    }

    /// Whether some count of `self` is strictly above the matching count of
    /// `other`.
    pub fn is_any_greater(&self, other: &Self) -> (r: bool)
        ensures
            r == any_lesser(other@, self@),
    {
        other.is_any_lesser(self)
    }

    /// Whether `self` is a subset of `other` and the two differ somewhere.
    pub fn is_proper_subset(&self, other: &Self) -> (r: bool)
        ensures
            r == (subset_of(self@, other@) && any_lesser(self@, other@)),
    {
        self.is_subset(other) && self.is_any_lesser(other)
    }

    /// Whether `self` is a superset of `other` and the two differ somewhere.
    pub fn is_proper_superset(&self, other: &Self) -> (r: bool)
        ensures
            r == (subset_of(other@, self@) && any_lesser(other@, self@)),
    {
        self.is_superset(other) && self.is_any_greater(other)
    }

    /// Whether no element occurs in both multisets.
    pub fn is_disjoint(&self, other: &Self) -> (r: bool)
        ensures
            r == disjoint_seqs(self@, other@),
    {
        for i in 0..N
            invariant
                forall|j: int| 0 <= j < i ==> (self@[j] == 0 || other@[j] == 0),
        {
            proof {
                self.data@[i as int].lemma_props();
                other.data@[i as int].lemma_props();
            }
            if T::zero().lt(self.data[i].min(other.data[i])) {
                assert(self@[i as int] != 0 && other@[i as int] != 0);
                return false;
            }
        }
        true
    }

    /// The sum of all counts, wrapped at the counter width; summing past the
    /// width is an accepted, caller-visible risk.
    pub fn total(&self) -> (r: T)
        ensures
            r.sval() == seq_sum(self@) % (T::width_max() + 1),
    {
        proof {
            T::lemma_width();
            lemma_small_mod(0nat, (T::width_max() + 1) as nat);
            assert(self@.take(0).len() == 0);
        }
        let mut acc = T::zero();
        for i in 0..N
            invariant
                acc.sval() == seq_sum(self@.take(i as int)) % (T::width_max() + 1),
        {
            acc = acc.wrapping_add(self.data[i]);
            proof {
                let m = T::width_max() + 1;
                let s = self@;
                T::lemma_width();
                self.data@[i as int].lemma_props();
                assert(s.take(i as int + 1).drop_last() =~= s.take(i as int));
                assert(s.take(i as int + 1).last() == s[i as int]);
                lemma_add_mod_noop(seq_sum(s.take(i as int)), s[i as int], m);
                lemma_small_mod(s[i as int] as nat, m as nat);
            }
        }
        proof {
            assert(self@.take(N as int) =~= self@);
        }
        acc
    }

    /// How many elements have a count of zero.
    pub fn count_zero(&self) -> (r: T)
        requires
            N as int <= T::width_max(),
        ensures
            r.sval() == count_zeros(self@),
    {
        let mut c: usize = 0;
        for i in 0..N
            invariant
                c <= i,
                c as int == count_zeros(self@.take(i as int)),
        {
            if self.data[i].eq_val(T::zero()) {
                c = c + 1;
            }
            proof {
                assert(self@.take(i as int + 1).drop_last() =~= self@.take(i as int));
                assert(self@.take(i as int + 1).last() == self@[i as int]);
            }
        }
        proof {
            assert(self@.take(N as int) =~= self@);
        }
        T::from_u64(c as u64)
    }

    /// How many elements have a non-zero count.
    pub fn count_non_zero(&self) -> (r: T)
        requires
            N as int <= T::width_max(),
        ensures
            r.sval() == count_non_zeros(self@),
    {
        let mut c: usize = 0;
        for i in 0..N
            invariant
                c <= i,
                c as int == count_non_zeros(self@.take(i as int)),
        {
            if !self.data[i].eq_val(T::zero()) {
                c = c + 1;
            }
            proof {
                assert(self@.take(i as int + 1).drop_last() =~= self@.take(i as int));
                assert(self@.take(i as int + 1).last() == self@[i as int]);
            }
        }
        proof {
            assert(self@.take(N as int) =~= self@);
        }
        T::from_u64(c as u64)
    }

    /// Whether every count is zero.
    pub fn is_empty(&self) -> (r: bool)
        ensures
            r == (forall|i: int| 0 <= i < N ==> self@[i] == 0),
    {
        for i in 0..N
            invariant
                forall|j: int| 0 <= j < i ==> self@[j] == 0,
        {
            if !self.data[i].eq_val(T::zero()) {
                assert(self@[i as int] != 0);
                return false;
            }
        }
        true
    }

    /// Whether exactly one element has a non-zero count.
    pub fn is_singleton(&self) -> (r: bool)
        requires
            N as int <= T::width_max(),
        ensures
            r == (count_non_zeros(self@) == 1),
    {
        proof {
            T::lemma_width();
        }
        let one = T::from_u64(1);
        self.count_non_zero().eq_val(one)
    }

    /// The first element with the largest count, and that count.
    pub fn argmax(&self) -> (r: (usize, T))
        requires
            N >= 1,
        ensures
            r.0 < N,
            r.1.sval() == self@[r.0 as int],
            forall|i: int| 0 <= i < N ==> self@[i] <= r.1.sval(),
            forall|i: int| 0 <= i < r.0 as int ==> self@[i] < r.1.sval(),
    {
        let mut best = self.data[0];
        let mut best_i: usize = 0;
        for i in 1..N
            invariant
                best_i < i <= N,
                best.sval() == self@[best_i as int],
                forall|j: int| 0 <= j < i ==> self@[j] <= best.sval(),
                forall|j: int| 0 <= j < best_i as int ==> self@[j] < best.sval(),
        {
            if best.lt(self.data[i]) {
                best = self.data[i];
                best_i = i;
            }
        }
        (best_i, best)
    }

    /// The first element with the largest count.
    pub fn imax(&self) -> (r: usize)
        requires
            N >= 1,
        ensures
            r < N,
            forall|i: int| 0 <= i < N ==> self@[i] <= self@[r as int],
            forall|i: int| 0 <= i < r as int ==> self@[i] < self@[r as int],
    {
        self.argmax().0
    }

    /// The largest count.
    pub fn max(&self) -> (r: T)
        requires
            N >= 1,
        ensures
            exists|i: int| 0 <= i < N && r.sval() == self@[i],
            forall|i: int| 0 <= i < N ==> self@[i] <= r.sval(),
    {
        let r = self.argmax();
        assert(r.1.sval() == self@[r.0 as int]);
        r.1
    }

    /// The first element with the smallest count, and that count.
    pub fn argmin(&self) -> (r: (usize, T))
        requires
            N >= 1,
        ensures
            r.0 < N,
            r.1.sval() == self@[r.0 as int],
            forall|i: int| 0 <= i < N ==> self@[i] >= r.1.sval(),
            forall|i: int| 0 <= i < r.0 as int ==> self@[i] > r.1.sval(),
    {
        let mut best = self.data[0];
        let mut best_i: usize = 0;
        for i in 1..N
            invariant
                best_i < i <= N,
                best.sval() == self@[best_i as int],
                forall|j: int| 0 <= j < i ==> self@[j] >= best.sval(),
                forall|j: int| 0 <= j < best_i as int ==> self@[j] > best.sval(),
        {
            if self.data[i].lt(best) {
                best = self.data[i];
                best_i = i;
            }
        }
        (best_i, best)
    }

    /// The first element with the smallest count.
    pub fn imin(&self) -> (r: usize)
        requires
            N >= 1,
        ensures
            r < N,
            forall|i: int| 0 <= i < N ==> self@[i] >= self@[r as int],
            forall|i: int| 0 <= i < r as int ==> self@[i] > self@[r as int],
    {
        self.argmin().0
    }

    /// Adds, counter by counter, the counts of `other` onto `self`, wrapping
    /// at the counter width; overshooting the width is an accepted,
    /// caller-visible risk.
    pub fn add_assign(&mut self, other: Self)
        ensures
            final(self)@.len() == N,
            forall|i: int|
                0 <= i < N ==> final(self)@[i] == (old(self)@[i] + other@[i]) % (T::width_max()
                    + 1),
    {
        for i in 0..N
            invariant
                forall|j: int|
                    0 <= j < i ==> self.data@[j].sval() == (old(self)@[j] + other@[j]) % (
                    T::width_max() + 1),
                forall|j: int| i <= j < N ==> self.data@[j] == old(self).data@[j],
        {
            self.data[i] = self.data[i].wrapping_add(other.data[i]);
        }
    }

    /// Subtracts, counter by counter, the counts of `other` from `self`,
    /// wrapping at the counter width; undershooting zero is an accepted,
    /// caller-visible risk.
    pub fn sub_assign(&mut self, other: Self)
        ensures
            final(self)@.len() == N,
            forall|i: int|
                0 <= i < N ==> final(self)@[i] == (old(self)@[i] - other@[i]) % (T::width_max()
                    + 1),
    {
        for i in 0..N
            invariant
                forall|j: int|
                    0 <= j < i ==> self.data@[j].sval() == (old(self)@[j] - other@[j]) % (
                    T::width_max() + 1),
                forall|j: int| i <= j < N ==> self.data@[j] == old(self).data@[j],
        {
            self.data[i] = self.data[i].wrapping_sub(other.data[i]);
        }
    }

    /// Multiplies, counter by counter, the counts of `self` by those of
    /// `other`, wrapping at the counter width; overshooting the width is an
    /// accepted, caller-visible risk.
    pub fn mul_assign(&mut self, other: Self)
        ensures
            final(self)@.len() == N,
            forall|i: int|
                0 <= i < N ==> final(self)@[i] == (old(self)@[i] * other@[i]) % (T::width_max()
                    + 1),
    {
        for i in 0..N
            invariant
                forall|j: int|
                    0 <= j < i ==> self.data@[j].sval() == (old(self)@[j] * other@[j]) % (
                    T::width_max() + 1),
                forall|j: int| i <= j < N ==> self.data@[j] == old(self).data@[j],
        {
            self.data[i] = self.data[i].wrapping_mul(other.data[i]);
        }
    }

    /// Divides, counter by counter, the counts of `self` by those of `other`;
    /// every divisor must be non-zero, uniformly a caller obligation.
    pub fn div_assign(&mut self, other: Self)
        requires
            forall|i: int| 0 <= i < N ==> other@[i] != 0,
        ensures
            final(self)@.len() == N,
            forall|i: int| 0 <= i < N ==> final(self)@[i] == old(self)@[i] / other@[i],
    {
        for i in 0..N
            invariant
                forall|j: int| 0 <= j < N ==> other@[j] != 0,
                forall|j: int| 0 <= j < i ==> self.data@[j].sval() == old(self)@[j] / other@[j],
                forall|j: int| i <= j < N ==> self.data@[j] == old(self).data@[j],
        {
            assert(other@[i as int] != 0);
            assert(other.data@[i as int].sval() == other@[i as int]);
            self.data[i] = self.data[i].divide(other.data[i]);
        }
    }

    /// Zeroes every count except that of element `elem`, in place.
    pub fn choose_elem(&mut self, elem: usize)
        ensures
            final(self)@.len() == N,
            forall|i: int| 0 <= i < N && i != elem as int ==> final(self)@[i] == 0,
            elem < N ==> final(self)@[elem as int] == old(self)@[elem as int],
    {
        for i in 0..N
            invariant
                forall|j: int| 0 <= j < i && j != elem as int ==> self.data@[j].sval() == 0,
                forall|j: int| i <= j < N ==> self.data@[j] == old(self).data@[j],
                elem < N ==> self.data@[elem as int] == old(self).data@[elem as int],
        {
            if i != elem {
                self.data[i] = T::zero();
            }
        }
    }

    /// Scans the counts left to right, accumulating a running sum that wraps
    /// at the counter width: the first element whose inclusive running sum
    /// reaches the threshold `t` keeps its count while every other count is
    /// set to zero; when no running sum reaches `t`, every count is set to
    /// zero.
    pub fn choose_with_threshold(&mut self, t: T)
        ensures
            final(self)@.len() == N,
            forall|k: int|
                #[trigger] is_chosen_at(old(self)@, t.sval(), T::width_max() + 1, k)
                    ==> final(self)@ == chosen_seq(old(self)@, k),
            !(exists|k: int|
                #[trigger] is_chosen_at(old(self)@, t.sval(), T::width_max() + 1, k)) ==> (
            forall|i: int| 0 <= i < N ==> final(self)@[i] == 0),
            N >= 1 && t.sval() <= wrapped_prefix_sum(old(self)@, N as int, T::width_max() + 1)
                ==> exists|k: int|
                #[trigger] is_chosen_at(old(self)@, t.sval(), T::width_max() + 1, k),
    {
        let ghost s = old(self)@;
        let ghost m = T::width_max() + 1;
        proof {
            T::lemma_width();
        }
        let mut acc = T::zero();
        let mut chosen = false;
        let ghost mut kg: int = 0;
        for i in 0..N
            invariant
                s == old(self)@,
                s.len() == N,
                m == T::width_max() + 1,
                forall|j: int| i <= j < N ==> self.data@[j] == old(self).data@[j],
                !chosen ==> acc.sval() == wrapped_prefix_sum(s, i as int, m),
                !chosen ==> forall|j: int|
                    0 <= j < i ==> #[trigger] wrapped_prefix_sum(s, j + 1, m) < t.sval(),
                !chosen ==> forall|j: int| 0 <= j < i ==> self.data@[j].sval() == 0,
                chosen ==> is_chosen_at(s, t.sval(), m, kg),
                chosen ==> kg < i,
                chosen ==> forall|j: int|
                    0 <= j < i ==> self.data@[j].sval() == chosen_seq(s, kg)[j],
        {
            if chosen {
                self.data[i] = T::zero();
                proof {
                    assert(chosen_seq(s, kg)[i as int] == 0);
                    assert(self.data@[i as int].sval() == 0);
                }
            } else {
                proof {
                    assert(self.data@[i as int] == old(self).data@[i as int]);
                    assert(s[i as int] == old(self).data@[i as int].sval());
                }
                acc = acc.wrapping_add(self.data[i]);
                proof {
                    assert(acc.sval() == (wrapped_prefix_sum(s, i as int, m) + s[i as int]) % m);
                    assert(acc.sval() == wrapped_prefix_sum(s, i as int + 1, m));
                }
                if acc.lt(t) {
                    self.data[i] = T::zero();
                } else {
                    proof {
                        kg = i as int;
                        assert(is_chosen_at(s, t.sval(), m, kg));
                        assert(self.data@[kg].sval() == chosen_seq(s, kg)[kg]);
                    }
                    chosen = true;
                }
            }
        }
        proof {
            if chosen {
                assert(self@ =~= chosen_seq(s, kg));
                assert forall|k: int| is_chosen_at(s, t.sval(), m, k) implies self@ == chosen_seq(
                    s,
                    k,
                ) by {
                    if k < kg {
                        assert(wrapped_prefix_sum(s, k + 1, m) < t.sval());
                        assert(false);
                    }
                    if k > kg {
                        assert(wrapped_prefix_sum(s, kg + 1, m) < t.sval());
                        assert(false);
                    }
                }
                assert(is_chosen_at(s, t.sval(), m, kg));
            } else {
                if N >= 1 {
                    assert(wrapped_prefix_sum(s, (N - 1) as int + 1, m) < t.sval());
                }
                assert forall|k: int| !is_chosen_at(s, t.sval(), m, k) by {
                    if 0 <= k < N {
                        assert(wrapped_prefix_sum(s, k + 1, m) < t.sval());
                    }
                }
            }
        }
    }

    /// Every stored count lies within its counter width.
    pub proof fn lemma_counts_in_width(&self)
        ensures
            self@.len() == N,
            T::width_max() >= 1,
            forall|i: int| 0 <= i < N ==> 0 <= #[trigger] self@[i] <= T::width_max(),
    {
        T::lemma_width();
        assert forall|i: int| 0 <= i < N implies 0 <= #[trigger] self@[i] <= T::width_max() by {
            self.data@[i].lemma_props();
        }
    }

    /// The smallest count.
    pub fn min(&self) -> (r: T)
        requires
            N >= 1,
        ensures
            exists|i: int| 0 <= i < N && r.sval() == self@[i],
            forall|i: int| 0 <= i < N ==> self@[i] >= r.sval(),
    {
        let r = self.argmin();
        assert(r.1.sval() == self@[r.0 as int]);
        r.1
    }
}

impl<T: MultisetStorage, const N: usize> PartialEq for Bag<T, N> {
    fn eq(&self, other: &Self) -> (r: bool) {
        for i in 0..N
            invariant
                forall|j: int| 0 <= j < i ==> self@[j] == other@[j],
        {
            if !self.data[i].eq_val(other.data[i]) {
                assert(self@[i as int] != other@[i as int]);
                return false;
            }
        }
        proof {
            assert(self@ =~= other@);
        }
        true
    }
}

impl<T: MultisetStorage, const N: usize> vstd::std_specs::cmp::PartialEqSpecImpl for Bag<T, N> {
    open spec fn obeys_eq_spec() -> bool {
        true
    }

    open spec fn eq_spec(&self, other: &Self) -> bool {
        self@ == other@
    }
}

impl<T: MultisetStorage, const N: usize> PartialOrd for Bag<T, N> {
    fn partial_cmp(&self, other: &Self) -> (r: Option<core::cmp::Ordering>) {
        let le = self.is_subset(other);
        let ge = other.is_subset(self);
        proof {
            if le && ge {
                assert(self@ =~= other@);
            }
        }
        if le && ge {
            Some(core::cmp::Ordering::Equal)
        } else if le {
            Some(core::cmp::Ordering::Less)
        } else if ge {
            Some(core::cmp::Ordering::Greater)
        } else {
            None
        }
    }
}

impl<T: MultisetStorage, const N: usize> vstd::std_specs::cmp::PartialOrdSpecImpl for Bag<T, N> {
    open spec fn obeys_partial_cmp_spec() -> bool {
        true
    }

    open spec fn partial_cmp_spec(&self, other: &Self) -> Option<core::cmp::Ordering> {
        if subset_of(self@, other@) && subset_of(other@, self@) {
            Some(core::cmp::Ordering::Equal)
        } else if subset_of(self@, other@) {
            Some(core::cmp::Ordering::Less)
        } else if subset_of(other@, self@) {
            Some(core::cmp::Ordering::Greater)
        } else {
            None
        }
    }
}

/// A cursor over the counts of a multiset, yielding them in index order and
/// ending after exactly `N` of them.
pub struct MultisetIterator<T, const N: usize> {
    multiset: Bag<T, N>,
    index: usize,
}

impl<T: MultisetStorage, const N: usize> MultisetIterator<T, N> {
    /// The counts being walked.
    pub closed spec fn src(self) -> Seq<int> {
        self.multiset@
    }

    /// How many counts were already yielded.
    pub closed spec fn pos(self) -> int {
        self.index as int
    }

    /// The next count, or nothing once all `N` have been yielded; the source
    /// multiset is never modified.
    pub fn next(&mut self) -> (r: Option<T>)
        ensures
            final(self).src() == old(self).src(),
            old(self).pos() < N ==> (final(self).pos() == old(self).pos() + 1 && (r matches Some(v)
                && v.sval() == old(self).src()[old(self).pos()])),
            old(self).pos() >= N ==> (r is None && final(self).pos() == old(self).pos()),
    {
        if self.index >= N {
            None
        } else {
            let v = self.multiset.get_unchecked(self.index);
            self.index = self.index + 1;
            Some(v)
        }
    }

    /// How many counts a fresh cursor yields in all: always `N`.
    pub fn len(&self) -> (r: usize)
        ensures
            r == N,
    {
        N
    }
}

impl<T: MultisetStorage, const N: usize> Bag<T, N> {
    /// A cursor over this multiset's counts, positioned at the first element.
    pub fn into_iter(self) -> (r: MultisetIterator<T, N>)
        ensures
            r.src() == self@,
            r.pos() == 0,
    {
        MultisetIterator { multiset: self, index: 0 }
    }
}

/// A multiset of 8-bit counters.
pub type MSu8<const N: usize> = Bag<u8, N>;

/// A multiset of 16-bit counters.
pub type MSu16<const N: usize> = Bag<u16, N>;

/// A multiset of 32-bit counters.
pub type MSu32<const N: usize> = Bag<u32, N>;

/// A multiset of 64-bit counters.
pub type MSu64<const N: usize> = Bag<u64, N>;

} // verus!

