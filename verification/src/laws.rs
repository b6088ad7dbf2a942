use vstd::prelude::*;

verus! {

use crate::model::{
    any_lesser, chosen_seq, count_non_zeros, count_zeros, inter_seq, is_chosen_at,
    lemma_counts_split, subset_of, svals, union_seq, wrapped_prefix_sum,
};
use crate::multiset::Bag;
use crate::storage::MultisetStorage;
use vstd::arithmetic::div_mod::{lemma_mod_bound, lemma_small_mod};

/// Intersection and union are commutative: combined in either order, two
/// multisets of equal shape give the same result.
pub proof fn lemma_set_ops_commute<T: MultisetStorage, const N: usize>(a: Bag<T, N>, b: Bag<T, N>)
    ensures
        inter_seq(a@, b@) == inter_seq(b@, a@),
        union_seq(a@, b@) == union_seq(b@, a@),
{
    a.lemma_counts_in_width();
    b.lemma_counts_in_width();
    assert(inter_seq(a@, b@) =~= inter_seq(b@, a@));
    assert(union_seq(a@, b@) =~= union_seq(b@, a@));
}

/// Intersection and union are idempotent: a multiset combined with itself is
/// itself.
pub proof fn lemma_set_ops_idempotent<T: MultisetStorage, const N: usize>(a: Bag<T, N>)
    ensures
        inter_seq(a@, a@) == a@,
        union_seq(a@, a@) == a@,
{
    a.lemma_counts_in_width();
    assert(inter_seq(a@, a@) =~= a@);
    assert(union_seq(a@, a@) =~= a@);
}

/// Every multiset is a subset and a superset of itself, and never a proper
/// subset of itself.
pub proof fn lemma_subset_reflexive<T: MultisetStorage, const N: usize>(a: Bag<T, N>)
    ensures
        subset_of(a@, a@),
        !(subset_of(a@, a@) && any_lesser(a@, a@)),
{
    assert(!any_lesser(a@, a@));
}

/// Mutual inclusion is equality: two multisets that are subsets of each other
/// are equal.
pub proof fn lemma_subset_antisymmetric<T: MultisetStorage, const N: usize>(
    a: Bag<T, N>,
    b: Bag<T, N>,
)
    requires
        subset_of(a@, b@),
        subset_of(b@, a@),
    ensures
        a@ == b@,
{
    a.lemma_counts_in_width();
    b.lemma_counts_in_width();
    assert(a@ =~= b@);
}

/// The zero and non-zero element counts always split the whole domain:
/// together they are `N`.
pub proof fn lemma_zero_counts_complement<T: MultisetStorage, const N: usize>(a: Bag<T, N>)
    ensures
        count_zeros(a@) + count_non_zeros(a@) == N,
{
    a.lemma_counts_in_width();
    lemma_counts_split(a@);
}

/// Round trip through construction: a multiset built from a slice reads back
/// each of the slice's values at its own index.
pub proof fn lemma_from_slice_round_trip<T: MultisetStorage>(s: Seq<T>, i: int)
    requires
        0 <= i < s.len(),
    ensures
        svals(s)[i] == s[i].sval(),
{
}

/// A sequence of all zeros has no non-zero entries.
proof fn lemma_all_zero_counts(q: Seq<int>)
    requires
        forall|i: int| 0 <= i < q.len() ==> q[i] == 0,
    ensures
        count_non_zeros(q) == 0,
        count_zeros(q) == q.len(),
    decreases q.len(),
{
    if q.len() > 0 {
        lemma_all_zero_counts(q.drop_last());
    }
}

/// A sequence that is zero everywhere but at one index has exactly one
/// non-zero entry when the count there is non-zero, and none otherwise.
proof fn lemma_one_hot_counts(q: Seq<int>, k: int)
    requires
        0 <= k < q.len(),
        forall|i: int| 0 <= i < q.len() && i != k ==> q[i] == 0,
    ensures
        count_non_zeros(q) == (if q[k] == 0 {
            0int
        } else {
            1int
        }),
    decreases q.len(),
{
    if k == q.len() - 1 {
        lemma_all_zero_counts(q.drop_last());
    } else {
        lemma_one_hot_counts(q.drop_last(), k);
    }
}

/// Whenever the drawn threshold is at least one and some running sum reaches
/// it, the element the scan picks has a positive count, so the collapsed
/// multiset is a singleton: exactly one element keeps a non-zero count.
/// A zero threshold, which the draw can also produce, picks the first
/// element whatever its count, and is left out here.
pub proof fn lemma_chosen_is_singleton(s: Seq<int>, t: int, m: int, k: int)
    requires
        m >= 1,
        forall|i: int| 0 <= i < s.len() ==> 0 <= #[trigger] s[i] < m,
        t >= 1,
        is_chosen_at(s, t, m, k),
    ensures
        s[k] > 0,
        count_non_zeros(chosen_seq(s, k)) == 1,
{
    if s[k] == 0 {
        if k == 0 {
            lemma_small_mod(0nat, m as nat);
            assert(wrapped_prefix_sum(s, 0, m) == 0);
            assert(wrapped_prefix_sum(s, 1, m) == (wrapped_prefix_sum(s, 0, m) + s[0]) % m);
            assert(wrapped_prefix_sum(s, 1, m) == 0);
            assert(false);
        } else {
            let j = k - 1;
            assert(wrapped_prefix_sum(s, j + 1, m) < t);
            lemma_mod_bound(wrapped_prefix_sum(s, j, m) + s[j], m);
            lemma_small_mod(wrapped_prefix_sum(s, k, m) as nat, m as nat);
            assert(wrapped_prefix_sum(s, k + 1, m) == wrapped_prefix_sum(s, k, m));
            assert(false);
        }
    }
    lemma_one_hot_counts(chosen_seq(s, k), k);
}

/// Collapsing an all-zero multiset leaves it all zero, whichever element the
/// scan picks.
pub proof fn lemma_choose_on_empty(s: Seq<int>, k: int)
    requires
        forall|i: int| 0 <= i < s.len() ==> s[i] == 0,
    ensures
        forall|i: int| 0 <= i < s.len() ==> chosen_seq(s, k)[i] == 0,
{
}

} // verus!
