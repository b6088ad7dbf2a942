use vstd::prelude::*;

verus! {

use crate::storage::MultisetStorage;
use vstd::arithmetic::div_mod::{lemma_add_mod_noop, lemma_small_mod};
use vstd::math::{max, min};

/// Mathematical values of a sequence of counters.
pub open spec fn svals<T: MultisetStorage>(s: Seq<T>) -> Seq<int> {
    s.map(|i: int, t: T| t.sval())
}

/// Sum of a sequence of counts.
pub open spec fn seq_sum(s: Seq<int>) -> int
    decreases s.len(),
{
    if s.len() == 0 {
        0
    } else {
        seq_sum(s.drop_last()) + s.last()
    }
}

/// How many counts of the sequence are zero.
pub open spec fn count_zeros(s: Seq<int>) -> int
    decreases s.len(),
{
    if s.len() == 0 {
        0
    } else {
        count_zeros(s.drop_last()) + if s.last() == 0 {
            1int
        } else {
            0int
        }
    }
}

/// How many counts of the sequence are non-zero.
pub open spec fn count_non_zeros(s: Seq<int>) -> int
    decreases s.len(),
{
    if s.len() == 0 {
        0
    } else {
        count_non_zeros(s.drop_last()) + if s.last() == 0 {
            0int
        } else {
            1int
        }
    }
}

/// Pointwise minimum of two count sequences of equal length.
pub open spec fn inter_seq(a: Seq<int>, b: Seq<int>) -> Seq<int>
    recommends
        a.len() == b.len(),
{
    Seq::new(a.len(), |i: int| min(a[i], b[i]))
}

/// Pointwise maximum of two count sequences of equal length.
pub open spec fn union_seq(a: Seq<int>, b: Seq<int>) -> Seq<int>
    recommends
        a.len() == b.len(),
{
    Seq::new(a.len(), |i: int| max(a[i], b[i]))
}

/// Every count of `a` is at most the matching count of `b`.
pub open spec fn subset_of(a: Seq<int>, b: Seq<int>) -> bool
    recommends
        a.len() == b.len(),
{
    forall|i: int| 0 <= i < a.len() ==> a[i] <= b[i]
}

/// Some count of `a` is strictly below the matching count of `b`.
pub open spec fn any_lesser(a: Seq<int>, b: Seq<int>) -> bool
    recommends
        a.len() == b.len(),
{
    exists|i: int| 0 <= i < a.len() && a[i] < b[i]
}

/// No element occurs in both sequences.
pub open spec fn disjoint_seqs(a: Seq<int>, b: Seq<int>) -> bool
    recommends
        a.len() == b.len(),
{
    forall|i: int| 0 <= i < a.len() ==> (a[i] == 0 || b[i] == 0)
}

/// Running sum of the first `k` counts, wrapped at modulus `m` after every
/// step, exactly as a scan with a counter of that modulus accumulates it.
pub open spec fn wrapped_prefix_sum(s: Seq<int>, k: int, m: int) -> int
    decreases k,
{
    if k <= 0 {
        0
    } else {
        (wrapped_prefix_sum(s, k - 1, m) + s[k - 1]) % m
    }
}

/// `k` is the first index whose inclusive wrapped running sum reaches
/// threshold `t`.
pub open spec fn is_chosen_at(s: Seq<int>, t: int, m: int, k: int) -> bool {
    &&& 0 <= k < s.len()
    &&& wrapped_prefix_sum(s, k + 1, m) >= t
    &&& forall|j: int| 0 <= j < k ==> #[trigger] wrapped_prefix_sum(s, j + 1, m) < t
}

/// The sequence with every count but the one at `k` set to zero.
pub open spec fn chosen_seq(s: Seq<int>, k: int) -> Seq<int> {
    Seq::new(s.len(), |i: int| if i == k { s[k] } else { 0 })
}

/// When every count lies below the modulus, the wrapped running sum over the
/// first `k` counts is the plain sum of those counts, wrapped once at the
/// end.
pub proof fn lemma_wrapped_prefix_is_mod_sum(s: Seq<int>, k: int, m: int)
    requires
        m >= 1,
        0 <= k <= s.len(),
        forall|i: int| 0 <= i < s.len() ==> 0 <= #[trigger] s[i] < m,
    ensures
        wrapped_prefix_sum(s, k, m) == seq_sum(s.take(k)) % m,
    decreases k,
{
    if k == 0 {
        lemma_small_mod(0nat, m as nat);
        assert(s.take(0).len() == 0);
    } else {
        lemma_wrapped_prefix_is_mod_sum(s, k - 1, m);
        assert(s.take(k).drop_last() =~= s.take(k - 1));
        assert(s.take(k).last() == s[k - 1]);
        lemma_add_mod_noop(seq_sum(s.take(k - 1)), s[k - 1], m);
        lemma_small_mod(s[k - 1] as nat, m as nat);
    }
}

/// Counting zero and non-zero entries always splits the whole length.
pub proof fn lemma_counts_split(s: Seq<int>)
    ensures
        count_zeros(s) + count_non_zeros(s) == s.len(),
        0 <= count_zeros(s) <= s.len(),
        0 <= count_non_zeros(s) <= s.len(),
    decreases s.len(),
{
    if s.len() > 0 {
        lemma_counts_split(s.drop_last());
    }
}

} // verus!
