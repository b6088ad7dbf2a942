use vstd::prelude::*;

verus! {

use crate::model::{chosen_seq, is_chosen_at, wrapped_prefix_sum};
use crate::multiset::Bag;
use crate::storage::MultisetStorage;

/// The standard pseudo-random generator of the rand crate, opaque to this
/// library: a value of it is only threaded through to the draw below.
#[verifier::external_type_specification]
#[verifier::external_body]
pub struct ExStdRng(rand::rngs::StdRng);

/// Relies on rand::RngExt::random_range over the inclusive range `0..=hi`: it
/// returns a uniformly distributed value of that range.  Only the bound is
/// stated here, since the value drawn depends on the generator's state.
#[verifier::external_body]
fn draw_threshold(rng: &mut rand::rngs::StdRng, hi: u64) -> (r: u64)
    ensures
        r <= hi,
{
    rand::RngExt::random_range(rng, 0..=hi)
}

impl<T: MultisetStorage, const N: usize> Bag<T, N> {
    /// Draws a threshold uniformly between zero and `total()` inclusive from
    /// the given generator, then collapses the multiset exactly as
    /// `choose_with_threshold` does for that draw: the first element whose
    /// inclusive running sum reaches the threshold keeps its count and every
    /// other count is set to zero, so each element's chance is proportional
    /// to its count.
    pub fn choose_random(&mut self, rng: &mut rand::rngs::StdRng)
        ensures
            final(self)@.len() == N,
            N == 0 ==> final(self)@ == old(self)@,
            N >= 1 ==> exists|t: int, k: int|
                0 <= t <= wrapped_prefix_sum(old(self)@, N as int, T::width_max() + 1) && (
                #[trigger] is_chosen_at(old(self)@, t, T::width_max() + 1, k)) && final(self)@
                    == chosen_seq(old(self)@, k),
    {
        let total = self.total();
        proof {
            total.lemma_props();
            T::lemma_width();
            self.lemma_counts_in_width();
            crate::model::lemma_wrapped_prefix_is_mod_sum(self@, N as int, T::width_max() + 1);
            assert(self@.take(N as int) =~= self@);
        }
        let hi = total.to_u64();
        let draw = draw_threshold(rng, hi);
        let t = T::from_u64(draw);
        self.choose_with_threshold(t);
        proof {
            if N == 0 {
                assert(self@ =~= old(self)@);
            }
        }
    }
}

} // verus!
