//! Seeded random numbers, drawn by the `rand` crate.

use rand::distributions::Uniform;
use rand::rngs::StdRng;
use rand::{Rng, SeedableRng};
use vstd::prelude::*;

verus! {

/// The first `count` numbers that the standard generator of `rand`, seeded
/// with `seed`, draws uniformly from `low..=high`.
pub uninterp spec fn uniform_stream(seed: u64, low: i32, high: i32, count: usize) -> Seq<i32>;

/// Draws `count` numbers uniformly from `low..=high` with a generator seeded
/// by `seed`.
///
/// This calls `StdRng::seed_from_u64` and `Rng::sample_iter` with
/// `Uniform::new_inclusive(low, high)`, and is not verified. It is taken on
/// trust that the generator, which is ChaCha with 12 rounds on every
/// platform, is a function of its seed, so that the same arguments give the
/// same numbers; that there are `count` of them; and that each lies in
/// `low..=high`. `Uniform::new_inclusive` panics where `low > high`, which
/// is ruled out.
#[verifier::external_body]
pub(crate) fn seeded_uniform(seed: u64, low: i32, high: i32, count: usize) -> (draws: Vec<i32>)
    requires
        low <= high,
    ensures
        draws@ == uniform_stream(seed, low, high, count),
        draws@.len() == count,
        forall|k: int| 0 <= k < count ==> low <= #[trigger] draws@[k] <= high,
{
    StdRng::seed_from_u64(seed).sample_iter(Uniform::new_inclusive(low, high)).take(count).collect()
}

} // verus!
