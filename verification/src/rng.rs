//! Randomized initial velocities, drawn through the `rand` crate from an
//! explicitly passed, seedable generator, so runs can be reproduced.

use vstd::prelude::*;
use crate::fx::{fx_ok, all_fx_ok};

verus! {

#[verifier::external_type_specification]
#[verifier::external_body]
pub struct ExStdRng(rand::rngs::StdRng);

/// Relies on rand::Rng::random_range on an `i64` range: it panics only on
/// an empty range, and returns a sample inside `[lo, hi)`.
#[verifier::external_body]
fn draw_in_range(rng: &mut rand::rngs::StdRng, lo: i64, hi: i64) -> (r: i64)
    requires
        lo < hi,
    ensures
        lo <= r < hi,
{
    rand::Rng::random_range(rng, lo..hi)
}

/// Draw `n` initial velocity components, each uniform in `[lo, hi)`. The
/// generator is passed in, so a seeded caller gets a reproducible run.
pub fn random_velocities(rng: &mut rand::rngs::StdRng, n: usize, lo: i64, hi: i64) -> (r: Vec<
    i64,
>)
    requires
        lo < hi,
        fx_ok(lo as int),
        fx_ok(hi as int),
    ensures
        r@.len() == n,
        forall|k: int| 0 <= k < n ==> lo <= #[trigger] r@[k] < hi,
        all_fx_ok(r@),
{
    let mut out: Vec<i64> = Vec::new();
    let mut i: usize = 0;
    while i < n
        invariant
            i <= n,
            out@.len() == i,
            lo < hi,
            forall|k: int| 0 <= k < i ==> lo <= #[trigger] out@[k] < hi,
        decreases n - i,
    {
        out.push(draw_in_range(rng, lo, hi));
        i = i + 1;
    }
    proof {
        assert forall|k: int| 0 <= k < out@.len() implies fx_ok(#[trigger] out@[k] as int) by {
            assert(lo <= out@[k] < hi);
        }
    }
    out
}

} // verus!
