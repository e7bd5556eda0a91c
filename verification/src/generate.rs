//! Random package generation: each package gets a uniformly drawn size.

use crate::packing::Package;
use vstd::prelude::*;

verus! {

/// Relies on rand: `rand::rng()` gives the thread-local generator and
/// `RngExt::random_range(0..bound)` samples that half-open range, so the
/// result is below `bound`; the range is non-empty, so the call cannot panic.
#[verifier::external_body]
fn random_size_below(bound: u32) -> (size: u32)
    requires
        bound > 0,
    ensures
        size < bound,
{
    rand::RngExt::random_range(&mut rand::rng(), 0..bound)
}

/// Generates `n` packages with random sizes, each below 100.
pub fn packages(n: u32) -> (generated: Vec<Package>)
    ensures
        generated@.len() == n,
        forall|i: int| 0 <= i < generated@.len() ==> generated@[i].size < 100,
{
    let mut generated: Vec<Package> = Vec::new();
    let mut i: u32 = 0;
    while i < n
        invariant
            i <= n,
            generated@.len() == i,
            forall|j: int| 0 <= j < generated@.len() ==> generated@[j].size < 100,
        decreases n - i,
    {
        generated.push(Package { size: random_size_below(100) });
        i = i + 1;
    }
    generated
}

} // verus!
