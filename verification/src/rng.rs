use vstd::prelude::*;
use rand::Rng;

verus! {

/// Relies on `rand::Rng::gen_range` over the half-open range `0..n`:
/// it returns a uniformly distributed value below `n`, drawn from the
/// thread-local generator (`rand::thread_rng`), and panics only on an
/// empty range, which `n >= 1` rules out.  Nothing more is assumed of
/// the draw.
#[verifier::external_body]
pub(crate) fn rand_below(n: u64) -> (r: u64)
    requires
        n >= 1,
    ensures
        r < n,
{
    rand::thread_rng().gen_range(0..n)
}

} // verus!
