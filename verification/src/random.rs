//! Random numbers from the thread-local generator of `rand`.
use rand::Rng;
use vstd::prelude::*;

verus! {

/// `rand::thread_rng().gen_range(low, high)`: some value in `[low, high)`;
/// which one is left to chance. It panics when `low >= high`, which the
/// `requires` rules out.
#[verifier::external_body]
pub(crate) fn random_in_range(low: i32, high: i32) -> (value: i32)
    requires
        low < high,
    ensures
        low <= value < high,
{
    rand::thread_rng().gen_range(low, high)
}

} // verus!
