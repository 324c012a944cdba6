use vstd::prelude::*;
use rand::Rng;

verus! {

/// Relies on rand::Rng::gen_range (through rand::thread_rng): the result is a
/// sample drawn from the half-open range `low..high`. gen_range panics only
/// when the range is empty, which the precondition rules out. Nothing more is
/// assumed of the sample: it is random, so every call may differ.
#[verifier::external_body]
pub(crate) fn rand_range(low: u64, high: u64) -> (r: u64)
    requires
        low < high,
    ensures
        low <= r < high,
{
    rand::thread_rng().gen_range(low..high)
}

} // verus!
