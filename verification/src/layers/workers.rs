//! The number of workers that the machine offers.

use vstd::prelude::*;

verus! {

/// The number of logical CPUs available to this process, as
/// `num_cpus::get` reports it. It differs from machine to machine and from
/// run to run; the one thing claimed of it is what the crate documents:
/// it is never below 1.
#[verifier::external_body]
pub(crate) fn available_workers() -> (n: usize)
    ensures
        n >= 1,
{
    num_cpus::get()
}

} // verus!
