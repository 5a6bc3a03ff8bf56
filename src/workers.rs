use vstd::prelude::*;

use crate::bands::{is_band_plan, plan_bands, Band};

verus! {

/// Relies on num_cpus::get: the number of logical CPUs this process may use,
/// documented to be at least one.
#[verifier::external_body]
fn available_cpus() -> (r: usize)
    ensures
        r >= 1,
{
    num_cpus::get()
}

/// Plans the bands of an image `height` rows tall with one worker per CPU
/// available to this process. Returns the worker count and the plan.
pub fn plan_for_machine(height: usize) -> (r: (usize, Vec<Band>))
    ensures
        r.0 >= 1,
        is_band_plan(height as nat, r.0 as nat, r.1@),
{
    let workers = available_cpus();
    (workers, plan_bands(height, workers))
}

} // verus!
