//! How many terrain workers run: one per physical core but one, and at least
//! one.

use vstd::prelude::*;

verus! {

/// `num_cpus::get_physical`: the number of physical cores, which the crate
/// documents as always at least 1. What else it returns depends on the
/// machine and is not stated.
#[verifier::external_body]
fn physical_cpu_count() -> (r: usize)
    ensures
        r >= 1,
{
    num_cpus::get_physical()
}

/// Workers for a machine with `cpu_count` physical cores: one core is left
/// to the rest of the program, but there is always one worker.
pub fn worker_count_for(cpu_count: usize) -> (r: usize)
    requires
        cpu_count >= 1,
    ensures
        r == if cpu_count >= 2 { cpu_count - 1 } else { 1 },
{
    let n = cpu_count - 1;
    if n > 1 {
        n
    } else {
        1
    }
}

/// Workers for this machine.
pub fn worker_count() -> (r: usize)
    ensures
        r >= 1,
{
    let cpu_count = physical_cpu_count();
    worker_count_for(cpu_count)
}

} // verus!
