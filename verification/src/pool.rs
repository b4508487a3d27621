//! Sizing of the worker pool that absorbs the blocking filesystem calls.

use vstd::prelude::*;

verus! {

/// Oversubscription factor: the walk and the removals are I/O-bound, so the
/// pool is sized to a large multiple of the processor count.
pub const OVERSUBSCRIPTION: usize = 100;

/// Relies on num_cpus::get: the number of logical processors of the running
/// system, always at least one.
#[verifier::external_body]
fn available_cpus() -> (cpus: usize)
    ensures
        cpus >= 1,
{
    num_cpus::get()
}

/// The pool size for a machine with `cpus` logical processors: the
/// oversubscribed product, saturating at the machine limit.
pub fn pool_size(cpus: usize) -> (size: usize)
    ensures
        size == (if cpus <= usize::MAX / OVERSUBSCRIPTION {
            (cpus * OVERSUBSCRIPTION) as int
        } else {
            usize::MAX as int
        }),
{
    if cpus <= usize::MAX / OVERSUBSCRIPTION {
        cpus * OVERSUBSCRIPTION
    } else {
        usize::MAX
    }
}

/// The pool size for the running machine: at least one full
/// oversubscription factor, since at least one processor is present.
pub fn default_pool_size() -> (size: usize)
    ensures
        size >= OVERSUBSCRIPTION,
{
    let cpus = available_cpus();
    pool_size(cpus)
}

} // verus!
