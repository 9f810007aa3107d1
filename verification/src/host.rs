//! What the library asks of the machine it runs on.
use vstd::prelude::*;

verus! {

/// Calls `num_cpus::get`, the number of logical cores that the host reports.
/// Nothing is claimed of the count: it depends on the machine and on the
/// limits that the process runs under. Callers resolve it with
/// [`resolve_worker_count`], which copes with any number.
#[verifier::external_body]
pub(crate) fn host_core_count() -> (n: usize) {
    num_cpus::get()
}

/// The concurrency bound that a pool gets: the requested number of workers,
/// or the host's core count where none was requested.
pub open spec fn resolved_worker_count(requested: usize, host_cores: usize) -> usize {
    if requested > 0 {
        requested
    } else if host_cores > 0 {
        host_cores
    } else {
        1
    }
}

/// Resolves a requested worker count against a given core count: a request of
/// zero means "as many as the host has cores". The result is never zero.
pub fn resolve_worker_count(requested: usize, host_cores: usize) -> (n: usize)
    ensures
        n == resolved_worker_count(requested, host_cores),
        n >= 1,
        requested > 0 ==> n == requested,
{
    if requested > 0 {
        requested
    } else if host_cores > 0 {
        host_cores
    } else {
        1
    }
}

} // verus!
