//! Bring-up of the other processors.
use vstd::prelude::*;

verus! {

/// The number of processors the boot loader reported.
pub fn init<T>(cpus: &[T]) -> (cpu_count: usize)
    ensures
        cpu_count == cpus@.len(),
{
    cpus.len()
}

} // verus!
