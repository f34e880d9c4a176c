//! Verified core of the Hexium OS kernel: the memory-map, physical and virtual
//! memory bookkeeping, and the small decisions the boot path makes.
use vstd::prelude::*;

pub mod acpi_handler;
pub mod arith;
pub mod cut_range;
pub mod firmware;
pub mod heap;
pub mod intervals;
pub mod interval_lemmas;
pub mod hhdm;
pub mod pmm;
pub mod range_specs;
pub mod smp;
pub mod vmm;

verus! {

/// Exit codes understood by the QEMU `isa-debug-exit` device.
#[derive(Debug, Clone, Copy, PartialEq, Eq, Structural)]
pub enum QemuExitCode {
    Success,
    Failed,
}

impl QemuExitCode {
    /// The numeric value written to the debug-exit port.
    pub open spec fn spec_code(self) -> u32 {
        match self {
            QemuExitCode::Success => 0x10,
            QemuExitCode::Failed => 0x11,
        }
    }

    /// The numeric value written to the debug-exit port.
    pub fn code(self) -> (r: u32)
        ensures
            r == self.spec_code(),
    {
        match self {
            QemuExitCode::Success => 0x10,
            QemuExitCode::Failed => 0x11,
        }
    }
}


/// A test that the kernel's test runner can run.
pub trait Testable {
    fn run(&self);
}

/// Runs every test in order and gives the exit code to report: success,
/// since a failing test panics before the runner returns.
pub fn test_runner(tests: &[&dyn Testable]) -> (r: QemuExitCode)
    ensures
        r == QemuExitCode::Success,
{
    let mut i: usize = 0;
    while i < tests.len()
        invariant
            0 <= i <= tests.len(),
        decreases tests.len() - i,
    {
        tests[i].run();
        i += 1;
    }
    QemuExitCode::Success
}

} // verus!
