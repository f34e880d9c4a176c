use hexium_os::acpi_handler::KernelAcpiHandler;
use hexium_os::cut_range::CutRange;
use hexium_os::firmware::get_firmware_type;
use hexium_os::heap::find_heap_start;
use hexium_os::hhdm::HhdmOffset;
use hexium_os::pmm::{KernelMemoryUsage, MemoryMapEntry, MemoryUsage};
use hexium_os::{smp, test_runner, QemuExitCode, Testable};
use std::cell::Cell;

#[test]
fn test_example() {
    assert_eq!(1 + 1, 2);
}

#[test]
fn memory_usage_from_entry_types() {
    assert_eq!(MemoryUsage::from(0u64), MemoryUsage::Usable);
    assert_eq!(MemoryUsage::from(1u64), MemoryUsage::Reserved);
    assert_eq!(MemoryUsage::from(2u64), MemoryUsage::AcpiReclaimable);
    assert_eq!(MemoryUsage::from(3u64), MemoryUsage::AcpiNvs);
    assert_eq!(MemoryUsage::from(4u64), MemoryUsage::BadMemory);
    assert_eq!(MemoryUsage::from(5u64), MemoryUsage::BootloaderReclaimable);
    assert_eq!(MemoryUsage::from(6u64), MemoryUsage::ExecutableAndModules);
    assert_eq!(MemoryUsage::from(7u64), MemoryUsage::Framebuffer);
    assert_eq!(MemoryUsage::from(8u64), MemoryUsage::Reserved);
    assert_eq!(MemoryUsage::from(u64::MAX), MemoryUsage::Reserved);
    assert_ne!(
        MemoryUsage::Kernel(KernelMemoryUsage::PageTables),
        MemoryUsage::Kernel(KernelMemoryUsage::GlobalHeap)
    );
}

#[test]
fn qemu_exit_codes() {
    assert_eq!(QemuExitCode::Success.code(), 0x10);
    assert_eq!(QemuExitCode::Failed.code(), 0x11);
}

#[test]
fn firmware_type_names() {
    assert_eq!(get_firmware_type(0), "X86_BIOS");
    assert_eq!(get_firmware_type(1), "UEFI_32");
    assert_eq!(get_firmware_type(2), "UEFI_64");
    assert_eq!(get_firmware_type(3), "SBI");
    assert_eq!(get_firmware_type(4), "UNKNOWN");
    assert_eq!(get_firmware_type(u64::MAX), "UNKNOWN");
}

#[test]
fn smp_counts_cpus() {
    assert_eq!(smp::init::<u32>(&[]), 0);
    assert_eq!(smp::init(&[10u32, 11, 12, 13]), 4);
}

struct CountingTest<'a> {
    runs: &'a Cell<u32>,
}

impl Testable for CountingTest<'_> {
    fn run(&self) {
        self.runs.set(self.runs.get() + 1);
    }
}

#[test]
fn test_runner_runs_every_test() {
    let runs = Cell::new(0);
    let a = CountingTest { runs: &runs };
    let b = CountingTest { runs: &runs };
    let c = CountingTest { runs: &runs };
    let tests: [&dyn Testable; 3] = [&a, &b, &c];
    assert_eq!(test_runner(&tests), QemuExitCode::Success);
    assert_eq!(runs.get(), 3);
    assert_eq!(test_runner(&[]), QemuExitCode::Success);
}

#[test]
fn hhdm_offset_round_trips() {
    let offset = HhdmOffset::from(0xffff_8000_0000_0000u64);
    assert_eq!(u64::from(offset), 0xffff_8000_0000_0000);
    assert_eq!(u64::from(HhdmOffset::from(0u64)), 0);
}

#[test]
fn acpi_physical_to_virtual() {
    let handler = KernelAcpiHandler {};
    let hhdm = HhdmOffset::from(0xffff_8000_0000_0000u64);
    assert_eq!(handler.physical_to_virtual(hhdm, 0x1000), Some(0xffff_8000_0000_1000));
    assert_eq!(handler.physical_to_virtual(hhdm, 0), Some(0xffff_8000_0000_0000));
    // Past the end of the address space.
    assert_eq!(handler.physical_to_virtual(hhdm, 0x8000_0000_0000), None);
    let low = HhdmOffset::from(0u64);
    // Null is refused.
    assert_eq!(handler.physical_to_virtual(low, 0), None);
    assert_eq!(handler.physical_to_virtual(low, 0x1000), Some(0x1000));
    // Non-canonical addresses are refused.
    assert_eq!(handler.physical_to_virtual(low, 0x0000_8000_0000_0000), None);
    assert_eq!(handler.physical_to_virtual(low, 0x0000_7fff_ffff_ffff), Some(0x0000_7fff_ffff_ffff));
}

fn entry(base: u64, length: u64, entry_type: u64) -> MemoryMapEntry {
    MemoryMapEntry { base, length, entry_type }
}

#[test]
fn heap_goes_to_first_big_usable_entry() {
    let map = [
        entry(0x0, 0x1000, 1),
        entry(0x1000, 0x1000, 0),
        entry(0x10_0000, 0x40_0000, 5),
        entry(0x80_0000, 0x20_0000, 0),
        entry(0x100_0000, 0x80_0000, 0),
    ];
    assert_eq!(find_heap_start(&map, 2 * 1024 * 1024), Some(0x80_0000));
    assert_eq!(find_heap_start(&map, 4 * 1024 * 1024), Some(0x100_0000));
    assert_eq!(find_heap_start(&map, 0x1000), Some(0x1000));
    assert_eq!(find_heap_start(&map, 16 * 1024 * 1024), None);
    assert_eq!(find_heap_start(&[], 1), None);
}

fn pieces(v: heapless::Vec<std::ops::RangeInclusive<u64>, 2>) -> Vec<(u64, u64)> {
    v.into_iter().map(|r| (*r.start(), *r.end())).collect()
}

#[test]
fn cut_range_cases() {
    // The cut range lies inside: only the part before it is kept.
    assert_eq!(pieces((0..=100).cut(&(10..=20))), vec![(0, 9)]);
    // The cut range reaches past the end.
    assert_eq!(pieces((0..=100).cut(&(50..=200))), vec![(0, 49), (201, 100)]);
    // The cut range starts at the start and reaches past the end.
    assert_eq!(pieces((0..=100).cut(&(0..=100))), vec![]);
    assert_eq!(pieces((5..=100).cut(&(5..=100))), vec![(5, 4)]);
    // Only the end of the cut range lies inside.
    assert_eq!(pieces((10..=100).cut(&(0..=20))), vec![(21, 100)]);
    // Disjoint ranges.
    assert_eq!(pieces((10..=100).cut(&(200..=300))), vec![(10, 100)]);
    assert_eq!(pieces((10..=100).cut(&(0..=5))), vec![(10, 100)]);
    // A cut range that swallows the whole range.
    assert_eq!(pieces((10..=100).cut(&(0..=200))), vec![(10, 100)]);
}
