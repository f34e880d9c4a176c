use hexium_os::hhdm::HhdmOffset;
use hexium_os::pmm::{self, KernelMemoryUsage, MemoryMapEntry, MemoryUsage, GLOBAL_ALLOCATOR_SIZE};
use hexium_os::vmm::{self, HIGHER_HALF_START, KERNEL_REGION_START};

fn entry(base: u64, length: u64, entry_type: u64) -> MemoryMapEntry {
    MemoryMapEntry { base, length, entry_type }
}

fn usage_map(pm: &pmm::PhysicalMemory) -> Vec<(u64, u64, MemoryUsage)> {
    pm.map.iter().map(|(k, v)| (*k.start(), *k.end(), *v)).collect()
}

const MIB: u64 = 1024 * 1024;

fn sample_map() -> Vec<MemoryMapEntry> {
    vec![
        entry(0x0, 0x1000, 1),
        entry(0x1000, 0x9_f000, 0),
        entry(0x10_0000, 0x10_0000, 0),
        entry(0x20_0000, 0x60_0000, 0),
        entry(0x80_0000, 0x10_0000, 2),
        entry(0x90_0000, 0x70_0000, 0),
        entry(0x100_0000, 0x10_0000, 6),
        entry(0xfd00_0000, 0x30_0000, 7),
    ]
}

#[test]
fn physical_memory_init_labels_ranges() {
    let map = sample_map();
    let pm = pmm::init(&map, 0x20_0000);
    assert_eq!(
        usage_map(&pm),
        vec![
            (0x0, 0xfff, MemoryUsage::Reserved),
            (0x1000, 0x9_ffff, MemoryUsage::Usable),
            (0x10_0000, 0x1f_ffff, MemoryUsage::Usable),
            (0x20_0000, 0x3f_ffff, MemoryUsage::Kernel(KernelMemoryUsage::GlobalHeap)),
            (0x40_0000, 0x7f_ffff, MemoryUsage::Usable),
            (0x80_0000, 0x8f_ffff, MemoryUsage::AcpiReclaimable),
            (0x90_0000, 0xff_ffff, MemoryUsage::Usable),
            (0x100_0000, 0x10f_ffff, MemoryUsage::ExecutableAndModules),
            (0xfd00_0000, 0xfd2f_ffff, MemoryUsage::Framebuffer),
        ]
    );
    assert_eq!(GLOBAL_ALLOCATOR_SIZE, 2 * MIB);
}

#[test]
fn allocate_frame_takes_lowest_fitting_usable_frame() {
    let map = sample_map();
    let mut pm = pmm::init(&map, 0x20_0000);
    assert_eq!(pm.allocate_frame(0x1000), Some(0x1000));
    assert_eq!(pm.allocate_frame(0x1000), Some(0x2000));
    assert_eq!(pm.map.get_at_point(&0x1000), Some(&MemoryUsage::Kernel(KernelMemoryUsage::PageTables)));
    assert_eq!(pm.map.get_at_point(&0x2fff), Some(&MemoryUsage::Kernel(KernelMemoryUsage::PageTables)));
    assert_eq!(pm.map.get_at_point(&0x3000), Some(&MemoryUsage::Usable));
    // The first usable range has no whole 2 MiB frame: the next one that does is used.
    assert_eq!(pm.allocate_frame(2 * MIB), Some(0x40_0000));
    assert_eq!(pm.map.get_at_point(&0x5f_ffff), Some(&MemoryUsage::Kernel(KernelMemoryUsage::PageTables)));
    assert_eq!(pm.map.get_at_point(&0x60_0000), Some(&MemoryUsage::Usable));
    // No usable range holds a 1 GiB frame.
    assert_eq!(pm.allocate_frame(1024 * MIB), None);
}

#[test]
fn allocate_frame_runs_out() {
    let map = vec![entry(0x1000, 0x2000, 0), entry(0x10_0000, 0x1000, 1)];
    let mut pm = pmm::init(&map, 0x40_0000);
    assert_eq!(pm.allocate_frame(0x1000), Some(0x1000));
    assert_eq!(pm.allocate_frame(0x1000), Some(0x2000));
    assert_eq!(pm.allocate_frame(0x1000), None);
}

fn direct_map() -> Vec<MemoryMapEntry> {
    vec![
        entry(0x1000, 0x9_f000, 0),
        entry(0xa_0000, 0x6_0000, 1),
        entry(0x10_0000, 0x30_0000, 5),
        entry(0x40_0000, 0x1000, 0),
        entry(0x60_1000, 0x1000, 6),
    ]
}

#[test]
fn frames_to_map_runs() {
    let map = direct_map();
    assert_eq!(
        vmm::frames_to_map(&map, 0x1000),
        vec![(0x1000, 0x9f), (0x10_0000, 0x300), (0x40_0000, 1), (0x60_1000, 1)]
    );
    // With 2 MiB pages, ranges already mapped by an earlier page are skipped.
    assert_eq!(
        vmm::frames_to_map(&map, 2 * MIB),
        vec![(0x0, 1), (0x20_0000, 1), (0x40_0000, 1), (0x60_0000, 1)]
    );
    assert_eq!(vmm::frames_to_map(&map, 1024 * MIB), vec![(0x0, 1)]);
}

fn used(vm: &vmm::VirtualMemory, addr: u64) -> bool {
    vm.set.contains_point(&addr)
}

const HHDM: u64 = 0xffff_8000_0000_0000;

#[test]
fn init_with_page_size_marks_direct_map_and_kernel() {
    let map = direct_map();
    let vm = vmm::init_with_page_size(&map, HhdmOffset::from(HHDM), 0x1000, 0x5000);
    assert_eq!(vm.cr3, 0x5000);
    assert_eq!(u64::from(vm.hhdm_offset), HHDM);
    assert!(used(&vm, HHDM + 0x1000));
    assert!(used(&vm, HHDM + 0x9_ffff));
    assert!(!used(&vm, HHDM));
    assert!(!used(&vm, HHDM + 0xa_0000));
    assert!(used(&vm, HHDM + 0x10_0000));
    assert!(used(&vm, HHDM + 0x40_0fff));
    assert!(!used(&vm, HHDM + 0x40_1000));
    assert!(used(&vm, HHDM + 0x60_1000));
    assert!(used(&vm, KERNEL_REGION_START));
    assert!(used(&vm, u64::MAX));
    assert!(!used(&vm, KERNEL_REGION_START - 1));
    let gaps: Vec<(u64, u64)> = vm
        .set
        .gaps_trimmed(&nodit::interval::iu(HIGHER_HALF_START))
        .map(|g| (*g.start(), *g.end()))
        .collect();
    assert_eq!(
        gaps,
        vec![
            (HHDM, HHDM + 0xfff),
            (HHDM + 0xa_0000, HHDM + 0xf_ffff),
            (HHDM + 0x40_1000, HHDM + 0x60_0fff),
            (HHDM + 0x60_2000, KERNEL_REGION_START - 1),
        ]
    );
    // Whole 2 MiB pages are taken with 2 MiB pages.
    let vm2 = vmm::init_with_page_size(&map, HhdmOffset::from(HHDM), 2 * MIB, 0x5000);
    assert!(used(&vm2, HHDM));
    assert!(used(&vm2, HHDM + 0x7f_ffff));
    assert!(!used(&vm2, HHDM + 0x80_0000));
}

#[test]
fn allocate_contiguous_pages_takes_lowest_free_run() {
    let map = direct_map();
    let mut vm = vmm::init_with_page_size(&map, HhdmOffset::from(HHDM), 0x1000, 0x5000);
    {
        let pages = vm.allocate_contiguous_pages(0x1000, 1).unwrap();
        assert_eq!(*pages.range(), HHDM..=HHDM);
        assert!(pages.contains(HHDM));
        assert!(!pages.contains(HHDM + 0x1000));
    }
    assert!(used(&vm, HHDM));
    {
        // The hole at HHDM + 0xa0000 holds 0x60 pages, not 0x61.
        let pages = vm.allocate_contiguous_pages(0x1000, 0x61).unwrap();
        assert_eq!(*pages.range(), (HHDM + 0x40_1000)..=(HHDM + 0x46_1000));
    }
    {
        let pages = vm.allocate_contiguous_pages(0x1000, 0x60).unwrap();
        assert_eq!(*pages.range(), (HHDM + 0xa_0000)..=(HHDM + 0xf_f000));
        assert_eq!(pages.page_size, 0x1000);
        pages.deallocate();
    }
    assert!(!used(&vm, HHDM + 0xa_0000));
    assert!(!used(&vm, HHDM + 0xf_ffff));
    {
        let pages = vm.allocate_contiguous_pages(2 * MIB, 2).unwrap();
        assert_eq!(*pages.range(), (HHDM + 0x80_0000)..=(HHDM + 0xa0_0000));
    }
    assert!(vm.allocate_contiguous_pages(1024 * MIB, 200_000).is_none());
}

#[test]
fn already_allocated_pages_can_be_released() {
    let map = direct_map();
    let mut vm = vmm::init_with_page_size(&map, HhdmOffset::from(HHDM), 0x1000, 0x5000);
    let start = *vm.allocate_contiguous_pages(0x1000, 3).unwrap().range().start();
    // The single free page at the start of the direct map is too small.
    assert_eq!(start, HHDM + 0xa_0000);
    assert!(used(&vm, start + 0x2fff));
    assert!(!used(&vm, start + 0x3000));
    let pages = vm.already_allocated(0x1000, start..=start + 0x2000);
    assert!(pages.contains(start + 0x2000));
    pages.deallocate();
    assert!(!used(&vm, start));
    assert!(!used(&vm, start + 0x2fff));
    assert!(used(&vm, HHDM + 0x10_0000));
}

#[test]
fn frames_are_never_handed_out_twice() {
    let map = vec![entry(0x1000, 0x8000, 0), entry(0x20_0000, 0x40_0000, 0)];
    let mut pm = pmm::init(&map, 0x40_0000);
    let mut frames: Vec<(u64, u64)> = Vec::new();
    for size in [0x1000u64, 2 * MIB, 0x1000, 0x1000, 2 * MIB, 0x1000] {
        if let Some(frame) = pm.allocate_frame(size) {
            assert_eq!(frame % size, 0);
            frames.push((frame, size));
        }
    }
    while let Some(frame) = pm.allocate_frame(0x1000) {
        frames.push((frame, 0x1000));
    }
    assert!(frames.len() > 8);
    for (i, &(a, sa)) in frames.iter().enumerate() {
        for &(b, sb) in &frames[i + 1..] {
            assert!(a + sa <= b || b + sb <= a, "frames overlap");
        }
    }
    assert!(pm.map.iter().all(|(_, usage)| *usage != MemoryUsage::Usable));
}

#[test]
fn direct_map_covers_every_direct_mapped_byte() {
    let map = direct_map();
    for size in [0x1000u64, 2 * MIB, 1024 * MIB] {
        let runs = vmm::frames_to_map(&map, size);
        let vm = vmm::init_with_page_size(&map, HhdmOffset::from(HHDM), size, 0x5000);
        for e in map.iter().filter(|e| vmm::direct_mapped(e.entry_type)) {
            for p in [e.base, e.base + e.length / 2, e.base + e.length - 1] {
                assert!(runs.iter().any(|&(first, count)| first <= p && p < first + count * size));
                assert!(used(&vm, HHDM + p));
            }
        }
    }
}

#[test]
fn deallocating_pages_restores_the_used_addresses() {
    let map = direct_map();
    let mut vm = vmm::init_with_page_size(&map, HhdmOffset::from(HHDM), 0x1000, 0x5000);
    let gaps = |vm: &vmm::VirtualMemory| -> Vec<(u64, u64)> {
        vm.set
            .gaps_trimmed(&nodit::interval::iu(HIGHER_HALF_START))
            .map(|g| (*g.start(), *g.end()))
            .collect()
    };
    let before = gaps(&vm);
    let pages = vm.allocate_contiguous_pages(0x1000, 4).unwrap();
    let first = *pages.range().start();
    pages.deallocate();
    assert_eq!(gaps(&vm), before);
    let again = vm.allocate_contiguous_pages(0x1000, 4).unwrap();
    assert_eq!(*again.range().start(), first);
}

#[test]
fn direct_map_runs_are_reserved_and_map_each_frame_once() {
    let map = direct_map();
    for size in [0x1000u64, 2 * MIB, 1024 * MIB] {
        let runs = vmm::frames_to_map(&map, size);
        let mut vm = vmm::init_with_page_size(&map, HhdmOffset::from(HHDM), size, 0x5000);
        for w in runs.windows(2) {
            assert!(w[0].0 + w[0].1 * size <= w[1].0, "runs overlap or descend");
        }
        for &(first, count) in &runs {
            for k in 0..count {
                let frame = first + k * size;
                assert!(used(&vm, HHDM + frame));
                assert!(used(&vm, HHDM + frame + size - 1));
                assert!(map.iter().any(|e| vmm::direct_mapped(e.entry_type)
                    && e.base <= frame + size - 1
                    && frame <= e.base + e.length - 1));
            }
        }
        let pages = vm.allocate_contiguous_pages(0x1000, 2).unwrap();
        let start = *pages.range().start();
        for &(first, count) in &runs {
            assert!(start + 0x2000 <= HHDM + first || HHDM + first + count * size <= start);
        }
    }
}

#[test]
fn page_allocations_never_overlap() {
    let map = direct_map();
    let mut vm = vmm::init_with_page_size(&map, HhdmOffset::from(HHDM), 0x1000, 0x5000);
    let mut blocks: Vec<(u64, u64)> = Vec::new();
    for (size, n) in [(0x1000u64, 1u64), (0x1000, 0x20), (2 * MIB, 1), (0x1000, 0x50), (0x1000, 3)] {
        let pages = vm.allocate_contiguous_pages(size, n).unwrap();
        blocks.push((*pages.range().start(), n * size));
    }
    for (i, &(a, la)) in blocks.iter().enumerate() {
        for &(b, lb) in &blocks[i + 1..] {
            assert!(a + la <= b || b + lb <= a, "blocks overlap");
        }
    }
}
