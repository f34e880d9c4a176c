//! Physical memory bookkeeping: which physical address ranges are usable,
//! reserved or taken by the kernel, and the frame allocator on top of it.
use vstd::prelude::*;
use nodit::{Interval, NoditMap};
use crate::arith::{align_up, lemma_align_up};
use crate::interval_lemmas::{lemma_merge_insert, lemma_overwrite_insert, lemma_value_at_entry};
use crate::intervals::{
    entry_overlaps, merge_insert, overwrite_insert, usage_map_entries,
    usage_map_entries_in_order, usage_map_insert_merge_touching_if_values_equal,
    usage_map_insert_overwrite, usage_map_new, valid_entries, value_at,
};

verus! {

/// Memory map entry type numbers of the Limine boot protocol.
pub const ENTRY_USABLE: u64 = 0;
pub const ENTRY_RESERVED: u64 = 1;
pub const ENTRY_ACPI_RECLAIMABLE: u64 = 2;
pub const ENTRY_ACPI_NVS: u64 = 3;
pub const ENTRY_BAD_MEMORY: u64 = 4;
pub const ENTRY_BOOTLOADER_RECLAIMABLE: u64 = 5;
pub const ENTRY_EXECUTABLE_AND_MODULES: u64 = 6;
pub const ENTRY_FRAMEBUFFER: u64 = 7;

/// One entry of the boot loader's memory map: `length` bytes from `base`,
/// of the Limine entry type `entry_type`.
#[derive(Debug, Clone, Copy, PartialEq, Eq, Structural)]
pub struct MemoryMapEntry {
    pub base: u64,
    pub length: u64,
    pub entry_type: u64,
}

/// What a range of physical memory is used for.
#[derive(Debug, Clone, Copy, PartialEq, Eq, Structural)]
pub enum MemoryUsage {
    Usable,
    Reserved,
    AcpiReclaimable,
    AcpiNvs,
    BadMemory,
    BootloaderReclaimable,
    ExecutableAndModules,
    Framebuffer,
    Kernel(KernelMemoryUsage),
}

/// The ways the kernel itself takes physical memory.
#[derive(Debug, Clone, Copy, PartialEq, Eq, Structural)]
pub enum KernelMemoryUsage {
    PageTables,
    GlobalHeap,
}

/// The usage that a Limine memory map entry type stands for; unknown types
/// count as reserved.
pub open spec fn usage_of_entry_type(entry_type: u64) -> MemoryUsage {
    if entry_type == ENTRY_USABLE {
        MemoryUsage::Usable
    } else if entry_type == ENTRY_RESERVED {
        MemoryUsage::Reserved
    } else if entry_type == ENTRY_ACPI_RECLAIMABLE {
        MemoryUsage::AcpiReclaimable
    } else if entry_type == ENTRY_ACPI_NVS {
        MemoryUsage::AcpiNvs
    } else if entry_type == ENTRY_BAD_MEMORY {
        MemoryUsage::BadMemory
    } else if entry_type == ENTRY_BOOTLOADER_RECLAIMABLE {
        MemoryUsage::BootloaderReclaimable
    } else if entry_type == ENTRY_EXECUTABLE_AND_MODULES {
        MemoryUsage::ExecutableAndModules
    } else if entry_type == ENTRY_FRAMEBUFFER {
        MemoryUsage::Framebuffer
    } else {
        MemoryUsage::Reserved
    }
}

impl From<u64> for MemoryUsage {
    fn from(entry_type: u64) -> (r: Self) {
        if entry_type == ENTRY_USABLE {
            MemoryUsage::Usable
        } else if entry_type == ENTRY_RESERVED {
            MemoryUsage::Reserved
        } else if entry_type == ENTRY_ACPI_RECLAIMABLE {
            MemoryUsage::AcpiReclaimable
        } else if entry_type == ENTRY_ACPI_NVS {
            MemoryUsage::AcpiNvs
        } else if entry_type == ENTRY_BAD_MEMORY {
            MemoryUsage::BadMemory
        } else if entry_type == ENTRY_BOOTLOADER_RECLAIMABLE {
            MemoryUsage::BootloaderReclaimable
        } else if entry_type == ENTRY_EXECUTABLE_AND_MODULES {
            MemoryUsage::ExecutableAndModules
        } else if entry_type == ENTRY_FRAMEBUFFER {
            MemoryUsage::Framebuffer
        } else {
            MemoryUsage::Reserved
        }
    }
}

impl vstd::std_specs::convert::FromSpecImpl<u64> for MemoryUsage {
    open spec fn obeys_from_spec() -> bool {
        true
    }

    open spec fn from_spec(entry_type: u64) -> MemoryUsage {
        usage_of_entry_type(entry_type)
    }
}


/// Physical addresses on x86_64 are below 2^52.
pub const PHYS_ADDR_LIMIT: u64 = 0x10_0000_0000_0000;

/// Size of the memory region handed to the global heap allocator.
pub const GLOBAL_ALLOCATOR_SIZE: u64 = 2 * 1024 * 1024;

/// The page sizes of x86_64: 4 KiB, 2 MiB and 1 GiB.
pub open spec fn is_page_size(size: u64) -> bool {
    size == 0x1000 || size == 0x20_0000 || size == 0x4000_0000
}

/// The physical address space, each range labelled with its usage.
pub struct PhysicalMemory {
    pub map: NoditMap<u64, Interval<u64>, MemoryUsage>,
}

/// Last byte of a memory map entry.
pub open spec fn entry_last(e: MemoryMapEntry) -> int {
    e.base + e.length - 1
}

/// Whether a memory map entry holds the address `p`.
pub open spec fn entry_holds(e: MemoryMapEntry, p: int) -> bool {
    e.base <= p <= entry_last(e)
}

/// The usage map built from the memory map entries, one merging insertion
/// per entry in order.
pub open spec fn map_from_entries(es: Seq<MemoryMapEntry>) -> Set<(u64, u64, MemoryUsage)>
    decreases es.len(),
{
    if es.len() == 0 {
        Set::empty()
    } else {
        merge_insert(
            map_from_entries(es.drop_last()),
            es.last().base,
            entry_last(es.last()) as u64,
            usage_of_entry_type(es.last().entry_type),
        )
    }
}

/// The usage the memory map gives the address `p`: that of the last entry
/// holding it.
pub open spec fn entries_usage_at(es: Seq<MemoryMapEntry>, p: u64) -> Option<MemoryUsage>
    decreases es.len(),
{
    if es.len() == 0 {
        None
    } else if entry_holds(es.last(), p as int) {
        Some(usage_of_entry_type(es.last().entry_type))
    } else {
        entries_usage_at(es.drop_last(), p)
    }
}

/// The memory map entries that `init` accepts: non-empty, ending below
/// `u64::MAX` and pairwise disjoint.
pub open spec fn well_formed_memory_map(es: Seq<MemoryMapEntry>) -> bool {
    &&& forall|i: int|
        0 <= i < es.len() ==> #[trigger] es[i].length > 0 && es[i].base + es[i].length
            <= u64::MAX
    &&& forall|i: int, j: int|
        #![trigger es[i], es[j]]
        0 <= i < es.len() && 0 <= j < es.len() && i != j ==> es[i].base + es[i].length
            <= es[j].base || es[j].base + es[j].length <= es[i].base
}

/// Whether the entry `t` can hold a `size`-aligned frame of `size` bytes of
/// usable memory.
pub open spec fn frame_fits(t: (u64, u64, MemoryUsage), size: u64) -> bool {
    t.2 == MemoryUsage::Usable && align_up(t.0, size) + size - 1 <= t.1
}

/// `frame` is the frame that the first-fit search hands out from `before`:
/// the aligned start of the fitting usable entry that starts lowest.
pub open spec fn first_fit_frame(before: Set<(u64, u64, MemoryUsage)>, size: u64, frame: u64) -> bool {
    exists|t: (u64, u64, MemoryUsage)|
        #[trigger] before.contains(t) && frame_fits(t, size) && frame == align_up(t.0, size)
            && forall|u: (u64, u64, MemoryUsage)|
            #[trigger] before.contains(u) && frame_fits(u, size) ==> t.0 <= u.0
}

/// `after` is `before` with the frame of `size` bytes at `frame` taken for
/// page tables, the frame being the first fit.
pub open spec fn frame_allocation(
    before: PhysicalMemory,
    after: PhysicalMemory,
    size: u64,
    frame: u64,
) -> bool {
    &&& first_fit_frame(before.entries(), size, frame)
    &&& after.entries() == overwrite_insert(
        before.entries(),
        frame,
        (frame + size - 1) as u64,
        MemoryUsage::Kernel(KernelMemoryUsage::PageTables),
    )
}

impl PhysicalMemory {
    /// The labelled ranges of the map.
    pub open spec fn entries(&self) -> Set<(u64, u64, MemoryUsage)> {
        usage_map_entries(self.map)
    }

    /// The usage of the physical address `p`, if the map covers it.
    pub open spec fn usage_at(&self, p: u64) -> Option<MemoryUsage> {
        value_at(self.entries(), p)
    }

    /// The ranges are non-empty and disjoint.
    pub open spec fn wf(&self) -> bool {
        valid_entries(self.entries())
    }

    /// Finds the lowest usable range that holds a `page_size`-aligned frame,
    /// marks that frame as page-table memory and returns its start address;
    /// `None` when no usable range holds such a frame.
    pub fn allocate_frame(&mut self, page_size: u64) -> (r: Option<u64>)
        requires
            old(self).wf(),
            is_page_size(page_size),
        ensures
            final(self).wf(),
            r is None <==> !exists|t: (u64, u64, MemoryUsage)|
                #[trigger] old(self).entries().contains(t) && frame_fits(t, page_size),
            r is None ==> final(self).map == old(self).map,
            r matches Some(frame) ==> {
                &&& frame_allocation(*old(self), *final(self), page_size, frame)
                &&& frame % page_size == 0
                &&& forall|p: u64|
                    frame <= p < frame + page_size ==> #[trigger] old(self).usage_at(p) == Some(
                        MemoryUsage::Usable,
                    ) && final(self).usage_at(p) == Some(
                        MemoryUsage::Kernel(KernelMemoryUsage::PageTables),
                    )
                &&& forall|p: u64|
                    !(frame <= p < frame + page_size) ==> #[trigger] final(self).usage_at(p)
                        == old(self).usage_at(p)
            },
    {
        let entries = usage_map_entries_in_order(&self.map);
        let ghost before = self.entries();
        let mut i: usize = 0;
        while i < entries.len()
            invariant
                0 <= i <= entries.len(),
                before == self.entries(),
                self.map == old(self).map,
                self.wf(),
                is_page_size(page_size),
                forall|k: int| 0 <= k < entries.len() ==> before.contains(#[trigger] entries@[k]),
                forall|t: (u64, u64, MemoryUsage)|
                    #[trigger] before.contains(t) ==> entries@.contains(t),
                forall|k: int, j: int|
                    #![trigger entries@[k], entries@[j]]
                    0 <= k < j < entries.len() ==> entries@[k].0 < entries@[j].0,
                forall|k: int| 0 <= k < i ==> !frame_fits(#[trigger] entries@[k], page_size),
            decreases entries.len() - i,
        {
            let t = entries[i];
            assert(before.contains(t));
            let usable = match t.2 {
                MemoryUsage::Usable => true,
                _ => false,
            };
            if usable {
                proof {
                    lemma_align_up(t.0, page_size);
                }
                let rem = t.0 % page_size;
                let aligned_start: Option<u64> = if rem == 0 {
                    Some(t.0)
                } else {
                    t.0.checked_add(page_size - rem)
                };
                if let Some(aligned) = aligned_start {
                    if let Some(required_end_inclusive) = aligned.checked_add(page_size - 1) {
                        if required_end_inclusive <= t.1 {
                            assert(frame_fits(t, page_size));
                            proof {
                                assert forall|u: (u64, u64, MemoryUsage)|
                                    #[trigger] before.contains(u) && frame_fits(u, page_size) implies t.0
                                    <= u.0 by {
                                    assert(entries@.contains(u));
                                    let k = choose|k: int| 0 <= k < entries.len() && entries@[k] == u;
                                    if k < i {
                                    } else if k > i {
                                        assert(entries@[i as int].0 < entries@[k].0);
                                    }
                                }
                                assert(first_fit_frame(before, page_size, aligned));
                                lemma_overwrite_insert(
                                    before,
                                    aligned,
                                    required_end_inclusive,
                                    MemoryUsage::Kernel(KernelMemoryUsage::PageTables),
                                );
                                assert forall|p: u64| aligned <= p < aligned + page_size implies
                                    #[trigger] value_at(before, p) == Some(MemoryUsage::Usable) by {
                                    lemma_value_at_entry(before, t, p);
                                }
                            }
                            usage_map_insert_overwrite(
                                &mut self.map,
                                aligned,
                                required_end_inclusive,
                                MemoryUsage::Kernel(KernelMemoryUsage::PageTables),
                            );
                            return Some(aligned);
                        }
                    }
                }
            }
            i += 1;
        }
        proof {
            assert forall|t: (u64, u64, MemoryUsage)|
                #[trigger] before.contains(t) implies !frame_fits(t, page_size) by {
                assert(entries@.contains(t));
            }
        }
        None
    }
}


/// An address that the memory map gives a usage lies in one of its entries.
proof fn lemma_entries_usage_some(es: Seq<MemoryMapEntry>, p: u64)
    requires
        entries_usage_at(es, p) is Some,
    ensures
        exists|j: int| 0 <= j < es.len() && entry_holds(#[trigger] es[j], p as int),
    decreases es.len(),
{
    if entry_holds(es.last(), p as int) {
        assert(entry_holds(es[es.len() - 1], p as int));
    } else {
        lemma_entries_usage_some(es.drop_last(), p);
        let j = choose|j: int| 0 <= j < es.len() - 1 && entry_holds(#[trigger] es.drop_last()[j], p as int);
        assert(es.drop_last()[j] == es[j]);
    }
}

/// Builds the physical memory map from the boot loader's memory map: each
/// entry's range gets the usage of its type, touching ranges of equal usage
/// merge, and the global heap's range is then marked as kernel heap.
pub fn init(memory_map: &[MemoryMapEntry], global_allocator_physical_start: u64) -> (r:
    PhysicalMemory)
    requires
        well_formed_memory_map(memory_map@),
        global_allocator_physical_start + GLOBAL_ALLOCATOR_SIZE - 1 <= u64::MAX,
    ensures
        r.wf(),
        r.entries() == overwrite_insert(
            map_from_entries(memory_map@),
            global_allocator_physical_start,
            (global_allocator_physical_start + GLOBAL_ALLOCATOR_SIZE - 1) as u64,
            MemoryUsage::Kernel(KernelMemoryUsage::GlobalHeap),
        ),
        forall|p: u64|
            #[trigger] r.usage_at(p) == if global_allocator_physical_start <= p
                < global_allocator_physical_start + GLOBAL_ALLOCATOR_SIZE {
                Some(MemoryUsage::Kernel(KernelMemoryUsage::GlobalHeap))
            } else {
                entries_usage_at(memory_map@, p)
            },
{
    let mut map = usage_map_new();
    let mut i: usize = 0;
    while i < memory_map.len()
        invariant
            0 <= i <= memory_map.len(),
            well_formed_memory_map(memory_map@),
            usage_map_entries(map) == map_from_entries(memory_map@.take(i as int)),
            valid_entries(usage_map_entries(map)),
            forall|p: u64|
                #[trigger] value_at(usage_map_entries(map), p) == entries_usage_at(
                    memory_map@.take(i as int),
                    p,
                ),
        decreases memory_map.len() - i,
    {
        let entry = memory_map[i];
        let ghost es = memory_map@.take(i as int);
        let ghost old_entries = usage_map_entries(map);
        assert(memory_map@[i as int] == entry);
        let last = entry.base + (entry.length - 1);
        let memory_usage: MemoryUsage = MemoryUsage::from(entry.entry_type);
        proof {
            assert forall|t: (u64, u64, MemoryUsage)|
                #[trigger] old_entries.contains(t) implies !entry_overlaps(t, entry.base, last) by {
                if entry_overlaps(t, entry.base, last) {
                    let q = if t.0 <= entry.base { entry.base } else { t.0 };
                    lemma_value_at_entry(old_entries, t, q);
                    lemma_entries_usage_some(es, q);
                    let j = choose|j: int| 0 <= j < es.len() && entry_holds(#[trigger] es[j], q as int);
                    assert(es[j] == memory_map@[j]);
                }
            }
            lemma_merge_insert(old_entries, entry.base, last, memory_usage);
        }
        let ok = usage_map_insert_merge_touching_if_values_equal(
            &mut map,
            entry.base,
            last,
            memory_usage,
        );
        proof {
            let es1 = memory_map@.take(i + 1);
            assert(es1.drop_last() =~= es);
            assert(es1.last() == entry);
            assert forall|p: u64|
                #[trigger] value_at(usage_map_entries(map), p) == entries_usage_at(es1, p) by {
            }
        }
        i += 1;
    }
    assert(memory_map@.take(memory_map.len() as int) =~= memory_map@);
    let heap_end = global_allocator_physical_start + (GLOBAL_ALLOCATOR_SIZE - 1);
    proof {
        lemma_overwrite_insert(
            usage_map_entries(map),
            global_allocator_physical_start,
            heap_end,
            MemoryUsage::Kernel(KernelMemoryUsage::GlobalHeap),
        );
    }
    usage_map_insert_overwrite(
        &mut map,
        global_allocator_physical_start,
        heap_end,
        MemoryUsage::Kernel(KernelMemoryUsage::GlobalHeap),
    );
    PhysicalMemory { map }
}


/// What one frame allocation gives: the map stays well formed, the frame
/// was usable before and is page-table memory after, and no other address
/// changes.
proof fn lemma_frame_allocation_effect(
    before: PhysicalMemory,
    after: PhysicalMemory,
    size: u64,
    frame: u64,
)
    requires
        before.wf(),
        is_page_size(size),
        frame_allocation(before, after, size, frame),
    ensures
        after.wf(),
        frame + size - 1 <= u64::MAX,
        forall|p: u64|
            frame <= p < frame + size ==> #[trigger] before.usage_at(p) == Some(
                MemoryUsage::Usable,
            ) && after.usage_at(p) == Some(MemoryUsage::Kernel(KernelMemoryUsage::PageTables)),
        forall|p: u64|
            !(frame <= p < frame + size) ==> #[trigger] after.usage_at(p) == before.usage_at(p),
{
    let t = choose|t: (u64, u64, MemoryUsage)|
        #[trigger] before.entries().contains(t) && frame_fits(t, size) && frame == align_up(
            t.0,
            size,
        ) && forall|u: (u64, u64, MemoryUsage)|
            #[trigger] before.entries().contains(u) && frame_fits(u, size) ==> t.0 <= u.0;
    lemma_align_up(t.0, size);
    lemma_overwrite_insert(
        before.entries(),
        frame,
        (frame + size - 1) as u64,
        MemoryUsage::Kernel(KernelMemoryUsage::PageTables),
    );
    assert forall|p: u64| frame <= p < frame + size implies #[trigger] before.usage_at(p) == Some(
        MemoryUsage::Usable,
    ) by {
        lemma_value_at_entry(before.entries(), t, p);
    }
}

/// `ms[k + 1]` is `ms[k]` after an `allocate_frame(sizes[k])` that returned
/// `Some(frames[k])`, for each `k`.
pub open spec fn allocation_sequence(
    ms: Seq<PhysicalMemory>,
    sizes: Seq<u64>,
    frames: Seq<u64>,
) -> bool {
    &&& ms.len() == sizes.len() + 1
    &&& frames.len() == sizes.len()
    &&& forall|k: int|
        0 <= k < sizes.len() ==> is_page_size(#[trigger] sizes[k]) && frame_allocation(
            ms[k],
            ms[k + 1],
            sizes[k],
            frames[k],
        )
}

/// Along a sequence of allocations the map stays well formed and every
/// frame handed out so far stays page-table memory.
proof fn lemma_allocation_sequence_state(
    ms: Seq<PhysicalMemory>,
    sizes: Seq<u64>,
    frames: Seq<u64>,
    k: int,
)
    requires
        ms[0].wf(),
        allocation_sequence(ms, sizes, frames),
        0 <= k <= sizes.len(),
    ensures
        ms[k].wf(),
        forall|i: int, p: u64|
            #![trigger ms[k].usage_at(p), frames[i]]
            0 <= i < k && frames[i] <= p < frames[i] + sizes[i] ==> ms[k].usage_at(p) == Some(
                MemoryUsage::Kernel(KernelMemoryUsage::PageTables),
            ),
    decreases k,
{
    if k > 0 {
        lemma_allocation_sequence_state(ms, sizes, frames, k - 1);
        assert(is_page_size(sizes[k - 1]));
        lemma_frame_allocation_effect(ms[k - 1], ms[k], sizes[k - 1], frames[k - 1]);
    }
}

/// A frame that `allocate_frame` hands out is never handed out again: in any
/// sequence of allocations on one map, with nothing else written between
/// them, the frames of two different allocations do not overlap.
pub proof fn lemma_allocated_frames_never_reused(
    ms: Seq<PhysicalMemory>,
    sizes: Seq<u64>,
    frames: Seq<u64>,
    i: int,
    j: int,
)
    requires
        ms[0].wf(),
        allocation_sequence(ms, sizes, frames),
        0 <= i < j < sizes.len(),
    ensures
        frames[i] + sizes[i] <= frames[j] || frames[j] + sizes[j] <= frames[i],
{
    lemma_allocation_sequence_state(ms, sizes, frames, j);
    assert(is_page_size(sizes[j]));
    lemma_frame_allocation_effect(ms[j], ms[j + 1], sizes[j], frames[j]);
    if !(frames[i] + sizes[i] <= frames[j] || frames[j] + sizes[j] <= frames[i]) {
        let q: u64 = if frames[i] <= frames[j] { frames[j] } else { frames[i] };
        assert(ms[j].usage_at(q) == Some(MemoryUsage::Kernel(KernelMemoryUsage::PageTables)));
    }
}

} // verus!
