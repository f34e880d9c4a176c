//! Virtual memory bookkeeping: which virtual addresses are in use, the
//! boot-time direct map of physical memory, and page-range allocation in the
//! higher half.
use vstd::prelude::*;
use core::ops::RangeInclusive;
use nodit::{Interval, NoditSet};
use crate::arith::{align_down, align_up, lemma_align_down, lemma_align_up, round_down};
use crate::hhdm::HhdmOffset;
use crate::intervals::{
    interval_set_cut, interval_set_gaps_from, interval_set_insert_merge_touching,
    interval_set_insert_merge_touching_or_overlapping, interval_set_new, interval_set_points,
    is_gap, points_between,
};
use crate::pmm::{
    entry_holds, entry_last, is_page_size, MemoryMapEntry, ENTRY_BOOTLOADER_RECLAIMABLE, ENTRY_EXECUTABLE_AND_MODULES,
    ENTRY_FRAMEBUFFER, ENTRY_USABLE, PHYS_ADDR_LIMIT,
};

verus! {

/// First address of the higher half of the virtual address space.
pub const HIGHER_HALF_START: u64 = 0xffff_8000_0000_0000;

/// First address of the top 512 GiB, where the kernel image lives.
pub const KERNEL_REGION_START: u64 = 0xffff_ff80_0000_0000;

/// Whether memory of this Limine entry type is reachable through the direct
/// map.
pub open spec fn is_direct_mapped(entry_type: u64) -> bool {
    entry_type == ENTRY_USABLE || entry_type == ENTRY_BOOTLOADER_RECLAIMABLE || entry_type
        == ENTRY_EXECUTABLE_AND_MODULES || entry_type == ENTRY_FRAMEBUFFER
}

/// Whether memory of this Limine entry type is reachable through the direct
/// map.
pub fn direct_mapped(entry_type: u64) -> (r: bool)
    ensures
        r == is_direct_mapped(entry_type),
        r <==> (entry_type == ENTRY_USABLE || entry_type == ENTRY_BOOTLOADER_RECLAIMABLE
            || entry_type == ENTRY_EXECUTABLE_AND_MODULES || entry_type == ENTRY_FRAMEBUFFER),
{
    entry_type == ENTRY_USABLE || entry_type == ENTRY_BOOTLOADER_RECLAIMABLE || entry_type
        == ENTRY_EXECUTABLE_AND_MODULES || entry_type == ENTRY_FRAMEBUFFER
}

/// First virtual address of the direct-map region of an entry, in whole
/// pages of `size` bytes.
pub open spec fn direct_map_start(e: MemoryMapEntry, hhdm: u64, size: u64) -> int {
    hhdm + align_down(e.base, size)
}

/// Last virtual address of the direct-map region of an entry, in whole
/// pages of `size` bytes.
pub open spec fn direct_map_end(e: MemoryMapEntry, hhdm: u64, size: u64) -> int {
    hhdm + align_down((e.base + e.length - 1) as u64, size) + size - 1
}

/// The virtual addresses that the direct map of the entries takes.
pub open spec fn direct_map_points(es: Seq<MemoryMapEntry>, hhdm: u64, size: u64) -> Set<u64>
    decreases es.len(),
{
    if es.len() == 0 {
        Set::empty()
    } else if is_direct_mapped(es.last().entry_type) {
        direct_map_points(es.drop_last(), hhdm, size).union(
            points_between(
                direct_map_start(es.last(), hhdm, size) as u64,
                direct_map_end(es.last(), hhdm, size) as u64,
            ),
        )
    } else {
        direct_map_points(es.drop_last(), hhdm, size)
    }
}

/// The memory map entries whose direct map fits below the kernel region:
/// the direct-mapped ones are non-empty and end there.
pub open spec fn direct_map_fits(es: Seq<MemoryMapEntry>, hhdm: u64, size: u64) -> bool {
    forall|i: int|
        0 <= i < es.len() && is_direct_mapped(#[trigger] es[i].entry_type) ==> es[i].length > 0
            && es[i].base + es[i].length <= u64::MAX + 1 && direct_map_end(es[i], hhdm, size)
            < KERNEL_REGION_START
}

/// The virtual address space in use: the direct map, the kernel region and
/// every page range handed out since.
pub struct VirtualMemory {
    pub set: NoditSet<u64, Interval<u64>>,
    /// Start address of the level 4 page table.
    pub cr3: u64,
    pub hhdm_offset: HhdmOffset,
}

impl VirtualMemory {
    /// The virtual addresses in use.
    pub open spec fn used(&self) -> Set<u64> {
        interval_set_points(self.set)
    }
}

/// The page size of the boot-time direct map: 1 GiB pages where the
/// processor supports them, 2 MiB pages otherwise.
pub fn direct_map_page_size(has_1gib_pages: bool) -> (r: u64)
    ensures
        r == if has_1gib_pages {
            0x4000_0000u64
        } else {
            0x20_0000u64
        },
        is_page_size(r),
{
    if has_1gib_pages {
        0x4000_0000
    } else {
        0x20_0000
    }
}

/// Records the virtual addresses taken at boot: the direct map of every
/// usable, boot-loader-reclaimable, executable or framebuffer entry, in
/// whole pages of `page_size` bytes at `hhdm_offset` above the physical
/// address, and the top 512 GiB of the kernel.
pub fn init_with_page_size(
    memory_map: &[MemoryMapEntry],
    hhdm_offset: HhdmOffset,
    page_size: u64,
    new_l4_frame: u64,
) -> (r: VirtualMemory)
    requires
        is_page_size(page_size),
        direct_map_fits(memory_map@, hhdm_offset@, page_size),
    ensures
        r.used() == direct_map_points(memory_map@, hhdm_offset@, page_size).union(
            points_between(KERNEL_REGION_START, u64::MAX),
        ),
        r.cr3 == new_l4_frame,
        r.hhdm_offset == hhdm_offset,
{
    let mut set = interval_set_new();
    let hhdm: u64 = hhdm_offset.into();
    proof {
        crate::hhdm::lemma_hhdm_offset_into(hhdm_offset);
    }
    let mut i: usize = 0;
    while i < memory_map.len()
        invariant
            0 <= i <= memory_map.len(),
            is_page_size(page_size),
            hhdm == hhdm_offset@,
            direct_map_fits(memory_map@, hhdm, page_size),
            interval_set_points(set) == direct_map_points(memory_map@.take(i as int), hhdm, page_size),
            forall|p: u64| #[trigger] interval_set_points(set).contains(p) ==> p < KERNEL_REGION_START,
        decreases memory_map.len() - i,
    {
        let entry = memory_map[i];
        let ghost es1 = memory_map@.take(i + 1);
        proof {
            assert(es1.drop_last() =~= memory_map@.take(i as int));
            assert(es1.last() == entry);
            assert(memory_map@[i as int] == entry);
        }
        if direct_mapped(entry.entry_type) {
            let last = entry.base + (entry.length - 1);
            proof {
                lemma_align_down(entry.base, page_size);
                lemma_align_down(last, page_size);
            }
            let start = hhdm + round_down(entry.base, page_size);
            let end = hhdm + round_down(last, page_size) + (page_size - 1);
            interval_set_insert_merge_touching_or_overlapping(&mut set, start, end);
        }
        i += 1;
    }
    proof {
        assert(memory_map@.take(memory_map.len() as int) =~= memory_map@);
    }
    let ok = interval_set_insert_merge_touching(&mut set, KERNEL_REGION_START, u64::MAX);
    proof {
        assert(ok);
    }
    VirtualMemory { set, cr3: new_l4_frame, hhdm_offset }
}


/// The physical range of a direct-mapped entry that still needs mapping,
/// given the last physical address mapped so far.
pub open spec fn range_to_map(last_mapped: Option<u64>, e: MemoryMapEntry) -> Option<(u64, u64)> {
    let first = e.base;
    let last = (e.base + e.length - 1) as u64;
    match last_mapped {
        None => Some((first, last)),
        Some(l) => if first > l {
            Some((first, last))
        } else if last > l {
            Some(((l + 1) as u64, last))
        } else {
            None
        },
    }
}

/// The runs of frames that the boot-time direct map maps, each as its first
/// frame's address and its number of frames of `size` bytes, together with
/// the last physical address mapped.
pub open spec fn direct_map_runs(es: Seq<MemoryMapEntry>, size: u64) -> (Seq<(u64, u64)>, Option<u64>)
    decreases es.len(),
{
    if es.len() == 0 {
        (Seq::empty(), None)
    } else {
        let prev = direct_map_runs(es.drop_last(), size);
        if !is_direct_mapped(es.last().entry_type) {
            prev
        } else {
            match range_to_map(prev.1, es.last()) {
                None => prev,
                Some(range) => {
                    let first_frame = align_down(range.0, size);
                    let last_frame = align_down(range.1, size);
                    (
                        prev.0.push(
                            (first_frame as u64, ((last_frame - first_frame) / (size as int) + 1) as u64),
                        ),
                        Some((last_frame + size - 1) as u64),
                    )
                },
            }
        }
    }
}

/// The memory map entries that the direct map can map: the direct-mapped
/// ones are non-empty and lie below the physical address limit.
pub open spec fn direct_map_mappable(es: Seq<MemoryMapEntry>) -> bool {
    forall|i: int|
        0 <= i < es.len() && is_direct_mapped(#[trigger] es[i].entry_type) ==> es[i].length > 0
            && es[i].base + es[i].length <= PHYS_ADDR_LIMIT
}

/// The runs of frames, in pages of `page_size` bytes, that the boot-time
/// direct map must map: for each direct-mapped entry the frames holding the
/// part of it above the last address mapped so far.
pub fn frames_to_map(memory_map: &[MemoryMapEntry], page_size: u64) -> (r: Vec<(u64, u64)>)
    requires
        is_page_size(page_size),
        direct_map_mappable(memory_map@),
    ensures
        r@ == direct_map_runs(memory_map@, page_size).0,
{
    let mut runs: Vec<(u64, u64)> = Vec::new();
    let mut last_mapped_address: Option<u64> = None;
    let mut i: usize = 0;
    while i < memory_map.len()
        invariant
            0 <= i <= memory_map.len(),
            is_page_size(page_size),
            direct_map_mappable(memory_map@),
            (runs@, last_mapped_address) == direct_map_runs(memory_map@.take(i as int), page_size),
            last_mapped_address matches Some(l) ==> l < PHYS_ADDR_LIMIT,
        decreases memory_map.len() - i,
    {
        let entry = memory_map[i];
        let ghost es1 = memory_map@.take(i + 1);
        proof {
            assert(es1.drop_last() =~= memory_map@.take(i as int));
            assert(es1.last() == entry);
            assert(memory_map@[i as int] == entry);
        }
        if direct_mapped(entry.entry_type) {
            let first = entry.base;
            let last = entry.base + (entry.length - 1);
            let range_to_map: Option<(u64, u64)> = match last_mapped_address {
                Some(l) => {
                    if first > l {
                        Some((first, last))
                    } else if last > l {
                        Some((l + 1, last))
                    } else {
                        None
                    }
                },
                None => Some((first, last)),
            };
            if let Some(range) = range_to_map {
                proof {
                    lemma_align_down(range.0, page_size);
                    lemma_align_down(range.1, page_size);
                    assert(align_down(range.0, page_size) <= align_down(range.1, page_size)) by {
                        lemma_align_monotone(range.0, range.1, page_size);
                    }
                    assert(PHYS_ADDR_LIMIT % page_size == 0);
                    lemma_aligned_below(align_down(range.1, page_size), PHYS_ADDR_LIMIT as int, page_size as int);
                }
                let first_frame = round_down(range.0, page_size);
                let last_frame = round_down(range.1, page_size);
                let page_count = (last_frame - first_frame) / page_size + 1;
                runs.push((first_frame, page_count));
                last_mapped_address = Some(last_frame + (page_size - 1));
            }
        }
        i += 1;
    }
    proof {
        assert(memory_map@.take(memory_map.len() as int) =~= memory_map@);
    }
    runs
}

/// Rounding down to a multiple of `m` keeps order.
proof fn lemma_align_monotone(x: u64, y: u64, m: u64)
    requires
        m > 0,
        x <= y,
    ensures
        align_down(x, m) <= align_down(y, m),
{
    assert(x as int / m as int <= y as int / m as int) by (nonlinear_arith)
        requires
            m > 0,
            x <= y,
    ;
    assert((x as int / m as int) * m <= (y as int / m as int) * m) by (nonlinear_arith)
        requires
            m > 0,
            x as int / m as int <= y as int / m as int,
    ;
}

/// A multiple of `m` below a multiple `lim` of `m` is at most `lim - m`.
proof fn lemma_aligned_below(a: int, lim: int, m: int)
    requires
        m > 0,
        0 <= a < lim,
        a % m == 0,
        lim % m == 0,
    ensures
        a + m <= lim,
{
    vstd::arithmetic::div_mod::lemma_fundamental_div_mod(a, m);
    vstd::arithmetic::div_mod::lemma_fundamental_div_mod(lim, m);
    let qa = a / m;
    let ql = lim / m;
    assert(qa < ql) by (nonlinear_arith)
        requires
            a == m * qa,
            lim == m * ql,
            a < lim,
            m > 0,
    ;
    assert(m * qa + m <= m * ql) by (nonlinear_arith)
        requires
            qa < ql,
            m > 0,
    ;
}


/// The `len` bytes from `start` lie in the higher half, at a multiple of
/// `size`, and none of them is in use.
pub open spec fn free_block(used: Set<u64>, size: u64, len: int, start: u64) -> bool {
    &&& HIGHER_HALF_START <= start
    &&& start % size == 0
    &&& start + len - 1 <= u64::MAX
    &&& forall|p: u64| start <= p <= start + len - 1 ==> !#[trigger] used.contains(p)
}

/// `start` is the lowest free block of `len` bytes at a multiple of `size`.
pub open spec fn lowest_free_block(used: Set<u64>, size: u64, len: int, start: u64) -> bool {
    &&& free_block(used, size, len, start)
    &&& forall|other: u64| #[trigger] free_block(used, size, len, other) ==> start <= other
}

/// A range of pages allocated from a `VirtualMemory`, which it borrows.
/// Outside this crate one is had only from `allocate_contiguous_pages` or
/// `already_allocated`.
#[non_exhaustive]
pub struct AllocatedPages<'a> {
    pub virtual_memory: &'a mut VirtualMemory,
    /// Start addresses of the first and the last page.
    pub range: RangeInclusive<u64>,
    pub page_size: u64,
}

impl<'a> AllocatedPages<'a> {
    /// First byte of the range.
    pub open spec fn first_byte(&self) -> u64 {
        self.range@.start
    }

    /// Last byte of the range.
    pub open spec fn last_byte(&self) -> int {
        self.range@.end + self.page_size - 1
    }

    /// A non-empty range of whole pages.
    pub open spec fn wf(&self) -> bool {
        &&& is_page_size(self.page_size)
        &&& !self.range@.exhausted
        &&& self.range@.start <= self.range@.end
        &&& self.range@.start % self.page_size == 0
        &&& self.range@.end % self.page_size == 0
        &&& self.last_byte() <= u64::MAX
    }

    /// The range of pages.
    pub fn range(&self) -> (r: &RangeInclusive<u64>)
        ensures
            *r == self.range,
    {
        &self.range
    }

    /// Whether `page` is one of the pages of the range; mapping any other
    /// page through it is refused.
    pub fn contains(&self, page: u64) -> (r: bool)
        ensures
            r == if self.range@.exhausted {
                self.range@.start <= page < self.range@.end
            } else {
                self.range@.start <= page <= self.range@.end
            },
    {
        self.range.contains(&page)
    }

    /// Returns the range's virtual addresses to the free pool; the caller
    /// unmaps the pages first.
    pub fn deallocate(self)
        requires
            self.wf(),
        ensures
            final(self.virtual_memory).used() == old(self.virtual_memory).used().difference(
                points_between(self.first_byte(), self.last_byte() as u64),
            ),
            final(self.virtual_memory).cr3 == old(self.virtual_memory).cr3,
            final(self.virtual_memory).hhdm_offset == old(self.virtual_memory).hhdm_offset,
    {
        let start = *self.range.start();
        let end_inclusive = *self.range.end() + (self.page_size - 1);
        interval_set_cut(&mut self.virtual_memory.set, start, end_inclusive);
    }
}

impl VirtualMemory {
    /// Reserves the lowest run of `n_pages` free pages of `page_size` bytes
    /// in the higher half; the pages are guaranteed not to be in use, and so
    /// not mapped by the boot-time direct map.
    /// `None` when no such run is free.
    pub fn allocate_contiguous_pages(&mut self, page_size: u64, n_pages: u64) -> (r: Option<
        AllocatedPages<'_>,
    >)
        requires
            is_page_size(page_size),
            1 <= n_pages,
            n_pages * page_size <= u64::MAX,
        ensures
            match r {
                None => {
                    &&& !exists|start: u64|
                        #[trigger] free_block(old(self).used(), page_size, n_pages * page_size, start)
                    &&& *final(self) == *old(self)
                },
                Some(pages) => {
                    &&& page_allocation(
                        old(self).used(),
                        pages.virtual_memory.used(),
                        page_size,
                        n_pages * page_size,
                        pages.first_byte(),
                    )
                    &&& pages.wf()
                    &&& pages.page_size == page_size
                    &&& pages.range@.end == pages.range@.start + (n_pages - 1) * page_size
                    &&& pages.virtual_memory.cr3 == old(self).cr3
                    &&& pages.virtual_memory.hhdm_offset == old(self).hhdm_offset
                    &&& *final(self) == *final(pages.virtual_memory)
                },
            },
    {
        let len = n_pages * page_size;
        let gaps = interval_set_gaps_from(&self.set, HIGHER_HALF_START);
        let ghost used = self.used();
        proof {
            assert(len >= page_size) by (nonlinear_arith)
                requires
                    len == n_pages * page_size,
                    n_pages >= 1,
                    page_size > 0,
            ;
        }
        let mut i: usize = 0;
        while i < gaps.len()
            invariant
                0 <= i <= gaps.len(),
                used == interval_set_points(self.set),
                *self == *old(self),
                len >= page_size,
                forall|p: u64|
                    HIGHER_HALF_START <= p && !#[trigger] used.contains(p) ==> exists|k: int|
                        0 <= k < gaps.len() && #[trigger] gaps@[k].0 <= p <= gaps@[k].1,
                is_page_size(page_size),
                len == n_pages * page_size,
                1 <= n_pages,
                forall|k: int| 0 <= k < gaps.len() ==> is_gap(used, HIGHER_HALF_START, #[trigger] gaps@[k]),
                forall|k: int, j: int|
                    #![trigger gaps@[k], gaps@[j]]
                    0 <= k < j < gaps.len() ==> gaps@[k].1 < gaps@[j].0,
                forall|k: int|
                    0 <= k < i ==> align_up(#[trigger] gaps@[k].0, page_size) + len - 1
                        > gaps@[k].1,
            decreases gaps.len() - i,
        {
            let gap = gaps[i];
            proof {
                lemma_align_up(gap.0, page_size);
            }
            let rem = gap.0 % page_size;
            let aligned_start: Option<u64> = if rem == 0 {
                Some(gap.0)
            } else {
                gap.0.checked_add(page_size - rem)
            };
            if let Some(aligned_start) = aligned_start {
                if let Some(required_end_inclusive) = aligned_start.checked_add(len - 1) {
                    if required_end_inclusive <= gap.1 {
                        proof {
                            assert(free_block(used, page_size, len as int, aligned_start));
                            assert forall|other: u64|
                                #[trigger] free_block(used, page_size, len as int, other) implies aligned_start
                                <= other by {
                                lemma_free_block_in_gap(used, page_size, len as int, other, gaps@, i as int);
                            }
                        }
                        let ok = interval_set_insert_merge_touching(
                            &mut self.set,
                            aligned_start,
                            required_end_inclusive,
                        );
                        proof {
                            assert(ok);
                        }
                        let last_page = aligned_start + (len - page_size);
                        proof {
                            assert(len - page_size == (n_pages - 1) * page_size) by (nonlinear_arith)
                                requires
                                    len == n_pages * page_size,
                            ;
                            vstd::arithmetic::div_mod::lemma_mod_multiples_basic(
                                n_pages - 1,
                                page_size as int,
                            );
                            vstd::arithmetic::div_mod::lemma_mod_adds(
                                aligned_start as int,
                                (len - page_size) as int,
                                page_size as int,
                            );
                        }
                        return Some(
                            AllocatedPages {
                                virtual_memory: self,
                                range: aligned_start..=last_page,
                                page_size,
                            },
                        );
                    }
                }
            }
            i += 1;
        }
        proof {
            assert forall|start: u64| !#[trigger] free_block(used, page_size, len as int, start) by {
                if free_block(used, page_size, len as int, start) {
                    lemma_free_block_in_gap(used, page_size, len as int, start, gaps@, gaps.len() as int);
                }
            }
        }
        None
    }
}

impl VirtualMemory {
    /// Takes back, as allocated pages, a range of pages of `page_size` bytes
    /// that this memory handed out before: all of its bytes are in use.
    pub fn already_allocated(&mut self, page_size: u64, pages: RangeInclusive<u64>) -> (r:
        AllocatedPages<'_>)
        requires
            is_page_size(page_size),
            !pages@.exhausted,
            pages@.start <= pages@.end,
            pages@.start % page_size == 0,
            pages@.end % page_size == 0,
            pages@.end + page_size - 1 <= u64::MAX,
            forall|p: u64|
                pages@.start <= p <= pages@.end + page_size - 1 ==> #[trigger] old(
                    self,
                ).used().contains(p),
        ensures
            r.wf(),
            r.range == pages,
            r.page_size == page_size,
            *r.virtual_memory == *old(self),
            *final(self) == *final(r.virtual_memory),
    {
        AllocatedPages { virtual_memory: self, range: pages, page_size }
    }
}

/// `after` is `before` with the lowest free block of `len` bytes at a
/// multiple of `size`, starting at `start`, taken.
pub open spec fn page_allocation(before: Set<u64>, after: Set<u64>, size: u64, len: int, start: u64) -> bool {
    &&& lowest_free_block(before, size, len, start)
    &&& after == before.union(points_between(start, (start + len - 1) as u64))
}

/// `used[k + 1]` is `used[k]` after the page allocation of `lens[k]` bytes
/// at multiples of `sizes[k]` that started at `starts[k]`, for each `k`.
pub open spec fn page_allocation_sequence(
    used: Seq<Set<u64>>,
    sizes: Seq<u64>,
    lens: Seq<int>,
    starts: Seq<u64>,
) -> bool {
    &&& used.len() == sizes.len() + 1
    &&& lens.len() == sizes.len()
    &&& starts.len() == sizes.len()
    &&& forall|k: int|
        0 <= k < sizes.len() ==> #[trigger] lens[k] >= 1 && page_allocation(
            used[k],
            used[k + 1],
            sizes[k],
            lens[k],
            starts[k],
        )
}

/// Along a sequence of page allocations every address handed out so far
/// stays in use.
proof fn lemma_page_allocation_sequence_used(
    used: Seq<Set<u64>>,
    sizes: Seq<u64>,
    lens: Seq<int>,
    starts: Seq<u64>,
    k: int,
)
    requires
        page_allocation_sequence(used, sizes, lens, starts),
        0 <= k <= sizes.len(),
    ensures
        forall|i: int, p: u64|
            #![trigger used[k].contains(p), starts[i]]
            0 <= i < k && starts[i] <= p < starts[i] + lens[i] ==> used[k].contains(p),
    decreases k,
{
    if k > 0 {
        lemma_page_allocation_sequence_used(used, sizes, lens, starts, k - 1);
        assert(lens[k - 1] >= 1);
        assert forall|i: int, p: u64|
            #![trigger used[k].contains(p), starts[i]]
            0 <= i < k && starts[i] <= p < starts[i] + lens[i] implies used[k].contains(p) by {
            if i == k - 1 {
                assert(points_between(starts[i], (starts[i] + lens[i] - 1) as u64).contains(p));
            } else {
                assert(used[k - 1].contains(p));
            }
        }
    }
}

/// Page allocations never hand out the same address twice: in any sequence
/// of allocations on one memory, with nothing given back between them, the
/// blocks of two different allocations do not overlap.
pub proof fn lemma_page_allocations_disjoint(
    used: Seq<Set<u64>>,
    sizes: Seq<u64>,
    lens: Seq<int>,
    starts: Seq<u64>,
    i: int,
    j: int,
)
    requires
        page_allocation_sequence(used, sizes, lens, starts),
        0 <= i < j < sizes.len(),
    ensures
        starts[i] + lens[i] <= starts[j] || starts[j] + lens[j] <= starts[i],
{
    lemma_page_allocation_sequence_used(used, sizes, lens, starts, j);
    assert(lens[j] >= 1);
    if !(starts[i] + lens[i] <= starts[j] || starts[j] + lens[j] <= starts[i]) {
        let q: u64 = if starts[i] <= starts[j] { starts[j] } else { starts[i] };
        assert(used[j].contains(q));
    }
}

/// Deallocating the pages of an allocation gives the addresses in use back
/// as they were before it.
pub proof fn lemma_deallocate_undoes_allocate(
    used0: Set<u64>,
    used1: Set<u64>,
    size: u64,
    len: int,
    start: u64,
)
    requires
        len >= 1,
        page_allocation(used0, used1, size, len, start),
    ensures
        used1.difference(points_between(start, (start + len - 1) as u64)) == used0,
{
    assert(used1.difference(points_between(start, (start + len - 1) as u64)) =~= used0);
}

/// Every address of the direct-map region of a direct-mapped entry is among
/// the addresses the boot-time direct map takes.
proof fn lemma_direct_map_region_taken(
    es: Seq<MemoryMapEntry>,
    hhdm: u64,
    size: u64,
    i: int,
    v: int,
)
    requires
        is_page_size(size),
        direct_map_fits(es, hhdm, size),
        0 <= i < es.len(),
        is_direct_mapped(es[i].entry_type),
        direct_map_start(es[i], hhdm, size) <= v <= direct_map_end(es[i], hhdm, size),
    ensures
        0 <= v <= u64::MAX,
        direct_map_points(es, hhdm, size).contains(v as u64),
    decreases es.len(),
{
    let e = es[i];
    let last = (e.base + e.length - 1) as u64;
    lemma_align_down(e.base, size);
    lemma_align_down(last, size);
    if i == es.len() - 1 {
        assert(es.last() == e);
    } else {
        let es0 = es.drop_last();
        assert(es0[i] == e);
        assert(direct_map_fits(es0, hhdm, size)) by {
            assert forall|j: int| 0 <= j < es0.len() && is_direct_mapped(#[trigger] es0[j].entry_type) implies es0[j].length > 0
                && es0[j].base + es0[j].length <= u64::MAX + 1 && direct_map_end(es0[j], hhdm, size)
                < KERNEL_REGION_START by {
                assert(es0[j] == es[j]);
            }
        }
        lemma_direct_map_region_taken(es0, hhdm, size, i, v);
    }
}

/// Every byte of a direct-mapped entry has its direct-map address among the
/// addresses the boot-time direct map takes, so no page allocation hands it
/// out.
pub proof fn lemma_direct_map_reserves_entries(
    es: Seq<MemoryMapEntry>,
    hhdm: u64,
    size: u64,
    i: int,
    p: u64,
)
    requires
        is_page_size(size),
        direct_map_fits(es, hhdm, size),
        0 <= i < es.len(),
        is_direct_mapped(es[i].entry_type),
        es[i].base <= p <= es[i].base + es[i].length - 1,
    ensures
        hhdm + p <= u64::MAX,
        direct_map_points(es, hhdm, size).contains((hhdm + p) as u64),
{
    let e = es[i];
    let last = (e.base + e.length - 1) as u64;
    lemma_align_down(e.base, size);
    lemma_align_down(last, size);
    lemma_align_monotone(e.base, p, size);
    lemma_align_monotone(p, last, size);
    lemma_align_down(p, size);
    lemma_direct_map_region_taken(es, hhdm, size, i, hhdm + p);
}

/// A multiple of `m` that is at most `x` is at most `align_down(x, m)`.
proof fn lemma_align_down_greatest(x: u64, m: u64, y: int)
    requires
        m > 0,
        0 <= y <= x,
        y % (m as int) == 0,
    ensures
        y <= align_down(x, m),
{
    lemma_align_down(x, m);
    if align_down(x, m) < y {
        lemma_aligned_below(align_down(x, m), y, m as int);
    }
}

/// `r` is the run of frames from the frame holding `a` to the frame holding
/// `b`.
pub open spec fn run_spans(r: (u64, u64), size: u64, a: u64, b: u64) -> bool {
    &&& r.0 == align_down(a, size)
    &&& r.0 + r.1 * size == align_down(b, size) + size
}

/// The run `r` spans the part `[a, b]` of the direct-mapped entry `es[i]`.
pub open spec fn spans_entry(es: Seq<MemoryMapEntry>, r: (u64, u64), size: u64, i: int, a: u64, b: u64) -> bool {
    &&& 0 <= i < es.len()
    &&& is_direct_mapped(es[i].entry_type)
    &&& es[i].base <= a <= b <= entry_last(es[i])
    &&& run_spans(r, size, a, b)
}

/// The run `r` spans part of some direct-mapped entry of `es`.
pub open spec fn spans_some_entry(es: Seq<MemoryMapEntry>, r: (u64, u64), size: u64) -> bool {
    exists|i: int, a: u64, b: u64| #[trigger] spans_entry(es, r, size, i, a, b)
}

/// What the direct-map runs are, for an inductive proof over the memory map:
/// each run spans part of a direct-mapped entry, the runs ascend without
/// overlap, and each ends at or below the last physical address mapped.
proof fn lemma_direct_map_runs_shape(es: Seq<MemoryMapEntry>, size: u64)
    requires
        is_page_size(size),
        direct_map_mappable(es),
    ensures
        forall|k: int|
            #![trigger direct_map_runs(es, size).0[k]]
            0 <= k < direct_map_runs(es, size).0.len() ==> spans_some_entry(es, direct_map_runs(es, size).0[k], size),
        forall|k: int, j: int|
            #![trigger direct_map_runs(es, size).0[k], direct_map_runs(es, size).0[j]]
            0 <= k < j < direct_map_runs(es, size).0.len() ==> direct_map_runs(es, size).0[k].0
                + direct_map_runs(es, size).0[k].1 * size <= direct_map_runs(es, size).0[j].0,
        direct_map_runs(es, size).1 is None ==> direct_map_runs(es, size).0.len() == 0,
        direct_map_runs(es, size).1 matches Some(l) ==> {
            &&& l < PHYS_ADDR_LIMIT
            &&& (l + 1) % (size as int) == 0
            &&& forall|k: int|
                0 <= k < direct_map_runs(es, size).0.len() ==> #[trigger] direct_map_runs(es, size).0[k].0
                    + direct_map_runs(es, size).0[k].1 * size <= l + 1
        },
    decreases es.len(),
{
    if es.len() == 0 {
        return;
    }
    let es0 = es.drop_last();
    let e = es.last();
    assert(direct_map_mappable(es0)) by {
        assert forall|j: int| 0 <= j < es0.len() && is_direct_mapped(#[trigger] es0[j].entry_type) implies es0[j].length > 0
            && es0[j].base + es0[j].length <= PHYS_ADDR_LIMIT by {
            assert(es0[j] == es[j]);
        }
    }
    lemma_direct_map_runs_shape(es0, size);
    let runs0 = direct_map_runs(es0, size).0;
    let last0 = direct_map_runs(es0, size).1;
    let runs = direct_map_runs(es, size).0;
    let last = direct_map_runs(es, size).1;
    assert forall|j: int| 0 <= j < es0.len() implies #[trigger] es0[j] == es[j] by {}
    // The runs so far keep their witnesses in the longer map.
    assert forall|k: int| #![trigger runs0[k]] 0 <= k < runs0.len() implies spans_some_entry(es, runs0[k], size) by {
        let (i, a, b) = choose|i: int, a: u64, b: u64| #[trigger] spans_entry(es0, runs0[k], size, i, a, b);
        assert(es0[i] == es[i]);
        assert(spans_entry(es, runs0[k], size, i, a, b));
    }
    if !is_direct_mapped(e.entry_type) {
        assert(runs == runs0 && last == last0);
        assert(runs =~= runs0);
        return;
    }
    assert(es[es.len() - 1] == e);
    match range_to_map(last0, e) {
        None => {
            assert(runs == runs0 && last == last0);
            assert(runs =~= runs0);
        },
        Some(range) => {
            let (a, b) = range;
            lemma_align_down(a, size);
            lemma_align_down(b, size);
            lemma_align_monotone(a, b, size);
            let ff = align_down(a, size);
            let lf = align_down(b, size);
            lemma_run_extent(ff, lf, size);
            assert(PHYS_ADDR_LIMIT % size == 0);
            lemma_aligned_below(lf, PHYS_ADDR_LIMIT as int, size as int);
            let run = (ff as u64, ((lf - ff) / (size as int) + 1) as u64);
            assert(runs == runs0.push(run));
            assert(run_spans(run, size, a, b));
            assert(runs[runs.len() - 1] == run);
            assert(0 <= es.len() - 1 < es.len() && is_direct_mapped(es[es.len() - 1].entry_type)
                && es[es.len() - 1].base <= a <= b <= entry_last(es[es.len() - 1]));
            assert forall|k: int| #![trigger runs[k]] 0 <= k < runs.len() implies spans_some_entry(es, runs[k], size) by {
                if k < runs0.len() {
                    assert(runs[k] == runs0[k]);
                } else {
                    assert(runs[k] == run);
                    assert(spans_entry(es, runs[k], size, es.len() - 1, a, b));
                }
            }
            // Every earlier run ends at or below the last address mapped,
            // which lies below the new run.
            if last0 is Some {
                let l0 = last0->0;
                assert(l0 + 1 <= ff) by {
                    if e.base > l0 {
                        lemma_align_down_greatest(a, size, l0 + 1);
                    } else {
                        assert(a == l0 + 1);
                        lemma_align_down_greatest(a, size, l0 + 1);
                    }
                }
            }
            assert forall|k: int, j: int|
                #![trigger runs[k], runs[j]]
                0 <= k < j < runs.len() implies runs[k].0 + runs[k].1 * size <= runs[j].0 by {
                assert(runs[k] == runs0[k] || k == runs.len() - 1);
                if j < runs0.len() {
                    assert(runs[k] == runs0[k] && runs[j] == runs0[j]);
                } else {
                    assert(runs[k] == runs0[k]);
                    assert(runs0[k].0 + runs0[k].1 * size <= last0->0 + 1);
                }
            }
            assert(((lf + size - 1) + 1) % (size as int) == 0) by {
                vstd::arithmetic::div_mod::lemma_fundamental_div_mod(lf, size as int);
                vstd::arithmetic::div_mod::lemma_mod_multiples_basic(lf / (size as int) + 1, size as int);
                assert(lf + size == (lf / (size as int) + 1) * size) by (nonlinear_arith)
                    requires
                        lf == size * (lf / (size as int)) + lf % (size as int),
                        lf % (size as int) == 0,
                ;
            }
            assert forall|k: int| 0 <= k < runs.len() implies #[trigger] runs[k].0 + runs[k].1 * size
                <= lf + size by {
                if k < runs0.len() {
                    assert(runs[k] == runs0[k]);
                    assert(runs0[k].0 + runs0[k].1 * size <= last0->0 + 1);
                }
            }
        },
    }
}

/// Every address the boot-time direct map maps, offset by the direct-map
/// offset, is among the addresses `init_with_page_size` marks as in use: so
/// the pages `allocate_contiguous_pages` hands out are not mapped by it.
pub proof fn lemma_direct_map_runs_reserved(
    es: Seq<MemoryMapEntry>,
    hhdm: u64,
    size: u64,
    k: int,
    p: int,
)
    requires
        is_page_size(size),
        direct_map_fits(es, hhdm, size),
        direct_map_mappable(es),
        0 <= k < direct_map_runs(es, size).0.len(),
        run_covers(direct_map_runs(es, size).0[k], size, p),
    ensures
        hhdm + p <= u64::MAX,
        direct_map_points(es, hhdm, size).contains((hhdm + p) as u64),
{
    lemma_direct_map_runs_shape(es, size);
    let r = direct_map_runs(es, size).0[k];
    let (i, a, b) = choose|i: int, a: u64, b: u64| #[trigger] spans_entry(es, r, size, i, a, b);
    let e = es[i];
    let last = (e.base + e.length - 1) as u64;
    lemma_align_monotone(e.base, a, size);
    lemma_align_monotone(b, last, size);
    lemma_direct_map_region_taken(es, hhdm, size, i, hhdm + p);
}

/// Pages are never handed out over the boot-time direct map: a page
/// allocation from addresses in use that hold the direct map takes no
/// address that a run of the direct map maps.
pub proof fn lemma_allocated_pages_not_direct_mapped(
    es: Seq<MemoryMapEntry>,
    hhdm: u64,
    size: u64,
    used: Set<u64>,
    after: Set<u64>,
    page_size: u64,
    len: int,
    start: u64,
    k: int,
    p: int,
)
    requires
        is_page_size(size),
        direct_map_fits(es, hhdm, size),
        direct_map_mappable(es),
        direct_map_points(es, hhdm, size).subset_of(used),
        page_allocation(used, after, page_size, len, start),
        0 <= k < direct_map_runs(es, size).0.len(),
        run_covers(direct_map_runs(es, size).0[k], size, p),
    ensures
        !(start <= hhdm + p < start + len),
{
    lemma_direct_map_runs_reserved(es, hhdm, size, k, p);
    assert(used.contains((hhdm + p) as u64));
}

/// The runs of the boot-time direct map ascend and do not overlap: every
/// frame is mapped at most once.
pub proof fn lemma_direct_map_runs_disjoint(es: Seq<MemoryMapEntry>, size: u64, k: int, j: int)
    requires
        is_page_size(size),
        direct_map_mappable(es),
        0 <= k < j < direct_map_runs(es, size).0.len(),
    ensures
        direct_map_runs(es, size).0[k].0 + direct_map_runs(es, size).0[k].1 * size
            <= direct_map_runs(es, size).0[j].0,
{
    lemma_direct_map_runs_shape(es, size);
}

/// Every frame the boot-time direct map maps holds a byte of a
/// direct-mapped entry.
pub proof fn lemma_direct_map_frames_hold_entries(es: Seq<MemoryMapEntry>, size: u64, k: int, p: u64)
    requires
        is_page_size(size),
        direct_map_mappable(es),
        0 <= k < direct_map_runs(es, size).0.len(),
        run_covers(direct_map_runs(es, size).0[k], size, p as int),
    ensures
        exists|i: int|
            0 <= i < es.len() && is_direct_mapped(#[trigger] es[i].entry_type) && es[i].base
                <= align_down(p, size) + size - 1 && align_down(p, size) <= entry_last(es[i]),
{
    lemma_direct_map_runs_shape(es, size);
    let r = direct_map_runs(es, size).0[k];
    let (i, a, b) = choose|i: int, a: u64, b: u64| #[trigger] spans_entry(es, r, size, i, a, b);
    lemma_align_down(a, size);
    lemma_align_down(b, size);
    lemma_align_down(p, size);
    lemma_align_down_greatest(p, size, r.0 as int);
    if align_down(p, size) > align_down(b, size) {
        lemma_aligned_below(align_down(b, size), align_down(p, size), size as int);
    }
    assert(is_direct_mapped(es[i].entry_type));
}

/// The direct map reaches exactly the usable, boot-loader-reclaimable,
/// executable-and-modules and framebuffer entries of the Limine memory map.
pub proof fn lemma_direct_mapped_entry_types(entry_type: u64)
    ensures
        is_direct_mapped(entry_type) <==> (entry_type == ENTRY_USABLE || entry_type
            == ENTRY_BOOTLOADER_RECLAIMABLE || entry_type == ENTRY_EXECUTABLE_AND_MODULES
            || entry_type == ENTRY_FRAMEBUFFER),
        ENTRY_USABLE == 0 && ENTRY_BOOTLOADER_RECLAIMABLE == 5 && ENTRY_EXECUTABLE_AND_MODULES == 6
            && ENTRY_FRAMEBUFFER == 7,
{
}

/// With the memory map sorted by address, every byte of a usable,
/// boot-loader-reclaimable, executable-and-modules or framebuffer entry is
/// mapped by a run of the boot-time direct map, and its address in the
/// direct map is among the addresses `init_with_page_size` marks as in use.
pub proof fn lemma_direct_map_holds_entry_types(
    es: Seq<MemoryMapEntry>,
    hhdm: u64,
    size: u64,
    i: int,
    p: u64,
)
    requires
        is_page_size(size),
        direct_map_fits(es, hhdm, size),
        direct_map_mappable(es),
        sorted_memory_map(es),
        0 <= i < es.len(),
        es[i].entry_type == ENTRY_USABLE || es[i].entry_type == ENTRY_BOOTLOADER_RECLAIMABLE
            || es[i].entry_type == ENTRY_EXECUTABLE_AND_MODULES || es[i].entry_type
            == ENTRY_FRAMEBUFFER,
        es[i].base <= p <= es[i].base + es[i].length - 1,
    ensures
        runs_cover(direct_map_runs(es, size).0, size, p as int),
        hhdm + p <= u64::MAX,
        direct_map_points(es, hhdm, size).contains((hhdm + p) as u64),
{
    lemma_direct_mapped_entry_types(es[i].entry_type);
    lemma_direct_map_covers_entries(es, size, i, p as int);
    lemma_direct_map_reserves_entries(es, hhdm, size, i, p);
}

/// The memory map lists its entries by ascending address, without overlap,
/// as the Limine boot protocol guarantees.
pub open spec fn sorted_memory_map(es: Seq<MemoryMapEntry>) -> bool {
    forall|i: int, j: int|
        #![trigger es[i], es[j]]
        0 <= i < j < es.len() ==> es[i].base + es[i].length <= es[j].base
}

/// The run of frames `r` maps the physical address `p`.
pub open spec fn run_covers(r: (u64, u64), size: u64, p: int) -> bool {
    r.0 <= p < r.0 + r.1 * size
}

/// Some run of `runs` maps the physical address `p`.
pub open spec fn runs_cover(runs: Seq<(u64, u64)>, size: u64, p: int) -> bool {
    exists|k: int| 0 <= k < runs.len() && run_covers(#[trigger] runs[k], size, p)
}

/// A run from the frame at `first` to the frame at `last` maps every
/// address of those frames.
proof fn lemma_run_extent(first: int, last: int, size: u64)
    requires
        size > 0,
        first <= last,
        first % (size as int) == 0,
        last % (size as int) == 0,
    ensures
        first + ((last - first) / (size as int) + 1) * size == last + size,
{
    let d = last - first;
    assert(d % (size as int) == 0) by {
        vstd::arithmetic::div_mod::lemma_fundamental_div_mod(first, size as int);
        vstd::arithmetic::div_mod::lemma_fundamental_div_mod(last, size as int);
        let qf = first / size as int;
        let ql = last / size as int;
        assert(d == size * (ql - qf)) by (nonlinear_arith)
            requires
                first == size * qf,
                last == size * ql,
                d == last - first,
        ;
        vstd::arithmetic::div_mod::lemma_mod_multiples_basic(ql - qf, size as int);
        assert((ql - qf) * size == size * (ql - qf)) by (nonlinear_arith);
    }
    vstd::arithmetic::div_mod::lemma_fundamental_div_mod(d, size as int);
    assert((d / (size as int) + 1) * size == d + size) by (nonlinear_arith)
        requires
            d == size * (d / (size as int)),
    ;
}

/// What the direct-map runs cover, for an inductive proof over the memory
/// map: every byte of a direct-mapped entry so far, and the whole last
/// frame mapped, which a byte of some entry so far reaches into.
proof fn lemma_direct_map_runs_cover(es: Seq<MemoryMapEntry>, size: u64)
    requires
        is_page_size(size),
        direct_map_mappable(es),
        sorted_memory_map(es),
    ensures
        forall|i: int, p: int|
            0 <= i < es.len() && is_direct_mapped(es[i].entry_type) && #[trigger] entry_holds(es[i], p)
                ==> runs_cover(direct_map_runs(es, size).0, size, p) && direct_map_runs(es, size).1 is Some
                && p <= direct_map_runs(es, size).1->0,
        direct_map_runs(es, size).1 matches Some(l) ==> {
            &&& l < PHYS_ADDR_LIMIT
            &&& (l + 1) % (size as int) == 0
            &&& forall|p: int| l + 1 - size <= p <= l ==> runs_cover(direct_map_runs(es, size).0, size, p)
            &&& exists|i: int|
                0 <= i < es.len() && is_direct_mapped(#[trigger] es[i].entry_type) && l + 1 - size
                    <= entry_last(es[i])
        },
    decreases es.len(),
{
    if es.len() == 0 {
        return;
    }
    let es0 = es.drop_last();
    let e = es.last();
    assert(direct_map_mappable(es0)) by {
        assert forall|j: int| 0 <= j < es0.len() && is_direct_mapped(#[trigger] es0[j].entry_type) implies es0[j].length > 0
            && es0[j].base + es0[j].length <= PHYS_ADDR_LIMIT by {
            assert(es0[j] == es[j]);
        }
    }
    assert(sorted_memory_map(es0)) by {
        assert forall|i: int, j: int| #![trigger es0[i], es0[j]] 0 <= i < j < es0.len() implies es0[i].base + es0[i].length
            <= es0[j].base by {
            assert(es0[i] == es[i] && es0[j] == es[j]);
        }
    }
    lemma_direct_map_runs_cover(es0, size);
    let (runs0, last0) = direct_map_runs(es0, size);
    let (runs, last) = direct_map_runs(es, size);
    assert forall|j: int| 0 <= j < es0.len() implies #[trigger] es0[j] == es[j] by {}
    if !is_direct_mapped(e.entry_type) {
        assert forall|i: int, p: int|
            0 <= i < es.len() && is_direct_mapped(es[i].entry_type) && #[trigger] entry_holds(es[i], p)
            implies runs_cover(runs, size, p) && last is Some && p <= last->0 by {
            assert(i < es.len() - 1);
            assert(es0[i] == es[i]);
        }
        if last is Some {
            let l = last->0;
            let w = choose|i: int|
                0 <= i < es0.len() && is_direct_mapped(#[trigger] es0[i].entry_type) && l + 1 - size
                    <= entry_last(es0[i]);
            assert(es0[w] == es[w]);
        }
        return;
    }
    assert(es[es.len() - 1] == e);
    assert(e.length > 0 && e.base + e.length <= PHYS_ADDR_LIMIT);
    let first = e.base;
    let lst = (e.base + e.length - 1) as u64;
    // Every byte of the new entry lies above every byte of the earlier ones.
    assert forall|i: int, p: int| 0 <= i < es0.len() && #[trigger] entry_holds(es0[i], p) implies p < first by {
        assert(es0[i] == es[i]);
        assert(es[i].base + es[i].length <= es[es.len() - 1].base);
    }
    match range_to_map(last0, e) {
        None => {
            let l0 = last0->0;
            assert(last0 is Some && first <= l0 && lst <= l0);
            let w = choose|i: int|
                0 <= i < es0.len() && is_direct_mapped(#[trigger] es0[i].entry_type) && l0 + 1 - size
                    <= entry_last(es0[i]);
            assert(entry_holds(es0[w], entry_last(es0[w])));
            assert(es0[w] == es[w]);
            assert(entry_last(es0[w]) < first);
            assert forall|i: int, p: int|
                0 <= i < es.len() && is_direct_mapped(es[i].entry_type) && #[trigger] entry_holds(es[i], p)
                implies runs_cover(runs, size, p) && last is Some && p <= last->0 by {
                if i < es.len() - 1 {
                    assert(es0[i] == es[i]);
                }
            }
        },
        Some(range) => {
            lemma_align_down(range.0, size);
            lemma_align_down(range.1, size);
            lemma_align_monotone(range.0, range.1, size);
            let ff = align_down(range.0, size);
            let lf = align_down(range.1, size);
            lemma_run_extent(ff, lf, size);
            assert(PHYS_ADDR_LIMIT % size == 0);
            lemma_aligned_below(lf, PHYS_ADDR_LIMIT as int, size as int);
            let run = (ff as u64, ((lf - ff) / (size as int) + 1) as u64);
            assert(runs == runs0.push(run));
            assert(run_covers(run, size, lf));
            assert(runs[runs.len() - 1] == run);
            assert forall|p: int| runs_cover(runs0, size, p) implies runs_cover(runs, size, p) by {
                let k = choose|k: int| 0 <= k < runs0.len() && run_covers(#[trigger] runs0[k], size, p);
                assert(runs[k] == runs0[k]);
            }
            assert forall|p: int| range.0 <= p <= lf + size - 1 implies runs_cover(runs, size, p) by {
                assert(run_covers(runs[runs.len() - 1], size, p));
            }
            if last0 is Some && first <= last0->0 {
                let l0 = last0->0;
                let w = choose|i: int|
                    0 <= i < es0.len() && is_direct_mapped(#[trigger] es0[i].entry_type) && l0 + 1 - size
                        <= entry_last(es0[i]);
                assert(entry_holds(es0[w], entry_last(es0[w])));
                assert(range.0 == l0 + 1);
                assert(ff == l0 + 1) by {
                    vstd::arithmetic::div_mod::lemma_fundamental_div_mod((l0 + 1) as int, size as int);
                    assert(align_down(range.0, size) == range.0) by (nonlinear_arith)
                        requires
                            (range.0 as int) % (size as int) == 0,
                            range.0 == size * (range.0 / size) + range.0 % size,
                            size > 0,
                    ;
                }
            }
            assert forall|i: int, p: int|
                0 <= i < es.len() && is_direct_mapped(es[i].entry_type) && #[trigger] entry_holds(es[i], p)
                implies runs_cover(runs, size, p) && last is Some && p <= last->0 by {
                if i < es.len() - 1 {
                    assert(es0[i] == es[i]);
                } else {
                    assert(es[i] == e);
                }
            }
            assert(0 <= es.len() - 1 < es.len() && is_direct_mapped(es[es.len() - 1].entry_type));
            assert(((lf + size - 1) + 1) % (size as int) == 0) by {
                vstd::arithmetic::div_mod::lemma_fundamental_div_mod(lf, size as int);
                vstd::arithmetic::div_mod::lemma_mod_multiples_basic(lf / (size as int) + 1, size as int);
                assert(lf + size == (lf / (size as int) + 1) * size) by (nonlinear_arith)
                    requires
                        lf == size * (lf / (size as int)) + lf % (size as int),
                        lf % (size as int) == 0,
                ;
            }
        },
    }
}

/// With the memory map sorted by address, as the Limine boot protocol
/// guarantees, every byte of a direct-mapped entry lies in one of the runs
/// of frames that the boot-time direct map maps.
pub proof fn lemma_direct_map_covers_entries(es: Seq<MemoryMapEntry>, size: u64, i: int, p: int)
    requires
        is_page_size(size),
        direct_map_mappable(es),
        sorted_memory_map(es),
        0 <= i < es.len(),
        is_direct_mapped(es[i].entry_type),
        entry_holds(es[i], p),
    ensures
        runs_cover(direct_map_runs(es, size).0, size, p),
{
    lemma_direct_map_runs_cover(es, size);
}

/// With the memory map sorted by address, as the Limine boot protocol
/// guarantees, the boot-time direct map maps exactly the frames that hold a
/// byte of a direct-mapped entry.
pub proof fn lemma_direct_map_runs_exact(es: Seq<MemoryMapEntry>, size: u64, p: u64)
    requires
        is_page_size(size),
        direct_map_mappable(es),
        sorted_memory_map(es),
    ensures
        runs_cover(direct_map_runs(es, size).0, size, p as int) <==> exists|i: int|
            0 <= i < es.len() && is_direct_mapped(#[trigger] es[i].entry_type) && es[i].base
                <= align_down(p, size) + size - 1 && align_down(p, size) <= entry_last(es[i]),
{
    let runs = direct_map_runs(es, size).0;
    lemma_align_down(p, size);
    if runs_cover(runs, size, p as int) {
        let k = choose|k: int| 0 <= k < runs.len() && run_covers(#[trigger] runs[k], size, p as int);
        lemma_direct_map_frames_hold_entries(es, size, k, p);
    }
    if exists|i: int|
        0 <= i < es.len() && is_direct_mapped(#[trigger] es[i].entry_type) && es[i].base
            <= align_down(p, size) + size - 1 && align_down(p, size) <= entry_last(es[i]) {
        let i = choose|i: int|
            0 <= i < es.len() && is_direct_mapped(#[trigger] es[i].entry_type) && es[i].base
                <= align_down(p, size) + size - 1 && align_down(p, size) <= entry_last(es[i]);
        let f = align_down(p, size);
        let q: int = if es[i].base <= f { f } else { es[i].base as int };
        lemma_direct_map_covers_entries(es, size, i, q);
        let k = choose|k: int| 0 <= k < runs.len() && run_covers(#[trigger] runs[k], size, q);
        lemma_direct_map_runs_shape(es, size);
        let r = runs[k];
        let (j, a, b) = choose|j: int, a: u64, b: u64| #[trigger] spans_entry(es, r, size, j, a, b);
        lemma_align_down(a, size);
        lemma_align_down(b, size);
        vstd::arithmetic::div_mod::lemma_mod_add_multiples_vanish(align_down(b, size), size as int);
        if r.0 > f {
            lemma_aligned_below(f, r.0 as int, size as int);
        }
        lemma_aligned_below(f, r.0 + r.1 * size, size as int);
        assert(run_covers(runs[k], size, p as int));
    }
}

/// A free block lies in a gap that it fits in: so it lies at or after the
/// aligned start of the first gap that fits it, when no gap before `i` does.
proof fn lemma_free_block_in_gap(
    used: Set<u64>,
    size: u64,
    len: int,
    start: u64,
    gaps: Seq<(u64, u64)>,
    i: int,
)
    requires
        is_page_size(size),
        len >= 1,
        free_block(used, size, len, start),
        0 <= i <= gaps.len(),
        forall|k: int| 0 <= k < gaps.len() ==> is_gap(used, HIGHER_HALF_START, #[trigger] gaps[k]),
        forall|k: int, j: int|
            #![trigger gaps[k], gaps[j]]
            0 <= k < j < gaps.len() ==> gaps[k].1 < gaps[j].0,
        forall|p: u64|
            HIGHER_HALF_START <= p && !#[trigger] used.contains(p) ==> exists|k: int|
                0 <= k < gaps.len() && #[trigger] gaps[k].0 <= p <= gaps[k].1,
        forall|k: int| 0 <= k < i ==> align_up(#[trigger] gaps[k].0, size) + len - 1 > gaps[k].1,
    ensures
        i < gaps.len(),
        i < gaps.len() ==> align_up(gaps[i].0, size) <= start,
{
    assert(!used.contains(start));
    let k = choose|k: int| 0 <= k < gaps.len() && #[trigger] gaps[k].0 <= start <= gaps[k].1;
    let g = gaps[k];
    assert(is_gap(used, HIGHER_HALF_START, g));
    if g.1 < start + len - 1 {
        assert(g.1 < u64::MAX);
        let q = (g.1 + 1) as u64;
        assert(used.contains(q));
        assert(start <= q <= start + len - 1);
    }
    lemma_align_up(g.0, size);
    assert(align_up(g.0, size) <= start);
    assert(k >= i);
    if k > i {
        assert(gaps[i].1 < gaps[k].0);
        lemma_align_up(gaps[i].0, size);
    }
}

} // verus!
