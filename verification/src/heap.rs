//! Where the global heap goes.
use vstd::prelude::*;
use crate::pmm::{MemoryMapEntry, ENTRY_USABLE};

verus! {

/// Whether the entry is usable memory of at least `size` bytes.
pub open spec fn holds_heap(e: MemoryMapEntry, size: u64) -> bool {
    e.entry_type == ENTRY_USABLE && e.length >= size
}

/// An entry holds the heap exactly when it is usable memory of at least
/// `size` bytes, wherever it starts.
pub proof fn lemma_holds_heap(e: MemoryMapEntry, size: u64)
    ensures
        holds_heap(e, size) <==> (e.entry_type == ENTRY_USABLE && e.length >= size),
{
}

/// The base of the first usable entry of the memory map that holds at
/// least `size` bytes; `None` when there is none.
pub fn find_heap_start(memory_map: &[MemoryMapEntry], size: u64) -> (r: Option<u64>)
    ensures
        match r {
            None => forall|i: int| 0 <= i < memory_map@.len() ==> !holds_heap(#[trigger] memory_map@[i], size),
            Some(base) => exists|i: int|
                0 <= i < memory_map@.len() && holds_heap(#[trigger] memory_map@[i], size)
                    && memory_map@[i].base == base && forall|j: int|
                    0 <= j < i ==> !holds_heap(#[trigger] memory_map@[j], size),
        },
        r is Some <==> exists|i: int|
            0 <= i < memory_map@.len() && (#[trigger] memory_map@[i]).entry_type == ENTRY_USABLE
                && memory_map@[i].length >= size,
        r matches Some(base) ==> exists|i: int|
            0 <= i < memory_map@.len() && (#[trigger] memory_map@[i]).entry_type == ENTRY_USABLE
                && memory_map@[i].length >= size && memory_map@[i].base == base && forall|j: int|
                0 <= j < i ==> !((#[trigger] memory_map@[j]).entry_type == ENTRY_USABLE
                    && memory_map@[j].length >= size),
{
    let mut i: usize = 0;
    while i < memory_map.len()
        invariant
            0 <= i <= memory_map.len(),
            forall|j: int| 0 <= j < i ==> !holds_heap(#[trigger] memory_map@[j], size),
        decreases memory_map.len() - i,
    {
        let entry = memory_map[i];
        if entry.entry_type == ENTRY_USABLE && entry.length >= size {
            assert(holds_heap(memory_map@[i as int], size));
            return Some(entry.base);
        }
        i += 1;
    }
    None
}

} // verus!
