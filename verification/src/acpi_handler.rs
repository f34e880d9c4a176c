//! Access to ACPI tables through the higher-half direct map.
use vstd::prelude::*;
use crate::hhdm::HhdmOffset;

verus! {

/// Whether `addr` is a canonical x86_64 virtual address: bits 48 to 63
/// copy bit 47.
pub open spec fn is_canonical(addr: u64) -> bool {
    addr < 0x0000_8000_0000_0000 || 0xffff_8000_0000_0000 <= addr
}

/// `x86_64::VirtAddr::try_new`: the address when it is canonical.
#[verifier::external_body]
fn virt_addr_try_new(addr: u64) -> (r: Option<u64>)
    ensures
        r == if is_canonical(addr) {
            Some(addr)
        } else {
            None::<u64>
        },
{
    x86_64::VirtAddr::try_new(addr).ok().map(|v| v.as_u64())
}

/// The virtual address at which a physical address is reached through the
/// direct map, if that address exists and is not null.
pub open spec fn direct_map_address(hhdm: u64, physical_address: usize) -> Option<u64> {
    if hhdm + physical_address <= u64::MAX && is_canonical((hhdm + physical_address) as u64) && hhdm
        + physical_address != 0 {
        Some((hhdm + physical_address) as u64)
    } else {
        None
    }
}

/// Maps ACPI tables by reading them through the direct map.
#[derive(Clone, Copy)]
pub struct KernelAcpiHandler {}

impl KernelAcpiHandler {
    /// The virtual address that a region starting at `physical_address` is
    /// mapped at; `None` where the direct map has no such address.
    pub fn physical_to_virtual(&self, hhdm_offset: HhdmOffset, physical_address: usize) -> (r:
        Option<u64>)
        ensures
            r == direct_map_address(hhdm_offset@, physical_address),
    {
        let hhdm: u64 = hhdm_offset.into();
        proof {
            crate::hhdm::lemma_hhdm_offset_into(hhdm_offset);
        }
        match hhdm.checked_add(physical_address as u64) {
            None => None,
            Some(sum) => match virt_addr_try_new(sum) {
                None => None,
                Some(addr) => if addr == 0 {
                    None
                } else {
                    Some(addr)
                },
            },
        }
    }
}

} // verus!
