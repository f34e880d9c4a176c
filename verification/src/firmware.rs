//! The firmware the boot loader reports.
use vstd::prelude::*;

verus! {

/// Firmware type numbers of the Limine boot protocol.
pub const FIRMWARE_X86_BIOS: u64 = 0;
pub const FIRMWARE_UEFI_32: u64 = 1;
pub const FIRMWARE_UEFI_64: u64 = 2;
pub const FIRMWARE_SBI: u64 = 3;

/// The name of a firmware type; unknown types are `UNKNOWN`.
pub open spec fn firmware_name(firmware_type: u64) -> Seq<char> {
    if firmware_type == FIRMWARE_X86_BIOS {
        "X86_BIOS"@
    } else if firmware_type == FIRMWARE_UEFI_32 {
        "UEFI_32"@
    } else if firmware_type == FIRMWARE_UEFI_64 {
        "UEFI_64"@
    } else if firmware_type == FIRMWARE_SBI {
        "SBI"@
    } else {
        "UNKNOWN"@
    }
}

/// The name of the firmware type that the boot loader reported.
pub fn get_firmware_type(firmware_type: u64) -> (r: &'static str)
    ensures
        r@ == firmware_name(firmware_type),
{
    if firmware_type == FIRMWARE_X86_BIOS {
        "X86_BIOS"
    } else if firmware_type == FIRMWARE_UEFI_32 {
        "UEFI_32"
    } else if firmware_type == FIRMWARE_UEFI_64 {
        "UEFI_64"
    } else if firmware_type == FIRMWARE_SBI {
        "SBI"
    } else {
        "UNKNOWN"
    }
}

} // verus!
