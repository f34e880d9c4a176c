//! The offset of the higher-half direct map of physical memory.
use vstd::prelude::*;

verus! {

/// Virtual address at which the boot loader maps physical address zero;
/// every physical address `p` is mapped at `p + offset`.
#[derive(Clone, Copy)]
pub struct HhdmOffset(u64);

impl View for HhdmOffset {
    type V = u64;

    closed spec fn view(&self) -> u64 {
        self.0
    }
}

impl From<u64> for HhdmOffset {
    fn from(value: u64) -> (r: Self) {
        HhdmOffset(value)
    }
}

impl vstd::std_specs::convert::FromSpecImpl<u64> for HhdmOffset {
    open spec fn obeys_from_spec() -> bool {
        true
    }

    closed spec fn from_spec(value: u64) -> HhdmOffset {
        HhdmOffset(value)
    }
}

impl From<HhdmOffset> for u64 {
    fn from(value: HhdmOffset) -> (r: u64) {
        value.0
    }
}

impl vstd::std_specs::convert::FromSpecImpl<HhdmOffset> for u64 {
    open spec fn obeys_from_spec() -> bool {
        true
    }

    closed spec fn from_spec(value: HhdmOffset) -> u64 {
        value.0
    }
}

/// Converting an offset to `u64` gives its value.
pub proof fn lemma_hhdm_offset_into(offset: HhdmOffset)
    ensures
        <u64 as vstd::std_specs::convert::FromSpec<HhdmOffset>>::from_spec(offset) == offset@,
{
}

/// The offset round-trips through `u64`.
pub proof fn lemma_hhdm_offset_round_trip(value: u64)
    ensures
        <HhdmOffset as vstd::std_specs::convert::FromSpec<u64>>::from_spec(value)@ == value,
        <u64 as vstd::std_specs::convert::FromSpec<HhdmOffset>>::from_spec(
            <HhdmOffset as vstd::std_specs::convert::FromSpec<u64>>::from_spec(value),
        ) == value,
{
}

} // verus!
