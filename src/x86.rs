use vstd::prelude::*;
use crate::mmu::{ArchMMUSpec, Endianess, sum_from};

verus! {

pub fn bits() -> (r: u8)
    ensures
        r == 32,
{
    32
}

pub fn endianess() -> (r: Endianess)
    ensures
        r == Endianess::LittleEndian,
{
    Endianess::LittleEndian
}

/// Two-level 32-bit paging with 4 MiB large pages. Entries without PAE
/// have no no-execute bit (bit 31 is a frame-address bit), so none is read.
pub fn get_mmu_spec() -> (r: ArchMMUSpec)
    ensures
        r.wf(),
        r.splits() == seq![10u8, 10u8, 12u8],
        r.valid_final_page_steps@ == seq![1usize, 2usize],
        r.address_space_bits == 32,
        r.addr_size == 4,
        r.pte_size == 4,
        r.present_bit == 0,
        r.writeable_bit == 1,
        r.nx_bit == 64,
        r.large_page_bit == 7,
{
    let r = ArchMMUSpec {
        virtual_address_splits: vec![10u8, 10u8, 12u8],
        valid_final_page_steps: vec![1usize, 2usize],
        address_space_bits: 32,
        addr_size: 4,
        pte_size: 4,
        present_bit: 0,
        writeable_bit: 1,
        nx_bit: 64,
        large_page_bit: 7,
    };
    proof {
        let s = r.splits();
        assert(s =~= seq![10u8, 10u8, 12u8]);
        assert(sum_from(s, 3) == 0);
        assert(sum_from(s, 2) == 12);
        assert(sum_from(s, 1) == 22);
        assert(sum_from(s, 0) == 32);
    }
    r
}

} // verus!
