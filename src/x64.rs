use vstd::prelude::*;
use crate::mmu::{ArchMMUSpec, Endianess, sum_from};

verus! {

pub fn bits() -> (r: u8)
    ensures
        r == 64,
{
    64
}

pub fn endianess() -> (r: Endianess)
    ensures
        r == Endianess::LittleEndian,
{
    Endianess::LittleEndian
}

/// Four-level 64-bit paging with 1 GiB and 2 MiB large pages.
pub fn get_mmu_spec() -> (r: ArchMMUSpec)
    ensures
        r.wf(),
        r.splits() == seq![9u8, 9u8, 9u8, 9u8, 12u8],
        r.valid_final_page_steps@ == seq![2usize, 3usize, 4usize],
        r.address_space_bits == 52,
        r.addr_size == 8,
        r.pte_size == 8,
        r.present_bit == 0,
        r.writeable_bit == 1,
        r.nx_bit == 63,
        r.large_page_bit == 7,
{
    let r = ArchMMUSpec {
        virtual_address_splits: vec![9u8, 9u8, 9u8, 9u8, 12u8],
        valid_final_page_steps: vec![2usize, 3usize, 4usize],
        address_space_bits: 52,
        addr_size: 8,
        pte_size: 8,
        present_bit: 0,
        writeable_bit: 1,
        nx_bit: 63,
        large_page_bit: 7,
    };
    proof {
        let s = r.splits();
        assert(s =~= seq![9u8, 9u8, 9u8, 9u8, 12u8]);
        assert(sum_from(s, 5) == 0);
        assert(sum_from(s, 4) == 12);
        assert(sum_from(s, 3) == 21);
        assert(sum_from(s, 2) == 30);
        assert(sum_from(s, 1) == 39);
        assert(sum_from(s, 0) == 48);
    }
    r
}

} // verus!
