use vstd::prelude::*;
use crate::mmu::{ArchMMUSpec, Endianess, sum_from};

verus! {

pub fn bits() -> (r: u8)
    ensures
        r == 32,
{
    32
}

pub fn endianess() -> (r: Endianess)
    ensures
        r == Endianess::LittleEndian,
{
    Endianess::LittleEndian
}

/// Three-level 32-bit paging with physical address extension: 8-byte
/// entries, 2 MiB large pages and NX.
pub fn get_mmu_spec() -> (r: ArchMMUSpec)
    ensures
        r.wf(),
        r.splits() == seq![2u8, 9u8, 9u8, 12u8],
        r.valid_final_page_steps@ == seq![2usize, 3usize],
        r.address_space_bits == 36,
        r.addr_size == 4,
        r.pte_size == 8,
        r.present_bit == 0,
        r.writeable_bit == 1,
        r.nx_bit == 63,
        r.large_page_bit == 7,
{
    let r = ArchMMUSpec {
        virtual_address_splits: vec![2u8, 9u8, 9u8, 12u8],
        valid_final_page_steps: vec![2usize, 3usize],
        address_space_bits: 36,
        addr_size: 4,
        pte_size: 8,
        present_bit: 0,
        writeable_bit: 1,
        nx_bit: 63,
        large_page_bit: 7,
    };
    proof {
        let s = r.splits();
        assert(s =~= seq![2u8, 9u8, 9u8, 12u8]);
        assert(sum_from(s, 4) == 0);
        assert(sum_from(s, 3) == 12);
        assert(sum_from(s, 2) == 21);
        assert(sum_from(s, 1) == 30);
        assert(sum_from(s, 0) == 32);
    }
    r
}

} // verus!
