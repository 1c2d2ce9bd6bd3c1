use memflow::mmu::make_bit_mask;
use memflow::size;
use memflow::types::Address;
use memflow::x86::get_mmu_spec;

#[test]
fn x86_pte_bitmasks() {
    let mmu = get_mmu_spec();
    let mask_addr = Address::invalid();
    assert_eq!(mmu.pte_addr_mask(mask_addr, 0), make_bit_mask(12, 31));
    assert_eq!(mmu.pte_addr_mask(mask_addr, 1), make_bit_mask(12, 31));
    assert_eq!(mmu.pte_addr_mask(mask_addr, 2), make_bit_mask(12, 31));
}

#[test]
fn x86_pte_leaf_size() {
    let mmu = get_mmu_spec();
    assert_eq!(mmu.pt_leaf_size(0), size::kb(4));
    assert_eq!(mmu.pt_leaf_size(1), size::kb(4));
}

#[test]
fn x86_page_size_level() {
    let mmu = get_mmu_spec();
    assert_eq!(mmu.page_size_level(1), size::kb(4));
    assert_eq!(mmu.page_size_level(2), size::mb(4));
}
