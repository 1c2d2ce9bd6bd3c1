use memflow::architecture::{Architecture, TranslateArch};
use memflow::dummy::BufferMemory;
use memflow::mmu::make_bit_mask;
use memflow::phys_mem::PhysicalMemory;
use memflow::tlb::CachedVirtualTranslate;
use memflow::types::PhysicalAddress;
use memflow::size;
use memflow::types::PageInfo;
use memflow::virt_mem::{
    virt_read_addr, virt_read_raw_list, virt_write_raw_list, VirtualFromPhysical, VirtualReadData, VirtualWriteData,
};
use memflow::walker::TranslationOutcome;
use memflow::{x64, x86, x86_pae};

fn put32(mem: &mut Vec<u8>, at: usize, v: u32) {
    mem[at..at + 4].copy_from_slice(&v.to_le_bytes());
}

fn put64(mem: &mut Vec<u8>, at: usize, v: u64) {
    mem[at..at + 8].copy_from_slice(&v.to_le_bytes());
}

/// x86 tables: directory at 0x1000; entry 0 -> table 0x2000 whose entry 1
/// maps frame 0x5000; entry 2 is a 4 MiB page at 0x400000; entry 1 ->
/// table 0x3000 with nothing present.
fn x86_memory() -> Vec<u8> {
    let mut mem = vec![0u8; 0x10000];
    put32(&mut mem, 0x1000, 0x2000 | 1);
    put32(&mut mem, 0x2004, 0x5000 | 3);
    put32(&mut mem, 0x1008, 0x40_0000 | 0x81);
    put32(&mut mem, 0x1004, 0x3000 | 1);
    for i in 0..16usize {
        mem[0x5000 + i] = 0xA0 + i as u8;
    }
    mem
}

fn mapped(o: &TranslationOutcome) -> (u64, PageInfo) {
    match o {
        TranslationOutcome::Mapped(pa) => (pa.address, pa.page.unwrap()),
        other => panic!("not mapped: {:?}", other),
    }
}

#[test]
fn x86_small_walk() {
    let mut mem = BufferMemory::from_bytes(x86_memory());
    let mut vat = TranslateArch::new(Architecture::X86);
    let out = vat.translate_list(&mut mem, 0x1000, &vec![0x1000, 0x1ABC]).unwrap();
    assert_eq!(mapped(&out[0]).0, 0x5000);
    assert_eq!(mapped(&out[1]).0, 0x5ABC);
    assert_eq!(mapped(&out[1]).1.level, 0);
    assert!(mapped(&out[1]).1.writeable);
}

#[test]
fn x86_large_page() {
    let mut mem = BufferMemory::from_bytes(x86_memory());
    let mut vat = TranslateArch::new(Architecture::X86);
    let out = vat.translate_list(&mut mem, 0x1000, &vec![0x0080_0ABC]).unwrap();
    let (pa, page) = mapped(&out[0]);
    assert_eq!(pa, 0x0040_0ABC);
    assert_eq!(page.level, 1);
    assert!(!page.writeable);
    assert!(!page.nx);
    // the walk ends at the directory: no second-level table is read
    assert_eq!(mem.read_batches(), 1);
    assert_eq!(mem.read_elements(), 1);
}

#[test]
fn x86_not_present_and_backend_errors() {
    let mut mem = BufferMemory::from_bytes(x86_memory());
    let mut vat = TranslateArch::new(Architecture::X86);
    // directory entry 3 is clear; entry 1 leads to an empty table; a root
    // beyond the memory cannot be read
    let out = vat.translate_list(&mut mem, 0x1000, &vec![0x00C0_0000, 0x0040_1000]).unwrap();
    assert_eq!(out[0], TranslationOutcome::NotPresent(0));
    assert_eq!(out[1], TranslationOutcome::NotPresent(1));
    let out = vat.translate_list(&mut mem, 0xF000_0000, &vec![0x1000]).unwrap();
    assert_eq!(out[0], TranslationOutcome::BackendError(0));
}

#[test]
fn x86_rejects_wide_address() {
    let mut mem = BufferMemory::from_bytes(x86_memory());
    let mut vat = TranslateArch::new(Architecture::X86);
    let out = vat.translate_list(&mut mem, 0x1000, &vec![0x1_0000_1000]).unwrap();
    assert_eq!(out[0], TranslationOutcome::NonCanonical);
    assert_eq!(mem.read_batches(), 0);
}

fn x64_memory() -> Vec<u8> {
    let mut mem = vec![0u8; 0x10000];
    put64(&mut mem, 0x1000 + 8, 0x2000 | 1);
    put64(&mut mem, 0x2000 + 2 * 8, 0x3000 | 1);
    put64(&mut mem, 0x3000 + 3 * 8, 0x4000 | 1);
    put64(&mut mem, 0x4000 + 4 * 8, 0x9000 | 1 | (1u64 << 63));
    mem
}

#[test]
fn x64_deep_walk() {
    let mut mem = BufferMemory::from_bytes(x64_memory());
    let mut vat = TranslateArch::new(Architecture::X64);
    let v: u64 = (1u64 << 39) + (2u64 << 30) + (3u64 << 21) + (4u64 << 12) + 0x123;
    let out = vat.translate_list(&mut mem, 0x1000, &vec![v]).unwrap();
    let (pa, page) = mapped(&out[0]);
    assert_eq!(pa, 0x9123);
    assert_eq!(page.level, 0);
    assert!(page.nx);
    // one read per level, four levels
    assert_eq!(mem.read_batches(), 4);
    assert_eq!(mem.read_elements(), 4);
}

#[test]
fn x64_non_canonical() {
    let mut mem = BufferMemory::from_bytes(x64_memory());
    let mut vat = TranslateArch::new(Architecture::X64);
    let out = vat
        .translate_list(&mut mem, 0x1000, &vec![0x0000_8000_0000_0000, 0xFFFF_8000_0000_0000])
        .unwrap();
    assert_eq!(out[0], TranslationOutcome::NonCanonical);
    assert_eq!(out[1], TranslationOutcome::NotPresent(0));
}

#[test]
fn batched_dedup() {
    let mut bytes = vec![0u8; 0x10000];
    put32(&mut bytes, 0x1000, 0x2000 | 1);
    for i in 0..256usize {
        put32(&mut bytes, 0x2000 + 4 * i, (0x10_0000 + 0x1000 * i as u32) | 1);
    }
    let mut mem = BufferMemory::from_bytes(bytes);
    let mut vat = TranslateArch::new(Architecture::X86);
    let vaddrs: Vec<u64> = (0..256u64).map(|i| i * 0x1000 + 8).collect();
    let out = vat.translate_list(&mut mem, 0x1000, &vaddrs).unwrap();
    for i in 0..256usize {
        assert_eq!(mapped(&out[i]).0, 0x10_0000 + 0x1000 * i as u64 + 8);
    }
    // one entry read at the top level, 256 at the next
    assert_eq!(mem.read_batches(), 2);
    assert_eq!(mem.read_elements(), 1 + 256);
}

#[test]
fn partial_failure() {
    let mut mem = BufferMemory::from_bytes(x86_memory());
    let mut vat = TranslateArch::new(Architecture::X86);
    let mut data = vec![
        VirtualReadData { addr: 0x1000, buf: vec![0xFF; 4] },
        VirtualReadData { addr: 0x0040_1000, buf: vec![0xFF; 4] },
        VirtualReadData { addr: 0x1004, buf: vec![0xFF; 4] },
    ];
    let ok = virt_read_raw_list(&mut mem, &mut vat, 0x1000, &mut data).unwrap();
    assert_eq!(ok, vec![true, false, true]);
    let failed: Vec<u64> = data.iter().zip(ok.iter()).filter(|(_, k)| !**k).map(|(d, _)| d.addr).collect();
    assert_eq!(failed, vec![0x0040_1000]);
    assert_eq!(data[0].buf, vec![0xA0, 0xA1, 0xA2, 0xA3]);
    assert_eq!(data[1].buf, vec![0, 0, 0, 0]);
    assert_eq!(data[2].buf, vec![0xA4, 0xA5, 0xA6, 0xA7]);
    // the whole batch: two walk levels, then one physical read
    assert_eq!(mem.read_batches(), 3);
    assert_eq!(mem.read_elements(), 2 + 2 + 2);
}

#[test]
fn batch_permutation_same_results() {
    let mut vat = TranslateArch::new(Architecture::X86);
    let addrs = [0x1000u64, 0x0040_1000, 0x1004, 0x0080_0000];
    let mut mem = BufferMemory::from_bytes(x86_memory());
    let mut a: Vec<VirtualReadData> = addrs.iter().map(|&x| VirtualReadData { addr: x, buf: vec![0; 6] }).collect();
    let ok_a = virt_read_raw_list(&mut mem, &mut vat, 0x1000, &mut a).unwrap();
    let perm = [2usize, 0, 3, 1];
    let mut b: Vec<VirtualReadData> = perm.iter().map(|&i| VirtualReadData { addr: addrs[i], buf: vec![0; 6] }).collect();
    let ok_b = virt_read_raw_list(&mut mem, &mut vat, 0x1000, &mut b).unwrap();
    for (i, &p) in perm.iter().enumerate() {
        assert_eq!(b[i].buf, a[p].buf);
        assert_eq!(ok_b[i], ok_a[p]);
    }
}

#[test]
fn page_straddle() {
    // 0x1FFC..0x2004 crosses from the mapped page 0x1000 into 0x2000, whose
    // table entry is clear
    let mut bytes = x86_memory();
    for i in 0..4usize {
        bytes[0x5FFC + i] = 0x10 + i as u8;
    }
    let mut mem = BufferMemory::from_bytes(bytes.clone());
    let mut vat = TranslateArch::new(Architecture::X86);
    let mut data = vec![VirtualReadData { addr: 0x1FFC, buf: vec![0xFF; 8] }];
    let ok = virt_read_raw_list(&mut mem, &mut vat, 0x1000, &mut data).unwrap();
    assert_eq!(ok, vec![false]);
    assert_eq!(data[0].buf, vec![0x10, 0x11, 0x12, 0x13, 0, 0, 0, 0]);
    // with the second page mapped the read is the two pieces joined
    put32(&mut bytes, 0x2008, 0x6000 | 1);
    for i in 0..4usize {
        bytes[0x6000 + i] = 0x20 + i as u8;
    }
    let mut mem = BufferMemory::from_bytes(bytes);
    let mut data = vec![VirtualReadData { addr: 0x1FFC, buf: vec![0xFF; 8] }];
    let ok = virt_read_raw_list(&mut mem, &mut vat, 0x1000, &mut data).unwrap();
    assert_eq!(ok, vec![true]);
    assert_eq!(data[0].buf, vec![0x10, 0x11, 0x12, 0x13, 0x20, 0x21, 0x22, 0x23]);
}

#[test]
fn pointer_width() {
    let mut bytes = x86_memory();
    for i in 0..8usize {
        bytes[0x5010 + i] = 0x11 * (i as u8 + 1);
    }
    let mut mem = BufferMemory::from_bytes(bytes);
    let mut vat = TranslateArch::new(Architecture::X86);
    let ptr32 = virt_read_addr(&mut mem, &mut vat, Architecture::X86, 0x1000, 0x1010).unwrap();
    assert_eq!(ptr32, 0x4433_2211);
    let ptr64 = virt_read_addr(&mut mem, &mut vat, Architecture::X64, 0x1000, 0x1010).unwrap();
    assert_eq!(ptr64, 0x8877_6655_4433_2211);
    assert!(virt_read_addr(&mut mem, &mut vat, Architecture::X86, 0x1000, 0x0040_1000).is_err());
}

#[test]
fn leaf_sizes_per_architecture() {
    let x64 = x64::get_mmu_spec();
    assert_eq!(x64.page_size_level(1), size::kb(4));
    assert_eq!(x64.page_size_level(2), size::mb(2));
    assert_eq!(x64.page_size_level(3), size::mb(1024));
    let pae = x86_pae::get_mmu_spec();
    assert_eq!(pae.page_size_level(2), size::mb(2));
    let x86 = x86::get_mmu_spec();
    assert_eq!(x86.page_size_level(2), size::mb(4));
    assert_eq!(make_bit_mask(12, 51), 0x000F_FFFF_FFFF_F000);
    assert_eq!(x64.pt_leaf_size(0), size::kb(4));
    assert_eq!(pae.pt_leaf_size(0), 32);
    assert_eq!(Architecture::X64.bits(), 64);
    assert_eq!(Architecture::X86Pae.bits(), 32);
    assert_eq!(Architecture::X64.pointer_size(), 8);
}

#[test]
fn buffer_memory_bounds() {
    let mut mem = BufferMemory::new(16);
    let mut out = vec![0xFFu8; 4];
    mem.phys_read_into(PhysicalAddress::from_address(14), &mut out).unwrap();
    assert_eq!(out, vec![0, 0, 0, 0]);
    assert_eq!(mem.metadata().max_address, 15);
}

#[test]
fn tlb_hit_skips_walk() {
    let mut mem = BufferMemory::from_bytes(x86_memory());
    let mut tlb = CachedVirtualTranslate::new(TranslateArch::new(Architecture::X86), 64, &mem);
    let first = tlb.translate_cached(&mut mem, 0x1000, &vec![0x1000, 0x00C0_0000]).unwrap();
    assert_eq!(mapped(&first[0]).0, 0x5000);
    assert_eq!(first[1], TranslationOutcome::NotPresent(0));
    let batches = mem.read_batches();
    // another offset in the same page, and the remembered unmapped page
    let again = tlb.translate_cached(&mut mem, 0x1000, &vec![0x1ABC, 0x00C0_0010]).unwrap();
    assert_eq!(mapped(&again[0]).0, 0x5ABC);
    assert_eq!(again[1], TranslationOutcome::NotPresent(0));
    assert_eq!(mem.read_batches(), batches);
    // another address space is walked anew
    let other = tlb.translate_cached(&mut mem, 0x2000, &vec![0x1ABC]).unwrap();
    assert_eq!(other[0], TranslationOutcome::NotPresent(0));
    assert!(mem.read_batches() > batches);
}

#[test]
fn tlb_flush_sees_new_tables() {
    let mut mem = BufferMemory::from_bytes(x86_memory());
    let mut tlb = CachedVirtualTranslate::new(TranslateArch::new(Architecture::X86), 64, &mem);
    let a = tlb.translate_cached(&mut mem, 0x1000, &vec![0x1000]).unwrap();
    assert_eq!(mapped(&a[0]).0, 0x5000);
    mem.phys_write(PhysicalAddress::from_address(0x2004), &vec![0x01, 0x70, 0, 0]).unwrap();
    tlb.flush(&mem);
    let b = tlb.translate_cached(&mut mem, 0x1000, &vec![0x1000]).unwrap();
    assert_eq!(mapped(&b[0]).0, 0x7000);
}

#[test]
fn straddle_read_is_batched() {
    let mut bytes = x86_memory();
    put32(&mut bytes, 0x2008, 0x6000 | 1);
    put32(&mut bytes, 0x200C, 0x7000 | 1);
    bytes[0x5FF0] = 1;
    bytes[0x6000] = 2;
    bytes[0x7000] = 3;
    let mut mem = BufferMemory::from_bytes(bytes);
    let mut vat = TranslateArch::new(Architecture::X86);
    let mut data = vec![VirtualReadData { addr: 0x1FF0, buf: vec![0xFF; 0x1020] }];
    let ok = virt_read_raw_list(&mut mem, &mut vat, 0x1000, &mut data).unwrap();
    assert_eq!(ok, vec![true]);
    assert_eq!(data[0].buf[0], 1);
    assert_eq!(data[0].buf[0x10], 2);
    assert_eq!(data[0].buf[0x1010], 3);
    // two walk levels for three pages, then one physical read
    assert_eq!(mem.read_batches(), 3);
    assert_eq!(mem.read_elements(), 1 + 3 + 3);
}

#[test]
fn view_reads_c_string() {
    let mut bytes = x86_memory();
    bytes[0x5020..0x5029].copy_from_slice(b"smss.exe\0");
    bytes[0x5029] = b'X';
    let mem = BufferMemory::from_bytes(bytes);
    let vat = TranslateArch::new(Architecture::X86);
    let mut view = VirtualFromPhysical::with_vat(mem, Architecture::X86, Architecture::X86, 0x1000, vat);
    assert_eq!(view.virt_read_cstr(0x1020, 16).unwrap(), "smss.exe");
    assert_eq!(view.virt_read_addr(0x1000).unwrap(), 0xA3A2_A1A0);
    assert!(matches!(view.virt_read_cstr(0x0040_1000, 16), Err(memflow::types::Error::PartialRead)));
}

#[test]
fn virtual_write_then_read() {
    let mut mem = BufferMemory::from_bytes(x86_memory());
    let mut vat = TranslateArch::new(Architecture::X86);
    // the second element crosses into the unmapped page 0x2000
    let data = vec![
        VirtualWriteData { addr: 0x1100, buf: vec![1, 2, 3] },
        VirtualWriteData { addr: 0x1FFE, buf: vec![7, 8, 9, 10] },
    ];
    let ok = virt_write_raw_list(&mut mem, &mut vat, 0x1000, &data).unwrap();
    assert_eq!(ok, vec![true, false]);
    let mut back = vec![
        VirtualReadData { addr: 0x1100, buf: vec![0; 3] },
        VirtualReadData { addr: 0x1FFE, buf: vec![0; 2] },
    ];
    let rok = virt_read_raw_list(&mut mem, &mut vat, 0x1000, &mut back).unwrap();
    assert_eq!(rok, vec![true, true]);
    assert_eq!(back[0].buf, vec![1, 2, 3]);
    // the mapped piece was written, the rest skipped
    assert_eq!(back[1].buf, vec![7, 8]);
}
