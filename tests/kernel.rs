use memflow::architecture::{Architecture, TranslateArch};
use memflow::builder::KernelBuilder;
use memflow::dummy::BufferMemory;
use memflow::kernel::Kernel;
use memflow::types::Error;
use memflow::win32::{find_pid, same_name, KernelInfo, StartBlock, Win32Offsets, Win32ProcessInfo};

fn put32(mem: &mut Vec<u8>, at: usize, v: u32) {
    mem[at..at + 4].copy_from_slice(&v.to_le_bytes());
}

fn offsets() -> Win32Offsets {
    Win32Offsets {
        list_blink: 4,
        eproc_link: 0x88,
        kproc_dtb: 0x18,
        eproc_pid: 0x84,
        eproc_name: 0x174,
        eproc_peb: 0x1a8,
        eproc_thread_list: 0x50,
        eproc_wow64: 0,
        kthread_teb: 0x88,
        ethread_list_entry: 0x1c4,
        teb_peb: 0x30,
        teb_peb_x86: 0x30,
        peb_ldr_x86: 0xc,
        peb_ldr_x64: 0x18,
        ldr_list_x86: 0xc,
        ldr_list_x64: 0x10,
        ldr_data_base_x86: 0x18,
        ldr_data_base_x64: 0x30,
        ldr_data_size_x86: 0x20,
        ldr_data_size_x64: 0x40,
        ldr_data_name_x86: 0x2c,
        ldr_data_name_x64: 0x58,
    }
}

/// Identity-mapped first 4 MiB (one large page) with three processes
/// linked at 0x10000, 0x20000 and 0x30000.
fn kernel_memory() -> Vec<u8> {
    let mut mem = vec![0u8; 0x40000];
    put32(&mut mem, 0x1000, 0x83);
    let link = 0x88usize;
    let e = [0x10000usize, 0x20000, 0x30000];
    for i in 0..3 {
        let next = e[(i + 1) % 3] + link;
        let prev = e[(i + 2) % 3] + link;
        put32(&mut mem, e[i] + link, next as u32);
        put32(&mut mem, e[i] + link + 4, prev as u32);
        put32(&mut mem, e[i] + 0x18, 0x1000);
        put32(&mut mem, e[i] + 0x84, 4 + i as u32);
    }
    mem
}

fn info() -> KernelInfo {
    KernelInfo {
        start_block: StartBlock { arch: Architecture::X86, dtb: 0x1000 },
        kernel_base: 0x0,
        kernel_size: 0x1000,
        eprocess_base: 0x10000,
    }
}

#[test]
fn eprocess_list_walk() {
    let mem = BufferMemory::from_bytes(kernel_memory());
    let mut kernel = Kernel::new(mem, TranslateArch::new(Architecture::X86), offsets(), info());
    assert_eq!(kernel.sysproc_dtb, 0x1000);
    let list = kernel.eprocess_list().unwrap();
    // the entry whose link leads back to the start is not taken
    assert_eq!(list, vec![0x10000, 0x20000]);
}

#[test]
fn sysproc_dtb_falls_back() {
    let mut bytes = kernel_memory();
    put32(&mut bytes, 0x1000, 0);
    let mem = BufferMemory::from_bytes(bytes);
    let kernel = Kernel::new(mem, TranslateArch::new(Architecture::X86), offsets(), info());
    assert_eq!(kernel.sysproc_dtb, 0x1000);
    let mem = kernel.destroy();
    assert!(mem.read_batches() >= 1);
}

#[test]
fn builder_needs_kernel_info() {
    let r = Kernel::builder(BufferMemory::new(0x1000)).build();
    assert!(matches!(r, Err(Error::NotFound)));
    let r = KernelBuilder::new(BufferMemory::new(0x1000)).kernel_info(info()).build();
    assert!(matches!(r, Err(Error::NotFound)));
}

#[test]
fn builder_with_caches() {
    let kernel = Kernel::builder(BufferMemory::from_bytes(kernel_memory()))
        .kernel_info(info())
        .offsets(offsets())
        .build_default_caches()
        .build();
    let mut kernel = kernel.unwrap();
    assert_eq!(kernel.eprocess_list().unwrap(), vec![0x10000, 0x20000]);
    let r = Kernel::builder(BufferMemory::new(0x1000))
        .kernel_info(info())
        .offsets(offsets())
        .build_page_cache(0, 0x1000)
        .build();
    assert!(matches!(r, Err(Error::Config)));
}

fn proc_info(pid: i32, name: &str) -> Win32ProcessInfo {
    Win32ProcessInfo {
        address: 0,
        pid,
        name: name.to_string(),
        dtb: 0,
        ethread: 0,
        wow64: 0,
        teb: 0,
        peb: 0,
        peb_module: 0,
        sys_arch: Architecture::X86,
        proc_arch: Architecture::X86,
        ldr_data_base_offs: 0,
        ldr_data_size_offs: 0,
        ldr_data_name_offs: 0,
    }
}

#[test]
fn find_pid_first_match() {
    let list = vec![proc_info(4, "System"), proc_info(8, "smss.exe"), proc_info(8, "other")];
    assert_eq!(find_pid(&list, 8), Some(1));
    assert_eq!(find_pid(&list, 9), None);
    assert!(same_name(&"abc".to_string(), &"abc".to_string()));
    assert!(!same_name(&"abc".to_string(), &"abd".to_string()));
}

#[test]
fn process_info_from_eprocess_fails_without_peb() {
    let mem = BufferMemory::from_bytes(kernel_memory());
    let mut kernel = Kernel::new(mem, TranslateArch::new(Architecture::X86), offsets(), info());
    // the process's thread list leads outside the mapped range
    let mut bytes = kernel_memory();
    put32(&mut bytes, 0x10000 + 0x50, 0x0100_0000);
    let _ = bytes;
    assert!(kernel.process_info_from_eprocess(0x3F_FFF0).is_err());
    assert!(kernel.process_info_list().unwrap().is_empty());
    assert!(kernel.process_info_pid(4).is_err());
}

#[test]
fn builder_with_translation_cache() {
    let mut kernel = Kernel::builder(BufferMemory::from_bytes(kernel_memory()))
        .kernel_info(info())
        .offsets(offsets())
        .build_vat_cache(32)
        .build()
        .unwrap();
    assert_eq!(kernel.eprocess_list().unwrap(), vec![0x10000, 0x20000]);
    assert_eq!(kernel.eprocess_list().unwrap(), vec![0x10000, 0x20000]);
}

#[test]
fn ntoskrnl_without_image_fails() {
    let mem = BufferMemory::from_bytes(kernel_memory());
    let mut kernel = Kernel::new(mem, TranslateArch::new(Architecture::X86), offsets(), info());
    assert!(matches!(kernel.ntoskrnl_process_info(), Err(Error::NotFound)));
}

#[test]
fn module_info_reads_utf16_name() {
    let mut bytes = kernel_memory();
    let entry = 0x30000usize;
    put32(&mut bytes, entry + 0x18, 0x40_0000);
    put32(&mut bytes, entry + 0x20, 0x1000);
    bytes[entry + 0x2c] = 8;
    bytes[entry + 0x2e] = 8;
    put32(&mut bytes, entry + 0x30, 0x31000);
    for (i, c) in "ab.c".encode_utf16().enumerate() {
        bytes[0x31000 + 2 * i] = c as u8;
        bytes[0x31000 + 2 * i + 1] = (c >> 8) as u8;
    }
    let mem = BufferMemory::from_bytes(bytes);
    let mut kernel = Kernel::new(mem, TranslateArch::new(Architecture::X86), offsets(), info());
    let mut p = proc_info(4, "System");
    p.dtb = 0x1000;
    p.ldr_data_base_offs = 0x18;
    p.ldr_data_size_offs = 0x20;
    p.ldr_data_name_offs = 0x2c;
    let md = kernel.module_info_from_entry(&p, entry as u64).unwrap();
    assert_eq!(md.base, 0x40_0000);
    assert_eq!(md.size, 0x1000);
    assert_eq!(md.name, "ab.c");
}

/// Adds to the kernel memory a full process at 0x20000: name, PEB, thread,
/// TEB, loader data and one module named "Game.exe".
fn game_memory() -> Vec<u8> {
    let mut b = kernel_memory();
    let e = 0x20000usize;
    b[e + 0x174..e + 0x17d].copy_from_slice(b"game.exe\0");
    put32(&mut b, e + 0x1a8, 0x32000);
    put32(&mut b, e + 0x50, 0x33000 + 0x1c4);
    put32(&mut b, 0x33000 + 0x88, 0x34000);
    put32(&mut b, 0x34000 + 0x30, 0x32000);
    put32(&mut b, 0x32000 + 0xc, 0x35000);
    put32(&mut b, 0x35000 + 0xc, 0x36000);
    let m = 0x36000usize;
    put32(&mut b, m, m as u32);
    put32(&mut b, m + 0x18, 0x40_0000);
    put32(&mut b, m + 0x20, 0x2000);
    b[m + 0x2c] = 16;
    b[m + 0x2e] = 16;
    put32(&mut b, m + 0x30, 0x37000);
    for (i, c) in "Game.exe".encode_utf16().enumerate() {
        b[0x37000 + 2 * i] = c as u8;
        b[0x37000 + 2 * i + 1] = (c >> 8) as u8;
    }
    b
}

#[test]
fn process_lookup_by_pid_and_name() {
    let mem = BufferMemory::from_bytes(game_memory());
    let mut kernel = Kernel::new(mem, TranslateArch::new(Architecture::X86), offsets(), info());
    let list = kernel.process_info_list().unwrap();
    assert_eq!(list.len(), 1);
    let p = &list[0];
    assert_eq!(p.address, 0x20000);
    assert_eq!(p.pid, 5);
    assert_eq!(p.name, "game.exe");
    assert_eq!(p.ethread, 0x33000);
    assert_eq!(p.teb, 0x34000);
    assert_eq!(p.peb, 0x32000);
    assert_eq!(p.peb_module, 0x36000);
    assert_eq!(p.proc_arch, Architecture::X86);
    let mods = kernel.module_info_list(p).unwrap();
    assert_eq!(mods.len(), 1);
    assert_eq!(mods[0].name, "Game.exe");
    assert_eq!(kernel.process_info_pid(5).unwrap().address, 0x20000);
    assert!(matches!(kernel.process_info_pid(4), Err(Error::NotFound)));
    assert_eq!(kernel.process_info("Game.exe").unwrap().pid, 5);
    assert_eq!(kernel.process_info("GAME.EXE").unwrap().pid, 5);
    assert!(matches!(kernel.process_info("other.exe"), Err(Error::ProcessInfo)));
}
