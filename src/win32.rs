use vstd::prelude::*;
use crate::architecture::Architecture;
use pelite::pe32::exports::GetProcAddress as _;
use pelite::pe64::exports::GetProcAddress as _;

verus! {

/// Where the boot loader left the kernel's first address space.
#[derive(Clone, Copy, Debug, PartialEq, Eq, Structural)]
pub struct StartBlock {
    pub arch: Architecture,
    pub dtb: u64,
}

/// What a scan of physical memory found of the running kernel.
#[derive(Clone, Copy, Debug, PartialEq, Eq, Structural)]
pub struct KernelInfo {
    pub start_block: StartBlock,
    pub kernel_base: u64,
    pub kernel_size: u64,
    /// The EPROCESS of the System process.
    pub eprocess_base: u64,
}

/// Byte offsets into the kernel's structures for one kernel build.
#[derive(Clone, Copy, Debug, PartialEq, Eq, Structural)]
pub struct Win32Offsets {
    pub list_blink: u64,
    pub eproc_link: u64,
    pub kproc_dtb: u64,
    pub eproc_pid: u64,
    pub eproc_name: u64,
    pub eproc_peb: u64,
    pub eproc_thread_list: u64,
    pub eproc_wow64: u64,
    pub kthread_teb: u64,
    pub ethread_list_entry: u64,
    pub teb_peb: u64,
    pub teb_peb_x86: u64,
    pub peb_ldr_x86: u64,
    pub peb_ldr_x64: u64,
    pub ldr_list_x86: u64,
    pub ldr_list_x64: u64,
    pub ldr_data_base_x86: u64,
    pub ldr_data_base_x64: u64,
    pub ldr_data_size_x86: u64,
    pub ldr_data_size_x64: u64,
    pub ldr_data_name_x86: u64,
    pub ldr_data_name_x64: u64,
}

/// A process as the kernel's bookkeeping describes it.
#[derive(Clone, Debug)]
pub struct Win32ProcessInfo {
    /// Its EPROCESS.
    pub address: u64,
    pub pid: i32,
    pub name: String,
    pub dtb: u64,
    pub ethread: u64,
    pub wow64: u64,
    pub teb: u64,
    pub peb: u64,
    pub peb_module: u64,
    pub sys_arch: Architecture,
    pub proc_arch: Architecture,
    pub ldr_data_base_offs: u64,
    pub ldr_data_size_offs: u64,
    pub ldr_data_name_offs: u64,
}

impl Win32ProcessInfo {
    pub fn pid(&self) -> (r: i32)
        ensures
            r == self.pid,
    {
        self.pid
    }

    pub fn name(&self) -> (r: &String)
        ensures
            r == &self.name,
    {
        &self.name
    }
}

/// A module loaded into a process.
#[derive(Clone, Debug)]
pub struct Win32ModuleInfo {
    /// Its loader entry.
    pub address: u64,
    pub base: u64,
    pub size: u64,
    pub name: String,
}

/// `a + b` modulo 2^64, as guest address arithmetic is.
pub open spec fn wadd(a: u64, b: u64) -> u64 {
    ((a + b) % 0x1_0000_0000_0000_0000int) as u64
}

/// `a - b` modulo 2^64.
pub open spec fn wsub(a: u64, b: u64) -> u64 {
    ((a - b) % 0x1_0000_0000_0000_0000int) as u64
}

pub fn addr_add(a: u64, b: u64) -> (r: u64)
    ensures
        r == wadd(a, b),
{
    if a <= u64::MAX - b {
        a + b
    } else {
        a - (u64::MAX - b) - 1
    }
}

pub fn addr_sub(a: u64, b: u64) -> (r: u64)
    ensures
        r == wsub(a, b),
{
    if a >= b {
        a - b
    } else {
        u64::MAX - (b - a) + 1
    }
}

/// Text decoded from bytes, each malformed sequence replaced.
pub uninterp spec fn lossy_text(b: Seq<u8>) -> Seq<char>;

/// Text decoded from UTF-16 units, each malformed unit replaced.
pub uninterp spec fn utf16_text(u: Seq<u16>) -> Seq<char>;

/// The lowercase form of a text.
pub uninterp spec fn lower_of(s: Seq<char>) -> Seq<char>;

/// Relies on `String::from_utf8_lossy`: the text depends on the bytes alone.
#[verifier::external_body]
pub(crate) fn text_from_bytes(b: &Vec<u8>) -> (r: String)
    ensures
        r@ == lossy_text(b@),
{
    String::from_utf8_lossy(b.as_slice()).into_owned()
}

/// Relies on `String::from_utf16_lossy`: the text depends on the units alone.
#[verifier::external_body]
pub(crate) fn text_from_utf16(u: &Vec<u16>) -> (r: String)
    ensures
        r@ == utf16_text(u@),
{
    String::from_utf16_lossy(u.as_slice())
}

/// Relies on `str::to_lowercase`: the result depends on the text alone, and
/// an empty text stays empty.
#[verifier::external_body]
pub(crate) fn lowercase(s: &str) -> (r: String)
    ensures
        r@ == lower_of(s@),
        s@.len() == 0 ==> r@.len() == 0,
{
    s.to_lowercase()
}

/// The address, relative to the image base, of the symbol that the PE32
/// image `image` exports as `name`, when it exports one by that name.
pub uninterp spec fn pe32_symbol(image: Seq<u8>, name: Seq<char>) -> Option<u32>;

/// The same for a PE32+ image.
pub uninterp spec fn pe64_symbol(image: Seq<u8>, name: Seq<char>) -> Option<u32>;

/// The little-endian 32-bit value at `at`, when `b` holds it.
pub open spec fn u32_le_at(b: Seq<u8>, at: int) -> Option<u32> {
    if 0 <= at && at + 4 <= b.len() {
        Some((b[at] as int + 256 * (b[at + 1] as int) + 65536 * (b[at + 2] as int) + 16777216 * (
        b[at + 3] as int)) as u32)
    } else {
        None
    }
}

/// Whether the export data directory of the PE image `image`, whose
/// optional header has `opt_size` bytes before its data directories, ends
/// within 32 bits. Where the image does not hold the directory, a lookup
/// refuses the image before reading it.
pub open spec fn export_dir_sane(image: Seq<u8>, opt_size: int) -> bool {
    match u32_le_at(image, 0x3c) {
        None => true,
        Some(lfanew) => {
            let d = lfanew + 24 + opt_size;
            match (u32_le_at(image, d), u32_le_at(image, d + 4)) {
                (Some(va), Some(size)) => va + size <= u32::MAX,
                _ => true,
            }
        },
    }
}

fn u32_le_at_exec(b: &Vec<u8>, at: u64) -> (r: Option<u32>)
    ensures
        r == u32_le_at(b@, at as int),
{
    if at <= b.len() as u64 && 4 <= b.len() as u64 - at {
        let i = at as usize;
        let v: u64 = b[i] as u64 + 256 * (b[i + 1] as u64) + 65536 * (b[i + 2] as u64) + 16777216 * (
        b[i + 3] as u64);
        Some(v as u32)
    } else {
        None
    }
}

/// Computes `export_dir_sane`.
pub fn export_dir_sane_exec(image: &Vec<u8>, opt_size: u64) -> (r: bool)
    requires
        opt_size <= 0x1000,
    ensures
        r == export_dir_sane(image@, opt_size as int),
{
    match u32_le_at_exec(image, 0x3c) {
        None => true,
        Some(lfanew) => {
            let d = lfanew as u64 + 24 + opt_size;
            match (u32_le_at_exec(image, d), u32_le_at_exec(image, d + 4)) {
                (Some(va), Some(size)) => va as u64 + size as u64 <= u32::MAX as u64,
                _ => true,
            }
        },
    }
}

/// Relies on pelite's `pe32::PeView::from_bytes` and `get_export`: a symbol
/// found is the image's export by that name. The lookup adds the export
/// directory's address and size in 32 bits, hence the `requires`. `None` covers a forwarded
/// export, a missing one and an image pelite refuses, which includes one
/// whose buffer is not 4-byte aligned.
#[verifier::external_body]
pub(crate) fn pe32_symbol_of(image: &Vec<u8>, name: &str) -> (r: Option<u32>)
    requires
        export_dir_sane(image@, 96),
    ensures
        r matches Some(rva) ==> pe32_symbol(image@, name@) == Some(rva),
{
    match pelite::pe32::PeView::from_bytes(image.as_slice()) {
        Ok(pe) => match pe.get_export(name) {
            Ok(pelite::pe32::exports::Export::Symbol(rva)) => Some(*rva),
            _ => None,
        },
        Err(_) => None,
    }
}

/// Relies on pelite's `pe64::PeView::from_bytes` and `get_export`, as
/// `pe32_symbol_of` does for PE32 images.
#[verifier::external_body]
pub(crate) fn pe64_symbol_of(image: &Vec<u8>, name: &str) -> (r: Option<u32>)
    requires
        export_dir_sane(image@, 112),
    ensures
        r matches Some(rva) ==> pe64_symbol(image@, name@) == Some(rva),
{
    match pelite::pe64::PeView::from_bytes(image.as_slice()) {
        Ok(pe) => match pe.get_export(name) {
            Ok(pelite::pe64::exports::Export::Symbol(rva)) => Some(*rva),
            _ => None,
        },
        Err(_) => None,
    }
}

/// Whether two lowercased names are the same.
pub fn same_name(a: &String, b: &String) -> (r: bool)
    ensures
        r == (a@ == b@),
{
    a.eq(b)
}

/// Index of the first process of `list` with `pid`.
pub fn find_pid(list: &Vec<Win32ProcessInfo>, pid: i32) -> (r: Option<usize>)
    ensures
        r matches Some(i) ==> i < list@.len() && list@[i as int].pid == pid && forall|j: int|
            0 <= j < i ==> (#[trigger] list@[j]).pid != pid,
        r is None ==> forall|j: int| 0 <= j < list@.len() ==> (#[trigger] list@[j]).pid != pid,
{
    let mut i: usize = 0;
    while i < list.len()
        invariant
            i <= list@.len(),
            forall|j: int| 0 <= j < i ==> (#[trigger] list@[j]).pid != pid,
        decreases list@.len() - i,
    {
        if list[i].pid == pid {
            return Some(i);
        }
        i = i + 1;
    }
    None
}

/// The bytes of `b` up to its first zero byte.
pub open spec fn cstr_bytes(b: Seq<u8>) -> Seq<u8>
    decreases b.len(),
{
    if b.len() == 0 || b[0] == 0 {
        Seq::empty()
    } else {
        seq![b[0]] + cstr_bytes(b.subrange(1, b.len() as int))
    }
}

pub fn cstr_prefix(b: &Vec<u8>) -> (r: Vec<u8>)
    ensures
        r@ == cstr_bytes(b@),
{
    let mut n: usize = 0;
    while n < b.len() && b[n] != 0
        invariant
            n <= b@.len(),
            forall|k: int| 0 <= k < n ==> b@[k] != 0,
        decreases b@.len() - n,
    {
        n = n + 1;
    }
    let mut out: Vec<u8> = Vec::new();
    let mut i: usize = n;
    proof {
        lemma_cstr_at(b@, n as int);
    }
    while i > 0
        invariant
            i <= n,
            n <= b@.len(),
            forall|k: int| 0 <= k < n ==> b@[k] != 0,
            out@ == cstr_bytes(b@.subrange(i as int, b@.len() as int)).subrange(0, (n - i) as int),
            cstr_bytes(b@.subrange(i as int, b@.len() as int)).len() == n - i,
        decreases i,
    {
        i = i - 1;
        let ghost t = b@.subrange(i as int, b@.len() as int);
        assert(t.subrange(1, t.len() as int) =~= b@.subrange(i + 1, b@.len() as int));
        assert(t[0] == b@[i as int]);
        let mut one: Vec<u8> = Vec::new();
        one.push(b[i]);
        one.append(&mut out);
        out = one;
        assert(out@ =~= cstr_bytes(t).subrange(0, (n - i) as int));
    }
    assert(b@.subrange(0, b@.len() as int) =~= b@);
    assert(out@ =~= cstr_bytes(b@));
    out
}

proof fn lemma_cstr_at(b: Seq<u8>, n: int)
    requires
        0 <= n <= b.len(),
        n == b.len() || b[n] == 0,
    ensures
        cstr_bytes(b.subrange(n, b.len() as int)).len() == 0,
{
    let t = b.subrange(n, b.len() as int);
    if t.len() > 0 {
        assert(t[0] == b[n]);
    }
}

} // verus!
