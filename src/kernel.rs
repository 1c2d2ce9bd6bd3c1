use vstd::prelude::*;
use vstd::pervasive::arbitrary;
use vstd::string::StringSliceAdditionalSpecFns;
use vstd::utf8::{decode_utf8, encode_utf8_decode_utf8};
use crate::architecture::{Architecture, VirtualTranslate};
use crate::phys_mem::PhysicalMemory;
use crate::types::Error;
use crate::virt_mem::{value_at, virt_fill, virt_ok, virt_read_range, virt_read_value, lemma_virt_fill_len};
use crate::win32::{
    KernelInfo, Win32ModuleInfo, Win32Offsets, Win32ProcessInfo, addr_add, addr_sub, cstr_bytes,
    cstr_prefix, export_dir_sane, export_dir_sane_exec, find_pid, lossy_text, pe32_symbol, pe32_symbol_of, pe64_symbol, pe64_symbol_of, lower_of, lowercase, same_name, text_from_bytes,
    text_from_utf16, utf16_text, wadd, wsub,
};

verus! {

/// The longest process or module list that a walk follows.
pub const MAX_LIST_ENTRIES: u64 = 0x10000;

/// The architecture of a process: a 32-bit process on a 64-bit kernel has a
/// WoW64 pointer.
pub open spec fn proc_arch_of(sys_arch: Architecture, wow64: u64) -> Architecture {
    if sys_arch.bits_spec() == 64 && wow64 == 0 {
        Architecture::X64
    } else {
        Architecture::X86
    }
}

/// The EPROCESS address of each process of `l`.
pub open spec fn addresses(l: Seq<Win32ProcessInfo>) -> Seq<u64> {
    Seq::new(l.len(), |i: int| l[i].address)
}

/// The loader entry of each module of `l`.
pub open spec fn module_addresses(l: Seq<Win32ModuleInfo>) -> Seq<u64> {
    Seq::new(l.len(), |i: int| l[i].address)
}

/// Whether `a` is one of `eps`.
pub open spec fn listed(eps: Seq<u64>, a: u64) -> bool {
    exists|j: int| 0 <= j < eps.len() && eps[j] == a
}

/// The length of the name prefix compared: 14 bytes, or all of `query`.
pub open spec fn query_cut(query: &str) -> usize {
    if query.len() < 14 {
        query.len()
    } else {
        14
    }
}

/// The text of the first `query_cut` bytes of `query`.
pub open spec fn query_prefix(query: &str) -> Seq<char> {
    decode_utf8(query.spec_bytes().subrange(0, query_cut(query) as int))
}

/// Whether a process name, lowercased, equals the first 14 bytes of `query`
/// (all of it when shorter), lowercased.
pub open spec fn name_matches_query(pname: Seq<char>, query: &str) -> bool {
    lower_of(pname) == lower_of(query_prefix(query))
}

/// Whether `p` and `q` agree on what a walk of the module list reads.
pub open spec fn same_ctx(p: Win32ProcessInfo, q: Win32ProcessInfo) -> bool {
    &&& p.dtb == q.dtb
    &&& p.proc_arch == q.proc_arch
    &&& p.peb_module == q.peb_module
    &&& p.ldr_data_base_offs == q.ldr_data_base_offs
    &&& p.ldr_data_size_offs == q.ldr_data_size_offs
    &&& p.ldr_data_name_offs == q.ldr_data_name_offs
}

/// The signed 32-bit value of the two's-complement bits `v < 2^32`.
pub open spec fn i32_of(v: u64) -> i32 {
    if v < 0x8000_0000 {
        v as i32
    } else {
        (v - 0x1_0000_0000) as i32
    }
}

/// Little-endian 16-bit units of `b`; an odd last byte is dropped.
pub open spec fn units_of(b: Seq<u8>) -> Seq<u16> {
    Seq::new(b.len() / 2, |i: int| (b[2 * i] as int + 256 * (b[2 * i + 1] as int)) as u16)
}

fn units_from_bytes(b: &Vec<u8>) -> (r: Vec<u16>)
    ensures
        r@ == units_of(b@),
{
    let n = b.len() / 2;
    let mut out: Vec<u16> = Vec::new();
    let mut i: usize = 0;
    while i < n
        invariant
            n == b@.len() / 2,
            i <= n,
            out@.len() == i,
            forall|k: int| 0 <= k < i ==> out@[k] == units_of(b@)[k],
        decreases n - i,
    {
        let len = b.len();
        assert(2 * i + 1 < len) by (nonlinear_arith)
            requires
                i < n,
                n == len / 2,
        ;
        let u = (b[2 * i] as u16) + 256 * (b[2 * i + 1] as u16);
        out.push(u);
        i = i + 1;
    }
    assert(out@ =~= units_of(b@));
    out
}

/// A Windows kernel over a physical memory: its address space, its offsets
/// and the processes and modules reachable from them.
pub struct Kernel<T, V> {
    pub phys_mem: T,
    pub vat: V,
    pub offsets: Win32Offsets,
    pub kernel_info: KernelInfo,
    pub sysproc_dtb: u64,
}

impl<T: PhysicalMemory, V: VirtualTranslate> Kernel<T, V> {
    pub open spec fn wf(&self) -> bool {
        &&& self.phys_mem.inv()
        &&& self.vat.ready(self.phys_mem.contents())
        &&& self.vat.arch() == self.kernel_info.start_block.arch
    }

    pub open spec fn sys_arch(&self) -> Architecture {
        self.kernel_info.start_block.arch
    }

    /// A pointer of `arch` at `addr` of the address space `dtb`.
    pub open spec fn ptr(&self, dtb: u64, arch: Architecture, addr: u64) -> Option<u64> {
        value_at(self.vat.mmu(), self.phys_mem.contents(), dtb, arch.pointer_size_spec() as int, addr)
    }

    /// A pointer in the kernel's own address space.
    pub open spec fn sys_ptr(&self, addr: u64) -> Option<u64> {
        self.ptr(self.sysproc_dtb, self.sys_arch(), addr)
    }

    /// The reads of the module whose loader entry is at `a` in process `p`:
    /// base, size, name length and name buffer, when all of them, and the
    /// name's bytes, can be read.
    pub open spec fn module_reads(&self, p: &Win32ProcessInfo, a: u64) -> Option<(u64, u64, u64, u64)> {
        let name_at = wadd(a, p.ldr_data_name_offs);
        match self.ptr(p.dtb, p.proc_arch, wadd(a, p.ldr_data_base_offs)) {
            None => None,
            Some(b) => match self.ptr(p.dtb, p.proc_arch, wadd(a, p.ldr_data_size_offs)) {
                None => None,
                Some(sz) => match value_at(self.vat.mmu(), self.phys_mem.contents(), p.dtb, 2, name_at) {
                    None => None,
                    Some(len) => match self.ptr(p.dtb, p.proc_arch, wadd(name_at, p.proc_arch.pointer_size_spec() as u64)) {
                        None => None,
                        Some(buf) => if virt_ok(self.vat.mmu(), self.phys_mem.contents(), p.dtb, buf as int, len as int) {
                            Some((b, sz, len, buf))
                        } else {
                            None
                        },
                    },
                },
            },
        }
    }

    /// Whether `md` holds what the loader entry at `md.address` of process
    /// `p` says: base, size, and the name its UNICODE_STRING points to.
    pub open spec fn module_read(&self, p: &Win32ProcessInfo, md: Win32ModuleInfo) -> bool {
        self.module_reads(p, md.address) matches Some((b, sz, len, buf)) && md.base == b && md.size == sz
            && md.name@ == utf16_text(units_of(virt_fill(self.vat.mmu(), self.phys_mem.contents(), p.dtb, buf as int, len as int)))
    }

    /// The entries of `es` whose module reads succeed, in order.
    pub open spec fn readable_modules(&self, p: &Win32ProcessInfo, es: Seq<u64>) -> Seq<u64>
        decreases es.len(),
    {
        if es.len() == 0 {
            Seq::empty()
        } else {
            let pre = self.readable_modules(p, es.drop_last());
            if self.module_reads(p, es.last()) is Some {
                pre.push(es.last())
            } else {
                pre
            }
        }
    }

    proof fn lemma_in_readable_modules(&self, p: &Win32ProcessInfo, es: Seq<u64>, j: int)
        requires
            0 <= j < es.len(),
            self.module_reads(p, es[j]) is Some,
        ensures
            listed(self.readable_modules(p, es), es[j]),
        decreases es.len(),
    {
        let f = self.readable_modules(p, es);
        if j == es.len() - 1 {
            assert(f[f.len() - 1] == es[j]);
        } else {
            let d = es.drop_last();
            assert(d[j] == es[j]);
            self.lemma_in_readable_modules(p, d, j);
            let g = self.readable_modules(p, d);
            let x = choose|x: int| 0 <= x < g.len() && g[x] == es[j];
            assert(f[x] == g[x]);
        }
    }

    /// The reads of a process made in the kernel's address space, in
    /// order: the raw pid, then those of `head_tail`.
    pub open spec fn head_reads(&self, e: u64) -> Option<(u64, u64, u64, u64)> {
        let o = self.offsets;
        match value_at(self.vat.mmu(), self.phys_mem.contents(), self.sysproc_dtb, 4, wadd(e, o.eproc_pid)) {
            None => None,
            Some(pid) => if !self.name_readable(e) {
                None
            } else {
                match self.head_tail(e) {
                    None => None,
                    Some((dtb, wow64, ethread)) => Some((pid, dtb, wow64, ethread)),
                }
            },
        }
    }

    /// Whether the 16 bytes of the image name of the process at `e` read.
    pub open spec fn name_readable(&self, e: u64) -> bool {
        virt_ok(self.vat.mmu(), self.phys_mem.contents(), self.sysproc_dtb, wadd(e, self.offsets.eproc_name) as int, 16)
    }

    /// Whether the pid and the name of the process at `e` read.
    pub open spec fn pid_name_readable(&self, e: u64) -> bool {
        &&& value_at(self.vat.mmu(), self.phys_mem.contents(), self.sysproc_dtb, 4, wadd(e, self.offsets.eproc_pid)) is Some
        &&& self.name_readable(e)
    }

    /// The table base, the WoW64 pointer (zero where the offsets have
    /// none), the native PEB (read, not kept) and the first thread.
    pub open spec fn head_tail(&self, e: u64) -> Option<(u64, u64, u64)> {
        let o = self.offsets;
        match self.sys_ptr(wadd(e, o.kproc_dtb)) {
            None => None,
            Some(dtb) => {
                let w = if o.eproc_wow64 == 0 {
                    Some(0u64)
                } else {
                    self.sys_ptr(wadd(e, o.eproc_wow64))
                };
                match w {
                    None => None,
                    Some(wow64) => match self.sys_ptr(wadd(e, o.eproc_peb)) {
                        None => None,
                        Some(_) => match self.sys_ptr(wadd(e, o.eproc_thread_list)) {
                            None => None,
                            Some(tl) => Some((dtb, wow64, wsub(tl, o.ethread_list_entry))),
                        },
                    },
                }
            },
        }
    }

    /// The TEB (0x2000 past the native one for a WoW64 process), the PEB
    /// (the TEB's, or the EPROCESS's where that is null) and the head of the
    /// module list, the last three read in the process's address space.
    pub open spec fn context_reads(&self, e: u64, dtb: u64, proc_arch: Architecture, wow64: u64, ethread: u64) -> Option<(u64, u64, u64)> {
        let o = self.offsets;
        match self.sys_ptr(wadd(ethread, o.kthread_teb)) {
            None => None,
            Some(tr) => {
                let teb = if wow64 == 0 { tr } else { wadd(tr, 0x2000) };
                let at = wadd(teb, if wow64 == 0 { o.teb_peb } else { o.teb_peb_x86 });
                match self.ptr(dtb, proc_arch, at) {
                    None => None,
                    Some(tp) => {
                        let pebo = if tp != 0 { Some(tp) } else { self.ptr(dtb, proc_arch, wadd(e, o.eproc_peb)) };
                        match pebo {
                            None => None,
                            Some(peb) => {
                                let pl = if proc_arch == Architecture::X64 { o.peb_ldr_x64 } else { o.peb_ldr_x86 };
                                let ll = if proc_arch == Architecture::X64 { o.ldr_list_x64 } else { o.ldr_list_x86 };
                                match self.ptr(dtb, proc_arch, wadd(peb, pl)) {
                                    None => None,
                                    Some(ldr) => match self.ptr(dtb, proc_arch, wadd(ldr, ll)) {
                                        None => None,
                                        Some(pm) => Some((teb, peb, pm)),
                                    },
                                }
                            },
                        }
                    },
                }
            },
        }
    }

    /// Whether every read of the process at `e` succeeds.
    pub open spec fn process_readable(&self, e: u64) -> bool {
        match self.head_reads(e) {
            Some((_, dtb, wow64, ethread)) => self.context_reads(
                e,
                dtb,
                proc_arch_of(self.sys_arch(), wow64),
                wow64,
                ethread,
            ) is Some,
            None => false,
        }
    }

    /// The processes of `eps` whose reads all succeed, in order.
    pub open spec fn readable_of(&self, eps: Seq<u64>) -> Seq<u64>
        decreases eps.len(),
    {
        if eps.len() == 0 {
            Seq::empty()
        } else {
            let pre = self.readable_of(eps.drop_last());
            if self.process_readable(eps.last()) {
                pre.push(eps.last())
            } else {
                pre
            }
        }
    }

    /// Whether the process at `e` reads with pid `pid`.
    pub open spec fn has_pid(&self, e: u64, pid: i32) -> bool {
        match self.head_reads(e) {
            Some((v, _, _, _)) => i32_of(v) == pid,
            None => false,
        }
    }

    /// Whether `p.pid` is the pid read at `p.address`.
    pub open spec fn pid_read(&self, p: Win32ProcessInfo) -> bool {
        self.head_reads(p.address) matches Some((v, _, _, _)) && p.pid == i32_of(v)
    }

    /// The first process of `s` with pid `pid`.
    pub open spec fn first_with_pid(&self, s: Seq<u64>, pid: i32) -> Option<u64>
        decreases s.len(),
    {
        if s.len() == 0 {
            None
        } else if self.has_pid(s[0], pid) {
            Some(s[0])
        } else {
            self.first_with_pid(s.drop_first(), pid)
        }
    }

    proof fn lemma_first_with_pid(&self, l: Seq<Win32ProcessInfo>, pid: i32, i: int)
        requires
            forall|x: int| 0 <= x < l.len() ==> self.pid_read(#[trigger] l[x]),
            0 <= i < l.len(),
            l[i].pid == pid,
            forall|j: int| 0 <= j < i ==> (#[trigger] l[j]).pid != pid,
        ensures
            self.first_with_pid(addresses(l), pid) == Some(l[i].address),
        decreases l.len(),
    {
        assert(self.pid_read(l[0]));
        assert(addresses(l)[0] == l[0].address);
        if i > 0 {
            let t = l.drop_first();
            assert forall|x: int| 0 <= x < t.len() implies self.pid_read(#[trigger] t[x]) by {
                assert(t[x] == l[x + 1]);
            }
            assert forall|j: int| 0 <= j < i - 1 implies (#[trigger] t[j]).pid != pid by {
                assert(t[j] == l[j + 1]);
            }
            assert(l[0].pid != pid);
            assert(t[i - 1] == l[i]);
            self.lemma_first_with_pid(t, pid, i - 1);
            assert(addresses(l).drop_first() =~= addresses(t));
        }
    }

    proof fn lemma_no_pid(&self, l: Seq<Win32ProcessInfo>, pid: i32)
        requires
            forall|x: int| 0 <= x < l.len() ==> self.pid_read(#[trigger] l[x]),
            forall|j: int| 0 <= j < l.len() ==> (#[trigger] l[j]).pid != pid,
        ensures
            self.first_with_pid(addresses(l), pid) is None,
        decreases l.len(),
    {
        if l.len() > 0 {
            assert(self.pid_read(l[0]));
            assert(addresses(l)[0] == l[0].address);
            let t = l.drop_first();
            assert forall|x: int| 0 <= x < t.len() implies self.pid_read(#[trigger] t[x]) by {
                assert(t[x] == l[x + 1]);
            }
            assert forall|j: int| 0 <= j < t.len() implies (#[trigger] t[j]).pid != pid by {
                assert(t[j] == l[j + 1]);
            }
            self.lemma_no_pid(t, pid);
            assert(addresses(l).drop_first() =~= addresses(t));
        }
    }

    /// The loader entries met walking `p`'s module list from `entry`,
    /// following at most `fuel` more links: `PartialRead` when a link cannot
    /// be read, `NotFound` when the list is longer. A null link, or one back
    /// to the list's head, ends it.
    pub open spec fn module_walk(&self, p: &Win32ProcessInfo, entry: u64, fuel: nat) -> Result<Seq<u64>, Error>
        decreases fuel,
    {
        if entry == 0 {
            Ok(Seq::empty())
        } else if fuel == 0 {
            Err(Error::NotFound)
        } else {
            match self.ptr(p.dtb, p.proc_arch, entry) {
                None => Err(Error::PartialRead),
                Some(next) => match self.module_walk(
                    p,
                    if next == p.peb_module { 0 } else { next },
                    (fuel - 1) as nat,
                ) {
                    Ok(rest) => Ok(seq![entry] + rest),
                    Err(e) => Err(e),
                },
            }
        }
    }

    /// The module walk depends on the memory and the paging hierarchy only.
    proof fn lemma_module_walk_same(a: &Self, b: &Self, p: &Win32ProcessInfo, entry: u64, fuel: nat)
        requires
            a.vat.mmu() == b.vat.mmu(),
            a.phys_mem.contents() == b.phys_mem.contents(),
        ensures
            a.module_walk(p, entry, fuel) == b.module_walk(p, entry, fuel),
        decreases fuel,
    {
        if entry != 0 && fuel > 0 {
            if let Some(next) = a.ptr(p.dtb, p.proc_arch, entry) {
                Self::lemma_module_walk_same(a, b, p, if next == p.peb_module { 0 } else { next }, (fuel - 1) as nat);
            }
        }
    }

    /// Whether `p` has a module whose name, lowercased, is `name` lowercased.
    /// The module must be on `p`'s module list.
    pub open spec fn has_module_named(&self, p: &Win32ProcessInfo, name: Seq<char>) -> bool {
        self.module_walk(p, p.peb_module, MAX_LIST_ENTRIES as nat) matches Ok(es) && exists|md: Win32ModuleInfo|
            #[trigger] self.module_read(p, md) && listed(es, md.address) && lower_of(md.name@) == lower_of(name)
    }

    /// What a read of the process at `e` gives, its name aside.
    pub open spec fn proc_at(&self, e: u64) -> Win32ProcessInfo {
        let (v, dtb, wow64, ethread) = self.head_reads(e)->Some_0;
        let arch = proc_arch_of(self.sys_arch(), wow64);
        let (teb, peb, pm) = self.context_reads(e, dtb, arch, wow64, ethread)->Some_0;
        let o = self.offsets;
        let wide = arch == Architecture::X64;
        Win32ProcessInfo {
            address: e,
            pid: i32_of(v),
            name: arbitrary(),
            dtb,
            ethread,
            wow64,
            teb,
            peb,
            peb_module: pm,
            sys_arch: self.sys_arch(),
            proc_arch: arch,
            ldr_data_base_offs: if wide { o.ldr_data_base_x64 } else { o.ldr_data_base_x86 },
            ldr_data_size_offs: if wide { o.ldr_data_size_x64 } else { o.ldr_data_size_x86 },
            ldr_data_name_offs: if wide { o.ldr_data_name_x64 } else { o.ldr_data_name_x86 },
        }
    }

    /// The name of the process at `e`.
    pub open spec fn proc_name(&self, e: u64) -> Seq<char> {
        lossy_text(cstr_bytes(virt_fill(self.vat.mmu(), self.phys_mem.contents(), self.sysproc_dtb, wadd(e, self.offsets.eproc_name) as int, 16)))
    }

    /// Whether `p` is what a read of the process at `p.address` gives.
    pub open spec fn proc_matches(&self, p: Win32ProcessInfo) -> bool {
        &&& self.process_readable(p.address)
        &&& same_ctx(p, self.proc_at(p.address))
        &&& p.name@ == self.proc_name(p.address)
    }

    /// The search of `process_info` over the processes `s`, in order: a
    /// process whose name matches is taken when its module list holds a
    /// module named `name`; the error of the first such module list that
    /// cannot be walked ends the search; `ProcessInfo` when none is taken.
    pub open spec fn scan(&self, s: Seq<u64>, name: &str) -> Result<u64, Error>
        decreases s.len(),
    {
        if s.len() == 0 {
            Err(Error::ProcessInfo)
        } else {
            let q = self.proc_at(s[0]);
            if name_matches_query(self.proc_name(s[0]), name) {
                match self.module_walk(&q, q.peb_module, MAX_LIST_ENTRIES as nat) {
                    Err(x) => Err(x),
                    Ok(_) => if self.has_module_named(&q, name@) {
                        Ok(s[0])
                    } else {
                        self.scan(s.drop_first(), name)
                    },
                }
            } else {
                self.scan(s.drop_first(), name)
            }
        }
    }

    proof fn lemma_walk_eq(a: &Self, b: &Self, p: &Win32ProcessInfo, q: &Win32ProcessInfo, entry: u64, fuel: nat)
        requires
            a.vat.mmu() == b.vat.mmu(),
            a.phys_mem.contents() == b.phys_mem.contents(),
            same_ctx(*p, *q),
        ensures
            a.module_walk(p, entry, fuel) == b.module_walk(q, entry, fuel),
        decreases fuel,
    {
        if entry != 0 && fuel > 0 {
            if let Some(next) = a.ptr(p.dtb, p.proc_arch, entry) {
                Self::lemma_walk_eq(a, b, p, q, if next == p.peb_module { 0 } else { next }, (fuel - 1) as nat);
            }
        }
    }

    proof fn lemma_named_eq(a: &Self, b: &Self, p: &Win32ProcessInfo, q: &Win32ProcessInfo, name: Seq<char>)
        requires
            a.vat.mmu() == b.vat.mmu(),
            a.phys_mem.contents() == b.phys_mem.contents(),
            same_ctx(*p, *q),
        ensures
            a.has_module_named(p, name) == b.has_module_named(q, name),
            a.module_walk(p, p.peb_module, MAX_LIST_ENTRIES as nat) == b.module_walk(q, q.peb_module, MAX_LIST_ENTRIES as nat),
    {
        Self::lemma_walk_eq(a, b, p, q, p.peb_module, MAX_LIST_ENTRIES as nat);
        assert forall|md: Win32ModuleInfo| a.module_read(p, md) == b.module_read(q, md) by {}
        if a.has_module_named(p, name) {
            let es = a.module_walk(p, p.peb_module, MAX_LIST_ENTRIES as nat)->Ok_0;
            let md = choose|md: Win32ModuleInfo| #[trigger] a.module_read(p, md) && listed(es, md.address) && lower_of(md.name@) == lower_of(name);
            assert(b.module_read(q, md));
        }
        if b.has_module_named(q, name) {
            let es = b.module_walk(q, q.peb_module, MAX_LIST_ENTRIES as nat)->Ok_0;
            let md = choose|md: Win32ModuleInfo| #[trigger] b.module_read(q, md) && listed(es, md.address) && lower_of(md.name@) == lower_of(name);
            assert(a.module_read(p, md));
        }
    }

    pub open spec fn list_start(&self) -> u64 {
        wadd(self.kernel_info.eprocess_base, self.offsets.eproc_link)
    }

    /// The EPROCESS addresses met walking the process list from `entry`,
    /// following at most `fuel` more links: `PartialRead` when a link cannot
    /// be read, `NotFound` when the list is longer. The entry whose link
    /// leads back to the start ends the walk and is not taken.
    pub open spec fn eprocess_walk(&self, entry: u64, fuel: nat) -> Result<Seq<u64>, Error>
        decreases fuel,
    {
        match (self.sys_ptr(entry), self.sys_ptr(wadd(entry, self.offsets.list_blink))) {
            (Some(flink), Some(blink)) => {
                if flink == 0 || blink == 0 || flink == self.list_start() {
                    Ok(Seq::empty())
                } else if fuel == 0 {
                    Err(Error::NotFound)
                } else {
                    match self.eprocess_walk(flink, (fuel - 1) as nat) {
                        Ok(rest) => Ok(seq![wsub(entry, self.offsets.eproc_link)] + rest),
                        Err(e) => Err(e),
                    }
                }
            },
            _ => Err(Error::PartialRead),
        }
    }

    pub open spec fn eprocesses(&self) -> Result<Seq<u64>, Error> {
        self.eprocess_walk(self.list_start(), MAX_LIST_ENTRIES as nat)
    }

    /// Binds a kernel to its memory. The System process's own table base is
    /// read from its EPROCESS; where that fails, the boot loader's is kept.
    pub fn new(phys_mem: T, vat: V, offsets: Win32Offsets, kernel_info: KernelInfo) -> (r: Self)
        requires
            phys_mem.inv(),
            vat.ready(phys_mem.contents()),
            vat.arch() == kernel_info.start_block.arch,
        ensures
            r.wf(),
            r.phys_mem.contents() == phys_mem.contents(),
            r.vat.mmu() == vat.mmu(),
            r.offsets == offsets,
            r.kernel_info == kernel_info,
            ({
                let read = value_at(
                    vat.mmu(),
                    phys_mem.contents(),
                    kernel_info.start_block.dtb,
                    kernel_info.start_block.arch.pointer_size_spec() as int,
                    wadd(kernel_info.eprocess_base, offsets.kproc_dtb),
                );
                &&& read is None ==> r.sysproc_dtb == kernel_info.start_block.dtb
                &&& r.sysproc_dtb == kernel_info.start_block.dtb || read == Some(r.sysproc_dtb)
                &&& T::infallible() ==> (read matches Some(d) ==> r.sysproc_dtb == d)
            }),
    {
        let mut phys_mem = phys_mem;
        let mut vat = vat;
        let arch = kernel_info.start_block.arch;
        let at = addr_add(kernel_info.eprocess_base, offsets.kproc_dtb);
        let sysproc_dtb = match virt_read_value(
            &mut phys_mem,
            &mut vat,
            kernel_info.start_block.dtb,
            at,
            arch.pointer_size() as usize,
        ) {
            Ok(dtb) => dtb,
            Err(_) => kernel_info.start_block.dtb,
        };
        Kernel { phys_mem, vat, offsets, kernel_info, sysproc_dtb }
    }

    /// Hands back the memory.
    pub fn destroy(self) -> (r: T)
        ensures
            r == self.phys_mem,
    {
        self.phys_mem
    }

    fn read_ptr(&mut self, dtb: u64, arch: Architecture, addr: u64) -> (r: Result<u64, Error>)
        requires
            old(self).wf(),
        ensures
            final(self).wf(),
            final(self).phys_mem.contents() == old(self).phys_mem.contents(),
            final(self).vat.mmu() == old(self).vat.mmu(),
            final(self).offsets == old(self).offsets,
            final(self).kernel_info == old(self).kernel_info,
            final(self).sysproc_dtb == old(self).sysproc_dtb,
            r is Ok ==> old(self).ptr(dtb, arch, addr) == Some(r->Ok_0),
            old(self).ptr(dtb, arch, addr) is None ==> r is Err,
            r matches Err(e) ==> (e == Error::Backend && !T::infallible()) || (e == Error::PartialRead
                && old(self).ptr(dtb, arch, addr) is None),
    {
        virt_read_value(&mut self.phys_mem, &mut self.vat, dtb, addr, arch.pointer_size() as usize)
    }

    /// The EPROCESS of every process on the kernel's process list, in list
    /// order.
    pub fn eprocess_list(&mut self) -> (r: Result<Vec<u64>, Error>)
        requires
            old(self).wf(),
        ensures
            final(self).wf(),
            final(self).phys_mem.contents() == old(self).phys_mem.contents(),
            final(self).vat.mmu() == old(self).vat.mmu(),
            final(self).offsets == old(self).offsets,
            final(self).kernel_info == old(self).kernel_info,
            final(self).sysproc_dtb == old(self).sysproc_dtb,
            r is Ok ==> old(self).eprocesses() == Ok::<Seq<u64>, Error>(r->Ok_0@),
            r matches Err(e) ==> (e == Error::Backend && !T::infallible()) || old(self).eprocesses()
                == Err::<Seq<u64>, Error>(e),
    {
        let ghost k = *self;
        let start = addr_add(self.kernel_info.eprocess_base, self.offsets.eproc_link);
        let dtb = self.sysproc_dtb;
        let arch = self.kernel_info.start_block.arch;
        let mut eprocs: Vec<u64> = Vec::new();
        let mut entry = start;
        let mut fuel: u64 = MAX_LIST_ENTRIES;
        let mut done = false;
        let mut fatal: Option<Error> = None;
        while !done
            invariant
                self.wf(),
                self.phys_mem.contents() == k.phys_mem.contents(),
                self.vat.mmu() == k.vat.mmu(),
                self.offsets == k.offsets,
                self.kernel_info == k.kernel_info,
                self.sysproc_dtb == k.sysproc_dtb,
                dtb == k.sysproc_dtb,
                arch == k.sys_arch(),
                start == k.list_start(),
                fuel <= MAX_LIST_ENTRIES,
                fatal is Some ==> done,
                fatal matches Some(e) ==> (e == Error::Backend && !T::infallible()) || k.eprocesses()
                    == Err::<Seq<u64>, Error>(e),
                fatal is None && done ==> k.eprocesses() == Ok::<Seq<u64>, Error>(eprocs@),
                !done ==> match k.eprocess_walk(entry, fuel as nat) {
                    Ok(rest) => k.eprocesses() == Ok::<Seq<u64>, Error>(eprocs@ + rest),
                    Err(e) => k.eprocesses() == Err::<Seq<u64>, Error>(e),
                },
            decreases fuel + (if done { 0int } else { 1int }),
        {
            let ghost w = k.eprocess_walk(entry, fuel as nat);
            let flink = self.read_ptr(dtb, arch, entry);
            let blink = self.read_ptr(dtb, arch, addr_add(entry, self.offsets.list_blink));
            if flink.is_err() || blink.is_err() {
                fatal = Some(if flink.is_err() { flink.unwrap_err() } else { blink.unwrap_err() });
                done = true;
                continue;
            }
            let flink = flink.unwrap();
            let blink = blink.unwrap();
            if flink == 0 || blink == 0 || flink == start {
                done = true;
                proof {
                    assert(w == Ok::<Seq<u64>, Error>(Seq::<u64>::empty()));
                    assert(eprocs@ + Seq::<u64>::empty() =~= eprocs@);
                }
            } else if fuel == 0 {
                fatal = Some(Error::NotFound);
                done = true;
            } else {
                let e = addr_sub(entry, self.offsets.eproc_link);
                proof {
                    match k.eprocess_walk(flink, (fuel - 1) as nat) {
                        Ok(rest) => {
                            assert(eprocs@.push(e) + rest =~= eprocs@ + (seq![e] + rest));
                        },
                        Err(_) => {},
                    }
                }
                eprocs.push(e);
                entry = flink;
                fuel = fuel - 1;
            }
        }
        if fatal.is_some() {
            return Err(fatal.unwrap());
        }
        Ok(eprocs)
    }

    fn read_pid_name(&mut self, eprocess: u64) -> (r: Result<(i32, String), Error>)
        requires
            old(self).wf(),
        ensures
            final(self).wf(),
            final(self).phys_mem.contents() == old(self).phys_mem.contents(),
            final(self).vat.mmu() == old(self).vat.mmu(),
            final(self).offsets == old(self).offsets,
            final(self).kernel_info == old(self).kernel_info,
            final(self).sysproc_dtb == old(self).sysproc_dtb,
            r matches Ok((pid, name)) ==> {
                let k = old(self);
                let o = k.offsets;
                let m = k.phys_mem.contents();
                &&& value_at(k.vat.mmu(), m, k.sysproc_dtb, 4, wadd(eprocess, o.eproc_pid)) matches Some(v)
                    && pid == i32_of(v)
                &&& name@ == lossy_text(
                    cstr_bytes(virt_fill(k.vat.mmu(), m, k.sysproc_dtb, wadd(eprocess, o.eproc_name) as int, 16)),
                )
            },
            r matches Err(e) ==> (e == Error::Backend && !T::infallible()) || (e == Error::PartialRead
                && !old(self).pid_name_readable(eprocess)),
            !old(self).pid_name_readable(eprocess) ==> r is Err,
    {
        let o = self.offsets;
        let sdtb = self.sysproc_dtb;
        let pid_raw = virt_read_value(&mut self.phys_mem, &mut self.vat, sdtb, addr_add(eprocess, o.eproc_pid), 4)?;
        proof {
            lemma_virt_fill_len(self.vat.mmu(), self.phys_mem.contents(), sdtb, wadd(eprocess, o.eproc_pid) as int, 4);
            crate::walker::lemma_le_value_bound(virt_fill(self.vat.mmu(), self.phys_mem.contents(), sdtb, wadd(eprocess, o.eproc_pid) as int, 4));
            reveal_with_fuel(crate::walker::pow256, 5);
        }
        let pid = if pid_raw < 0x8000_0000 {
            pid_raw as i32
        } else {
            (pid_raw as i64 - 0x1_0000_0000i64) as i32
        };
        let (name_ok, name_buf) = virt_read_range(&mut self.phys_mem, &mut self.vat, sdtb, addr_add(eprocess, o.eproc_name), 16)?;
        if !name_ok {
            return Err(Error::PartialRead);
        }
        let name = text_from_bytes(&cstr_prefix(&name_buf));
        Ok((pid, name))
    }

    /// The TEB, the PEB and the head of the module list of a process, read
    /// partly in its own address space.
    fn process_context(
        &mut self,
        eprocess: u64,
        dtb: u64,
        proc_arch: Architecture,
        wow64: u64,
        ethread: u64,
    ) -> (r: Result<(u64, u64, u64), Error>)
        requires
            old(self).wf(),
        ensures
            final(self).wf(),
            final(self).phys_mem.contents() == old(self).phys_mem.contents(),
            final(self).vat.mmu() == old(self).vat.mmu(),
            final(self).offsets == old(self).offsets,
            final(self).kernel_info == old(self).kernel_info,
            final(self).sysproc_dtb == old(self).sysproc_dtb,
            r matches Ok((teb, peb, pm)) ==> old(self).context_reads(eprocess, dtb, proc_arch, wow64, ethread)
                == Some((teb, peb, pm)),
            r matches Err(e) ==> (e == Error::Backend && !T::infallible()) || (e == Error::PartialRead
                && old(self).context_reads(eprocess, dtb, proc_arch, wow64, ethread) is None),
            old(self).context_reads(eprocess, dtb, proc_arch, wow64, ethread) is None ==> r is Err,
    {
        let o = self.offsets;
        let sdtb = self.sysproc_dtb;
        let sys_arch = self.kernel_info.start_block.arch;
        let teb_raw = self.read_ptr(sdtb, sys_arch, addr_add(ethread, o.kthread_teb))?;
        let teb = if wow64 == 0 {
            teb_raw
        } else {
            addr_add(teb_raw, 0x2000)
        };
        // from here on the reads are in the process's own address space
        let teb_peb = if wow64 == 0 {
            self.read_ptr(dtb, proc_arch, addr_add(teb, o.teb_peb))?
        } else {
            self.read_ptr(dtb, proc_arch, addr_add(teb, o.teb_peb_x86))?
        };
        let real_peb = if teb_peb != 0 {
            teb_peb
        } else {
            self.read_ptr(dtb, proc_arch, addr_add(eprocess, o.eproc_peb))?
        };
        let (peb_ldr_offs, ldr_list_offs) = if proc_arch == Architecture::X64 {
            (o.peb_ldr_x64, o.ldr_list_x64)
        } else {
            (o.peb_ldr_x86, o.ldr_list_x86)
        };
        let peb_ldr = self.read_ptr(dtb, proc_arch, addr_add(real_peb, peb_ldr_offs))?;
        let peb_module = self.read_ptr(dtb, proc_arch, addr_add(peb_ldr, ldr_list_offs))?;
        Ok((teb, real_peb, peb_module))
    }

    /// What the kernel process reads as, given the address `rva` of the
    /// `PsLoadedModuleList` export relative to the kernel's base.
    pub open spec fn ntoskrnl_fields(&self, p: Win32ProcessInfo, rva: u32) -> bool {
        let base = self.kernel_info.kernel_base;
        let wide = self.sys_arch().bits_spec() == 64;
        let o = self.offsets;
        &&& self.sys_ptr(wadd(base, rva as u64)) == Some(p.peb_module)
        &&& p.address == base
        &&& p.pid == 0
        &&& p.name@ == "ntoskrnl.exe"@
        &&& p.dtb == self.sysproc_dtb
        &&& p.sys_arch == self.sys_arch() && p.proc_arch == self.sys_arch()
        &&& p.ldr_data_base_offs == if wide { o.ldr_data_base_x64 } else { o.ldr_data_base_x86 }
        &&& p.ldr_data_size_offs == if wide { o.ldr_data_size_x64 } else { o.ldr_data_size_x86 }
        &&& p.ldr_data_name_offs == if wide { o.ldr_data_name_x64 } else { o.ldr_data_name_x86 }
        &&& p.ethread == 0 && p.wow64 == 0 && p.teb == 0 && p.peb == 0
    }

    /// Whether the module list head at `sym` cannot be read.
    pub open spec fn list_head_unreadable(&self, sym: Option<u32>) -> bool {
        match sym {
            Some(rva) => self.sys_ptr(wadd(self.kernel_info.kernel_base, rva as u64)) is None,
            None => false,
        }
    }

    /// The kernel image as read from its base.
    pub open spec fn kernel_image(&self) -> Seq<u8> {
        virt_fill(self.vat.mmu(), self.phys_mem.contents(), self.sysproc_dtb, self.kernel_info.kernel_base as int, self.kernel_info.kernel_size as int)
    }

    /// The export `PsLoadedModuleList` of the kernel image.
    pub open spec fn module_list_symbol(&self) -> Option<u32> {
        if self.sys_arch().bits_spec() == 64 {
            pe64_symbol(self.kernel_image(), "PsLoadedModuleList"@)
        } else {
            pe32_symbol(self.kernel_image(), "PsLoadedModuleList"@)
        }
    }

    /// The kernel process, given the looked-up address of its module list
    /// relative to the kernel's base: `NotFound` without one, `PartialRead`
    /// when the list head cannot be read.
    pub fn ntoskrnl_from_symbol(&mut self, sym: Option<u32>) -> (r: Result<Win32ProcessInfo, Error>)
        requires
            old(self).wf(),
        ensures
            final(self).wf(),
            final(self).phys_mem.contents() == old(self).phys_mem.contents(),
            final(self).vat.mmu() == old(self).vat.mmu(),
            final(self).offsets == old(self).offsets,
            final(self).kernel_info == old(self).kernel_info,
            final(self).sysproc_dtb == old(self).sysproc_dtb,
            sym is None ==> r == Err::<Win32ProcessInfo, Error>(Error::NotFound),
            r matches Ok(p) ==> sym matches Some(rva) && old(self).ntoskrnl_fields(p, rva),
            r matches Err(e) ==> (e == Error::Backend && !T::infallible()) || (e == Error::NotFound
                && sym is None) || (e == Error::PartialRead && old(self).list_head_unreadable(sym)),
            old(self).list_head_unreadable(sym) ==> r is Err,
    {
        let rva = match sym {
            Some(rva) => rva,
            None => {
                return Err(Error::NotFound);
            },
        };
        let base = self.kernel_info.kernel_base;
        let sdtb = self.sysproc_dtb;
        let arch = self.kernel_info.start_block.arch;
        let wide = arch.bits() == 64;
        let peb_module = self.read_ptr(sdtb, arch, addr_add(base, rva as u64))?;
        let o = self.offsets;
        let (ldr_data_base_offs, ldr_data_size_offs, ldr_data_name_offs) = if wide {
            (o.ldr_data_base_x64, o.ldr_data_size_x64, o.ldr_data_name_x64)
        } else {
            (o.ldr_data_base_x86, o.ldr_data_size_x86, o.ldr_data_name_x86)
        };
        Ok(
            Win32ProcessInfo {
                address: base,
                pid: 0,
                name: "ntoskrnl.exe".to_owned(),
                dtb: sdtb,
                ethread: 0,
                wow64: 0,
                teb: 0,
                peb: 0,
                peb_module,
                sys_arch: arch,
                proc_arch: arch,
                ldr_data_base_offs,
                ldr_data_size_offs,
                ldr_data_name_offs,
            },
        )
    }

    /// The kernel itself as a process: pid 0, named `ntoskrnl.exe`, whose
    /// module list is the one `PsLoadedModuleList` heads. The export is
    /// looked up in the kernel image read from its base; an image whose
    /// export directory's end overflows 32 bits is refused with `NotFound`.
    pub fn ntoskrnl_process_info(&mut self) -> (r: Result<Win32ProcessInfo, Error>)
        requires
            old(self).wf(),
        ensures
            final(self).wf(),
            final(self).phys_mem.contents() == old(self).phys_mem.contents(),
            final(self).vat.mmu() == old(self).vat.mmu(),
            final(self).offsets == old(self).offsets,
            final(self).kernel_info == old(self).kernel_info,
            final(self).sysproc_dtb == old(self).sysproc_dtb,
            r matches Ok(p) ==> old(self).module_list_symbol() matches Some(rva) && old(self).ntoskrnl_fields(
                p,
                rva,
            ),
            old(self).kernel_info.kernel_size > 0xffff_ffff ==> r == Err::<Win32ProcessInfo, Error>(Error::NotFound),
            !export_dir_sane(old(self).kernel_image(), if old(self).sys_arch().bits_spec() == 64 { 112 } else { 96 })
                && old(self).kernel_info.kernel_size <= 0xffff_ffff && T::infallible()
                ==> r == Err::<Win32ProcessInfo, Error>(Error::NotFound),
            r matches Err(e) ==> (e == Error::Backend && !T::infallible()) || e == Error::NotFound || (e
                == Error::PartialRead && old(self).list_head_unreadable(old(self).module_list_symbol())),
    {
        let size = self.kernel_info.kernel_size;
        if size > 0xffff_ffff {
            return Err(Error::NotFound);
        }
        let base = self.kernel_info.kernel_base;
        let sdtb = self.sysproc_dtb;
        let arch = self.kernel_info.start_block.arch;
        let (_, image) = virt_read_range(&mut self.phys_mem, &mut self.vat, sdtb, base, size as usize)?;
        let wide = arch.bits() == 64;
        let opt_size: u64 = if wide {
            112
        } else {
            96
        };
        if !export_dir_sane_exec(&image, opt_size) {
            return Err(Error::NotFound);
        }
        let sym = if wide {
            pe64_symbol_of(&image, "PsLoadedModuleList")
        } else {
            pe32_symbol_of(&image, "PsLoadedModuleList")
        };
        self.ntoskrnl_from_symbol(sym)
    }

    /// The reads of `head_tail`.
    fn read_head(&mut self, eprocess: u64) -> (r: Result<(u64, u64, u64), Error>)
        requires
            old(self).wf(),
        ensures
            final(self).wf(),
            final(self).phys_mem.contents() == old(self).phys_mem.contents(),
            final(self).vat.mmu() == old(self).vat.mmu(),
            final(self).offsets == old(self).offsets,
            final(self).kernel_info == old(self).kernel_info,
            final(self).sysproc_dtb == old(self).sysproc_dtb,
            r matches Ok(t) ==> old(self).head_tail(eprocess) == Some(t),
            r matches Err(e) ==> (e == Error::Backend && !T::infallible()) || (e == Error::PartialRead
                && old(self).head_tail(eprocess) is None),
            old(self).head_tail(eprocess) is None ==> r is Err,
    {
        let o = self.offsets;
        let sdtb = self.sysproc_dtb;
        let sys_arch = self.kernel_info.start_block.arch;
        let dtb = self.read_ptr(sdtb, sys_arch, addr_add(eprocess, o.kproc_dtb))?;
        let wow64 = if o.eproc_wow64 == 0 {
            0
        } else {
            self.read_ptr(sdtb, sys_arch, addr_add(eprocess, o.eproc_wow64))?
        };
        let _native_peb = self.read_ptr(sdtb, sys_arch, addr_add(eprocess, o.eproc_peb))?;
        let thread_link = self.read_ptr(sdtb, sys_arch, addr_add(eprocess, o.eproc_thread_list))?;
        let ethread = addr_sub(thread_link, o.ethread_list_entry);
        Ok((dtb, wow64, ethread))
    }

    /// Reads the process whose EPROCESS is at `eprocess`.
    #[verifier::rlimit(100)]
    pub fn process_info_from_eprocess(&mut self, eprocess: u64) -> (r: Result<Win32ProcessInfo, Error>)
        requires
            old(self).wf(),
        ensures
            final(self).wf(),
            final(self).phys_mem.contents() == old(self).phys_mem.contents(),
            final(self).vat.mmu() == old(self).vat.mmu(),
            final(self).offsets == old(self).offsets,
            final(self).kernel_info == old(self).kernel_info,
            final(self).sysproc_dtb == old(self).sysproc_dtb,
            !old(self).process_readable(eprocess) ==> r is Err,
            r matches Err(e) ==> (e == Error::Backend && !T::infallible()) || (e == Error::PartialRead
                && !old(self).process_readable(eprocess)),
            r matches Ok(p) ==> {
                &&& old(self).head_reads(eprocess) matches Some((v, dtb, wow64, ethread)) && p.pid == i32_of(v)
                    && p.dtb == dtb && p.wow64 == wow64 && p.ethread == ethread
                &&& old(self).context_reads(eprocess, p.dtb, p.proc_arch, p.wow64, p.ethread) == Some(
                    (p.teb, p.peb, p.peb_module),
                )
            },
            r matches Ok(p) ==> {
                let k = old(self);
                let o = k.offsets;
                &&& p.address == eprocess
                &&& p.sys_arch == k.sys_arch()
                &&& p.name@ == lossy_text(
                    cstr_bytes(virt_fill(k.vat.mmu(), k.phys_mem.contents(), k.sysproc_dtb, wadd(eprocess, o.eproc_name) as int, 16)),
                )
                &&& p.proc_arch == proc_arch_of(k.sys_arch(), p.wow64)
                &&& p.ldr_data_base_offs == if p.proc_arch == Architecture::X64 { o.ldr_data_base_x64 } else { o.ldr_data_base_x86 }
                &&& p.ldr_data_size_offs == if p.proc_arch == Architecture::X64 { o.ldr_data_size_x64 } else { o.ldr_data_size_x86 }
                &&& p.ldr_data_name_offs == if p.proc_arch == Architecture::X64 { o.ldr_data_name_x64 } else { o.ldr_data_name_x86 }
            },
    {
        let o = self.offsets;
        let sdtb = self.sysproc_dtb;
        let sys_arch = self.kernel_info.start_block.arch;
        let (pid, name) = self.read_pid_name(eprocess)?;
        let (dtb, wow64, ethread) = self.read_head(eprocess)?;
        let proc_arch = if sys_arch.bits() == 64 && wow64 == 0 {
            Architecture::X64
        } else {
            Architecture::X86
        };
        let (teb, real_peb, peb_module) = self.process_context(eprocess, dtb, proc_arch, wow64, ethread)?;
        let (ldr_data_base_offs, ldr_data_size_offs, ldr_data_name_offs) = if proc_arch
            == Architecture::X64 {
            (o.ldr_data_base_x64, o.ldr_data_size_x64, o.ldr_data_name_x64)
        } else {
            (o.ldr_data_base_x86, o.ldr_data_size_x86, o.ldr_data_name_x86)
        };
        Ok(
            Win32ProcessInfo {
                address: eprocess,
                pid,
                name,
                dtb,
                ethread,
                wow64,
                teb,
                peb: real_peb,
                peb_module,
                sys_arch,
                proc_arch,
                ldr_data_base_offs,
                ldr_data_size_offs,
                ldr_data_name_offs,
            },
        )
    }

    /// Every process on the list that could be read, in list order.
    pub fn process_info_list(&mut self) -> (r: Result<Vec<Win32ProcessInfo>, Error>)
        requires
            old(self).wf(),
        ensures
            final(self).wf(),
            final(self).phys_mem.contents() == old(self).phys_mem.contents(),
            final(self).vat.mmu() == old(self).vat.mmu(),
            final(self).offsets == old(self).offsets,
            final(self).kernel_info == old(self).kernel_info,
            final(self).sysproc_dtb == old(self).sysproc_dtb,
            old(self).eprocesses() is Err ==> r is Err,
            r matches Ok(l) ==> {
                &&& old(self).eprocesses() is Ok
                &&& forall|i: int|
                    0 <= i < l@.len() ==> listed(old(self).eprocesses()->Ok_0, #[trigger] l@[i].address)
                &&& forall|i: int| 0 <= i < l@.len() ==> old(self).pid_read(#[trigger] l@[i])
                &&& forall|i: int| 0 <= i < l@.len() ==> old(self).proc_matches(#[trigger] l@[i])
                &&& T::infallible() ==> addresses(l@) == old(self).readable_of(old(self).eprocesses()->Ok_0)
            },
            r matches Err(e) ==> (e == Error::Backend && !T::infallible()) || old(self).eprocesses()
                == Err::<Seq<u64>, Error>(e),
    {
        let ghost k = *self;
        let eps = self.eprocess_list()?;
        let mut list: Vec<Win32ProcessInfo> = Vec::new();
        let mut i: usize = 0;
        while i < eps.len()
            invariant
                self.wf(),
                self.phys_mem.contents() == k.phys_mem.contents(),
                self.vat.mmu() == k.vat.mmu(),
                self.offsets == k.offsets,
                self.kernel_info == k.kernel_info,
                self.sysproc_dtb == k.sysproc_dtb,
                k.eprocesses() == Ok::<Seq<u64>, Error>(eps@),
                i <= eps@.len(),
                forall|a: int|
                    0 <= a < list@.len() ==> exists|j: int|
                        0 <= j < eps@.len() && #[trigger] eps@[j] == (#[trigger] list@[a]).address,
                forall|a: int| 0 <= a < list@.len() ==> k.pid_read(#[trigger] list@[a]),
                forall|a: int| 0 <= a < list@.len() ==> k.proc_matches(#[trigger] list@[a]),
                T::infallible() ==> addresses(list@) == k.readable_of(eps@.subrange(0, i as int)),
            decreases eps@.len() - i,
        {
            let e = eps[i];
            let ghost prev0 = list@;
            proof {
                let sub = eps@.subrange(0, i + 1);
                assert(sub.drop_last() =~= eps@.subrange(0, i as int));
                assert(sub.last() == e);
            }
            match self.process_info_from_eprocess(e) {
                Ok(p) => {
                    let ghost prev = list@;
                    list.push(p);
                    proof {
                        assert(addresses(list@) =~= addresses(prev).push(e));
                        assert forall|a: int| 0 <= a < list@.len() implies k.pid_read(#[trigger] list@[a]) by {
                            if a < prev.len() {
                                assert(list@[a] == prev[a]);
                            }
                        }
                        assert forall|a: int| 0 <= a < list@.len() implies k.proc_matches(#[trigger] list@[a]) by {
                            if a < prev.len() {
                                assert(list@[a] == prev[a]);
                            }
                        }
                        assert(eps@[i as int] == list@[list@.len() - 1].address);
                        assert forall|a: int| 0 <= a < list@.len() implies exists|j: int|
                            0 <= j < eps@.len() && #[trigger] eps@[j] == (#[trigger] list@[a]).address by {
                            if a < prev.len() {
                                assert(list@[a] == prev[a]);
                            } else {
                                assert(eps@[i as int] == list@[a].address);
                            }
                        }
                    }
                },
                Err(_) => {
                    assert(list@ == prev0);
                },
            }
            i = i + 1;
        }
        proof {
            assert(eps@.subrange(0, eps@.len() as int) =~= eps@);
            let es = k.eprocesses()->Ok_0;
            assert(es == eps@);
            assert forall|a: int| 0 <= a < list@.len() implies listed(es, #[trigger] list@[a].address) by {
                let j = choose|j: int| 0 <= j < eps@.len() && #[trigger] eps@[j] == (#[trigger] list@[a]).address;
                assert(es[j] == list@[a].address);
            }
        }
        Ok(list)
    }

    /// The first readable process with `pid`.
    pub fn process_info_pid(&mut self, pid: i32) -> (r: Result<Win32ProcessInfo, Error>)
        requires
            old(self).wf(),
        ensures
            final(self).wf(),
            final(self).phys_mem.contents() == old(self).phys_mem.contents(),
            final(self).vat.mmu() == old(self).vat.mmu(),
            final(self).kernel_info == old(self).kernel_info,
            final(self).offsets == old(self).offsets,
            final(self).sysproc_dtb == old(self).sysproc_dtb,
            old(self).eprocesses() is Err ==> r is Err,
            r matches Ok(p) ==> {
                &&& p.pid == pid
                &&& old(self).eprocesses() is Ok
                &&& listed(old(self).eprocesses()->Ok_0, p.address)
            },
            r matches Err(e) ==> (e == Error::Backend && !T::infallible()) || old(self).eprocesses()
                == Err::<Seq<u64>, Error>(e) || (e == Error::NotFound && old(self).eprocesses() is Ok),
            T::infallible() && old(self).eprocesses() is Ok ==> match old(self).first_with_pid(
                old(self).readable_of(old(self).eprocesses()->Ok_0),
                pid,
            ) {
                Some(a) => r matches Ok(p) && p.address == a,
                None => r == Err::<Win32ProcessInfo, Error>(Error::NotFound),
            },
    {
        let ghost k = *self;
        let mut list = self.process_info_list()?;
        let ghost l = list@;
        match find_pid(&list, pid) {
            Some(i) => {
                proof {
                    k.lemma_first_with_pid(l, pid, i as int);
                }
                let p = list.remove(i);
                Ok(p)
            },
            None => {
                proof {
                    k.lemma_no_pid(l, pid);
                }
                Err(Error::NotFound)
            },
        }
    }

    /// The loader entries of `p`'s module list, in list order.
    fn module_entries(&mut self, p: &Win32ProcessInfo) -> (r: Result<Vec<u64>, Error>)
        requires
            old(self).wf(),
        ensures
            final(self).wf(),
            final(self).phys_mem.contents() == old(self).phys_mem.contents(),
            final(self).vat.mmu() == old(self).vat.mmu(),
            final(self).offsets == old(self).offsets,
            final(self).kernel_info == old(self).kernel_info,
            final(self).sysproc_dtb == old(self).sysproc_dtb,
            r is Ok ==> old(self).module_walk(p, p.peb_module, MAX_LIST_ENTRIES as nat) == Ok::<
                Seq<u64>,
                Error,
            >(r->Ok_0@),
            r matches Err(e) ==> (e == Error::Backend && !T::infallible()) || old(self).module_walk(
                p,
                p.peb_module,
                MAX_LIST_ENTRIES as nat,
            ) == Err::<Seq<u64>, Error>(e),
    {
        let ghost k = *self;
        let ghost all = k.module_walk(p, p.peb_module, MAX_LIST_ENTRIES as nat);
        let start = p.peb_module;
        let mut entries: Vec<u64> = Vec::new();
        let mut entry = start;
        let mut fuel: u64 = MAX_LIST_ENTRIES;
        let mut done = false;
        let mut fatal: Option<Error> = None;
        while !done
            invariant
                self.wf(),
                self.phys_mem.contents() == k.phys_mem.contents(),
                self.vat.mmu() == k.vat.mmu(),
                self.offsets == k.offsets,
                self.kernel_info == k.kernel_info,
                self.sysproc_dtb == k.sysproc_dtb,
                start == p.peb_module,
                all == k.module_walk(p, p.peb_module, MAX_LIST_ENTRIES as nat),
                fuel <= MAX_LIST_ENTRIES,
                fatal is Some ==> done,
                fatal matches Some(e) ==> (e == Error::Backend && !T::infallible()) || all == Err::<
                    Seq<u64>,
                    Error,
                >(e),
                fatal is None && done ==> all == Ok::<Seq<u64>, Error>(entries@),
                !done ==> match k.module_walk(p, entry, fuel as nat) {
                    Ok(rest) => all == Ok::<Seq<u64>, Error>(entries@ + rest),
                    Err(e) => all == Err::<Seq<u64>, Error>(e),
                },
            decreases fuel + (if done { 0int } else { 1int }),
        {
            if entry == 0 {
                done = true;
                assert(entries@ + Seq::<u64>::empty() =~= entries@);
            } else if fuel == 0 {
                fatal = Some(Error::NotFound);
                done = true;
            } else {
                match self.read_ptr(p.dtb, p.proc_arch, entry) {
                    Ok(next) => {
                        let e = entry;
                        let n2 = if next == start {
                            0
                        } else {
                            next
                        };
                        proof {
                            match k.module_walk(p, n2, (fuel - 1) as nat) {
                                Ok(rest) => {
                                    assert(entries@.push(e) + rest =~= entries@ + (seq![e] + rest));
                                },
                                Err(_) => {},
                            }
                        }
                        entries.push(e);
                        entry = n2;
                        fuel = fuel - 1;
                    },
                    Err(e) => {
                        fatal = Some(e);
                        done = true;
                    },
                }
            }
        }
        if fatal.is_some() {
            return Err(fatal.unwrap());
        }
        Ok(entries)
    }

    /// Reads the module whose loader entry is at `entry` in process `p`.
    pub fn module_info_from_entry(&mut self, p: &Win32ProcessInfo, entry: u64) -> (r: Result<Win32ModuleInfo, Error>)
        requires
            old(self).wf(),
        ensures
            final(self).wf(),
            final(self).phys_mem.contents() == old(self).phys_mem.contents(),
            final(self).vat.mmu() == old(self).vat.mmu(),
            final(self).offsets == old(self).offsets,
            final(self).kernel_info == old(self).kernel_info,
            final(self).sysproc_dtb == old(self).sysproc_dtb,
            r matches Ok(md) ==> md.address == entry && old(self).module_read(p, md),
            r matches Err(e) ==> (e == Error::Backend && !T::infallible()) || (e == Error::PartialRead
                && old(self).module_reads(p, entry) is None),
            old(self).module_reads(p, entry) is None ==> r is Err,
    {
        let base = self.read_ptr(p.dtb, p.proc_arch, addr_add(entry, p.ldr_data_base_offs))?;
        let size = self.read_ptr(p.dtb, p.proc_arch, addr_add(entry, p.ldr_data_size_offs))?;
        let name_at = addr_add(entry, p.ldr_data_name_offs);
        let len = virt_read_value(&mut self.phys_mem, &mut self.vat, p.dtb, name_at, 2)?;
        proof {
            lemma_virt_fill_len(self.vat.mmu(), self.phys_mem.contents(), p.dtb, name_at as int, 2);
            crate::walker::lemma_le_value_bound(virt_fill(self.vat.mmu(), self.phys_mem.contents(), p.dtb, name_at as int, 2));
            reveal_with_fuel(crate::walker::pow256, 3);
        }
        let buf = self.read_ptr(p.dtb, p.proc_arch, addr_add(name_at, p.proc_arch.pointer_size() as u64))?;
        let (name_ok, bytes) = virt_read_range(&mut self.phys_mem, &mut self.vat, p.dtb, buf, len as usize)?;
        if !name_ok {
            return Err(Error::PartialRead);
        }
        let name = text_from_utf16(&units_from_bytes(&bytes));
        Ok(Win32ModuleInfo { address: entry, base, size, name })
    }

    /// The modules of process `p` that could be read, in list order.
    pub fn module_info_list(&mut self, p: &Win32ProcessInfo) -> (r: Result<Vec<Win32ModuleInfo>, Error>)
        requires
            old(self).wf(),
        ensures
            final(self).wf(),
            final(self).phys_mem.contents() == old(self).phys_mem.contents(),
            final(self).vat.mmu() == old(self).vat.mmu(),
            final(self).offsets == old(self).offsets,
            final(self).kernel_info == old(self).kernel_info,
            final(self).sysproc_dtb == old(self).sysproc_dtb,
            r matches Ok(mods) ==> forall|i: int| 0 <= i < mods@.len() ==> old(self).module_read(p, #[trigger] mods@[i]),
            r matches Ok(mods) ==> {
                &&& old(self).module_walk(p, p.peb_module, MAX_LIST_ENTRIES as nat) is Ok
                &&& forall|i: int| 0 <= i < mods@.len() ==> listed(
                    old(self).module_walk(p, p.peb_module, MAX_LIST_ENTRIES as nat)->Ok_0,
                    #[trigger] mods@[i].address,
                )
                &&& T::infallible() ==> module_addresses(mods@) == old(self).readable_modules(
                    p,
                    old(self).module_walk(p, p.peb_module, MAX_LIST_ENTRIES as nat)->Ok_0,
                )
            },
            r matches Err(e) ==> (e == Error::Backend && !T::infallible()) || old(self).module_walk(
                p,
                p.peb_module,
                MAX_LIST_ENTRIES as nat,
            ) == Err::<Seq<u64>, Error>(e),
            old(self).module_walk(p, p.peb_module, MAX_LIST_ENTRIES as nat) is Err ==> r is Err,
    {
        let ghost k = *self;
        let entries = self.module_entries(p)?;
        let mut mods: Vec<Win32ModuleInfo> = Vec::new();
        let mut i: usize = 0;
        while i < entries.len()
            invariant
                self.wf(),
                self.phys_mem.contents() == k.phys_mem.contents(),
                self.vat.mmu() == k.vat.mmu(),
                self.offsets == k.offsets,
                self.kernel_info == k.kernel_info,
                self.sysproc_dtb == k.sysproc_dtb,
                i <= entries@.len(),
                forall|x: int| 0 <= x < mods@.len() ==> k.module_read(p, #[trigger] mods@[x]),
                forall|x: int| 0 <= x < mods@.len() ==> listed(entries@, #[trigger] mods@[x].address),
                T::infallible() ==> module_addresses(mods@) == k.readable_modules(p, entries@.subrange(0, i as int)),
            decreases entries@.len() - i,
        {
            let ghost prev = mods@;
            proof {
                let sub = entries@.subrange(0, i + 1);
                assert(sub.drop_last() =~= entries@.subrange(0, i as int));
                assert(sub.last() == entries@[i as int]);
            }
            match self.module_info_from_entry(p, entries[i]) {
                Ok(md) => {
                    mods.push(md);
                    proof {
                        assert(module_addresses(mods@) =~= module_addresses(prev).push(entries@[i as int]));
                        assert forall|x: int| 0 <= x < mods@.len() implies listed(entries@, #[trigger] mods@[x].address) by {
                            if x < prev.len() {
                                assert(mods@[x] == prev[x]);
                            } else {
                                assert(entries@[i as int] == mods@[x].address);
                            }
                        }
                        assert forall|x: int| 0 <= x < mods@.len() implies k.module_read(p, #[trigger] mods@[x]) by {
                            if x < prev.len() {
                                assert(mods@[x] == prev[x]);
                            }
                        }
                    }
                },
                Err(_) => {},
            }
            i = i + 1;
        }
        assert(entries@.subrange(0, entries@.len() as int) =~= entries@);
        Ok(mods)
    }

    /// Whether process `p` has loaded a module named `name`, compared in
    /// lowercase.
    fn has_module(&mut self, p: &Win32ProcessInfo, name: &str) -> (r: Result<bool, Error>)
        requires
            old(self).wf(),
        ensures
            final(self).wf(),
            final(self).phys_mem.contents() == old(self).phys_mem.contents(),
            final(self).vat.mmu() == old(self).vat.mmu(),
            final(self).offsets == old(self).offsets,
            final(self).kernel_info == old(self).kernel_info,
            final(self).sysproc_dtb == old(self).sysproc_dtb,
            r matches Ok(true) ==> old(self).has_module_named(p, name@),
            T::infallible() ==> (r matches Ok(b) ==> b == old(self).has_module_named(p, name@)),
            old(self).module_walk(p, p.peb_module, MAX_LIST_ENTRIES as nat) is Err ==> r is Err,
            r matches Err(e) ==> (e == Error::Backend && !T::infallible()) || old(self).module_walk(
                p,
                p.peb_module,
                MAX_LIST_ENTRIES as nat,
            ) == Err::<Seq<u64>, Error>(e),
    {
        let ghost k = *self;
        let mods = self.module_info_list(p)?;
        let want = lowercase(name);
        let mut i: usize = 0;
        let mut found = false;
        while i < mods.len() && !found
            invariant
                i <= mods@.len(),
                want@ == lower_of(name@),
                forall|x: int| 0 <= x < mods@.len() ==> k.module_read(p, #[trigger] mods@[x]),
                k.module_walk(p, p.peb_module, MAX_LIST_ENTRIES as nat) is Ok,
                forall|x: int| 0 <= x < mods@.len() ==> listed(
                    k.module_walk(p, p.peb_module, MAX_LIST_ENTRIES as nat)->Ok_0,
                    #[trigger] mods@[x].address,
                ),
                found ==> k.has_module_named(p, name@),
                !found ==> forall|x: int| 0 <= x < i ==> lower_of((#[trigger] mods@[x]).name@) != lower_of(name@),
            decreases mods@.len() - i,
        {
            let have = lowercase(mods[i].name.as_str());
            found = same_name(&have, &want);
            proof {
                if found {
                    assert(k.module_read(p, mods@[i as int]));
                    assert(listed(k.module_walk(p, p.peb_module, MAX_LIST_ENTRIES as nat)->Ok_0, mods@[i as int].address));
                    assert(lower_of(mods@[i as int].name@) == lower_of(name@));
                }
            }
            i = i + 1;
        }
        proof {
            if T::infallible() && !found {
                let es = k.module_walk(p, p.peb_module, MAX_LIST_ENTRIES as nat)->Ok_0;
                if k.has_module_named(p, name@) {
                    let md = choose|md: Win32ModuleInfo| #[trigger] k.module_read(p, md) && listed(es, md.address)
                        && lower_of(md.name@) == lower_of(name@);
                    let j = choose|j: int| 0 <= j < es.len() && es[j] == md.address;
                    k.lemma_in_readable_modules(p, es, j);
                    let f = k.readable_modules(p, es);
                    let x = choose|x: int| 0 <= x < f.len() && f[x] == md.address;
                    assert(module_addresses(mods@)[x] == md.address);
                    assert(mods@[x].address == md.address);
                    assert(k.module_read(p, mods@[x]));
                    assert(mods@[x].name@ == md.name@);
                    assert(false);
                }
            }
        }
        Ok(found)
    }

    /// The process named `name`: the first process of the list whose name,
    /// lowercased, equals the first 14 bytes of `name`, lowercased, and
    /// whose module list holds a module called `name`. Cutting `name` at a
    /// byte inside a character is refused by `requires`.
    #[verifier::rlimit(100)]
    pub fn process_info(&mut self, name: &str) -> (r: Result<Win32ProcessInfo, Error>)
        requires
            old(self).wf(),
            name.is_char_boundary(query_cut(name)),
        ensures
            final(self).wf(),
            final(self).phys_mem.contents() == old(self).phys_mem.contents(),
            final(self).vat.mmu() == old(self).vat.mmu(),
            final(self).offsets == old(self).offsets,
            final(self).kernel_info == old(self).kernel_info,
            final(self).sysproc_dtb == old(self).sysproc_dtb,
            old(self).eprocesses() is Err ==> r is Err,
            r matches Ok(p) ==> {
                &&& old(self).eprocesses() is Ok
                &&& listed(old(self).eprocesses()->Ok_0, p.address)
                &&& old(self).proc_matches(p)
                &&& name_matches_query(p.name@, name)
                &&& old(self).has_module_named(&p, name@)
            },
            T::infallible() && old(self).eprocesses() is Ok ==> match old(self).scan(
                old(self).readable_of(old(self).eprocesses()->Ok_0),
                name,
            ) {
                Ok(a) => r matches Ok(p) && p.address == a,
                Err(e) => r == Err::<Win32ProcessInfo, Error>(e),
            },
            r matches Err(e) ==> (e == Error::Backend && !T::infallible()) || old(self).eprocesses()
                == Err::<Seq<u64>, Error>(e) || e == Error::ProcessInfo || exists|q: Win32ProcessInfo|
                old(self).module_walk(&q, q.peb_module, MAX_LIST_ENTRIES as nat) == Err::<Seq<u64>, Error>(e),
    {
        let ghost k = *self;
        let mut list = self.process_info_list()?;
        let ghost addrs = addresses(list@);
        let ghost n = list@.len() as int;
        let cut = if name.len() < 14 {
            name.len()
        } else {
            14
        };
        let (pre, _) = name.split_at(cut);
        proof {
            encode_utf8_decode_utf8(pre@);
            assert(pre.spec_bytes() =~= name.spec_bytes().subrange(0, query_cut(name) as int));
            assert(pre@ == query_prefix(name));
            assert(addrs.subrange(0, n) =~= addrs);
        }
        let want = lowercase(pre);
        let mut i: usize = 0;
        let mut found: Option<usize> = None;
        let mut fatal: Option<Error> = None;
        while i < list.len()
            invariant
                self.wf(),
                self.phys_mem.contents() == k.phys_mem.contents(),
                self.vat.mmu() == k.vat.mmu(),
                self.offsets == k.offsets,
                self.kernel_info == k.kernel_info,
                self.sysproc_dtb == k.sysproc_dtb,
                i <= list@.len(),
                n == list@.len(),
                addrs == addresses(list@),
                want@ == lower_of(query_prefix(name)),
                forall|x: int| 0 <= x < n ==> k.proc_matches(#[trigger] list@[x]),
                fatal is Some ==> found is None && i == list@.len(),
                found is Some ==> i == list@.len(),
                found is None && fatal is None ==> (T::infallible() ==> k.scan(addrs.subrange(i as int, n), name)
                    == k.scan(addrs, name)),
                found matches Some(f) ==> f < n && name_matches_query(list@[f as int].name@, name)
                    && k.has_module_named(&list@[f as int], name@) && (T::infallible() ==> k.scan(addrs, name)
                    == Ok::<u64, Error>(list@[f as int].address)),
                fatal matches Some(e) ==> ((e == Error::Backend && !T::infallible()) || exists|q: Win32ProcessInfo|
                    k.module_walk(&q, q.peb_module, MAX_LIST_ENTRIES as nat) == Err::<Seq<u64>, Error>(e)) && (
                    T::infallible() ==> k.scan(addrs, name) == Err::<u64, Error>(e)),
            decreases list@.len() - i,
        {
            let ghost p = list@[i as int];
            let ghost q = k.proc_at(p.address);
            proof {
                let sub = addrs.subrange(i as int, n);
                assert(sub[0] == p.address);
                assert(sub.drop_first() =~= addrs.subrange(i + 1, n));
                assert(k.proc_matches(p));
            }
            let have = lowercase(list[i].name.as_str());
            if same_name(&have, &want) {
                let ghost cur = *self;
                match self.has_module(&list[i], name) {
                    Ok(true) => {
                        proof {
                            Self::lemma_named_eq(&cur, &k, &p, &p, name@);
                            Self::lemma_named_eq(&cur, &k, &p, &q, name@);
                        }
                        found = Some(i);
                        i = list.len();
                        continue;
                    },
                    Ok(false) => {
                        proof {
                            Self::lemma_named_eq(&cur, &k, &p, &q, name@);
                        }
                    },
                    Err(e) => {
                        proof {
                            Self::lemma_named_eq(&cur, &k, &p, &q, name@);
                            Self::lemma_named_eq(&cur, &k, &p, &p, name@);
                        }
                        fatal = Some(e);
                        i = list.len();
                        continue;
                    },
                }
            }
            i = i + 1;
        }
        if fatal.is_some() {
            return Err(fatal.unwrap());
        }
        match found {
            Some(f) => {
                let ghost lv = list@;
                let p = list.remove(f);
                assert(lv[f as int] == p);
                proof {
                    let es = k.eprocesses()->Ok_0;
                    assert(k.proc_matches(p));
                }
                Ok(p)
            },
            None => {
                proof {
                    assert(addrs.subrange(n, n).len() == 0);
                }
                Err(Error::ProcessInfo)
            },
        }
    }
}

} // verus!
