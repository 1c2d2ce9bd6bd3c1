use vstd::prelude::*;
use crate::mmu::{ArchMMUSpec, Endianess};
use crate::phys_mem::PhysicalMemory;
use crate::types::Error;
use crate::walker::TranslationOutcome;

verus! {

/// The supported instruction-set architectures; each fixes its paging
/// hierarchy.
#[derive(Clone, Copy, Debug, PartialEq, Eq, Structural)]
pub enum Architecture {
    X86,
    X86Pae,
    X64,
}

impl Architecture {
    pub open spec fn bits_spec(&self) -> u8 {
        match self {
            Architecture::X64 => 64,
            _ => 32,
        }
    }

    pub open spec fn pointer_size_spec(&self) -> u8 {
        match self {
            Architecture::X64 => 8,
            _ => 4,
        }
    }

    /// The splits of the virtual address of each architecture.
    pub open spec fn splits_spec(&self) -> Seq<u8> {
        match self {
            Architecture::X86 => seq![10u8, 10u8, 12u8],
            Architecture::X86Pae => seq![2u8, 9u8, 9u8, 12u8],
            Architecture::X64 => seq![9u8, 9u8, 9u8, 9u8, 12u8],
        }
    }

    pub fn bits(&self) -> (r: u8)
        ensures
            r == self.bits_spec(),
    {
        match self {
            Architecture::X86 => crate::x86::bits(),
            Architecture::X86Pae => crate::x86_pae::bits(),
            Architecture::X64 => crate::x64::bits(),
        }
    }

    pub fn endianess(&self) -> (r: Endianess)
        ensures
            r == Endianess::LittleEndian,
    {
        match self {
            Architecture::X86 => crate::x86::endianess(),
            Architecture::X86Pae => crate::x86_pae::endianess(),
            Architecture::X64 => crate::x64::endianess(),
        }
    }

    /// Bytes of a pointer.
    pub fn pointer_size(&self) -> (r: u8)
        ensures
            r == self.pointer_size_spec(),
    {
        match self {
            Architecture::X64 => 8,
            _ => 4,
        }
    }

    pub fn get_mmu_spec(&self) -> (r: ArchMMUSpec)
        ensures
            r.wf(),
            r.addr_size == self.pointer_size_spec(),
            r.splits() == self.splits_spec(),
    {
        match self {
            Architecture::X86 => crate::x86::get_mmu_spec(),
            Architecture::X86Pae => crate::x86_pae::get_mmu_spec(),
            Architecture::X64 => crate::x64::get_mmu_spec(),
        }
    }
}

/// Translates virtual addresses of one architecture, exactly as a walk of
/// the page tables in the memory it is ready for.
pub trait VirtualTranslate {
    /// The paging hierarchy it translates by.
    spec fn mmu(&self) -> ArchMMUSpec;

    spec fn arch(&self) -> Architecture;

    /// Whether it may translate against memory with contents `m`.
    spec fn ready(&self, m: Map<int, u8>) -> bool;

    proof fn lemma_ready(&self, m: Map<int, u8>)
        requires
            self.ready(m),
        ensures
            self.mmu().wf(),
            self.mmu().addr_size == self.arch().pointer_size_spec(),
            self.mmu().splits() == self.arch().splits_spec(),
    ;

    /// The paging hierarchy, to read.
    fn mmu_ref(&self) -> (r: &ArchMMUSpec)
        ensures
            *r == self.mmu(),
    ;

    /// Makes it ready for the present contents of `mem`, after a write.
    fn refresh<P: PhysicalMemory>(&mut self, mem: &P)
        requires
            old(self).mmu().wf(),
            exists|m: Map<int, u8>| old(self).ready(m),
        ensures
            final(self).ready(mem.contents()),
            final(self).mmu() == old(self).mmu(),
            final(self).arch() == old(self).arch(),
    ;

    /// Translates each address of `vaddrs` in the address space rooted at
    /// `dtb`.
    fn virt_to_phys_list<P: PhysicalMemory>(
        &mut self,
        mem: &mut P,
        dtb: u64,
        vaddrs: &Vec<u64>,
    ) -> (r: Result<Vec<TranslationOutcome>, Error>)
        requires
            old(self).ready(old(mem).contents()),
            old(mem).inv(),
        ensures
            final(mem).inv(),
            final(mem).contents() == old(mem).contents(),
            final(self).ready(final(mem).contents()),
            final(self).mmu() == old(self).mmu(),
            final(self).arch() == old(self).arch(),
            r is Ok ==> r->Ok_0@.len() == vaddrs@.len() && forall|i: int|
                0 <= i < vaddrs@.len() ==> #[trigger] r->Ok_0@[i] == old(self).mmu().translate_spec(
                    old(mem).contents(),
                    dtb,
                    vaddrs@[i],
                ),
            r is Err ==> r == Err::<Vec<TranslationOutcome>, Error>(Error::Backend),
            P::infallible() ==> r is Ok,
            vaddrs@.len() == 0 ==> r is Ok,
    ;
}

/// Translation of virtual addresses by walking the page tables of one
/// architecture. It keeps no state between calls.
pub struct TranslateArch {
    pub arch: Architecture,
    pub mmu: ArchMMUSpec,
}

impl TranslateArch {
    pub open spec fn wf(&self) -> bool {
        &&& self.mmu.wf()
        &&& self.mmu.addr_size == self.arch.pointer_size_spec()
        &&& self.mmu.splits() == self.arch.splits_spec()
    }

    pub fn new(arch: Architecture) -> (r: TranslateArch)
        ensures
            r.wf(),
            r.arch == arch,
    {
        TranslateArch { arch, mmu: arch.get_mmu_spec() }
    }

    /// Translates each address of `vaddrs` in the address space rooted at
    /// `dtb`.
    pub fn translate_list<P: PhysicalMemory>(
        &self,
        mem: &mut P,
        dtb: u64,
        vaddrs: &Vec<u64>,
    ) -> (r: Result<Vec<TranslationOutcome>, Error>)
        requires
            self.wf(),
            old(mem).inv(),
        ensures
            final(mem).inv(),
            final(mem).contents() == old(mem).contents(),
            r is Ok ==> r->Ok_0@.len() == vaddrs@.len() && forall|i: int|
                0 <= i < vaddrs@.len() ==> #[trigger] r->Ok_0@[i] == self.mmu.translate_spec(
                    old(mem).contents(),
                    dtb,
                    vaddrs@[i],
                ),
            r is Err ==> r == Err::<Vec<TranslationOutcome>, Error>(Error::Backend),
            P::infallible() ==> r is Ok,
            vaddrs@.len() == 0 ==> r is Ok,
    {
        self.mmu.virt_to_phys_list(mem, dtb, vaddrs)
    }
}

impl VirtualTranslate for TranslateArch {
    open spec fn mmu(&self) -> ArchMMUSpec {
        self.mmu
    }

    open spec fn arch(&self) -> Architecture {
        self.arch
    }

    open spec fn ready(&self, m: Map<int, u8>) -> bool {
        self.wf()
    }

    proof fn lemma_ready(&self, m: Map<int, u8>) {
    }

    fn mmu_ref(&self) -> (r: &ArchMMUSpec) {
        &self.mmu
    }

    fn refresh<P: PhysicalMemory>(&mut self, mem: &P) {
    }

    fn virt_to_phys_list<P: PhysicalMemory>(
        &mut self,
        mem: &mut P,
        dtb: u64,
        vaddrs: &Vec<u64>,
    ) -> (r: Result<Vec<TranslationOutcome>, Error>) {
        self.translate_list(mem, dtb, vaddrs)
    }
}

} // verus!
