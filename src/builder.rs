use vstd::prelude::*;
use crate::architecture::{Architecture, TranslateArch, VirtualTranslate};
use crate::mmu::ArchMMUSpec;
use crate::tlb::CachedVirtualTranslate;
use crate::walker::TranslationOutcome;
use crate::cache::{CachedMemoryAccess, TimedCacheValidator, DEFAULT_CACHE_SIZE, MAX_PAGE_SIZE};
use crate::kernel::Kernel;
use crate::phys_mem::{PhysicalMemory, PhysicalMemoryMapping, PhysicalMemoryMetadata, PhysicalReadData, PhysicalWriteData};
use crate::types::Error;
use crate::win32::{KernelInfo, Win32Offsets, wadd};
use crate::virt_mem::value_at;

verus! {

/// A physical memory with or without a page cache in front of it.
pub enum MaybeCached<T> {
    Direct(T),
    Cached(CachedMemoryAccess<T, TimedCacheValidator>),
}

impl<T: PhysicalMemory> PhysicalMemory for MaybeCached<T> {
    open spec fn contents(&self) -> Map<int, u8> {
        match self {
            MaybeCached::Direct(m) => m.contents(),
            MaybeCached::Cached(c) => c.contents(),
        }
    }

    open spec fn inv(&self) -> bool {
        match self {
            MaybeCached::Direct(m) => m.inv(),
            MaybeCached::Cached(c) => c.inv(),
        }
    }

    open spec fn infallible() -> bool {
        T::infallible()
    }

    open spec fn read_log(&self) -> Seq<Seq<int>> {
        match self {
            MaybeCached::Direct(m) => m.read_log(),
            MaybeCached::Cached(c) => c.read_log(),
        }
    }

    open spec fn metadata_spec(&self) -> PhysicalMemoryMetadata {
        match self {
            MaybeCached::Direct(m) => m.metadata_spec(),
            MaybeCached::Cached(c) => c.metadata_spec(),
        }
    }

    fn phys_read_raw_iter(&mut self, data: &mut Vec<PhysicalReadData>) -> (r: Result<Vec<bool>, Error>) {
        let ghost before = data@;
        let r = match self {
            MaybeCached::Direct(m) => m.phys_read_raw_iter(data),
            MaybeCached::Cached(c) => c.phys_read_raw_iter(data),
        };
        assert(self.read_log() == old(self).read_log().push(crate::phys_mem::batch_addresses(before)));
        r
    }

    fn phys_write_raw_iter(&mut self, data: &Vec<PhysicalWriteData>) -> (r: Result<Vec<bool>, Error>) {
        let r = match self {
            MaybeCached::Direct(m) => m.phys_write_raw_iter(data),
            MaybeCached::Cached(c) => c.phys_write_raw_iter(data),
        };
        assert(self.read_log() == old(self).read_log());
        r
    }

    fn metadata(&self) -> (r: PhysicalMemoryMetadata) {
        match self {
            MaybeCached::Direct(m) => m.metadata(),
            MaybeCached::Cached(c) => c.metadata(),
        }
    }

    fn set_mem_map(&mut self, mem_map: &Vec<PhysicalMemoryMapping>) {
        match self {
            MaybeCached::Direct(m) => m.set_mem_map(mem_map),
            MaybeCached::Cached(c) => c.set_mem_map(mem_map),
        }
    }
}

/// A page-table walker with or without a translation cache in front of it.
pub enum Translator {
    Plain(TranslateArch),
    Cached(CachedVirtualTranslate),
}

impl VirtualTranslate for Translator {
    open spec fn mmu(&self) -> ArchMMUSpec {
        match self {
            Translator::Plain(t) => t.mmu(),
            Translator::Cached(t) => t.mmu(),
        }
    }

    open spec fn arch(&self) -> Architecture {
        match self {
            Translator::Plain(t) => t.arch(),
            Translator::Cached(t) => t.arch(),
        }
    }

    open spec fn ready(&self, m: Map<int, u8>) -> bool {
        match self {
            Translator::Plain(t) => t.ready(m),
            Translator::Cached(t) => t.ready(m),
        }
    }

    proof fn lemma_ready(&self, m: Map<int, u8>) {
        match self {
            Translator::Plain(t) => t.lemma_ready(m),
            Translator::Cached(t) => t.lemma_ready(m),
        }
    }

    fn mmu_ref(&self) -> (r: &ArchMMUSpec) {
        match self {
            Translator::Plain(t) => t.mmu_ref(),
            Translator::Cached(t) => t.mmu_ref(),
        }
    }

    fn refresh<P: PhysicalMemory>(&mut self, mem: &P) {
        match self {
            Translator::Plain(t) => t.refresh(mem),
            Translator::Cached(t) => t.refresh(mem),
        }
    }

    fn virt_to_phys_list<P: PhysicalMemory>(
        &mut self,
        mem: &mut P,
        dtb: u64,
        vaddrs: &Vec<u64>,
    ) -> (r: Result<Vec<TranslationOutcome>, Error>) {
        match self {
            Translator::Plain(t) => t.virt_to_phys_list(mem, dtb, vaddrs),
            Translator::Cached(t) => t.virt_to_phys_list(mem, dtb, vaddrs),
        }
    }
}

/// Default number of translations a translation cache remembers.
pub const DEFAULT_TLB_ENTRIES: usize = 2048;

/// Where a symbol store keeps and fetches debug symbols.
#[derive(Clone, Debug)]
pub struct SymbolStore {
    pub base_url: String,
    pub cache_path: String,
}

/// Page-cache parameters: the page size and the capacity in bytes.
#[derive(Clone, Copy, Debug, PartialEq, Eq, Structural)]
pub struct PageCacheOptions {
    pub page_size: u64,
    pub capacity: u64,
}

/// Builds a `Kernel` over a connector: the kernel's location and offsets,
/// found by a scan and a symbol lookup elsewhere, and the caches to put in
/// front of the connector.
pub struct KernelBuilder<T> {
    pub connector: T,
    pub kernel_info: Option<KernelInfo>,
    pub offsets: Option<Win32Offsets>,
    pub symbol_store: Option<SymbolStore>,
    pub page_cache: Option<PageCacheOptions>,
    /// Slots of the translation cache, when there is one.
    pub vat_cache: Option<usize>,
}

impl<T: PhysicalMemory> KernelBuilder<T> {
    /// A builder with no caches.
    pub fn new(connector: T) -> (r: KernelBuilder<T>)
        ensures
            r.connector == connector,
            r.kernel_info is None,
            r.offsets is None,
            r.symbol_store is None,
            r.page_cache is None,
            r.vat_cache is None,
    {
        KernelBuilder {
            connector,
            kernel_info: None,
            offsets: None,
            symbol_store: None,
            page_cache: None,
            vat_cache: None,
        }
    }

    /// The kernel that a scan found.
    pub fn kernel_info(self, kernel_info: KernelInfo) -> (r: Self)
        ensures
            r == (KernelBuilder { kernel_info: Some(kernel_info), ..self }),
    {
        KernelBuilder { kernel_info: Some(kernel_info), ..self }
    }

    /// The offsets of the kernel's build.
    pub fn offsets(self, offsets: Win32Offsets) -> (r: Self)
        ensures
            r == (KernelBuilder { offsets: Some(offsets), ..self }),
    {
        KernelBuilder { offsets: Some(offsets), ..self }
    }

    /// The symbol store to take offsets from.
    pub fn symbol_store(self, symbol_store: SymbolStore) -> (r: Self)
        ensures
            r == (KernelBuilder { symbol_store: Some(symbol_store), ..self }),
    {
        KernelBuilder { symbol_store: Some(symbol_store), ..self }
    }

    /// A page cache with the architecture's finest page size and the
    /// default capacity, and a translation cache of the default size.
    pub fn build_default_caches(self) -> (r: Self)
        ensures
            r == (KernelBuilder {
                page_cache: Some(PageCacheOptions { page_size: 4096, capacity: DEFAULT_CACHE_SIZE }),
                vat_cache: Some(DEFAULT_TLB_ENTRIES),
                ..self
            }),
    {
        KernelBuilder {
            page_cache: Some(PageCacheOptions { page_size: 4096, capacity: DEFAULT_CACHE_SIZE }),
            vat_cache: Some(DEFAULT_TLB_ENTRIES),
            ..self
        }
    }

    /// A translation cache of `entries` slots.
    pub fn build_vat_cache(self, entries: usize) -> (r: Self)
        ensures
            r == (KernelBuilder { vat_cache: Some(entries), ..self }),
    {
        KernelBuilder { vat_cache: Some(entries), ..self }
    }

    /// A page cache with the given parameters.
    pub fn build_page_cache(self, page_size: u64, capacity: u64) -> (r: Self)
        ensures
            r == (KernelBuilder { page_cache: Some(PageCacheOptions { page_size, capacity }), ..self }),
    {
        KernelBuilder { page_cache: Some(PageCacheOptions { page_size, capacity }), ..self }
    }

    /// Wires the kernel: the connector, cached if asked, a translator for the
    /// kernel's architecture, and the kernel itself.
    pub fn build(self) -> (r: Result<Kernel<MaybeCached<T>, Translator>, Error>)
        requires
            self.connector.inv(),
        ensures
            self.kernel_info is None || self.offsets is None ==> r matches Err(Error::NotFound),
            (self.page_cache matches Some(pc) && !(0 < pc.page_size <= MAX_PAGE_SIZE))
                && self.kernel_info is Some && self.offsets is Some ==> r matches Err(Error::Config),
            r matches Ok(k) ==> {
                &&& k.wf()
                &&& self.kernel_info == Some(k.kernel_info)
                &&& self.offsets == Some(k.offsets)
                &&& k.vat.arch() == k.kernel_info.start_block.arch
                &&& k.phys_mem.contents() == self.connector.contents()
                &&& ({
                    let ki = k.kernel_info;
                    let read = value_at(
                        k.vat.mmu(),
                        self.connector.contents(),
                        ki.start_block.dtb,
                        ki.start_block.arch.pointer_size_spec() as int,
                        wadd(ki.eprocess_base, k.offsets.kproc_dtb),
                    );
                    &&& read is None ==> k.sysproc_dtb == ki.start_block.dtb
                    &&& k.sysproc_dtb == ki.start_block.dtb || read == Some(k.sysproc_dtb)
                    &&& T::infallible() ==> (read matches Some(d) ==> k.sysproc_dtb == d)
                })
            },
            r is Err ==> self.kernel_info is None || self.offsets is None || (
            self.page_cache matches Some(pc) && !(0 < pc.page_size <= MAX_PAGE_SIZE)),
    {
        let kernel_info = match self.kernel_info {
            Some(k) => k,
            None => {
                return Err(Error::NotFound);
            },
        };
        let offsets = match self.offsets {
            Some(o) => o,
            None => {
                return Err(Error::NotFound);
            },
        };
        let vat = TranslateArch::new(kernel_info.start_block.arch);
        let mem = match self.page_cache {
            Some(pc) => {
                match CachedMemoryAccess::new(
                    self.connector,
                    TimedCacheValidator::default_validator(),
                    pc.page_size,
                    pc.capacity,
                ) {
                    Ok(c) => MaybeCached::Cached(c),
                    Err(_) => {
                        return Err(Error::Config);
                    },
                }
            },
            None => MaybeCached::Direct(self.connector),
        };
        let vat = match self.vat_cache {
            Some(entries) => Translator::Cached(CachedVirtualTranslate::new(vat, entries, &mem)),
            None => Translator::Plain(vat),
        };
        Ok(Kernel::new(mem, vat, offsets, kernel_info))
    }
}

impl<T: PhysicalMemory> Kernel<MaybeCached<T>, Translator> {
    /// A builder for a kernel over `connector`.
    pub fn builder(connector: T) -> (r: KernelBuilder<T>)
        ensures
            r.connector == connector,
            r.kernel_info is None,
            r.offsets is None,
            r.symbol_store is None,
            r.page_cache is None,
            r.vat_cache is None,
    {
        KernelBuilder::new(connector)
    }
}

} // verus!
