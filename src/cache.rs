use vstd::prelude::*;
use crate::architecture::Architecture;
use crate::phys_mem::{
    PhysicalMemory, PhysicalMemoryMapping, PhysicalMemoryMetadata, PhysicalReadData,
    PhysicalWriteData, apply_writes, disjoint_from_writes, lemma_apply_writes_dom, lemma_reads_agree,
    lemma_apply_writes_outside, phys_read_range, range_bytes, range_mapped, read_fill, reads_done,
};
use crate::types::Error;

verus! {

/// Decides whether a cached entry may still be served. Validity never
/// affects what a cache returns, only whether it asks the backend again.
pub trait CacheValidator {
    /// Moves the validator's clock to `now_ms`.
    fn update_validity(&mut self, now_ms: u64);

    /// The token that entries stored now carry.
    fn current_token(&self) -> u64;

    fn is_valid(&self, token: u64) -> bool;
}

/// Entries stay valid within one time bucket of `valid_time_ms`.
pub struct TimedCacheValidator {
    valid_time_ms: u64,
    now_ms: u64,
}

impl TimedCacheValidator {
    pub fn new(valid_time_ms: u64) -> (r: TimedCacheValidator) {
        TimedCacheValidator { valid_time_ms, now_ms: 0 }
    }

    /// One-second buckets.
    pub fn default_validator() -> (r: TimedCacheValidator) {
        TimedCacheValidator { valid_time_ms: 1000, now_ms: 0 }
    }
}

impl CacheValidator for TimedCacheValidator {
    fn update_validity(&mut self, now_ms: u64) {
        self.now_ms = now_ms;
    }

    fn current_token(&self) -> u64 {
        if self.valid_time_ms == 0 {
            self.now_ms
        } else {
            self.now_ms / self.valid_time_ms
        }
    }

    fn is_valid(&self, token: u64) -> bool {
        token == self.current_token()
    }
}

/// Entries never expire: for memory that does not change, such as a dump.
pub struct StaticCacheValidator {}

impl CacheValidator for StaticCacheValidator {
    fn update_validity(&mut self, now_ms: u64) {
    }

    fn current_token(&self) -> u64 {
        0
    }

    fn is_valid(&self, token: u64) -> bool {
        true
    }
}

/// One cached page.
pub struct CacheEntry {
    pub page: u64,
    pub token: u64,
    pub bytes: Vec<u8>,
}

pub const DEFAULT_CACHE_SIZE: u64 = 0x20_0000;

pub const MAX_PAGE_SIZE: u64 = 0x1000_0000;

/// A page cache in front of a physical memory: direct-mapped slots of one
/// page each, filled on misses and dropped when a write touches them.
/// Writes go straight to the memory behind it.
pub struct CachedMemoryAccess<T, V> {
    mem: T,
    validator: V,
    page_size: u64,
    slots: Vec<Option<CacheEntry>>,
    log: Ghost<Seq<Seq<int>>>,
}

/// Whether `e` holds the current bytes of a whole backed page.
pub open spec fn entry_ok(e: CacheEntry, m: Map<int, u8>, ps: u64) -> bool {
    &&& e.bytes@.len() == ps
    &&& range_mapped(m, e.page as int, ps as int)
    &&& e.bytes@ == range_bytes(m, e.page as int, ps as int)
}

impl<T: PhysicalMemory, V: CacheValidator> CachedMemoryAccess<T, V> {
    /// The addresses of each read batch asked of the cache so far.
    pub closed spec fn logged_reads(&self) -> Seq<Seq<int>> {
        self.log@
    }

    /// The memory behind the cache.
    pub closed spec fn inner(&self) -> T {
        self.mem
    }

    pub closed spec fn slots_ok(&self) -> bool {
        &&& 0 < self.page_size <= MAX_PAGE_SIZE
        &&& 0 < self.slots@.len() <= usize::MAX
        &&& forall|s: int|
            0 <= s < self.slots@.len() ==> match #[trigger] self.slots@[s] {
                Some(e) => entry_ok(e, self.mem.contents(), self.page_size),
                None => true,
            }
    }

    /// A cache of `capacity` bytes in pages of `page_size`; at least one
    /// slot. The page size must be positive and at most 256 MiB.
    pub fn new(mem: T, validator: V, page_size: u64, capacity: u64) -> (r: Result<Self, Error>)
        requires
            mem.inv(),
        ensures
            r is Ok <==> 0 < page_size <= MAX_PAGE_SIZE,
            r matches Ok(c) ==> c.inv() && c.inner() == mem,
    {
        if page_size == 0 || page_size > MAX_PAGE_SIZE {
            return Err(Error::Config);
        }
        Ok(Self::make(mem, validator, page_size, capacity))
    }

    fn make(mem: T, validator: V, page_size: u64, capacity: u64) -> (r: Self)
        requires
            mem.inv(),
            0 < page_size <= MAX_PAGE_SIZE,
        ensures
            r.inv() && r.inner() == mem,
    {
        let count = if capacity / page_size == 0 {
            1
        } else if capacity / page_size > 0x10_0000 {
            0x10_0000
        } else {
            capacity / page_size
        };
        let mut slots: Vec<Option<CacheEntry>> = Vec::new();
        while (slots.len() as u64) < count
            invariant
                slots@.len() <= count,
                count <= 0x10_0000,
                forall|s: int| 0 <= s < slots@.len() ==> (#[trigger] slots@[s]) is None,
            decreases count - slots@.len(),
        {
            slots.push(None);
        }
        CachedMemoryAccess { mem, validator, page_size, slots, log: Ghost(Seq::empty()) }
    }

    /// A cache with pages of the finest page size of `arch` and the default
    /// capacity.
    pub fn with_arch(mem: T, validator: V, arch: Architecture) -> (r: Self)
        requires
            mem.inv(),
        ensures
            r.inv(),
            r.inner() == mem,
    {
        let mmu = arch.get_mmu_spec();
        let last = mmu.virtual_address_splits[mmu.virtual_address_splits.len() - 1];
        proof {
            assert(last == 12u8);
        }
        let page = 1u64 << (last as u64);
        assert(page == 4096) by (bit_vector)
            requires
                page == 1u64 << (last as u64),
                last == 12u8,
        ;
        Self::make(mem, validator, page, DEFAULT_CACHE_SIZE)
    }

    /// Moves the validator's clock.
    pub fn update_validity(&mut self, now_ms: u64)
        requires
            old(self).inv(),
        ensures
            final(self).inv(),
            final(self).contents() == old(self).contents(),
    {
        self.validator.update_validity(now_ms);
    }

    /// Hands back the memory behind the cache.
    pub fn destroy(self) -> (r: T)
        ensures
            r == self.inner(),
    {
        self.mem
    }

    fn clear(&mut self)
        requires
            0 < old(self).page_size <= MAX_PAGE_SIZE,
            0 < old(self).slots@.len(),
        ensures
            final(self).slots_ok(),
            final(self).mem == old(self).mem,
            final(self).page_size == old(self).page_size,
            final(self).log == old(self).log,
    {
        let n = self.slots.len();
        let mut i: usize = 0;
        while i < n
            invariant
                n == self.slots@.len(),
                0 < n,
                i <= n,
                0 < self.page_size <= MAX_PAGE_SIZE,
                self.mem == old(self).mem,
                self.page_size == old(self).page_size,
                self.log == old(self).log,
                forall|s: int| 0 <= s < i ==> (#[trigger] self.slots@[s]) is None,
            decreases n - i,
        {
            self.slots.set(i, None);
            i = i + 1;
        }
    }

    /// Reads `len` bytes at `addr`: from the cache when the range lies in a
    /// cached page, else from the memory, keeping a page that was read whole.
    fn read_one(&mut self, addr: u64, len: usize) -> (r: Result<(bool, Vec<u8>), Error>)
        requires
            old(self).inv(),
        ensures
            final(self).inv(),
            final(self).contents() == old(self).contents(),
            r matches Ok((ok, buf)) ==> ok == range_mapped(old(self).contents(), addr as int, len as int)
                && buf@ == read_fill(old(self).contents(), addr as int, len as int),
            r is Err ==> r == Err::<(bool, Vec<u8>), Error>(Error::Backend),
            T::infallible() ==> r is Ok,
            final(self).log == old(self).log,
    {
        let ghost m = self.contents();
        let ps = self.page_size;
        let off64 = addr % ps;
        if len == 0 || (len as u64) > ps - off64 {
            return phys_read_range(&mut self.mem, addr, len);
        }
        assert(off64 <= addr) by (nonlinear_arith)
            requires
                off64 == addr % ps,
                ps > 0,
        ;
        let page = addr - off64;
        let nslots = self.slots.len();
        let idx = ((page / ps) % (nslots as u64)) as usize;
        let off = off64 as usize;
        let hit = match &self.slots[idx] {
            Some(e) => e.page == page && self.validator.is_valid(e.token),
            None => false,
        };
        if hit {
            let mut out: Vec<u8> = Vec::new();
            let ghost e = self.slots@[idx as int]->Some_0;
            assert(entry_ok(e, m, ps));
            while out.len() < len
                invariant
                    idx < self.slots@.len(),
                    self.slots@[idx as int] == Some(e),
                    ps <= MAX_PAGE_SIZE,
                    m == self.contents(),
                    e.page == page,
                    entry_ok(e, m, ps),
                    page + off == addr,
                    off + len <= ps,
                    out@.len() <= len,
                    forall|k: int| 0 <= k < out@.len() ==> out@[k] == m[addr + k],
                decreases len - out@.len(),
            {
                let b = match &self.slots[idx] {
                    Some(en) => en.bytes[off + out.len()],
                    None => 0,
                };
                assert(e.bytes@[off + out@.len()] == m[page + (off + out@.len())]);
                out.push(b);
            }
            proof {
                assert forall|k: int| 0 <= k < len implies #[trigger] m.contains_key(addr + k) by {
                    assert(m.contains_key(page + (off + k)));
                }
                assert(out@ =~= range_bytes(m, addr as int, len as int));
            }
            return Ok((true, out));
        }
        let whole = phys_read_range(&mut self.mem, page, ps as usize)?;
        let (good, bytes) = whole;
        if good {
            let mut out: Vec<u8> = Vec::new();
            while out.len() < len
                invariant
                    bytes@ == range_bytes(m, page as int, ps as int),
                    range_mapped(m, page as int, ps as int),
                    ps <= MAX_PAGE_SIZE,
                    page + off == addr,
                    off + len <= ps,
                    out@.len() <= len,
                    forall|k: int| 0 <= k < out@.len() ==> out@[k] == m[addr + k],
                decreases len - out@.len(),
            {
                out.push(bytes[off + out.len()]);
            }
            proof {
                assert forall|k: int| 0 <= k < len implies #[trigger] m.contains_key(addr + k) by {
                    assert(m.contains_key(page + (off + k)));
                }
                assert(out@ =~= range_bytes(m, addr as int, len as int));
            }
            let token = self.validator.current_token();
            self.slots.set(idx, Some(CacheEntry { page, token, bytes }));
            assert forall|s: int| 0 <= s < self.slots@.len() implies match #[trigger] self.slots@[s] {
                Some(e) => entry_ok(e, self.mem.contents(), self.page_size),
                None => true,
            } by {
                if s != idx {
                    assert(self.slots@[s] == old(self).slots@[s]);
                }
            }
            Ok((true, out))
        } else {
            phys_read_range(&mut self.mem, addr, len)
        }
    }
}

impl<T: PhysicalMemory, V: CacheValidator> PhysicalMemory for CachedMemoryAccess<T, V> {
    open spec fn contents(&self) -> Map<int, u8> {
        self.inner().contents()
    }

    open spec fn inv(&self) -> bool {
        self.inner().inv() && self.slots_ok()
    }

    open spec fn infallible() -> bool {
        T::infallible()
    }

    open spec fn read_log(&self) -> Seq<Seq<int>> {
        self.logged_reads()
    }

    open spec fn metadata_spec(&self) -> PhysicalMemoryMetadata {
        self.inner().metadata_spec()
    }

    fn phys_read_raw_iter(&mut self, data: &mut Vec<PhysicalReadData>) -> (r: Result<
        Vec<bool>,
        Error,
    >) {
        let ghost m = self.contents();
        let ghost before = data@;
        let n = data.len();
        self.log = Ghost(self.log@.push(crate::phys_mem::batch_addresses(data@)));
        let ghost logged = self.log@;
        let mut ok: Vec<bool> = Vec::new();
        let mut i: usize = 0;
        let mut fatal: Option<Error> = None;
        while i < n
            invariant
                self.log@ == logged,
                self.inv(),
                self.contents() == m,
                n == data@.len(),
                n == before.len(),
                i <= n,
                fatal is None ==> ok@.len() == i,
                fatal is Some ==> i == n,
                fatal matches Some(e) ==> e == Error::Backend && !T::infallible(),
                forall|j: int| i <= j < n ==> #[trigger] data@[j] == before[j],
                fatal is None ==> forall|j: int|
                    0 <= j < i ==> {
                        &&& (#[trigger] data@[j]).addr == before[j].addr
                        &&& data@[j].buf@ == read_fill(
                            m,
                            before[j].addr.address as int,
                            before[j].buf@.len() as int,
                        )
                        &&& ok@[j] == range_mapped(
                            m,
                            before[j].addr.address as int,
                            before[j].buf@.len() as int,
                        )
                    },
            decreases n - i,
        {
            let addr = data[i].addr;
            let len = data[i].buf.len();
            let rr = self.read_one(addr.address, len);
            if rr.is_err() {
                fatal = Some(rr.unwrap_err());
                i = n;
                continue;
            }
            let (good, buf) = rr.unwrap();
            let ghost prev_data = data@;
            let ghost prev_ok = ok@;
            data.set(i, PhysicalReadData { addr, buf });
            ok.push(good);
            proof {
                assert(forall|j: int|
                    0 <= j < i ==> data@[j] == prev_data[j] && ok@[j] == prev_ok[j]);
            }
            i = i + 1;
        }
        assert(self.logged_reads() == old(self).logged_reads().push(crate::phys_mem::batch_addresses(before)));
        assert(self.read_log() == old(self).read_log().push(crate::phys_mem::batch_addresses(before)));
        if fatal.is_some() {
            return Err(fatal.unwrap());
        }
        assert(reads_done(m, before, data@, ok@));
        Ok(ok)
    }

    fn phys_write_raw_iter(&mut self, data: &Vec<PhysicalWriteData>) -> (r: Result<
        Vec<bool>,
        Error,
    >) {
        let ghost m0 = self.mem.contents();
        let r = self.mem.phys_write_raw_iter(data);
        assert(self.logged_reads() == old(self).logged_reads());
        assert(self.read_log() == old(self).read_log());
        match r {
            Ok(flags) => {
                let ghost m1 = self.mem.contents();
                proof {
                    lemma_apply_writes_dom(m0, data@, flags@);
                }
                let ps = self.page_size;
                let ns = self.slots.len();
                let mut s: usize = 0;
                while s < ns
                    invariant
                        ns == self.slots@.len(),
                        s <= ns,
                        0 < ns,
                        ps == self.page_size,
                        self.log == old(self).log,
                        0 < ps <= MAX_PAGE_SIZE,
                        self.mem.inv(),
                        self.mem.contents() == m1,
                        m1 == apply_writes(m0, data@, flags@),
                        forall|t: int|
                            0 <= t < ns ==> match #[trigger] self.slots@[t] {
                                Some(e) => if t < s {
                                    entry_ok(e, m1, ps)
                                } else {
                                    entry_ok(e, m0, ps)
                                },
                                None => true,
                            },
                    decreases ns - s,
                {
                    let mut hit = false;
                    let mut keep = false;
                    match &self.slots[s] {
                        Some(e) => {
                            let p = e.page;
                            let mut j: usize = 0;
                            let mut touched = false;
                            while j < data.len()
                                invariant
                                    j <= data@.len(),
                                    !touched ==> disjoint_from_writes(
                                        data@.subrange(0, j as int),
                                        p as int,
                                        ps as int,
                                    ),
                                decreases data@.len() - j,
                            {
                                let a = data[j].addr.address as u128;
                                let l = data[j].buf.len() as u128;
                                if a + l > p as u128 && (p as u128) + (ps as u128) > a {
                                    touched = true;
                                }
                                proof {
                                    let sub = data@.subrange(0, j + 1);
                                    assert forall|i: int| 0 <= i < sub.len() && !touched implies
                                        (#[trigger] sub[i]).addr.address as int + sub[i].buf@.len() <= p
                                        || p + ps <= sub[i].addr.address as int by {
                                        if i < j {
                                            assert(sub[i] == data@.subrange(0, j as int)[i]);
                                        }
                                    }
                                }
                                j = j + 1;
                            }
                            if !touched {
                                keep = true;
                                proof {
                                    assert(data@.subrange(0, data@.len() as int) =~= data@);
                                    lemma_apply_writes_outside(m0, data@, flags@, p as int, ps as int);
                                    let e0 = self.slots@[s as int]->Some_0;
                                    assert forall|k: int| 0 <= k < ps implies #[trigger] m1.contains_key(p + k) by {
                                        assert(m0.contains_key(p + k));
                                    }
                                    assert(range_bytes(m1, p as int, ps as int) =~= range_bytes(m0, p as int, ps as int));
                                    assert(entry_ok(e0, m1, ps));
                                }
                            }
                            hit = true;
                        },
                        None => {},
                    }
                    if hit && !keep {
                        self.slots.set(s, None);
                    }
                    s = s + 1;
                }
                Ok(flags)
            },
            Err(e) => {
                self.clear();
                Err(e)
            },
        }
    }

    fn metadata(&self) -> (r: PhysicalMemoryMetadata) {
        self.mem.metadata()
    }

    fn set_mem_map(&mut self, mem_map: &Vec<PhysicalMemoryMapping>) {
        self.mem.set_mem_map(mem_map);
        self.clear();
    }
}

/// A batch read through the cache fills every buffer and fails every
/// element exactly as the same batch read from the memory behind it.
pub proof fn lemma_cached_read_matches<T: PhysicalMemory, V: CacheValidator>(
    cache: CachedMemoryAccess<T, V>,
    before: Seq<PhysicalReadData>,
    cached: Seq<PhysicalReadData>,
    cached_ok: Seq<bool>,
    direct: Seq<PhysicalReadData>,
    direct_ok: Seq<bool>,
)
    requires
        reads_done(cache.contents(), before, cached, cached_ok),
        reads_done(cache.inner().contents(), before, direct, direct_ok),
    ensures
        cached_ok == direct_ok,
        forall|i: int| 0 <= i < before.len() ==> (#[trigger] cached[i]).buf@ == direct[i].buf@,
{
    lemma_reads_agree(cache.contents(), before, cached, cached_ok, direct, direct_ok);
}

} // verus!
