use vstd::prelude::*;
use crate::architecture::{Architecture, TranslateArch, VirtualTranslate};
use crate::mmu::ArchMMUSpec as MmuSpec;
use crate::mmu::{ArchMMUSpec, bit_mask, low_bits, low_bits_exec, lemma_sum_from_mono, sum_from};
use crate::phys_mem::PhysicalMemory;
use crate::types::{Error, PhysicalAddress};
use crate::walker::TranslationOutcome;

verus! {

/// The outcome `o` found for an address of the same finest page, moved to
/// `v`: a mapped address takes the low `k` bits of `v`.
pub open spec fn shift_outcome(o: TranslationOutcome, v: u64, k: u64) -> TranslationOutcome {
    match o {
        TranslationOutcome::Mapped(pa) => TranslationOutcome::Mapped(
            PhysicalAddress { address: (pa.address & !low_bits(k)) | (v & low_bits(k)), page: pa.page },
        ),
        _ => o,
    }
}

proof fn lemma_shift_same(v: u64, w: u64, k: u64, a: u64)
    requires
        (v >> k) == (w >> k),
        k <= a < 64,
    ensures
        (v >> a) == (w >> a),
    decreases a - k,
{
    if a > k {
        lemma_shift_same(v, w, k, (a - 1) as u64);
        let b = (a - 1) as u64;
        assert(v >> a == (v >> b) >> 1u64) by (bit_vector)
            requires
                b + 1 == a,
                a < 64,
        ;
        assert(w >> a == (w >> b) >> 1u64) by (bit_vector)
            requires
                b + 1 == a,
                a < 64,
        ;
    }
}

proof fn lemma_leaf_shift(pte: u64, hi: u64, v: u64, w: u64, k: u64, pb: u64)
    requires
        (v >> k) == (w >> k),
        1 <= k <= pb <= 63,
        hi < 64,
    ensures
        (pte & bit_mask(pb, hi)) | (v & low_bits(pb)) == ((((pte & bit_mask(pb, hi)) | (w & low_bits(
            pb,
        ))) & !low_bits(k)) | (v & low_bits(k))),
{
    let l = u64::MAX >> ((64 - pb) as u64);
    let kk = u64::MAX >> ((64 - k) as u64);
    assert(low_bits(pb) == l);
    assert(low_bits(k) == kk);
    let top = u64::MAX >> ((63 - hi) as u64);
    assert(bit_mask(pb, hi) == top & !l);
    let f = pte & (top & !l);
    assert(f & l == 0) by (bit_vector)
        requires
            f == pte & (top & !l),
    ;
    assert(kk & l == kk) by (bit_vector)
        requires
            kk == u64::MAX >> ((64 - k) as u64),
            l == u64::MAX >> ((64 - pb) as u64),
            1 <= k <= pb <= 63,
    ;
    assert(v & !kk == w & !kk) by (bit_vector)
        requires
            (v >> k) == (w >> k),
            kk == u64::MAX >> ((64 - k) as u64),
            1 <= k <= 63,
    ;
    assert(f | (v & l) == (((f | (w & l)) & !kk) | (v & kk))) by (bit_vector)
        requires
            f & l == 0,
            kk & l == kk,
            v & !kk == w & !kk,
    ;
}

/// Two addresses of one finest page are walked alike: the same entries,
/// the same outcome, a mapped address differing only in its low bits.
pub proof fn lemma_same_page_walk(mmu: ArchMMUSpec, m: Map<int, u8>, base: u64, s: int, v: u64, w: u64)
    requires
        mmu.wf(),
        0 <= s,
        (v >> mmu.page_bits(mmu.n() - 1)) == (w >> mmu.page_bits(mmu.n() - 1)),
    ensures
        mmu.walk_from(m, base, s, v) == shift_outcome(
            mmu.walk_from(m, base, s, w),
            v,
            mmu.page_bits(mmu.n() - 1),
        ),
    decreases mmu.n() - s,
{
    let n = mmu.n();
    let k = mmu.page_bits(n - 1);
    let sp = mmu.splits();
    assert(sum_from(sp, n) == 0);
    assert(sum_from(sp, n - 1) == sp[n - 1]);
    assert(1 <= sp[n - 1]);
    lemma_sum_from_mono(sp, 0, n - 1);
    if s + 1 < n {
        lemma_sum_from_mono(sp, s + 1, n - 1);
        lemma_sum_from_mono(sp, 0, s + 1);
        lemma_shift_same(v, w, k, mmu.page_bits(s + 1));
        assert(mmu.pte_index(v, s) == mmu.pte_index(w, s));
        let pa = mmu.pte_addr(base, s, v);
        assert(pa == mmu.pte_addr(base, s, w));
        if crate::phys_mem::range_mapped(m, pa as int, mmu.pte_size as int) {
            let pte = crate::walker::le_value(
                crate::phys_mem::range_bytes(m, pa as int, mmu.pte_size as int),
            ) as u64;
            if crate::mmu::bit_set(pte, mmu.present_bit as u64) {
                if mmu.is_leaf(pte, s + 1) {
                    let pb = mmu.page_bits(s + 1);
                    lemma_sum_from_mono(sp, 1, s + 1);
                    lemma_leaf_shift(pte, (mmu.address_space_bits - 1) as u64, v, w, k, pb);
                } else {
                    lemma_same_page_walk(mmu, m, mmu.pte_addr_mask_spec(pte, s + 1), s + 1, v, w);
                }
            }
        }
    }
}

/// Two addresses of one finest page translate alike.
pub proof fn lemma_same_page_translate(mmu: ArchMMUSpec, m: Map<int, u8>, dtb: u64, v: u64, w: u64)
    requires
        mmu.wf(),
        (v >> mmu.page_bits(mmu.n() - 1)) == (w >> mmu.page_bits(mmu.n() - 1)),
    ensures
        mmu.translate_spec(m, dtb, v) == shift_outcome(
            mmu.translate_spec(m, dtb, w),
            v,
            mmu.page_bits(mmu.n() - 1),
        ),
{
    let n = mmu.n();
    let sp = mmu.splits();
    assert(sum_from(sp, n) == 0);
    assert(sum_from(sp, n - 1) == sp[n - 1]);
    lemma_sum_from_mono(sp, 0, n - 1);
    lemma_sum_from_mono(sp, 1, n - 1);
    assert(sum_from(sp, 0) == sp[0] + sum_from(sp, 1));
    assert(sp[0] >= 1);
    let k = mmu.page_bits(n - 1);
    lemma_shift_same(v, w, k, (mmu.vbits() - 1) as u64);
    lemma_shift_same(v, w, k, mmu.vbits() as u64);
    assert(mmu.vaddr_ok(v) == mmu.vaddr_ok(w));
    if mmu.vaddr_ok(v) {
        lemma_same_page_walk(mmu, m, dtb, 0, v, w);
    }
}

/// One remembered translation: the outcome of `addr` in the address space
/// `dtb`, which holds for the whole finest page of `addr`.
pub struct TlbEntry {
    pub dtb: u64,
    pub addr: u64,
    pub outcome: TranslationOutcome,
}

/// A translation cache in front of a page-table walker, slot-indexed by the
/// finest page of an address. Negative outcomes are remembered too. It is
/// valid for one state of memory: after a write, `flush` it.
pub struct CachedVirtualTranslate {
    vat: TranslateArch,
    slots: Vec<Option<TlbEntry>>,
    snapshot: Ghost<Map<int, u8>>,
}

fn shift_exec(o: TranslationOutcome, v: u64, k: u64) -> (r: TranslationOutcome)
    requires
        k < 64,
    ensures
        r == shift_outcome(o, v, k),
{
    match o {
        TranslationOutcome::Mapped(pa) => {
            let low = low_bits_exec(k);
            TranslationOutcome::Mapped(
                PhysicalAddress { address: (pa.address & !low) | (v & low), page: pa.page },
            )
        },
        _ => o,
    }
}

impl CachedVirtualTranslate {
    /// The walker behind the cache.
    pub closed spec fn translator(&self) -> TranslateArch {
        self.vat
    }

    /// Whether the walker is well formed and the slot count in range.
    pub closed spec fn shape_ok(&self) -> bool {
        &&& self.vat.wf()
        &&& 0 < self.slots@.len() <= 0x10_0000
    }

    /// Whether every remembered outcome is the translation in memory `m`.
    pub closed spec fn valid_for(&self, m: Map<int, u8>) -> bool {
        &&& self.vat.wf()
        &&& self.snapshot@ == m
        &&& 0 < self.slots@.len() <= 0x10_0000
        &&& forall|s: int|
            0 <= s < self.slots@.len() ==> match #[trigger] self.slots@[s] {
                Some(e) => e.outcome == self.vat.mmu.translate_spec(m, e.dtb, e.addr),
                None => true,
            }
    }

    fn page_shift(&self) -> (r: u64)
        requires
            self.vat.wf(),
        ensures
            r == self.vat.mmu.page_bits(self.vat.mmu.n() - 1),
            r < 64,
    {
        let n = self.vat.mmu.virtual_address_splits.len();
        self.vat.mmu.split_sum_from(n - 1) as u64
    }

    /// A cache of `entries` slots (at least one, at most 2^20) over `vat`,
    /// valid for the present contents of `mem`.
    pub fn new<P: PhysicalMemory>(vat: TranslateArch, entries: usize, mem: &P) -> (r: Self)
        requires
            vat.wf(),
        ensures
            r.valid_for(mem.contents()),
            r.shape_ok(),
            r.translator() == vat,
            r.ready(mem.contents()),
            r.mmu() == vat.mmu,
            r.arch() == vat.arch,
    {
        let count: usize = if entries == 0 {
            1
        } else if entries > 0x10_0000 {
            0x10_0000
        } else {
            entries
        };
        let mut slots: Vec<Option<TlbEntry>> = Vec::new();
        while slots.len() < count
            invariant
                slots@.len() <= count,
                count <= 0x10_0000,
                forall|s: int| 0 <= s < slots@.len() ==> (#[trigger] slots@[s]) is None,
            decreases count - slots@.len(),
        {
            slots.push(None);
        }
        CachedVirtualTranslate { vat, slots, snapshot: Ghost(mem.contents()) }
    }

    /// Forgets every translation; the cache is then valid for `mem`.
    pub fn flush<P: PhysicalMemory>(&mut self, mem: &P)
        requires
            old(self).shape_ok(),
        ensures
            final(self).valid_for(mem.contents()),
            final(self).shape_ok(),
            final(self).translator() == old(self).translator(),
    {
        let n = self.slots.len();
        let mut i: usize = 0;
        while i < n
            invariant
                n == self.slots@.len(),
                0 < n <= 0x10_0000,
                i <= n,
                self.vat == old(self).vat,
                forall|s: int| 0 <= s < i ==> (#[trigger] self.slots@[s]) is None,
            decreases n - i,
        {
            self.slots.set(i, None);
            i = i + 1;
        }
        self.snapshot = Ghost(mem.contents());
    }

    /// Translates each address of `vaddrs`: remembered pages without a walk,
    /// the others in one batched walk, which the cache then remembers.
    pub fn translate_cached<P: PhysicalMemory>(
        &mut self,
        mem: &mut P,
        dtb: u64,
        vaddrs: &Vec<u64>,
    ) -> (r: Result<Vec<TranslationOutcome>, Error>)
        requires
            old(self).valid_for(old(mem).contents()),
            old(mem).inv(),
        ensures
            final(mem).inv(),
            final(mem).contents() == old(mem).contents(),
            final(self).valid_for(final(mem).contents()),
            final(self).shape_ok(),
            final(self).translator() == old(self).translator(),
            r is Ok ==> r->Ok_0@.len() == vaddrs@.len() && forall|i: int|
                0 <= i < vaddrs@.len() ==> #[trigger] r->Ok_0@[i]
                    == old(self).translator().mmu.translate_spec(old(mem).contents(), dtb, vaddrs@[i]),
            r is Err ==> r == Err::<Vec<TranslationOutcome>, Error>(Error::Backend),
            P::infallible() ==> r is Ok,
            vaddrs@.len() == 0 ==> r is Ok,
    {
        let ghost m = old(mem).contents();
        let ghost mmu = self.vat.mmu;
        let k = self.page_shift();
        let nslots = self.slots.len();
        let cnt = vaddrs.len();
        let mut results: Vec<Option<TranslationOutcome>> = Vec::new();
        let mut miss_of: Vec<usize> = Vec::new();
        let mut misses: Vec<u64> = Vec::new();
        let mut i: usize = 0;
        while i < cnt
            invariant
                self.valid_for(m),
                self.vat.mmu == mmu,
                nslots == self.slots@.len(),
                k == mmu.page_bits(mmu.n() - 1),
                k < 64,
                i <= cnt,
                cnt == vaddrs@.len(),
                results@.len() == i,
                miss_of@.len() == i,
                misses@.len() <= i,
                forall|j: int|
                    0 <= j < i ==> match #[trigger] results@[j] {
                        Some(o) => o == mmu.translate_spec(m, dtb, vaddrs@[j]),
                        None => miss_of@[j] < misses@.len() && misses@[miss_of@[j] as int] == vaddrs@[j],
                    },
            decreases cnt - i,
        {
            let v = vaddrs[i];
            let idx = ((v >> k) % (nslots as u64)) as usize;
            let hit = match &self.slots[idx] {
                Some(e) => e.dtb == dtb && (e.addr >> k) == (v >> k),
                None => false,
            };
            if hit {
                let e_outcome = match &self.slots[idx] {
                    Some(e) => e.outcome,
                    None => TranslationOutcome::NonCanonical,
                };
                proof {
                    let e = self.slots@[idx as int]->Some_0;
                    assert(e.outcome == mmu.translate_spec(m, e.dtb, e.addr));
                    lemma_same_page_translate(mmu, m, dtb, v, e.addr);
                }
                results.push(Some(shift_exec(e_outcome, v, k)));
                miss_of.push(0);
            } else {
                results.push(None);
                miss_of.push(misses.len());
                misses.push(v);
            }
            i = i + 1;
        }
        let walked = self.vat.translate_list(mem, dtb, &misses)?;
        let mut out: Vec<TranslationOutcome> = Vec::new();
        let mut i: usize = 0;
        while i < cnt
            invariant
                i <= cnt,
                cnt == vaddrs@.len(),
                results@.len() == cnt,
                miss_of@.len() == cnt,
                walked@.len() == misses@.len(),
                forall|j: int|
                    0 <= j < misses@.len() ==> #[trigger] walked@[j] == mmu.translate_spec(m, dtb, misses@[j]),
                forall|j: int|
                    0 <= j < cnt ==> match #[trigger] results@[j] {
                        Some(o) => o == mmu.translate_spec(m, dtb, vaddrs@[j]),
                        None => miss_of@[j] < misses@.len() && misses@[miss_of@[j] as int] == vaddrs@[j],
                    },
                out@.len() == i,
                forall|j: int| 0 <= j < i ==> #[trigger] out@[j] == mmu.translate_spec(m, dtb, vaddrs@[j]),
            decreases cnt - i,
        {
            match results[i] {
                Some(o) => out.push(o),
                None => out.push(walked[miss_of[i]]),
            }
            i = i + 1;
        }
        let mut j: usize = 0;
        while j < misses.len()
            invariant
                self.valid_for(m),
                self.vat.mmu == mmu,
                self.vat == old(self).vat,
                nslots == self.slots@.len(),
                k < 64,
                j <= misses@.len(),
                walked@.len() == misses@.len(),
                forall|x: int|
                    0 <= x < misses@.len() ==> #[trigger] walked@[x] == mmu.translate_spec(m, dtb, misses@[x]),
            decreases misses@.len() - j,
        {
            let v = misses[j];
            let idx = ((v >> k) % (nslots as u64)) as usize;
            self.slots.set(idx, Some(TlbEntry { dtb, addr: v, outcome: walked[j] }));
            proof {
                assert forall|s: int| 0 <= s < self.slots@.len() implies match #[trigger] self.slots@[s] {
                    Some(e) => e.outcome == self.vat.mmu.translate_spec(m, e.dtb, e.addr),
                    None => true,
                } by {}
            }
            j = j + 1;
        }
        Ok(out)
    }
}

impl VirtualTranslate for CachedVirtualTranslate {
    closed spec fn mmu(&self) -> MmuSpec {
        self.vat.mmu
    }

    closed spec fn arch(&self) -> Architecture {
        self.vat.arch
    }

    closed spec fn ready(&self, m: Map<int, u8>) -> bool {
        self.valid_for(m) && self.shape_ok()
    }

    proof fn lemma_ready(&self, m: Map<int, u8>) {
    }

    fn mmu_ref(&self) -> (r: &MmuSpec) {
        &self.vat.mmu
    }

    fn refresh<P: PhysicalMemory>(&mut self, mem: &P) {
        self.flush(mem);
    }

    fn virt_to_phys_list<P: PhysicalMemory>(
        &mut self,
        mem: &mut P,
        dtb: u64,
        vaddrs: &Vec<u64>,
    ) -> (r: Result<Vec<TranslationOutcome>, Error>) {
        self.translate_cached(mem, dtb, vaddrs)
    }
}

} // verus!
