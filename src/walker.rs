use vstd::prelude::*;
use crate::mmu::{ArchMMUSpec, bit_mask, bit_set, low_bits, low_bits_exec, make_bit_mask, pte_shift_of, sum_from, lemma_sum_from_mono};
use crate::phys_mem::{PhysicalMemory, no_repeats, PhysicalReadData, range_bytes, range_mapped, read_fill, zero_vec};
use crate::types::{Address, Error, PageInfo, PhysicalAddress};

verus! {

/// What a walk of the page tables makes of one virtual address.
#[derive(Clone, Copy, Debug, PartialEq, Eq, Structural)]
pub enum TranslationOutcome {
    /// The address is mapped; the page metadata is always present.
    Mapped(PhysicalAddress),
    /// The entry read at this step was not present.
    NotPresent(u8),
    /// The entry of this step could not be read from physical memory.
    BackendError(u8),
    /// The address is not canonical for the architecture.
    NonCanonical,
}

/// Little-endian value of a byte sequence.
pub open spec fn le_value(s: Seq<u8>) -> int
    decreases s.len(),
{
    if s.len() == 0 {
        0
    } else {
        s[0] as int + 256 * le_value(s.subrange(1, s.len() as int))
    }
}

pub open spec fn pow256(k: nat) -> int
    decreases k,
{
    if k == 0 {
        1
    } else {
        256 * pow256((k - 1) as nat)
    }
}

pub proof fn lemma_le_value_bound(s: Seq<u8>)
    ensures
        0 <= le_value(s) < pow256(s.len()),
    decreases s.len(),
{
    if s.len() > 0 {
        let t = s.subrange(1, s.len() as int);
        lemma_le_value_bound(t);
        assert(t.len() == s.len() - 1);
        let p = pow256(t.len());
        let lv = le_value(t);
        assert(s[0] as int + 256 * lv < 256 * p) by (nonlinear_arith)
            requires
                0 <= lv < p,
                0 <= s[0] < 256,
        ;
    }
}

pub proof fn lemma_pow256_mono(a: nat, b: nat)
    requires
        a <= b,
    ensures
        1 <= pow256(a) <= pow256(b),
    decreases b,
{
    if a < b {
        lemma_pow256_mono(a, (b - 1) as nat);
    } else if b > 0 {
        lemma_pow256_mono(0, (b - 1) as nat);
    }
}

/// The value of up to eight little-endian bytes.
pub fn le_from_bytes(b: &Vec<u8>) -> (r: u64)
    requires
        b@.len() <= 8,
    ensures
        r == le_value(b@),
{
    let n = b.len();
    let mut i: usize = n;
    let mut acc: u64 = 0;
    proof {
        assert(b@.subrange(n as int, n as int).len() == 0);
        reveal_with_fuel(pow256, 9);
        assert(pow256(8) == 0x1_0000_0000_0000_0000int);
    }
    while i > 0
        invariant
            n == b@.len(),
            n <= 8,
            i <= n,
            acc == le_value(b@.subrange(i as int, n as int)),
            acc < pow256((n - i) as nat),
            pow256(8) == 0x1_0000_0000_0000_0000int,
        decreases i,
    {
        proof {
            lemma_pow256_mono((n - i + 1) as nat, 8);
            let p = pow256((n - i) as nat);
            assert(pow256((n - i + 1) as nat) == 256 * p);
            let a = acc as int;
            let x = b@[i - 1] as int;
            assert(a * 256 + x < 256 * p) by (nonlinear_arith)
                requires
                    0 <= a < p,
                    0 <= x < 256,
            ;
        }
        let x = b[i - 1];
        acc = acc * 256 + x as u64;
        proof {
            let s = b@.subrange(i - 1, n as int);
            assert(s.subrange(1, s.len() as int) =~= b@.subrange(i as int, n as int));
            assert(s[0] == x);
        }
        i = i - 1;
    }
    assert(b@.subrange(0, n as int) =~= b@);
    acc
}

impl ArchMMUSpec {
    /// Whether `v` is an address this architecture can translate: below
    /// 2^vbits on 32-bit architectures, sign-extended from bit vbits - 1 on
    /// 64-bit ones.
    pub open spec fn vaddr_ok(&self, v: u64) -> bool {
        let sh = (self.vbits() - 1) as u64;
        if self.addr_size == 8 {
            (v >> sh) == 0 || (v >> sh) == (u64::MAX >> sh)
        } else {
            (v >> (self.vbits() as u64)) == 0
        }
    }

    /// The index into the table of `step` that `v` selects.
    pub open spec fn pte_index(&self, v: u64, step: int) -> u64 {
        (v >> self.page_bits(step + 1)) & low_bits(self.splits()[step] as u64)
    }

    /// Physical address of the entry read at `step` in the table at `base`.
    pub open spec fn pte_addr(&self, base: u64, step: int, v: u64) -> u64 {
        self.pte_addr_mask_spec(base, step) | (self.pte_index(v, step) << pte_shift_of(
            self.pte_size,
        ))
    }

    pub open spec fn is_leaf(&self, pte: u64, next: int) -> bool {
        next == self.n() - 1 || (self.valid_final_page_steps@.contains(next as usize) && bit_set(
            pte,
            self.large_page_bit as u64,
        ))
    }

    /// The frame of the leaf entry `pte` of a walk that ends at step `next`,
    /// joined with the offset bits of `v`.
    pub open spec fn leaf_paddr(&self, pte: u64, next: int, v: u64) -> u64 {
        (pte & bit_mask(self.page_bits(next), (self.address_space_bits - 1) as u64)) | (v
            & low_bits(self.page_bits(next)))
    }

    pub open spec fn leaf_outcome(&self, pte: u64, next: int, v: u64) -> TranslationOutcome {
        TranslationOutcome::Mapped(
            PhysicalAddress {
                address: self.leaf_paddr(pte, next, v),
                page: Some(
                    PageInfo {
                        level: (self.n() - 1 - next) as u8,
                        writeable: bit_set(pte, self.writeable_bit as u64),
                        nx: self.nx_bit < 64 && bit_set(pte, self.nx_bit as u64),
                    },
                ),
            },
        )
    }

    /// The walk of `v` from the table at `base`, read at `step`.
    pub open spec fn walk_from(&self, mem: Map<int, u8>, base: u64, step: int, v: u64) -> TranslationOutcome
        decreases self.n() - step,
    {
        if step < 0 || step + 1 >= self.n() {
            TranslationOutcome::BackendError(step as u8)
        } else {
            let pa = self.pte_addr(base, step, v);
            if !range_mapped(mem, pa as int, self.pte_size as int) {
                TranslationOutcome::BackendError(step as u8)
            } else {
                let pte = le_value(range_bytes(mem, pa as int, self.pte_size as int)) as u64;
                if !bit_set(pte, self.present_bit as u64) {
                    TranslationOutcome::NotPresent(step as u8)
                } else if self.is_leaf(pte, step + 1) {
                    self.leaf_outcome(pte, step + 1, v)
                } else {
                    self.walk_from(mem, self.pte_addr_mask_spec(pte, step + 1), step + 1, v)
                }
            }
        }
    }

    /// The translation of `v` in the address space whose root table is at
    /// `dtb`.
    pub open spec fn translate_spec(&self, mem: Map<int, u8>, dtb: u64, v: u64) -> TranslationOutcome {
        if !self.vaddr_ok(v) {
            TranslationOutcome::NonCanonical
        } else {
            self.walk_from(mem, dtb, 0, v)
        }
    }

    pub fn vaddr_valid(&self, v: u64) -> (r: bool)
        requires
            self.wf(),
        ensures
            r == self.vaddr_ok(v),
    {
        let vbits = self.split_sum_from(0);
        proof {
            lemma_sum_from_mono(self.splits(), 0, 1);
            assert(self.splits()[0] >= 1);
        }
        let sh = (vbits - 1) as u64;
        if self.addr_size == 8 {
            (v >> sh) == 0 || (v >> sh) == (u64::MAX >> sh)
        } else {
            (v >> (vbits as u64)) == 0
        }
    }

    pub fn pte_addr_exec(&self, base: u64, step: usize, v: u64) -> (r: u64)
        requires
            self.wf(),
            step + 1 < self.n(),
        ensures
            r == self.pte_addr(base, step as int, v),
    {
        let below = self.split_sum_from(step + 1);
        let idx = (v >> (below as u64)) & low_bits_exec(self.virtual_address_splits[step] as u64);
        self.pte_addr_mask(Address(base), step) | (idx << self.pte_shift())
    }

    fn is_final_step(&self, next: usize) -> (r: bool)
        ensures
            r == self.valid_final_page_steps@.contains(next),
    {
        let mut i: usize = 0;
        while i < self.valid_final_page_steps.len()
            invariant
                i <= self.valid_final_page_steps@.len(),
                forall|j: int| 0 <= j < i ==> self.valid_final_page_steps@[j] != next,
            decreases self.valid_final_page_steps@.len() - i,
        {
            if self.valid_final_page_steps[i] == next {
                return true;
            }
            i = i + 1;
        }
        false
    }

    fn leaf_exec(&self, pte: u64, next: usize, v: u64) -> (r: TranslationOutcome)
        requires
            self.wf(),
            1 <= next < self.n(),
        ensures
            r == self.leaf_outcome(pte, next as int, v),
    {
        let pb = self.split_sum_from(next);
        proof {
            lemma_sum_from_mono(self.splits(), 1, next as int);
        }
        let frame = pte & make_bit_mask(pb, self.address_space_bits - 1);
        let off = v & low_bits_exec(pb as u64);
        TranslationOutcome::Mapped(
            PhysicalAddress {
                address: frame | off,
                page: Some(
                    PageInfo {
                        level: (self.virtual_address_splits.len() - 1 - next) as u8,
                        writeable: (pte >> (self.writeable_bit as u64)) & 1 == 1,
                        nx: self.nx_bit < 64 && (pte >> (self.nx_bit as u64)) & 1 == 1,
                    },
                ),
            },
        )
    }

    /// Translates every address of `vaddrs` in the address space rooted at
    /// `dtb`, in at most one batched physical read per step. Entries that
    /// several addresses need at a step are read once.
    pub fn virt_to_phys_list<P: PhysicalMemory>(
        &self,
        mem: &mut P,
        dtb: u64,
        vaddrs: &Vec<u64>,
    ) -> (r: Result<Vec<TranslationOutcome>, Error>)
        requires
            self.wf(),
            old(mem).inv(),
        ensures
            final(mem).inv(),
            final(mem).contents() == old(mem).contents(),
            r is Ok ==> r->Ok_0@.len() == vaddrs@.len() && forall|i: int|
                0 <= i < vaddrs@.len() ==> #[trigger] r->Ok_0@[i] == self.translate_spec(
                    old(mem).contents(),
                    dtb,
                    vaddrs@[i],
                ),
            r is Err ==> r == Err::<Vec<TranslationOutcome>, Error>(Error::Backend),
            P::infallible() ==> r is Ok,
            vaddrs@.len() == 0 ==> r is Ok,
            old(mem).read_log().len() <= final(mem).read_log().len() <= old(mem).read_log().len() + self.n() - 1,
            final(mem).read_log().subrange(0, old(mem).read_log().len() as int) == old(mem).read_log(),
            forall|j: int|
                old(mem).read_log().len() <= j < final(mem).read_log().len() ==> no_repeats(
                    #[trigger] final(mem).read_log()[j],
                ),
    {
        let ghost m = old(mem).contents();
        let ghost log0 = old(mem).read_log();
        let cnt = vaddrs.len();
        let n = self.virtual_address_splits.len();
        let mut bases: Vec<u64> = Vec::new();
        let mut results: Vec<Option<TranslationOutcome>> = Vec::new();
        let mut i: usize = 0;
        while i < cnt
            invariant
                self.wf(),
                mem.inv(),
                mem.contents() == m,
                mem.read_log() == log0,
                i <= cnt,
                cnt == vaddrs@.len(),
                bases@.len() == i,
                results@.len() == i,
                forall|k: int|
                    0 <= k < i ==> match #[trigger] results@[k] {
                        Some(o) => o == self.translate_spec(m, dtb, vaddrs@[k]),
                        None => self.vaddr_ok(vaddrs@[k]) && bases@[k] == dtb,
                    },
            decreases cnt - i,
        {
            if self.vaddr_valid(vaddrs[i]) {
                results.push(None);
            } else {
                results.push(Some(TranslationOutcome::NonCanonical));
            }
            bases.push(dtb);
            i = i + 1;
        }
        let mut step: usize = 0;
        let mut fatal: Option<Error> = None;
        while step + 1 < n
            invariant
                self.wf(),
                n == self.n(),
                step < n,
                fatal is Some ==> step + 1 == n,
                fatal matches Some(e) ==> e == Error::Backend && !P::infallible() && cnt > 0,
                cnt == vaddrs@.len(),
                bases@.len() == cnt,
                results@.len() == cnt,
                mem.inv(),
                mem.contents() == m,
                log0.len() <= mem.read_log().len() <= log0.len() + step,
                mem.read_log().subrange(0, log0.len() as int) == log0,
                forall|j: int|
                    log0.len() <= j < mem.read_log().len() ==> no_repeats(#[trigger] mem.read_log()[j]),
                forall|k: int|
                    0 <= k < cnt ==> match #[trigger] results@[k] {
                        Some(o) => o == self.translate_spec(m, dtb, vaddrs@[k]),
                        None => fatal is Some || (step + 1 < n && self.vaddr_ok(vaddrs@[k])
                            && self.walk_from(m, bases@[k], step as int, vaddrs@[k])
                            == self.translate_spec(m, dtb, vaddrs@[k])),
                    },
            decreases n - step,
        {
            // the distinct entry addresses of this step
            let ghost round_log = mem.read_log();
            let mut uniq: Vec<u64> = Vec::new();
            let mut slot: Vec<usize> = Vec::new();
            let mut i: usize = 0;
            while i < cnt
                invariant
                    self.wf(),
                    step + 1 < n,
                    n == self.n(),
                    mem.inv(),
                    mem.contents() == m,
                    i <= cnt,
                    cnt == vaddrs@.len(),
                    bases@.len() == cnt,
                    results@.len() == cnt,
                    slot@.len() == i,
                    uniq@.len() <= i,
                    mem.read_log() == round_log,
                    forall|a: int, b: int| 0 <= a < b < uniq@.len() ==> uniq@[a] != uniq@[b],
                    forall|k: int|
                        0 <= k < i && (#[trigger] results@[k]) is None ==> slot@[k] < uniq@.len()
                            && uniq@[slot@[k] as int] == self.pte_addr(
                            bases@[k],
                            step as int,
                            vaddrs@[k],
                        ),
                decreases cnt - i,
            {
                if results[i].is_none() {
                    let pa = self.pte_addr_exec(bases[i], step, vaddrs[i]);
                    let mut j: usize = 0;
                    while j < uniq.len() && uniq[j] != pa
                        invariant
                            j <= uniq@.len(),
                            mem.inv(),
                            mem.contents() == m,
                            mem.read_log() == round_log,
                            forall|jj: int| 0 <= jj < j ==> uniq@[jj] != pa,
                        decreases uniq@.len() - j,
                    {
                        j = j + 1;
                    }
                    if j == uniq.len() {
                        uniq.push(pa);
                    }
                    slot.push(j);
                } else {
                    slot.push(0);
                }
                i = i + 1;
            }
            let mut reqs: Vec<PhysicalReadData> = Vec::new();
            let mut j: usize = 0;
            while j < uniq.len()
                invariant
                    j <= uniq@.len(),
                    uniq@.len() <= cnt,
                    mem.read_log() == round_log,
                    forall|a: int, b: int| 0 <= a < b < uniq@.len() ==> uniq@[a] != uniq@[b],
                    mem.inv(),
                    mem.contents() == m,
                    reqs@.len() == j,
                    forall|k: int|
                        0 <= k < j ==> (#[trigger] reqs@[k]).addr.address == uniq@[k]
                            && reqs@[k].buf@.len() == self.pte_size,
                decreases uniq@.len() - j,
            {
                reqs.push(
                    PhysicalReadData {
                        addr: PhysicalAddress::from_address(uniq[j]),
                        buf: zero_vec(self.pte_size),
                    },
                );
                j = j + 1;
            }
            let ghost sent = reqs@;
            // nothing is left to read once every address is resolved
            let ok = if reqs.len() == 0 {
                let none: Vec<bool> = Vec::new();
                assert(crate::phys_mem::reads_done(m, sent, reqs@, none@));
                none
            } else {
                assert(cnt > 0);
                let rr = mem.phys_read_raw_iter(&mut reqs);
                proof {
                    let l = mem.read_log();
                    assert(l == round_log.push(crate::phys_mem::batch_addresses(sent)));
                    assert(l.subrange(0, log0.len() as int) =~= round_log.subrange(0, log0.len() as int));
                    let b = crate::phys_mem::batch_addresses(sent);
                    assert forall|x: int, y: int| 0 <= x < y < b.len() implies b[x] != b[y] by {
                        assert(sent[x].addr.address == uniq@[x]);
                        assert(sent[y].addr.address == uniq@[y]);
                    }
                    assert forall|j: int| log0.len() <= j < l.len() implies no_repeats(#[trigger] l[j]) by {
                        if j < round_log.len() {
                            assert(l[j] == round_log[j]);
                        }
                    }
                }
                if rr.is_err() {
                    fatal = Some(rr.unwrap_err());
                    step = n - 1;
                    continue;
                }
                rr.unwrap()
            };
            let mut i: usize = 0;
            while i < cnt
                invariant
                    self.wf(),
                    step + 1 < n,
                    n == self.n(),
                    mem.inv(),
                    mem.contents() == m,
                    i <= cnt,
                    cnt == vaddrs@.len(),
                    bases@.len() == cnt,
                    results@.len() == cnt,
                    slot@.len() == cnt,
                    mem.contents() == m,
                    sent.len() == uniq@.len(),
                    crate::phys_mem::reads_done(m, sent, reqs@, ok@),
                    forall|k: int|
                        0 <= k < sent.len() ==> (#[trigger] sent[k]).addr.address == uniq@[k]
                            && sent[k].buf@.len() == self.pte_size,
                    forall|k: int|
                        i <= k < cnt && (#[trigger] results@[k]) is None ==> slot@[k] < uniq@.len()
                            && uniq@[slot@[k] as int] == self.pte_addr(
                            bases@[k],
                            step as int,
                            vaddrs@[k],
                        ),
                    forall|k: int|
                        0 <= k < cnt ==> match #[trigger] results@[k] {
                            Some(o) => o == self.translate_spec(m, dtb, vaddrs@[k]),
                            None => self.vaddr_ok(vaddrs@[k]) && if k < i {
                                step + 2 < n && self.walk_from(
                                    m,
                                    bases@[k],
                                    step + 1,
                                    vaddrs@[k],
                                ) == self.translate_spec(m, dtb, vaddrs@[k])
                            } else {
                                self.walk_from(m, bases@[k], step as int, vaddrs@[k])
                                    == self.translate_spec(m, dtb, vaddrs@[k])
                            },
                        },
                decreases cnt - i,
            {
                if results[i].is_none() {
                    let j = slot[i];
                    let ghost v = vaddrs@[i as int];
                    let ghost pa = self.pte_addr(bases@[i as int], step as int, v);
                    assert(sent[j as int].addr.address == pa);
                    if !ok[j] {
                        results.set(i, Some(TranslationOutcome::BackendError(step as u8)));
                    } else {
                        assert(reqs@[j as int].buf@ == range_bytes(m, pa as int, self.pte_size as int));
                        let pte = le_from_bytes(&reqs[j].buf);
                        if (pte >> (self.present_bit as u64)) & 1 != 1 {
                            results.set(i, Some(TranslationOutcome::NotPresent(step as u8)));
                        } else if step + 2 == n || (self.is_final_step(step + 1) && (pte
                            >> (self.large_page_bit as u64)) & 1 == 1) {
                            let o = self.leaf_exec(pte, step + 1, vaddrs[i]);
                            results.set(i, Some(o));
                        } else {
                            let nb = self.pte_addr_mask(Address(pte), step + 1);
                            bases.set(i, nb);
                        }
                    }
                }
                i = i + 1;
            }
            step = step + 1;
        }
        if fatal.is_some() {
            return Err(fatal.unwrap());
        }
        let mut out: Vec<TranslationOutcome> = Vec::new();
        let mut i: usize = 0;
        while i < cnt
            invariant
                i <= cnt,
                cnt == vaddrs@.len(),
                results@.len() == cnt,
                step + 1 >= n,
                mem.inv(),
                mem.contents() == m,
                out@.len() == i,
                forall|k: int|
                    0 <= k < cnt ==> match #[trigger] results@[k] {
                        Some(o) => o == self.translate_spec(m, dtb, vaddrs@[k]),
                        None => step + 1 < n,
                    },
                forall|k: int| 0 <= k < i ==> #[trigger] out@[k] == self.translate_spec(m, dtb, vaddrs@[k]),
            decreases cnt - i,
        {
            match results[i] {
                Some(o) => out.push(o),
                None => {
                    assert(false);
                    out.push(TranslationOutcome::NonCanonical);
                },
            }
            i = i + 1;
        }
        Ok(out)
    }
}

} // verus!
