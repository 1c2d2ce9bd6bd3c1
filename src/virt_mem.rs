use vstd::prelude::*;
use crate::architecture::{Architecture, VirtualTranslate};
use crate::mmu::ArchMMUSpec;
use crate::phys_mem::{
    PhysicalMemory, PhysicalReadData, PhysicalWriteData, apply_writes, range_mapped, read_fill,
    zero_vec, zeros,
};
use crate::phys_mem::PhysicalMemoryMetadata;
use crate::types::{Error, PhysicalAddress};
use crate::win32::{cstr_bytes, cstr_prefix, lossy_text, text_from_bytes};
use crate::walker::{TranslationOutcome, le_from_bytes, le_value};

verus! {

/// Bytes of the finest page of `mmu`.
pub open spec fn min_page(mmu: ArchMMUSpec) -> int {
    (1u64 << (mmu.splits().last() as u64)) as int
}

/// Length of the piece of `[a, a + len)` that lies in the page of `a`.
pub open spec fn piece_len(ps: int, a: int, len: int) -> int {
    let room = ps - a % ps;
    if len < room {
        len
    } else {
        room
    }
}

/// The bytes that a read of the `l` bytes at `a`, all in one finest page,
/// yields: those of the translated range, or zeros.
pub open spec fn piece_fill(mmu: ArchMMUSpec, mem: Map<int, u8>, dtb: u64, a: u64, l: int) -> Seq<u8> {
    match mmu.translate_spec(mem, dtb, a) {
        TranslationOutcome::Mapped(pa) => read_fill(mem, pa.address as int, l),
        _ => zeros(l),
    }
}

pub open spec fn piece_ok(mmu: ArchMMUSpec, mem: Map<int, u8>, dtb: u64, a: u64, l: int) -> bool {
    match mmu.translate_spec(mem, dtb, a) {
        TranslationOutcome::Mapped(pa) => range_mapped(mem, pa.address as int, l),
        _ => false,
    }
}

pub open spec fn in_space(a: int, len: int) -> bool {
    0 <= a && a + len <= 0x1_0000_0000_0000_0000
}

/// What a virtual read of `len` bytes at `a` fills its buffer with: the
/// pieces of each page in turn, a piece whose page fails zeroed. A range
/// that leaves the 64-bit space is all zeros.
pub open spec fn virt_fill(mmu: ArchMMUSpec, mem: Map<int, u8>, dtb: u64, a: int, len: int) -> Seq<u8>
    decreases len,
{
    let ps = min_page(mmu);
    if len <= 0 {
        Seq::empty()
    } else if ps <= 0 || !in_space(a, len) {
        zeros(len)
    } else {
        let l = piece_len(ps, a, len);
        if l <= 0 {
            zeros(len)
        } else {
            piece_fill(mmu, mem, dtb, a as u64, l) + virt_fill(mmu, mem, dtb, a + l, len - l)
        }
    }
}

/// Whether every page of a virtual read of `len` bytes at `a` succeeds.
pub open spec fn virt_ok(mmu: ArchMMUSpec, mem: Map<int, u8>, dtb: u64, a: int, len: int) -> bool
    decreases len,
{
    let ps = min_page(mmu);
    if len <= 0 {
        true
    } else if ps <= 0 || !in_space(a, len) {
        false
    } else {
        let l = piece_len(ps, a, len);
        if l <= 0 {
            false
        } else {
            piece_ok(mmu, mem, dtb, a as u64, l) && virt_ok(mmu, mem, dtb, a + l, len - l)
        }
    }
}

/// The pieces of a virtual read of `len` bytes at `a`, one per finest page
/// it touches, as (address, length), in order.
pub open spec fn pieces(mmu: ArchMMUSpec, a: int, len: int) -> Seq<(int, int)>
    decreases len,
{
    let ps = min_page(mmu);
    if len <= 0 || ps <= 0 || !in_space(a, len) {
        Seq::empty()
    } else {
        let l = piece_len(ps, a, len);
        if l <= 0 {
            Seq::empty()
        } else {
            seq![(a, l)] + pieces(mmu, a + l, len - l)
        }
    }
}

/// The bytes of the pieces `p`, one after another.
pub open spec fn fill_of(mmu: ArchMMUSpec, m: Map<int, u8>, dtb: u64, p: Seq<(int, int)>) -> Seq<u8>
    decreases p.len(),
{
    if p.len() == 0 {
        Seq::empty()
    } else {
        piece_fill(mmu, m, dtb, p[0].0 as u64, p[0].1) + fill_of(mmu, m, dtb, p.drop_first())
    }
}

/// Whether every piece of `p` succeeds.
pub open spec fn ok_of(mmu: ArchMMUSpec, m: Map<int, u8>, dtb: u64, p: Seq<(int, int)>) -> bool
    decreases p.len(),
{
    if p.len() == 0 {
        true
    } else {
        piece_ok(mmu, m, dtb, p[0].0 as u64, p[0].1) && ok_of(mmu, m, dtb, p.drop_first())
    }
}

/// A read within the 64-bit space is its pieces read one after another.
pub proof fn lemma_read_is_pieces(mmu: ArchMMUSpec, m: Map<int, u8>, dtb: u64, a: int, len: int)
    requires
        min_page(mmu) > 0,
        in_space(a, len),
    ensures
        virt_fill(mmu, m, dtb, a, len) == fill_of(mmu, m, dtb, pieces(mmu, a, len)),
        virt_ok(mmu, m, dtb, a, len) == ok_of(mmu, m, dtb, pieces(mmu, a, len)),
    decreases len,
{
    let ps = min_page(mmu);
    if len > 0 {
        let l = piece_len(ps, a, len);
        if l > 0 {
            lemma_read_is_pieces(mmu, m, dtb, a + l, len - l);
            let p = pieces(mmu, a, len);
            assert(p.drop_first() =~= pieces(mmu, a + l, len - l));
            assert(p[0] == (a, l));
        }
    }
}

/// Appends the pieces of a read of `len` bytes at `a` to `vs` (addresses)
/// and `ls` (lengths).
fn collect_pieces(
    Ghost(mmu): Ghost<ArchMMUSpec>,
    ps: u64,
    a: u64,
    len: usize,
    vs: &mut Vec<u64>,
    ls: &mut Vec<usize>,
)
    requires
        ps as int == min_page(mmu),
        ps > 0,
        a + len <= 0x1_0000_0000_0000_0000,
        old(vs)@.len() == old(ls)@.len(),
    ensures
        final(vs)@.len() == final(ls)@.len(),
        final(vs)@.len() == old(vs)@.len() + pieces(mmu, a as int, len as int).len(),
        forall|j: int| 0 <= j < old(vs)@.len() ==> final(vs)@[j] == old(vs)@[j] && final(ls)@[j] == old(ls)@[j],
        forall|j: int|
            0 <= j < pieces(mmu, a as int, len as int).len() ==> #[trigger] pieces(mmu, a as int, len as int)[j]
                == (final(vs)@[old(vs)@.len() + j] as int, final(ls)@[old(vs)@.len() + j] as int),
{
    let ghost all = pieces(mmu, a as int, len as int);
    let ghost base = vs@.len() as int;
    let mut cur: u128 = a as u128;
    let mut rem: usize = len;
    let mut k: usize = 0;
    while rem > 0
        invariant
            ps as int == min_page(mmu),
            ps > 0,
            cur + rem == a + len,
            a + len <= 0x1_0000_0000_0000_0000,
            vs@.len() == ls@.len(),
            vs@.len() == base + k,
            base == old(vs)@.len(),
            old(vs)@.len() == old(ls)@.len(),
            k <= all.len(),
            forall|j: int| 0 <= j < base ==> vs@[j] == old(vs)@[j] && ls@[j] == old(ls)@[j],
            forall|j: int| 0 <= j < k ==> #[trigger] all[j] == (vs@[base + j] as int, ls@[base + j] as int),
            all.subrange(k as int, all.len() as int) == pieces(mmu, cur as int, rem as int),
        decreases rem,
    {
        let c = cur as u64;
        let room = ps - c % ps;
        let l: usize = if (rem as u64) < room {
            rem
        } else {
            room as usize
        };
        proof {
            assert(in_space(cur as int, rem as int));
            assert(l as int == piece_len(ps as int, cur as int, rem as int));
            let rest = all.subrange(k as int, all.len() as int);
            assert(rest[0] == (cur as int, l as int));
            assert(rest.drop_first() =~= all.subrange(k + 1, all.len() as int));
            assert(all[k as int] == rest[0]);
        }
        vs.push(c);
        ls.push(l);
        cur = cur + l as u128;
        rem = rem - l;
        assert(k < vs.len());
        k = k + 1;
    }
    assert(all.subrange(k as int, all.len() as int).len() == 0);
}

/// For each translated piece, a physical read request when it is mapped.
fn build_requests(outcomes: &Vec<TranslationOutcome>, ls: &Vec<usize>) -> (r: (
    Vec<PhysicalReadData>,
    Vec<Option<usize>>,
))
    requires
        outcomes@.len() == ls@.len(),
    ensures
        r.1@.len() == ls@.len(),
        forall|x: int|
            0 <= x < ls@.len() ==> match #[trigger] r.1@[x] {
                Some(q) => q < r.0@.len() && outcomes@[x] is Mapped && r.0@[q as int].addr.address
                    == outcomes@[x]->Mapped_0.address && r.0@[q as int].buf@.len() == ls@[x],
                None => !(outcomes@[x] is Mapped),
            },
{
    let np = ls.len();
    let mut reqs: Vec<PhysicalReadData> = Vec::new();
    let mut req_of: Vec<Option<usize>> = Vec::new();
    let mut j: usize = 0;
    while j < np
        invariant
            np == ls@.len(),
            outcomes@.len() == np,
            j <= np,
            req_of@.len() == j,
            forall|x: int|
                0 <= x < j ==> match #[trigger] req_of@[x] {
                    Some(q) => q < reqs@.len() && outcomes@[x] is Mapped && reqs@[q as int].addr.address
                        == outcomes@[x]->Mapped_0.address && reqs@[q as int].buf@.len() == ls@[x],
                    None => !(outcomes@[x] is Mapped),
                },
        decreases np - j,
    {
        match outcomes[j] {
            TranslationOutcome::Mapped(pa) => {
                req_of.push(Some(reqs.len()));
                reqs.push(PhysicalReadData { addr: PhysicalAddress::from_address(pa.address), buf: zero_vec(ls[j]) });
            },
            _ => {
                req_of.push(None);
            },
        }
        j = j + 1;
    }
    (reqs, req_of)
}

/// Reads a batch, unless it is empty.
fn read_batch<P: PhysicalMemory>(mem: &mut P, reqs: &mut Vec<PhysicalReadData>) -> (r: Result<Vec<bool>, Error>)
    requires
        old(mem).inv(),
    ensures
        final(mem).inv(),
        final(mem).contents() == old(mem).contents(),
        r is Ok ==> crate::phys_mem::reads_done(old(mem).contents(), old(reqs)@, final(reqs)@, r->Ok_0@),
        r is Err ==> r == Err::<Vec<bool>, Error>(Error::Backend),
        P::infallible() ==> r is Ok,
{
    if reqs.len() == 0 {
        let none: Vec<bool> = Vec::new();
        assert(crate::phys_mem::reads_done(old(mem).contents(), old(reqs)@, reqs@, none@));
        Ok(none)
    } else {
        mem.phys_read_raw_iter(reqs)
    }
}

/// Joins the pieces `st ..` of a read of `len` bytes at `a` from the
/// batch's results: the bytes and whether every piece succeeded.
fn assemble(
    Ghost(mmu): Ghost<ArchMMUSpec>,
    Ghost(m): Ghost<Map<int, u8>>,
    dtb: u64,
    vs: &Vec<u64>,
    ls: &Vec<usize>,
    outcomes: &Vec<TranslationOutcome>,
    Ghost(sent): Ghost<Seq<PhysicalReadData>>,
    reqs: &Vec<PhysicalReadData>,
    flags: &Vec<bool>,
    req_of: &Vec<Option<usize>>,
    st: usize,
    np: usize,
    Ghost(a): Ghost<int>,
    Ghost(len): Ghost<int>,
) -> (r: (bool, Vec<u8>))
    requires
        np == pieces(mmu, a, len).len(),
        vs@.len() == ls@.len(),
        outcomes@.len() == vs@.len(),
        req_of@.len() == vs@.len(),
        forall|x: int| 0 <= x < vs@.len() ==> #[trigger] outcomes@[x] == mmu.translate_spec(m, dtb, vs@[x]),
        crate::phys_mem::reads_done(m, sent, reqs@, flags@),
        forall|x: int|
            0 <= x < vs@.len() ==> match #[trigger] req_of@[x] {
                Some(q) => q < sent.len() && outcomes@[x] is Mapped && sent[q as int].addr.address
                    == outcomes@[x]->Mapped_0.address && sent[q as int].buf@.len() == ls@[x],
                None => !(outcomes@[x] is Mapped),
            },
        st + pieces(mmu, a, len).len() <= vs@.len(),
        forall|j: int|
            0 <= j < pieces(mmu, a, len).len() ==> #[trigger] pieces(mmu, a, len)[j] == (
            vs@[st + j] as int, ls@[st + j] as int),
    ensures
        r.0 == ok_of(mmu, m, dtb, pieces(mmu, a, len)),
        r.1@ == fill_of(mmu, m, dtb, pieces(mmu, a, len)),
{
    let ghost all = pieces(mmu, a, len);
    let mut out: Vec<u8> = Vec::new();
    let mut ok = true;
    let mut j: usize = 0;
    proof {
        assert(all.subrange(0, np as int) =~= all);
        assert(out@ + fill_of(mmu, m, dtb, all) =~= fill_of(mmu, m, dtb, all));
    }
    while j < np
        invariant
            np == all.len(),
            st + np <= vs.len(),
            j <= np,
            vs@.len() == ls@.len(),
            outcomes@.len() == vs@.len(),
            req_of@.len() == vs@.len(),
            forall|x: int| 0 <= x < vs@.len() ==> #[trigger] outcomes@[x] == mmu.translate_spec(m, dtb, vs@[x]),
            crate::phys_mem::reads_done(m, sent, reqs@, flags@),
            forall|x: int|
                0 <= x < vs@.len() ==> match #[trigger] req_of@[x] {
                    Some(q) => q < sent.len() && outcomes@[x] is Mapped && sent[q as int].addr.address
                        == outcomes@[x]->Mapped_0.address && sent[q as int].buf@.len() == ls@[x],
                    None => !(outcomes@[x] is Mapped),
                },
            forall|i: int| 0 <= i < np ==> #[trigger] all[i] == (vs@[st + i] as int, ls@[st + i] as int),
            out@ + fill_of(mmu, m, dtb, all.subrange(j as int, np as int)) == fill_of(mmu, m, dtb, all),
            (ok && ok_of(mmu, m, dtb, all.subrange(j as int, np as int))) == ok_of(mmu, m, dtb, all),
        decreases np - j,
    {
        let ghost x = (st + j) as int;
        let (mut piece, good) = match req_of[st + j] {
            Some(q) => (reqs[q].buf.clone(), flags[q]),
            None => (zero_vec(ls[st + j]), false),
        };
        proof {
            assert(all[j as int] == (vs@[x] as int, ls@[x] as int));
            assert(all[j as int].0 as u64 == vs@[x]);
            assert(piece@ == piece_fill(mmu, m, dtb, vs@[x], ls@[x] as int));
            assert(good == piece_ok(mmu, m, dtb, vs@[x], ls@[x] as int));
            let rest = all.subrange(j as int, np as int);
            assert(rest[0] == all[j as int]);
            assert(rest.drop_first() =~= all.subrange(j + 1, np as int));
            assert(out@ + piece@ + fill_of(mmu, m, dtb, all.subrange(j + 1, np as int)) =~= out@ + (piece@
                + fill_of(mmu, m, dtb, all.subrange(j + 1, np as int))));
        }
        out.append(&mut piece);
        ok = ok && good;
        j = j + 1;
    }
    proof {
        assert(all.subrange(np as int, np as int) =~= Seq::<(int, int)>::empty());
        assert(out@ + Seq::<u8>::empty() =~= out@);
    }
    (ok, out)
}

/// The finest page size of the translator's hierarchy.
fn finest_page<V: VirtualTranslate>(vat: &V, Ghost(m): Ghost<Map<int, u8>>) -> (r: u64)
    requires
        vat.ready(m),
    ensures
        r as int == min_page(vat.mmu()),
        r > 0,
{
    proof {
        vat.lemma_ready(m);
    }
    let spec_ref = vat.mmu_ref();
    let last = spec_ref.virtual_address_splits[spec_ref.virtual_address_splits.len() - 1];
    assert(last < 64);
    let ps: u64 = 1u64 << (last as u64);
    assert(ps > 0) by {
        assert((1u64 << last) > 0) by (bit_vector)
            requires
                last < 64,
        ;
    }
    ps
}

/// Reads `len` bytes at virtual `a` of the address space rooted at `dtb`:
/// the pages it touches are translated in one batch and their pieces read in
/// one batched physical read. Returns whether every piece succeeded, and the
/// bytes, a failed piece zeroed.
pub fn virt_read_range<P: PhysicalMemory, V: VirtualTranslate>(
    mem: &mut P,
    vat: &mut V,
    dtb: u64,
    a: u64,
    len: usize,
) -> (r: Result<(bool, Vec<u8>), Error>)
    requires
        old(mem).inv(),
        old(vat).ready(old(mem).contents()),
    ensures
        final(mem).inv(),
        final(mem).contents() == old(mem).contents(),
        final(vat).ready(final(mem).contents()),
        final(vat).mmu() == old(vat).mmu(),
        final(vat).arch() == old(vat).arch(),
        r matches Ok((ok, buf)) ==> ok == virt_ok(old(vat).mmu(), old(mem).contents(), dtb, a as int, len as int)
            && buf@ == virt_fill(old(vat).mmu(), old(mem).contents(), dtb, a as int, len as int),
        r is Err ==> r == Err::<(bool, Vec<u8>), Error>(Error::Backend),
        P::infallible() ==> r is Ok,
        len == 0 ==> r is Ok,
{
    let ghost m = old(mem).contents();
    let ghost mmu = vat.mmu();
    if len == 0 {
        return Ok((true, Vec::new()));
    }
    if (a as u128) + (len as u128) > 0x1_0000_0000_0000_0000u128 {
        return Ok((false, zero_vec(len)));
    }
    let ps = finest_page(vat, Ghost(m));
    let mut vs: Vec<u64> = Vec::new();
    let mut ls: Vec<usize> = Vec::new();
    collect_pieces(Ghost(mmu), ps, a, len, &mut vs, &mut ls);
    let outcomes = vat.virt_to_phys_list(mem, dtb, &vs)?;
    let (mut reqs, req_of) = build_requests(&outcomes, &ls);
    let ghost sent = reqs@;
    let flags = read_batch(mem, &mut reqs)?;
    let r = assemble(
        Ghost(mmu),
        Ghost(m),
        dtb,
        &vs,
        &ls,
        &outcomes,
        Ghost(sent),
        &reqs,
        &flags,
        &req_of,
        0,
        vs.len(),
        Ghost(a as int),
        Ghost(len as int),
    );
    proof {
        lemma_read_is_pieces(mmu, m, dtb, a as int, len as int);
    }
    Ok(r)
}

/// One element of a batched virtual read: the buffer's length is the number
/// of bytes to read.
pub struct VirtualReadData {
    pub addr: u64,
    pub buf: Vec<u8>,
}

/// The outcome of a batched virtual read `before` -> `after`: each element
/// keeps its address, its buffer holds `virt_fill` and its flag `virt_ok`.
pub open spec fn virt_reads_done(
    mmu: ArchMMUSpec,
    m: Map<int, u8>,
    dtb: u64,
    before: Seq<VirtualReadData>,
    after: Seq<VirtualReadData>,
    ok: Seq<bool>,
) -> bool {
    &&& after.len() == before.len()
    &&& ok.len() == before.len()
    &&& forall|i: int|
        0 <= i < before.len() ==> {
            &&& (#[trigger] after[i]).addr == before[i].addr
            &&& after[i].buf@ == virt_fill(mmu, m, dtb, before[i].addr as int, before[i].buf@.len() as int)
            &&& ok[i] == virt_ok(mmu, m, dtb, before[i].addr as int, before[i].buf@.len() as int)
        }
}

/// Whether `p` is a permutation of `0 .. n`.
pub open spec fn is_permutation(p: Seq<int>, n: int) -> bool {
    &&& p.len() == n
    &&& forall|i: int| 0 <= i < n ==> 0 <= #[trigger] p[i] < n
    &&& forall|i: int, j: int| 0 <= i < j < n ==> p[i] != p[j]
}

/// A batch read in another order gives each element the same buffer and the
/// same success as before: element `i` of the reordered batch fares as
/// element `perm[i]` of the first order.
pub proof fn lemma_batch_permutation(
    mmu: ArchMMUSpec,
    m: Map<int, u8>,
    dtb: u64,
    batch: Seq<VirtualReadData>,
    out: Seq<VirtualReadData>,
    ok: Seq<bool>,
    perm: Seq<int>,
    pbatch: Seq<VirtualReadData>,
    pout: Seq<VirtualReadData>,
    pok: Seq<bool>,
    i: int,
)
    requires
        is_permutation(perm, batch.len() as int),
        pbatch.len() == batch.len(),
        forall|k: int|
            0 <= k < batch.len() ==> (#[trigger] pbatch[k]).addr == batch[perm[k]].addr
                && pbatch[k].buf@.len() == batch[perm[k]].buf@.len(),
        virt_reads_done(mmu, m, dtb, batch, out, ok),
        virt_reads_done(mmu, m, dtb, pbatch, pout, pok),
        0 <= i < batch.len(),
    ensures
        pout[i].buf@ == out[perm[i]].buf@,
        pok[i] == ok[perm[i]],
        pout[i].addr == out[perm[i]].addr,
{
    let j = perm[i];
    assert(0 <= j < batch.len());
    assert(pbatch[i].addr == batch[j].addr && pbatch[i].buf@.len() == batch[j].buf@.len());
    assert(out[j].buf@ == virt_fill(mmu, m, dtb, batch[j].addr as int, batch[j].buf@.len() as int));
    assert(pout[i].buf@ == virt_fill(mmu, m, dtb, pbatch[i].addr as int, pbatch[i].buf@.len() as int));
}

/// Reads each element of `data` from the address space rooted at `dtb`;
/// returns per-element success. The pages of all elements are translated in
/// one batch and read in one batched physical read; a failed page zeroes
/// only its own piece.
pub fn virt_read_raw_list<P: PhysicalMemory, V: VirtualTranslate>(
    mem: &mut P,
    vat: &mut V,
    dtb: u64,
    data: &mut Vec<VirtualReadData>,
) -> (r: Result<Vec<bool>, Error>)
    requires
        old(mem).inv(),
        old(vat).ready(old(mem).contents()),
    ensures
        final(mem).inv(),
        final(mem).contents() == old(mem).contents(),
        final(vat).ready(final(mem).contents()),
        final(vat).mmu() == old(vat).mmu(),
        final(vat).arch() == old(vat).arch(),
        r is Ok ==> virt_reads_done(old(vat).mmu(), old(mem).contents(), dtb, old(data)@, final(data)@, r->Ok_0@),
        r is Err ==> r == Err::<Vec<bool>, Error>(Error::Backend),
        P::infallible() ==> r is Ok,
{
    let ghost m = old(mem).contents();
    let ghost mmu = vat.mmu();
    let ghost before = data@;
    let n = data.len();
    let ps = finest_page(vat, Ghost(m));
    let mut vs: Vec<u64> = Vec::new();
    let mut ls: Vec<usize> = Vec::new();
    let mut st: Vec<usize> = Vec::new();
    let mut cnt: Vec<usize> = Vec::new();
    let mut i: usize = 0;
    while i < n
        invariant
            ps as int == min_page(mmu),
            ps > 0,
            n == data@.len(),
            data@ == before,
            i <= n,
            vs@.len() == ls@.len(),
            st@.len() == i,
            cnt@.len() == i,
            forall|e: int|
                0 <= e < i ==> {
                    &&& #[trigger] st@[e] + cnt@[e] <= vs@.len()
                    &&& cnt@[e] == pieces(mmu, before[e].addr as int, before[e].buf@.len() as int).len()
                    &&& forall|j: int|
                        0 <= j < cnt@[e] ==> #[trigger] pieces(mmu, before[e].addr as int, before[e].buf@.len() as int)[j]
                            == (vs@[st@[e] + j] as int, ls@[st@[e] + j] as int)
                },
        decreases n - i,
    {
        let a = data[i].addr;
        let len = data[i].buf.len();
        let ghost old_vs = vs@;
        let ghost old_ls = ls@;
        let start = vs.len();
        if len > 0 && (a as u128) + (len as u128) <= 0x1_0000_0000_0000_0000u128 {
            collect_pieces(Ghost(mmu), ps, a, len, &mut vs, &mut ls);
        }
        proof {
            assert(forall|j: int| 0 <= j < old_vs.len() ==> vs@[j] == old_vs[j] && ls@[j] == old_ls[j]);
            if !(len > 0 && a + len <= 0x1_0000_0000_0000_0000) {
                assert(pieces(mmu, a as int, len as int).len() == 0);
            }
        }
        st.push(start);
        cnt.push(vs.len() - start);
        i = i + 1;
    }
    let outcomes = vat.virt_to_phys_list(mem, dtb, &vs)?;
    let (mut reqs, req_of) = build_requests(&outcomes, &ls);
    let ghost sent = reqs@;
    let flags = read_batch(mem, &mut reqs)?;
    let mut ok: Vec<bool> = Vec::new();
    let mut i: usize = 0;
    while i < n
        invariant
            n == data@.len(),
            n == before.len(),
            i <= n,
            ok@.len() == i,
            ps as int == min_page(mmu),
            ps > 0,
            vs@.len() == ls@.len(),
            st@.len() == n,
            cnt@.len() == n,
            outcomes@.len() == vs@.len(),
            req_of@.len() == vs@.len(),
            forall|x: int| 0 <= x < vs@.len() ==> #[trigger] outcomes@[x] == mmu.translate_spec(m, dtb, vs@[x]),
            crate::phys_mem::reads_done(m, sent, reqs@, flags@),
            forall|x: int|
                0 <= x < vs@.len() ==> match #[trigger] req_of@[x] {
                    Some(q) => q < sent.len() && outcomes@[x] is Mapped && sent[q as int].addr.address
                        == outcomes@[x]->Mapped_0.address && sent[q as int].buf@.len() == ls@[x],
                    None => !(outcomes@[x] is Mapped),
                },
            forall|e: int|
                0 <= e < n ==> {
                    &&& #[trigger] st@[e] + cnt@[e] <= vs@.len()
                    &&& cnt@[e] == pieces(mmu, before[e].addr as int, before[e].buf@.len() as int).len()
                    &&& forall|j: int|
                        0 <= j < cnt@[e] ==> #[trigger] pieces(mmu, before[e].addr as int, before[e].buf@.len() as int)[j]
                            == (vs@[st@[e] + j] as int, ls@[st@[e] + j] as int)
                },
            forall|j: int| i <= j < n ==> #[trigger] data@[j] == before[j],
            forall|j: int|
                0 <= j < i ==> {
                    &&& (#[trigger] data@[j]).addr == before[j].addr
                    &&& data@[j].buf@ == virt_fill(mmu, m, dtb, before[j].addr as int, before[j].buf@.len() as int)
                    &&& ok@[j] == virt_ok(mmu, m, dtb, before[j].addr as int, before[j].buf@.len() as int)
                },
        decreases n - i,
    {
        let a = data[i].addr;
        let len = data[i].buf.len();
        let (good, buf) = if len == 0 {
            (true, Vec::new())
        } else if (a as u128) + (len as u128) > 0x1_0000_0000_0000_0000u128 {
            (false, zero_vec(len))
        } else {
            let ghost e = i as int;
            assert(st@[e] + cnt@[e] <= vs@.len());
            let r = assemble(
                Ghost(mmu),
                Ghost(m),
                dtb,
                &vs,
                &ls,
                &outcomes,
                Ghost(sent),
                &reqs,
                &flags,
                &req_of,
                st[i],
                cnt[i],
                Ghost(a as int),
                Ghost(len as int),
            );
            proof {
                lemma_read_is_pieces(mmu, m, dtb, a as int, len as int);
            }
            r
        };
        let ghost prev_data = data@;
        let ghost prev_ok = ok@;
        data.set(i, VirtualReadData { addr: a, buf });
        ok.push(good);
        proof {
            assert(before[i as int].addr == a);
            assert(before[i as int].buf@.len() == len);
            assert(data@[i as int].buf@ == virt_fill(mmu, m, dtb, a as int, len as int));
            assert(forall|j: int| 0 <= j < i ==> data@[j] == prev_data[j] && ok@[j] == prev_ok[j]);
        }
        i = i + 1;
    }
    Ok(ok)
}

/// One element of a batched virtual write.
pub struct VirtualWriteData {
    pub addr: u64,
    pub buf: Vec<u8>,
}

/// The physical writes that the pieces `p` of a write of `buf` at `a` make:
/// each piece mapped in `m` writes its part of `buf` at its physical
/// address; an unmapped piece writes nothing.
pub open spec fn piece_writes(
    mmu: ArchMMUSpec,
    m: Map<int, u8>,
    dtb: u64,
    a: int,
    buf: Seq<u8>,
    p: Seq<(int, int)>,
) -> Seq<(int, Seq<u8>)>
    decreases p.len(),
{
    if p.len() == 0 {
        Seq::empty()
    } else {
        let rest = piece_writes(mmu, m, dtb, a, buf, p.drop_first());
        match mmu.translate_spec(m, dtb, p[0].0 as u64) {
            TranslationOutcome::Mapped(pa) => seq![
                (pa.address as int, buf.subrange(p[0].0 - a, p[0].0 - a + p[0].1)),
            ] + rest,
            _ => rest,
        }
    }
}

/// Whether every piece of `p` is mapped in `m`.
pub open spec fn all_mapped(mmu: ArchMMUSpec, m: Map<int, u8>, dtb: u64, p: Seq<(int, int)>) -> bool {
    forall|j: int| 0 <= j < p.len() ==> #[trigger] mmu.translate_spec(m, dtb, p[j].0 as u64) is Mapped
}

/// The physical writes of one element, translated in `m`.
pub open spec fn element_writes(mmu: ArchMMUSpec, m: Map<int, u8>, dtb: u64, e: VirtualWriteData) -> Seq<(int, Seq<u8>)> {
    piece_writes(mmu, m, dtb, e.addr as int, e.buf@, pieces(mmu, e.addr as int, e.buf@.len() as int))
}

/// The physical writes of a batch, element after element, all translated
/// in `m` before any is made.
pub open spec fn batch_writes(mmu: ArchMMUSpec, m: Map<int, u8>, dtb: u64, data: Seq<VirtualWriteData>) -> Seq<(int, Seq<u8>)>
    decreases data.len(),
{
    if data.len() == 0 {
        Seq::empty()
    } else {
        batch_writes(mmu, m, dtb, data.drop_last()) + element_writes(mmu, m, dtb, data.last())
    }
}

/// The address and bytes of each physical write.
pub open spec fn as_plan(w: Seq<PhysicalWriteData>) -> Seq<(int, Seq<u8>)> {
    Seq::new(w.len(), |i: int| (w[i].addr.address as int, w[i].buf@))
}

/// The number of physical writes the elements before `i` make.
pub open spec fn elem_start(mmu: ArchMMUSpec, m: Map<int, u8>, dtb: u64, data: Seq<VirtualWriteData>, i: int) -> int {
    batch_writes(mmu, m, dtb, data.subrange(0, i)).len() as int
}

/// Whether `flags` says of each element that it fits and that the memory
/// wrote every one of its physical writes, whose flags `fl` holds.
pub open spec fn written_flags(
    mmu: ArchMMUSpec,
    m: Map<int, u8>,
    dtb: u64,
    data: Seq<VirtualWriteData>,
    fl: Seq<bool>,
    flags: Seq<bool>,
) -> bool {
    &&& flags.len() == data.len()
    &&& forall|i: int|
        0 <= i < data.len() ==> #[trigger] flags[i] == (write_fits(mmu, m, dtb, data[i]) && forall|k: int|
            elem_start(mmu, m, dtb, data, i) <= k < elem_start(mmu, m, dtb, data, i + 1) ==> fl[k])
}

/// Whether an element's write can be whole: it stays in the 64-bit space
/// and every page it touches is mapped.
pub open spec fn write_fits(mmu: ArchMMUSpec, m: Map<int, u8>, dtb: u64, e: VirtualWriteData) -> bool {
    e.buf@.len() == 0 || (in_space(e.addr as int, e.buf@.len() as int) && all_mapped(
        mmu,
        m,
        dtb,
        pieces(mmu, e.addr as int, e.buf@.len() as int),
    ))
}

/// Writes each element of `data` to the address space rooted at `dtb`. All
/// pages are translated first, in one batch, then written in one batched
/// physical write; a piece whose page is not mapped is skipped. An element
/// succeeds when it fits and the memory wrote all of its pieces. The
/// translator is made ready for the memory as written.
pub fn virt_write_raw_list<P: PhysicalMemory, V: VirtualTranslate>(
    mem: &mut P,
    vat: &mut V,
    dtb: u64,
    data: &Vec<VirtualWriteData>,
) -> (r: Result<Vec<bool>, Error>)
    requires
        old(mem).inv(),
        old(vat).ready(old(mem).contents()),
    ensures
        final(mem).inv(),
        final(vat).ready(final(mem).contents()),
        final(vat).mmu() == old(vat).mmu(),
        final(vat).arch() == old(vat).arch(),
        r is Ok ==> {
            &&& r->Ok_0@.len() == data@.len()
            &&& exists|w: Seq<PhysicalWriteData>, fl: Seq<bool>|
                as_plan(w) == batch_writes(old(vat).mmu(), old(mem).contents(), dtb, data@) && fl.len()
                    == w.len() && final(mem).contents() == apply_writes(old(mem).contents(), w, fl)
                    && written_flags(old(vat).mmu(), old(mem).contents(), dtb, data@, fl, r->Ok_0@)
        },
        r is Err ==> r == Err::<Vec<bool>, Error>(Error::Backend),
        P::infallible() ==> r is Ok,
{
    let ghost m = old(mem).contents();
    let ghost mmu = vat.mmu();
    proof {
        vat.lemma_ready(m);
    }
    let n = data.len();
    let ps = finest_page(vat, Ghost(m));
    let mut vs: Vec<u64> = Vec::new();
    let mut ls: Vec<usize> = Vec::new();
    let mut st: Vec<usize> = Vec::new();
    let mut cnt: Vec<usize> = Vec::new();
    let mut i: usize = 0;
    while i < n
        invariant
            ps as int == min_page(mmu),
            ps > 0,
            n == data@.len(),
            i <= n,
            vs@.len() == ls@.len(),
            st@.len() == i,
            cnt@.len() == i,
            forall|e: int|
                0 <= e < i ==> {
                    &&& #[trigger] st@[e] + cnt@[e] <= vs@.len()
                    &&& cnt@[e] == pieces(mmu, data@[e].addr as int, data@[e].buf@.len() as int).len()
                    &&& forall|j: int|
                        0 <= j < cnt@[e] ==> #[trigger] pieces(mmu, data@[e].addr as int, data@[e].buf@.len() as int)[j]
                            == (vs@[st@[e] + j] as int, ls@[st@[e] + j] as int)
                },
        decreases n - i,
    {
        let a = data[i].addr;
        let len = data[i].buf.len();
        let ghost old_vs = vs@;
        let ghost old_ls = ls@;
        let start = vs.len();
        if len > 0 && (a as u128) + (len as u128) <= 0x1_0000_0000_0000_0000u128 {
            collect_pieces(Ghost(mmu), ps, a, len, &mut vs, &mut ls);
        }
        proof {
            assert(forall|j: int| 0 <= j < old_vs.len() ==> vs@[j] == old_vs[j] && ls@[j] == old_ls[j]);
            if !(len > 0 && a + len <= 0x1_0000_0000_0000_0000) {
                assert(pieces(mmu, a as int, len as int).len() == 0);
            }
        }
        st.push(start);
        cnt.push(vs.len() - start);
        i = i + 1;
    }
    let outcomes = vat.virt_to_phys_list(mem, dtb, &vs)?;
    // the physical writes, and for each element the range of them it made
    let mut w: Vec<PhysicalWriteData> = Vec::new();
    let mut wst: Vec<usize> = Vec::new();
    let mut wend: Vec<usize> = Vec::new();
    let mut fits: Vec<bool> = Vec::new();
    let mut e: usize = 0;
    proof {
        assert(as_plan(w@) =~= batch_writes(mmu, m, dtb, data@.subrange(0, 0)));
    }
    while e < n
        invariant
            n == data@.len(),
            e <= n,
            vs@.len() == ls@.len(),
            st@.len() == n,
            cnt@.len() == n,
            outcomes@.len() == vs@.len(),
            forall|x: int| 0 <= x < vs@.len() ==> #[trigger] outcomes@[x] == mmu.translate_spec(m, dtb, vs@[x]),
            forall|e2: int|
                0 <= e2 < n ==> {
                    &&& #[trigger] st@[e2] + cnt@[e2] <= vs@.len()
                    &&& cnt@[e2] == pieces(mmu, data@[e2].addr as int, data@[e2].buf@.len() as int).len()
                    &&& forall|j: int|
                        0 <= j < cnt@[e2] ==> #[trigger] pieces(mmu, data@[e2].addr as int, data@[e2].buf@.len() as int)[j]
                            == (vs@[st@[e2] + j] as int, ls@[st@[e2] + j] as int)
                },
            wst@.len() == e,
            wend@.len() == e,
            fits@.len() == e,
            forall|x: int| 0 <= x < e ==> #[trigger] wst@[x] <= wend@[x] && wend@[x] <= w@.len(),
            as_plan(w@) == batch_writes(mmu, m, dtb, data@.subrange(0, e as int)),
            forall|x: int| 0 <= x < e ==> #[trigger] fits@[x] == write_fits(mmu, m, dtb, data@[x]),
            forall|x: int| 0 <= x < e ==> #[trigger] wst@[x] == elem_start(mmu, m, dtb, data@, x),
            forall|x: int| 0 <= x < e ==> #[trigger] wend@[x] == elem_start(mmu, m, dtb, data@, x + 1),
        decreases n - e,
    {
        let ghost prefix = w@;
        let a = data[e].addr;
        let len = data[e].buf.len();
        let ghost buf = data@[e as int].buf@;
        let ghost all = pieces(mmu, a as int, len as int);
        let s0 = st[e];
        let c = cnt[e];
        let space = (a as u128) + (len as u128) <= 0x1_0000_0000_0000_0000u128;
        let mut mapped = true;
        let start = w.len();
        let mut j: usize = 0;
        proof {
            assert(all.subrange(0, c as int) =~= all);
            assert(as_plan(w@) + piece_writes(mmu, m, dtb, a as int, buf, all) =~= as_plan(prefix)
                + piece_writes(mmu, m, dtb, a as int, buf, all));
            lemma_pieces_within(mmu, a as int, len as int);
        }
        while j < c
            invariant
                c == all.len(),
                s0 + c <= vs.len(),
                j <= c,
                start <= w@.len(),
                prefix.len() == start,
                len == buf.len(),
                e < data@.len(),
                buf == data@[e as int].buf@,
                a == data@[e as int].addr,
                vs@.len() == ls@.len(),
                outcomes@.len() == vs@.len(),
                forall|x: int| 0 <= x < vs@.len() ==> #[trigger] outcomes@[x] == mmu.translate_spec(m, dtb, vs@[x]),
                forall|k: int| 0 <= k < c ==> #[trigger] all[k] == (vs@[s0 + k] as int, ls@[s0 + k] as int),
                forall|k: int| 0 <= k < c ==> a <= (#[trigger] all[k]).0 && all[k].0 + all[k].1 <= a + len,
                as_plan(w@) + piece_writes(mmu, m, dtb, a as int, buf, all.subrange(j as int, c as int))
                    == as_plan(prefix) + piece_writes(mmu, m, dtb, a as int, buf, all),
                mapped == forall|k: int| 0 <= k < j ==> #[trigger] mmu.translate_spec(m, dtb, all[k].0 as u64) is Mapped,
            decreases c - j,
        {
            let x = s0 + j;
            let ghost rest = all.subrange(j as int, c as int);
            proof {
                assert(rest[0] == all[j as int]);
                assert(rest.drop_first() =~= all.subrange(j + 1, c as int));
                assert(all[j as int].0 as u64 == vs@[x as int]);
            }
            match outcomes[x] {
                TranslationOutcome::Mapped(pa) => {
                    let off = (vs[x] - a) as usize;
                    let l = ls[x];
                    let mut bytes: Vec<u8> = Vec::new();
                    while bytes.len() < l
                        invariant
                            off + l <= len,
                            len == data@[e as int].buf@.len(),
                            e < data@.len(),
                            bytes@.len() <= l,
                            forall|k: int| 0 <= k < bytes@.len() ==> bytes@[k] == data@[e as int].buf@[off + k],
                        decreases l - bytes@.len(),
                    {
                        bytes.push(data[e].buf[off + bytes.len()]);
                    }
                    proof {
                        assert(bytes@ =~= buf.subrange(off as int, off + l));
                        let item = (pa.address as int, bytes@);
                        assert(piece_writes(mmu, m, dtb, a as int, buf, rest) == seq![item]
                            + piece_writes(mmu, m, dtb, a as int, buf, all.subrange(j + 1, c as int)));
                    }
                    let ghost before_push = w@;
                    w.push(PhysicalWriteData { addr: PhysicalAddress::from_address(pa.address), buf: bytes });
                    proof {
                        assert(as_plan(w@) =~= as_plan(before_push).push((pa.address as int, w@.last().buf@)));
                        assert(as_plan(w@) + piece_writes(mmu, m, dtb, a as int, buf, all.subrange(j + 1, c as int))
                            =~= as_plan(before_push) + piece_writes(mmu, m, dtb, a as int, buf, rest));
                    }
                },
                _ => {
                    mapped = false;
                },
            }
            proof {
                assert(mapped == forall|k: int| 0 <= k < j + 1 ==> #[trigger] mmu.translate_spec(m, dtb, all[k].0 as u64) is Mapped);
            }
            j = j + 1;
        }
        proof {
            assert(all.subrange(c as int, c as int).len() == 0);
            assert(as_plan(w@) + Seq::<(int, Seq<u8>)>::empty() =~= as_plan(w@));
            let d = data@.subrange(0, e + 1);
            assert(d.drop_last() =~= data@.subrange(0, e as int));
            assert(d.last() == data@[e as int]);
        }
        let fit = len == 0 || (space && mapped);
        proof {
            assert(as_plan(prefix).len() == prefix.len());
            assert(data@.subrange(0, e as int).len() == e);
            assert(start == elem_start(mmu, m, dtb, data@, e as int));
            assert(w@.len() == as_plan(w@).len());
            assert(w@.len() == elem_start(mmu, m, dtb, data@, e + 1));
            if len > 0 && space {
                assert(mapped == all_mapped(mmu, m, dtb, all));
            }
        }
        let ghost (pst, pend, pfit) = (wst@, wend@, fits@);
        wst.push(start);
        wend.push(w.len());
        fits.push(fit);
        proof {
            assert forall|x: int| 0 <= x < e + 1 implies #[trigger] wst@[x] <= wend@[x] && wend@[x] <= w@.len() by {
                if x < e {
                    assert(wst@[x] == pst[x] && wend@[x] == pend[x]);
                }
            }
            assert forall|x: int| 0 <= x < e + 1 implies #[trigger] fits@[x] == write_fits(mmu, m, dtb, data@[x]) by {
                if x < e {
                    assert(fits@[x] == pfit[x]);
                }
            }
            assert forall|x: int| 0 <= x < e + 1 implies #[trigger] wst@[x] == elem_start(mmu, m, dtb, data@, x) by {
                if x < e {
                    assert(wst@[x] == pst[x]);
                }
            }
            assert forall|x: int| 0 <= x < e + 1 implies #[trigger] wend@[x] == elem_start(mmu, m, dtb, data@, x + 1) by {
                if x < e {
                    assert(wend@[x] == pend[x]);
                }
            }
        }
        e = e + 1;
    }
    proof {
        assert(data@.subrange(0, n as int) =~= data@);
    }
    let written: Result<Vec<bool>, Error> = if w.len() == 0 {
        Ok(Vec::new())
    } else {
        mem.phys_write_raw_iter(&w)
    };
    proof {
        assert(vat.ready(m));
    }
    vat.refresh(mem);
    let fl = written?;
    proof {
        if w@.len() == 0 {
            assert(apply_writes(m, w@, fl@) == m);
        }
    }
    let mut flags: Vec<bool> = Vec::new();
    let mut e: usize = 0;
    while e < n
        invariant
            n == data@.len(),
            e <= n,
            fits@.len() == n,
            wst@.len() == n,
            wend@.len() == n,
            fl@.len() == w@.len(),
            forall|x: int| 0 <= x < n ==> #[trigger] wst@[x] <= wend@[x] && wend@[x] <= w@.len(),
            forall|x: int| 0 <= x < n ==> #[trigger] fits@[x] == write_fits(mmu, m, dtb, data@[x]),
            forall|x: int| 0 <= x < n ==> #[trigger] wst@[x] == elem_start(mmu, m, dtb, data@, x),
            forall|x: int| 0 <= x < n ==> #[trigger] wend@[x] == elem_start(mmu, m, dtb, data@, x + 1),
            flags@.len() == e,
            forall|x: int| 0 <= x < e ==> #[trigger] flags@[x] == (write_fits(mmu, m, dtb, data@[x]) && forall|k: int|
                elem_start(mmu, m, dtb, data@, x) <= k < elem_start(mmu, m, dtb, data@, x + 1) ==> fl@[k]),
        decreases n - e,
    {
        let mut all_ok = fits[e];
        let mut k = wst[e];
        while k < wend[e]
            invariant
                wend@[e as int] <= fl@.len(),
                e < n,
                wend@.len() == n,
                wst@.len() == n,
                fits@.len() == n,
                wst@[e as int] <= k <= wend@[e as int],
                all_ok == (fits@[e as int] && forall|y: int| wst@[e as int] <= y < k ==> fl@[y]),
            decreases wend@[e as int] - k,
        {
            all_ok = all_ok && fl[k];
            k = k + 1;
        }
        let ghost prev_flags = flags@;
        flags.push(all_ok);
        proof {
            assert(forall|x: int| 0 <= x < e ==> flags@[x] == prev_flags[x]);
        }
        e = e + 1;
    }
    proof {
        assert(written_flags(mmu, m, dtb, data@, fl@, flags@));
    }
    Ok(flags)
}

/// Every piece of a read of `len` bytes at `a` lies in `[a, a + len)`.
pub proof fn lemma_pieces_within(mmu: ArchMMUSpec, a: int, len: int)
    ensures
        forall|k: int|
            0 <= k < pieces(mmu, a, len).len() ==> a <= (#[trigger] pieces(mmu, a, len)[k]).0 && pieces(
                mmu,
                a,
                len,
            )[k].0 + pieces(mmu, a, len)[k].1 <= a + len && pieces(mmu, a, len)[k].1 > 0,
    decreases len,
{
    let ps = min_page(mmu);
    if len > 0 && ps > 0 && in_space(a, len) {
        let l = piece_len(ps, a, len);
        if l > 0 {
            lemma_pieces_within(mmu, a + l, len - l);
            let p = pieces(mmu, a, len);
            assert forall|k: int| 0 <= k < p.len() implies a <= (#[trigger] p[k]).0 && p[k].0 + p[k].1 <= a
                + len && p[k].1 > 0 by {
                if k > 0 {
                    assert(p[k] == pieces(mmu, a + l, len - l)[k - 1]);
                }
            }
        }
    }
}

/// The little-endian value of the `size` bytes at virtual `addr`, when every
/// page of them can be read.
pub open spec fn value_at(mmu: ArchMMUSpec, m: Map<int, u8>, dtb: u64, size: int, addr: u64) -> Option<u64> {
    if virt_ok(mmu, m, dtb, addr as int, size) {
        Some(le_value(virt_fill(mmu, m, dtb, addr as int, size)) as u64)
    } else {
        None
    }
}

/// Reads a little-endian value of `size` bytes (at most eight) at virtual
/// `addr`, zero-extended.
pub fn virt_read_value<P: PhysicalMemory, V: VirtualTranslate>(
    mem: &mut P,
    vat: &mut V,
    dtb: u64,
    addr: u64,
    size: usize,
) -> (r: Result<u64, Error>)
    requires
        old(mem).inv(),
        old(vat).ready(old(mem).contents()),
        size <= 8,
    ensures
        final(mem).inv(),
        final(mem).contents() == old(mem).contents(),
        final(vat).ready(final(mem).contents()),
        final(vat).mmu() == old(vat).mmu(),
        final(vat).arch() == old(vat).arch(),
        r is Ok ==> value_at(old(vat).mmu(), old(mem).contents(), dtb, size as int, addr) == Some(r->Ok_0),
        value_at(old(vat).mmu(), old(mem).contents(), dtb, size as int, addr) is None ==> r is Err,
        r matches Err(e) ==> (e == Error::Backend && !P::infallible()) || (e == Error::PartialRead && value_at(
            old(vat).mmu(),
            old(mem).contents(),
            dtb,
            size as int,
            addr,
        ) is None),
        P::infallible() && value_at(old(vat).mmu(), old(mem).contents(), dtb, size as int, addr) is Some
            ==> r is Ok,
{
    let (ok, buf) = virt_read_range(mem, vat, dtb, addr, size)?;
    if !ok {
        return Err(Error::PartialRead);
    }
    proof {
        lemma_virt_fill_len(old(vat).mmu(), old(mem).contents(), dtb, addr as int, size as int);
    }
    Ok(le_from_bytes(&buf))
}

/// Reads a pointer of `proc_arch` at virtual `addr`, little-endian and
/// zero-extended.
pub fn virt_read_addr<P: PhysicalMemory, V: VirtualTranslate>(
    mem: &mut P,
    vat: &mut V,
    proc_arch: Architecture,
    dtb: u64,
    addr: u64,
) -> (r: Result<u64, Error>)
    requires
        old(mem).inv(),
        old(vat).ready(old(mem).contents()),
    ensures
        final(mem).inv(),
        final(mem).contents() == old(mem).contents(),
        final(vat).ready(final(mem).contents()),
        final(vat).mmu() == old(vat).mmu(),
        final(vat).arch() == old(vat).arch(),
        r is Ok ==> value_at(old(vat).mmu(), old(mem).contents(), dtb, proc_arch.pointer_size_spec() as int, addr) == Some(r->Ok_0),
        value_at(old(vat).mmu(), old(mem).contents(), dtb, proc_arch.pointer_size_spec() as int, addr) is None ==> r is Err,
        r matches Err(e) ==> (e == Error::Backend && !P::infallible()) || (e == Error::PartialRead && value_at(
            old(vat).mmu(),
            old(mem).contents(),
            dtb,
            proc_arch.pointer_size_spec() as int,
            addr,
        ) is None),
        P::infallible() && value_at(old(vat).mmu(), old(mem).contents(), dtb, proc_arch.pointer_size_spec() as int, addr) is Some
            ==> r is Ok,
{
    let size = proc_arch.pointer_size();
    virt_read_value(mem, vat, dtb, addr, size as usize)
}

pub proof fn lemma_virt_fill_len(mmu: ArchMMUSpec, m: Map<int, u8>, dtb: u64, a: int, len: int)
    requires
        len >= 0,
    ensures
        virt_fill(mmu, m, dtb, a, len).len() == len,
    decreases len,
{
    let ps = min_page(mmu);
    if len > 0 && ps > 0 && in_space(a, len) {
        let l = piece_len(ps, a, len);
        if l > 0 {
            lemma_virt_fill_len(mmu, m, dtb, a + l, len - l);
        }
    }
}

/// A virtual-memory view: a physical memory, a translator for the system
/// architecture, the process architecture that decides pointer widths, and
/// the root table of the address space read.
pub struct VirtualFromPhysical<P, V> {
    pub phys_mem: P,
    pub vat: V,
    pub sys_arch: Architecture,
    pub proc_arch: Architecture,
    pub dtb: u64,
}

impl<P: PhysicalMemory, V: VirtualTranslate> VirtualFromPhysical<P, V> {
    pub open spec fn wf(&self) -> bool {
        &&& self.phys_mem.inv()
        &&& self.vat.ready(self.phys_mem.contents())
        &&& self.vat.arch() == self.sys_arch
    }

    /// Binds a view of the address space `dtb`.
    pub fn with_vat(phys_mem: P, sys_arch: Architecture, proc_arch: Architecture, dtb: u64, vat: V) -> (r: Self)
        ensures
            r == (VirtualFromPhysical { phys_mem, vat, sys_arch, proc_arch, dtb }),
    {
        VirtualFromPhysical { phys_mem, vat, sys_arch, proc_arch, dtb }
    }

    /// Hands back the memory and the translator.
    pub fn destroy(self) -> (r: (P, V))
        ensures
            r == (self.phys_mem, self.vat),
    {
        (self.phys_mem, self.vat)
    }

    pub fn metadata(&self) -> (r: PhysicalMemoryMetadata)
        requires
            self.wf(),
    {
        self.phys_mem.metadata()
    }

    /// Reads each element of `data`; see `virt_read_raw_list`.
    pub fn virt_read_raw_list(&mut self, data: &mut Vec<VirtualReadData>) -> (r: Result<Vec<bool>, Error>)
        requires
            old(self).wf(),
        ensures
            final(self).wf(),
            final(self).phys_mem.contents() == old(self).phys_mem.contents(),
            final(self).vat.mmu() == old(self).vat.mmu(),
            final(self).sys_arch == old(self).sys_arch,
            final(self).proc_arch == old(self).proc_arch,
            final(self).dtb == old(self).dtb,
            r is Ok ==> virt_reads_done(
                old(self).vat.mmu(),
                old(self).phys_mem.contents(),
                old(self).dtb,
                old(data)@,
                final(data)@,
                r->Ok_0@,
            ),
            r is Err ==> r == Err::<Vec<bool>, Error>(Error::Backend),
            P::infallible() ==> r is Ok,
    {
        virt_read_raw_list(&mut self.phys_mem, &mut self.vat, self.dtb, data)
    }

    /// Reads a pointer of the process architecture at `addr`.
    pub fn virt_read_addr(&mut self, addr: u64) -> (r: Result<u64, Error>)
        requires
            old(self).wf(),
        ensures
            final(self).wf(),
            final(self).phys_mem.contents() == old(self).phys_mem.contents(),
            final(self).vat.mmu() == old(self).vat.mmu(),
            final(self).sys_arch == old(self).sys_arch,
            final(self).proc_arch == old(self).proc_arch,
            final(self).dtb == old(self).dtb,
            r is Ok ==> value_at(
                old(self).vat.mmu(),
                old(self).phys_mem.contents(),
                old(self).dtb,
                old(self).proc_arch.pointer_size_spec() as int,
                addr,
            ) == Some(r->Ok_0),
            value_at(
                old(self).vat.mmu(),
                old(self).phys_mem.contents(),
                old(self).dtb,
                old(self).proc_arch.pointer_size_spec() as int,
                addr,
            ) is None ==> r is Err,
            r matches Err(e) ==> (e == Error::Backend && !P::infallible()) || (e == Error::PartialRead
                && value_at(
                old(self).vat.mmu(),
                old(self).phys_mem.contents(),
                old(self).dtb,
                old(self).proc_arch.pointer_size_spec() as int,
                addr,
            ) is None),
            P::infallible() && value_at(
                old(self).vat.mmu(),
                old(self).phys_mem.contents(),
                old(self).dtb,
                old(self).proc_arch.pointer_size_spec() as int,
                addr,
            ) is Some ==> r is Ok,
    {
        virt_read_addr(&mut self.phys_mem, &mut self.vat, self.proc_arch, self.dtb, addr)
    }

    /// Reads up to `max_len` bytes at `addr` and decodes those before the
    /// first zero byte, replacing malformed sequences. Fails when a page of
    /// the range cannot be read.
    pub fn virt_read_cstr(&mut self, addr: u64, max_len: usize) -> (r: Result<String, Error>)
        requires
            old(self).wf(),
        ensures
            final(self).wf(),
            final(self).phys_mem.contents() == old(self).phys_mem.contents(),
            final(self).vat.mmu() == old(self).vat.mmu(),
            final(self).sys_arch == old(self).sys_arch,
            final(self).proc_arch == old(self).proc_arch,
            final(self).dtb == old(self).dtb,
            r is Ok ==> virt_ok(old(self).vat.mmu(), old(self).phys_mem.contents(), old(self).dtb, addr as int, max_len as int)
                && r->Ok_0@ == lossy_text(
                cstr_bytes(virt_fill(old(self).vat.mmu(), old(self).phys_mem.contents(), old(self).dtb, addr as int, max_len as int)),
            ),
            !virt_ok(old(self).vat.mmu(), old(self).phys_mem.contents(), old(self).dtb, addr as int, max_len as int) ==> r is Err,
            r matches Err(e) ==> (e == Error::Backend && !P::infallible()) || (e == Error::PartialRead
                && !virt_ok(old(self).vat.mmu(), old(self).phys_mem.contents(), old(self).dtb, addr as int, max_len as int)),
            P::infallible() && virt_ok(old(self).vat.mmu(), old(self).phys_mem.contents(), old(self).dtb, addr as int, max_len as int)
                ==> r is Ok,
    {
        let (ok, buf) = virt_read_range(&mut self.phys_mem, &mut self.vat, self.dtb, addr, max_len)?;
        if !ok {
            return Err(Error::PartialRead);
        }
        Ok(text_from_bytes(&cstr_prefix(&buf)))
    }
}

} // verus!
