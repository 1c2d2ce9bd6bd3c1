use vstd::prelude::*;
use crate::types::{Error, PhysicalAddress};

verus! {

/// Whether every byte of `[a, a + len)` is backed.
pub open spec fn range_mapped(m: Map<int, u8>, a: int, len: int) -> bool {
    forall|k: int| 0 <= k < len ==> #[trigger] m.contains_key(a + k)
}

/// The bytes of `[a, a + len)`.
pub open spec fn range_bytes(m: Map<int, u8>, a: int, len: int) -> Seq<u8> {
    Seq::new(len as nat, |k: int| m[a + k])
}

pub open spec fn zeros(len: int) -> Seq<u8> {
    Seq::new(len as nat, |k: int| 0u8)
}

/// What a read of `len` bytes at `a` fills its buffer with: the bytes when
/// the whole range is backed, zeros otherwise.
pub open spec fn read_fill(m: Map<int, u8>, a: int, len: int) -> Seq<u8> {
    if range_mapped(m, a, len) {
        range_bytes(m, a, len)
    } else {
        zeros(len)
    }
}

/// `m` with `bytes` written at `a`, where that range is backed.
pub open spec fn write_range(m: Map<int, u8>, a: int, bytes: Seq<u8>) -> Map<int, u8> {
    if range_mapped(m, a, bytes.len() as int) {
        Map::new(
            |k: int| m.contains_key(k),
            |k: int|
                if a <= k < a + bytes.len() {
                    bytes[k - a]
                } else {
                    m[k]
                },
        )
    } else {
        m
    }
}

/// `m` after the writes of `data` whose flag in `ok` is set, in order.
pub open spec fn apply_writes(m: Map<int, u8>, data: Seq<PhysicalWriteData>, ok: Seq<bool>) -> Map<
    int,
    u8,
>
    decreases data.len(),
{
    if data.len() == 0 {
        m
    } else {
        let prev = apply_writes(m, data.drop_last(), ok.drop_last());
        if ok.len() == data.len() && ok.last() {
            write_range(prev, data.last().addr.address as int, data.last().buf@)
        } else {
            prev
        }
    }
}

/// The physical addresses of a read batch.
pub open spec fn batch_addresses(data: Seq<PhysicalReadData>) -> Seq<int> {
    Seq::new(data.len(), |i: int| data[i].addr.address as int)
}

/// Whether no two items of `s` are equal.
pub open spec fn no_repeats(s: Seq<int>) -> bool {
    forall|a: int, b: int| 0 <= a < b < s.len() ==> s[a] != s[b]
}

/// One element of a batched physical read: the buffer's length is the
/// number of bytes to read.
pub struct PhysicalReadData {
    pub addr: PhysicalAddress,
    pub buf: Vec<u8>,
}

/// One element of a batched physical write.
pub struct PhysicalWriteData {
    pub addr: PhysicalAddress,
    pub buf: Vec<u8>,
}

/// The outcome of a batched read `before` -> `after` against contents `m`:
/// each element keeps its address, its buffer holds `read_fill`, and its flag
/// tells whether the range was backed. A cleared flag is a failed element.
pub open spec fn reads_done(
    m: Map<int, u8>,
    before: Seq<PhysicalReadData>,
    after: Seq<PhysicalReadData>,
    ok: Seq<bool>,
) -> bool {
    &&& after.len() == before.len()
    &&& ok.len() == before.len()
    &&& forall|i: int|
        0 <= i < before.len() ==> {
            &&& (#[trigger] after[i]).addr == before[i].addr
            &&& after[i].buf@ == read_fill(
                m,
                before[i].addr.address as int,
                before[i].buf@.len() as int,
            )
            &&& ok[i] == range_mapped(m, before[i].addr.address as int, before[i].buf@.len() as int)
        }
}

/// One region of the physical address space: `size` bytes at `base`, found
/// at `real_base` in the backend.
#[derive(Clone, Copy, Debug, PartialEq, Eq, Structural)]
pub struct PhysicalMemoryMapping {
    pub base: u64,
    pub size: u64,
    pub real_base: u64,
}

#[derive(Clone, Copy, Debug, PartialEq, Eq, Structural)]
pub struct PhysicalMemoryMetadata {
    pub max_address: u64,
    pub real_size: u64,
    pub readonly: bool,
    pub ideal_batch_size: u32,
}

/// A source of guest physical memory, read and written in batches.
///
/// Its contents are a deterministic map from address to byte; an address
/// outside the map is not backed. Failures of single elements are reported in
/// the returned flags; `Err(Error::Backend)` is kept for a backend that
/// failed as a whole, which an infallible backend never does.
pub trait PhysicalMemory: Sized {
    spec fn contents(&self) -> Map<int, u8>;

    spec fn inv(&self) -> bool;

    /// Whether the backend never fails as a whole.
    spec fn infallible() -> bool;

    /// What `metadata` returns.
    spec fn metadata_spec(&self) -> PhysicalMemoryMetadata;

    /// The addresses of every read batch asked of this memory, in order.
    spec fn read_log(&self) -> Seq<Seq<int>>;

    /// Fills each element's buffer from its physical range, zeroing the
    /// buffers of elements that fail.
    fn phys_read_raw_iter(&mut self, data: &mut Vec<PhysicalReadData>) -> (r: Result<
        Vec<bool>,
        Error,
    >)
        requires
            old(self).inv(),
        ensures
            final(self).inv(),
            final(self).contents() == old(self).contents(),
            r is Ok ==> reads_done(old(self).contents(), old(data)@, final(data)@, r->Ok_0@),
            r is Err ==> r == Err::<Vec<bool>, Error>(Error::Backend),
            Self::infallible() ==> r is Ok,
            final(self).read_log() == old(self).read_log().push(batch_addresses(old(data)@)),
    ;

    /// Writes each element's buffer to its physical range; the flags tell
    /// which elements were written. Which addresses are backed never changes.
    fn phys_write_raw_iter(&mut self, data: &Vec<PhysicalWriteData>) -> (r: Result<
        Vec<bool>,
        Error,
    >)
        requires
            old(self).inv(),
        ensures
            final(self).inv(),
            r is Ok ==> {
                &&& r->Ok_0@.len() == data@.len()
                &&& forall|i: int|
                    0 <= i < data@.len() && #[trigger] r->Ok_0@[i] ==> range_mapped(
                        old(self).contents(),
                        data@[i].addr.address as int,
                        data@[i].buf@.len() as int,
                    )
                &&& final(self).contents() == apply_writes(old(self).contents(), data@, r->Ok_0@)
            },
            r is Err ==> final(self).contents().dom() == old(self).contents().dom(),
            r is Err ==> r == Err::<Vec<bool>, Error>(Error::Backend),
            Self::infallible() ==> r is Ok,
            final(self).read_log() == old(self).read_log(),
    ;

    fn metadata(&self) -> (r: PhysicalMemoryMetadata)
        requires
            self.inv(),
        ensures
            r == self.metadata_spec(),
    ;

    /// Sets the layout of the physical address space, for a backend that
    /// cannot find it out on its own.
    fn set_mem_map(&mut self, mem_map: &Vec<PhysicalMemoryMapping>)
        requires
            old(self).inv(),
        ensures
            final(self).inv(),
    ;

    /// Reads `out.len()` bytes at `addr` into `out`; a range that is not
    /// backed leaves `out` zeroed.
    fn phys_read_into(&mut self, addr: PhysicalAddress, out: &mut Vec<u8>) -> (r: Result<(), Error>)
        requires
            old(self).inv(),
        ensures
            final(self).inv(),
            final(self).contents() == old(self).contents(),
            final(out)@.len() == old(out)@.len(),
            r is Ok ==> final(out)@ == read_fill(
                old(self).contents(),
                addr.address as int,
                old(out)@.len() as int,
            ),
            r is Err ==> r == Err::<(), Error>(Error::Backend),
            Self::infallible() ==> r is Ok,
    {
        let mut buf: Vec<u8> = Vec::new();
        core::mem::swap(&mut buf, out);
        let mut data: Vec<PhysicalReadData> = Vec::new();
        let len = buf.len();
        data.push(PhysicalReadData { addr, buf });
        let r = self.phys_read_raw_iter(&mut data);
        match r {
            Ok(_) => {
                let PhysicalReadData { addr: _, buf } = data.pop().unwrap();
                *out = buf;
                Ok(())
            },
            Err(e) => {
                *out = zero_vec(len);
                Err(e)
            },
        }
    }

    /// Writes `data` at `addr`.
    fn phys_write(&mut self, addr: PhysicalAddress, data: &Vec<u8>) -> (r: Result<bool, Error>)
        requires
            old(self).inv(),
        ensures
            final(self).inv(),
            r matches Ok(true) ==> range_mapped(
                old(self).contents(),
                addr.address as int,
                data@.len() as int,
            ) && final(self).contents() == write_range(
                old(self).contents(),
                addr.address as int,
                data@,
            ),
            r matches Ok(false) ==> final(self).contents() == old(self).contents(),
            r is Err ==> r == Err::<bool, Error>(Error::Backend),
            Self::infallible() ==> r is Ok,
    {
        let mut batch: Vec<PhysicalWriteData> = Vec::new();
        let copy = data.clone();
        assert(copy@ == data@);
        batch.push(PhysicalWriteData { addr, buf: copy });
        let r = self.phys_write_raw_iter(&batch);
        proof {
            if r is Ok {
                let ok = r->Ok_0@;
                let m = old(self).contents();
                assert(batch@.drop_last().len() == 0);
                assert(apply_writes(m, batch@.drop_last(), ok.drop_last()) == m);
                assert(ok[0] == ok.last());
                assert(batch@.last() == batch@[0]);
            }
        }
        match r {
            Ok(flags) => Ok(flags[0]),
            Err(e) => Err(e),
        }
    }

    /// A view of this memory that reads and writes plain addresses.
    fn into_phys_view(self) -> (r: PhysicalMemoryView<Self>)
        ensures
            r.mem == self,
    {
        PhysicalMemoryView { mem: self }
    }
}

/// A vector of `len` zero bytes.
pub fn zero_vec(len: usize) -> (r: Vec<u8>)
    ensures
        r@ == zeros(len as int),
{
    let mut v: Vec<u8> = Vec::with_capacity(len);
    while v.len() < len
        invariant
            v.len() <= len,
            forall|k: int| 0 <= k < v.len() ==> v@[k] == 0u8,
        decreases len - v.len(),
    {
        v.push(0u8);
    }
    assert(v@ =~= zeros(len as int));
    v
}

/// Reads `len` bytes at physical `pa`: whether the range is backed, and the
/// bytes (zeros where it is not).
pub fn phys_read_range<P: PhysicalMemory>(mem: &mut P, pa: u64, len: usize) -> (r: Result<
    (bool, Vec<u8>),
    Error,
>)
    requires
        old(mem).inv(),
    ensures
        final(mem).inv(),
        final(mem).contents() == old(mem).contents(),
        r matches Ok((ok, buf)) ==> ok == range_mapped(old(mem).contents(), pa as int, len as int)
            && buf@ == read_fill(old(mem).contents(), pa as int, len as int),
        r is Err ==> r == Err::<(bool, Vec<u8>), Error>(Error::Backend),
        P::infallible() ==> r is Ok,
{
    let mut data: Vec<PhysicalReadData> = Vec::new();
    data.push(PhysicalReadData { addr: PhysicalAddress::from_address(pa), buf: zero_vec(len) });
    let r = mem.phys_read_raw_iter(&mut data);
    match r {
        Ok(flags) => {
            let ok = flags[0];
            let PhysicalReadData { addr: _, buf } = data.pop().unwrap();
            Ok((ok, buf))
        },
        Err(e) => Err(e),
    }
}

/// A physical memory used through plain addresses, without page metadata.
pub struct PhysicalMemoryView<T> {
    pub mem: T,
}

impl<T: PhysicalMemory> PhysicalMemoryView<T> {
    /// Reads each `(address, buffer)` pair; returns per-element success.
    pub fn read_raw_iter(&mut self, data: &mut Vec<PhysicalReadData>) -> (r: Result<
        Vec<bool>,
        Error,
    >)
        requires
            old(self).mem.inv(),
        ensures
            final(self).mem.inv(),
            final(self).mem.contents() == old(self).mem.contents(),
            r is Ok ==> reads_done(old(self).mem.contents(), old(data)@, final(data)@, r->Ok_0@),
            r is Err ==> r == Err::<Vec<bool>, Error>(Error::Backend),
            T::infallible() ==> r is Ok,
    {
        self.mem.phys_read_raw_iter(data)
    }

    pub fn write_raw_iter(&mut self, data: &Vec<PhysicalWriteData>) -> (r: Result<
        Vec<bool>,
        Error,
    >)
        requires
            old(self).mem.inv(),
        ensures
            final(self).mem.inv(),
            r is Ok ==> {
                &&& r->Ok_0@.len() == data@.len()
                &&& forall|i: int|
                    0 <= i < data@.len() && #[trigger] r->Ok_0@[i] ==> range_mapped(
                        old(self).mem.contents(),
                        data@[i].addr.address as int,
                        data@[i].buf@.len() as int,
                    )
                &&& final(self).mem.contents() == apply_writes(old(self).mem.contents(), data@, r->Ok_0@)
            },
            r is Err ==> r == Err::<Vec<bool>, Error>(Error::Backend),
            T::infallible() ==> r is Ok,
    {
        self.mem.phys_write_raw_iter(data)
    }

    /// The metadata of the memory behind the view, field for field.
    pub fn metadata(&self) -> (r: PhysicalMemoryMetadata)
        requires
            self.mem.inv(),
        ensures
            r == self.mem.metadata_spec(),
    {
        let PhysicalMemoryMetadata { max_address, real_size, readonly, ideal_batch_size } =
            self.mem.metadata();
        PhysicalMemoryMetadata { max_address, real_size, readonly, ideal_batch_size }
    }
}

} // verus!

verus! {

/// Two reads of one batch against the same contents fill every buffer alike
/// and fail the same elements, whatever memory served them.
pub proof fn lemma_reads_agree(
    m: Map<int, u8>,
    before: Seq<PhysicalReadData>,
    after1: Seq<PhysicalReadData>,
    ok1: Seq<bool>,
    after2: Seq<PhysicalReadData>,
    ok2: Seq<bool>,
)
    requires
        reads_done(m, before, after1, ok1),
        reads_done(m, before, after2, ok2),
    ensures
        ok1 == ok2,
        forall|i: int|
            0 <= i < before.len() ==> (#[trigger] after1[i]).buf@ == after2[i].buf@ && after1[i].addr
                == after2[i].addr,
{
    assert forall|i: int| 0 <= i < before.len() implies ok1[i] == ok2[i] by {
        assert(after1[i].addr == before[i].addr);
        assert(after2[i].addr == before[i].addr);
    }
    assert(ok1 =~= ok2);
}

/// A read of a range just written, all of it backed, yields the bytes
/// written.
pub proof fn lemma_read_after_write(m: Map<int, u8>, a: int, bytes: Seq<u8>)
    requires
        range_mapped(m, a, bytes.len() as int),
    ensures
        range_mapped(write_range(m, a, bytes), a, bytes.len() as int),
        read_fill(write_range(m, a, bytes), a, bytes.len() as int) == bytes,
{
    let w = write_range(m, a, bytes);
    assert forall|k: int| 0 <= k < bytes.len() implies #[trigger] w.contains_key(a + k) by {
        assert(m.contains_key(a + k));
    }
    assert(range_bytes(w, a, bytes.len() as int) =~= bytes);
}

/// Writes leave which addresses are backed unchanged.
pub proof fn lemma_apply_writes_dom(m: Map<int, u8>, data: Seq<PhysicalWriteData>, ok: Seq<bool>)
    ensures
        apply_writes(m, data, ok).dom() == m.dom(),
    decreases data.len(),
{
    if data.len() > 0 {
        lemma_apply_writes_dom(m, data.drop_last(), ok.drop_last());
        let prev = apply_writes(m, data.drop_last(), ok.drop_last());
        let w = write_range(prev, data.last().addr.address as int, data.last().buf@);
        assert(w.dom() =~= prev.dom());
    }
}

/// Whether `[a, a + len)` meets the range of no element of `data`.
pub open spec fn disjoint_from_writes(data: Seq<PhysicalWriteData>, a: int, len: int) -> bool {
    forall|i: int|
        0 <= i < data.len() ==> (#[trigger] data[i]).addr.address as int + data[i].buf@.len()
            <= a || a + len <= data[i].addr.address as int
}

/// Writes to other ranges leave `[a, a + len)` as it was.
pub proof fn lemma_apply_writes_outside(
    m: Map<int, u8>,
    data: Seq<PhysicalWriteData>,
    ok: Seq<bool>,
    a: int,
    len: int,
)
    requires
        disjoint_from_writes(data, a, len),
    ensures
        forall|k: int|
            a <= k < a + len ==> (#[trigger] apply_writes(m, data, ok).contains_key(k))
                == m.contains_key(k),
        forall|k: int|
            a <= k < a + len && m.contains_key(k) ==> #[trigger] apply_writes(m, data, ok)[k]
                == m[k],
    decreases data.len(),
{
    if data.len() > 0 {
        let d = data.drop_last();
        assert(disjoint_from_writes(d, a, len)) by {
            assert forall|i: int| 0 <= i < d.len() implies (#[trigger] d[i]).addr.address as int
                + d[i].buf@.len() <= a || a + len <= d[i].addr.address as int by {
                assert(d[i] == data[i]);
            }
        }
        let okd = ok.drop_last();
        lemma_apply_writes_outside(m, d, okd, a, len);
        let last = data[data.len() - 1];
        assert(data.last() == last);
        let prev = apply_writes(m, d, okd);
        assert(last.addr.address as int + last.buf@.len() <= a || a + len
            <= last.addr.address as int);
        let w = write_range(prev, last.addr.address as int, last.buf@);
        assert forall|k: int| a <= k < a + len implies w.contains_key(k) == prev.contains_key(k)
            && (prev.contains_key(k) ==> w[k] == prev[k]) by {}

    }
}

} // verus!
