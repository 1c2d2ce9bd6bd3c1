use vstd::prelude::*;
use crate::types::{Error, PhysicalAddress};
use crate::phys_mem::{
    PhysicalMemory, PhysicalMemoryMapping, PhysicalMemoryMetadata, PhysicalReadData,
    PhysicalWriteData, apply_writes, range_bytes, range_mapped, read_fill, reads_done,
    write_range, zero_vec,
};

verus! {

/// Physical memory held in a byte vector: address `k` is backed when
/// `k < len`. It counts the read batches and the elements it was asked for.
pub struct BufferMemory {
    mem: Vec<u8>,
    read_batches: u64,
    read_elements: u64,
    log: Ghost<Seq<Seq<int>>>,
}

impl BufferMemory {
    /// The addresses of each read batch so far.
    pub closed spec fn logged_reads(&self) -> Seq<Seq<int>> {
        self.log@
    }

    pub closed spec fn bytes(&self) -> Seq<u8> {
        self.mem@
    }

    /// `size` zero bytes.
    pub fn new(size: usize) -> (r: BufferMemory)
        ensures
            r.bytes() == crate::phys_mem::zeros(size as int),
    {
        BufferMemory { mem: zero_vec(size), read_batches: 0, read_elements: 0, log: Ghost(Seq::empty()) }
    }

    pub fn from_bytes(mem: Vec<u8>) -> (r: BufferMemory)
        ensures
            r.bytes() == mem@,
    {
        BufferMemory { mem, read_batches: 0, read_elements: 0, log: Ghost(Seq::empty()) }
    }

    /// Number of read batches served so far (saturating).
    pub fn read_batches(&self) -> (r: u64) {
        self.read_batches
    }

    /// Number of read elements served so far (saturating).
    pub fn read_elements(&self) -> (r: u64) {
        self.read_elements
    }

    fn range_ok(&self, a: u64, len: usize) -> (r: bool)
        ensures
            r == range_mapped(self.contents(), a as int, len as int),
            r && len > 0 ==> a + len <= self.bytes().len(),
    {
        let size = self.mem.len();
        if len == 0 {
            true
        } else if (a as u128) + (len as u128) <= (size as u128) {
            assert(forall|k: int|
                0 <= k < len ==> #[trigger] self.contents().contains_key(a + k));
            true
        } else {
            let ghost k: int = len - 1;
            assert(self.bytes().len() == size);
            assert(!self.contents().contains_key(a + k));
            false
        }
    }
}

impl PhysicalMemory for BufferMemory {
    open spec fn contents(&self) -> Map<int, u8> {
        Map::new(|k: int| 0 <= k < self.bytes().len(), |k: int| self.bytes()[k])
    }

    open spec fn inv(&self) -> bool {
        true
    }

    open spec fn infallible() -> bool {
        true
    }

    open spec fn read_log(&self) -> Seq<Seq<int>> {
        self.logged_reads()
    }

    open spec fn metadata_spec(&self) -> PhysicalMemoryMetadata {
        let len = self.bytes().len();
        PhysicalMemoryMetadata {
            max_address: if len == 0 {
                0
            } else {
                (len - 1) as u64
            },
            real_size: len as u64,
            readonly: false,
            ideal_batch_size: u32::MAX,
        }
    }

    fn phys_read_raw_iter(&mut self, data: &mut Vec<PhysicalReadData>) -> (r: Result<
        Vec<bool>,
        Error,
    >) {
        let ghost m = self.contents();
        let ghost before = data@;
        let n = data.len();
        self.log = Ghost(self.log@.push(crate::phys_mem::batch_addresses(data@)));
        let ghost logged = self.log@;
        if self.read_batches < u64::MAX {
            self.read_batches = self.read_batches + 1;
        }
        if (n as u64) <= u64::MAX - self.read_elements {
            self.read_elements = self.read_elements + n as u64;
        } else {
            self.read_elements = u64::MAX;
        }
        assert(self.contents() =~= m);
        let mut ok: Vec<bool> = Vec::new();
        let mut i: usize = 0;
        while i < n
            invariant
                n == data@.len(),
                n == before.len(),
                0 <= i <= n,
                ok@.len() == i,
                self.log@ == logged,
                m == self.contents(),
                forall|j: int| i <= j < n ==> #[trigger] data@[j] == before[j],
                forall|j: int|
                    0 <= j < i ==> {
                        &&& (#[trigger] data@[j]).addr == before[j].addr
                        &&& data@[j].buf@ == read_fill(
                            m,
                            before[j].addr.address as int,
                            before[j].buf@.len() as int,
                        )
                        &&& ok@[j] == range_mapped(
                            m,
                            before[j].addr.address as int,
                            before[j].buf@.len() as int,
                        )
                    },
            decreases n - i,
        {
            let addr = data[i].addr;
            let a = addr.address;
            let len = data[i].buf.len();
            let size = self.mem.len();
            let good = self.range_ok(a, len);
            assert(good && len > 0 ==> a + len <= size);
            let buf = if good && len > 0 {
                let start = a as usize;
                assert(start == a);
                let mut out: Vec<u8> = Vec::with_capacity(len);
                while out.len() < len
                    invariant
                        start + len <= size,
                        size == self.mem.len(),
                        out@.len() <= len,
                        forall|k: int| 0 <= k < out@.len() ==> out@[k] == self.mem@[start + k],
                    decreases len - out.len(),
                {
                    out.push(self.mem[start + out.len()]);
                }
                assert(out@ =~= range_bytes(m, a as int, len as int));
                out
            } else {
                let z = zero_vec(len);
                assert(good ==> z@ =~= range_bytes(m, a as int, len as int));
                z
            };
            data.set(i, PhysicalReadData { addr, buf });
            ok.push(good);
            i = i + 1;
        }
        assert(reads_done(m, before, data@, ok@));
        assert(self.logged_reads() == old(self).logged_reads().push(crate::phys_mem::batch_addresses(before)));
        assert(self.read_log() == old(self).read_log().push(crate::phys_mem::batch_addresses(before)));
        Ok(ok)
    }

    fn phys_write_raw_iter(&mut self, data: &Vec<PhysicalWriteData>) -> (r: Result<
        Vec<bool>,
        Error,
    >) {
        let ghost m0 = self.contents();
        let n = data.len();
        let mut ok: Vec<bool> = Vec::new();
        let mut i: usize = 0;
        while i < n
            invariant
                n == data@.len(),
                0 <= i <= n,
                ok@.len() == i,
                self.log == old(self).log,
                self.contents().dom() == m0.dom(),
                self.contents() == apply_writes(m0, data@.subrange(0, i as int), ok@),
                forall|j: int|
                    0 <= j < i && #[trigger] ok@[j] ==> range_mapped(
                        m0,
                        data@[j].addr.address as int,
                        data@[j].buf@.len() as int,
                    ),
            decreases n - i,
        {
            let a = data[i].addr.address;
            let len = data[i].buf.len();
            let ghost prev = self.contents();
            let ghost prev_ok = ok@;
            let size = self.mem.len();
            let good = self.range_ok(a, len);
            assert(good && len > 0 ==> a + len <= size);
            assert(range_mapped(prev, a as int, len as int) == range_mapped(
                m0,
                a as int,
                len as int,
            ));
            if good && len > 0 {
                let start = a as usize;
                assert(start == a);
                let mut k: usize = 0;
                while k < len
                    invariant
                        start + len <= size,
                        size == self.mem.len(),
                        self.log == old(self).log,
                        i < data@.len(),
                        len == data@[i as int].buf@.len(),
                        k <= len,
                        forall|x: int| 0 <= x < self.mem@.len() <==> prev.contains_key(x),
                        forall|x: int|
                            0 <= x < self.mem@.len() ==> #[trigger] self.mem@[x] == if start <= x
                                < start + k {
                                data@[i as int].buf@[x - start]
                            } else {
                                prev[x]
                            },
                    decreases len - k,
                {
                    let byte = data[i].buf[k];
                    self.mem.set(start + k, byte);
                    k = k + 1;
                }
                assert(self.contents() =~= write_range(prev, a as int, data@[i as int].buf@));
            } else if good {
                assert(self.contents() =~= write_range(prev, a as int, data@[i as int].buf@));
            }
            ok.push(good);
            proof {
                let sub = data@.subrange(0, i + 1);
                assert(sub.drop_last() =~= data@.subrange(0, i as int));
                assert(ok@.drop_last() =~= prev_ok);
                assert(sub.last() == data@[i as int]);
                assert(ok@.last() == good);
                assert(apply_writes(m0, sub.drop_last(), ok@.drop_last()) == prev);
            }
            i = i + 1;
        }
        assert(data@.subrange(0, n as int) =~= data@);
        Ok(ok)
    }

    fn metadata(&self) -> (r: PhysicalMemoryMetadata) {
        let len = self.mem.len() as u64;
        PhysicalMemoryMetadata {
            max_address: if len == 0 {
                0
            } else {
                len - 1
            },
            real_size: len,
            readonly: false,
            ideal_batch_size: u32::MAX,
        }
    }

    fn set_mem_map(&mut self, mem_map: &Vec<PhysicalMemoryMapping>) {
    }
}

} // verus!
