use vstd::prelude::*;

verus! {

/// Byte order of multi-byte guest values.
#[derive(Clone, Copy, Debug, PartialEq, Eq, Structural)]
pub enum Endianess {
    LittleEndian,
    BigEndian,
}

/// Sum of `s[i..]`.
pub open spec fn sum_from(s: Seq<u8>, i: int) -> int
    decreases s.len() - i,
{
    if i < 0 || i >= s.len() {
        0
    } else {
        s[i] as int + sum_from(s, i + 1)
    }
}

/// Bits `lo..=hi` set, all others clear.
pub open spec fn bit_mask(lo: u64, hi: u64) -> u64 {
    (u64::MAX >> ((63 - hi) as u64)) & !low_bits(lo)
}

/// The `k` lowest bits set.
pub open spec fn low_bits(k: u64) -> u64 {
    if k == 0 {
        0
    } else if k >= 64 {
        u64::MAX
    } else {
        u64::MAX >> ((64 - k) as u64)
    }
}

/// Whether bit `b` of `x` is set.
pub open spec fn bit_set(x: u64, b: u64) -> bool {
    (x >> b) & 1 == 1
}

/// log2 of a page-table entry size of 1, 2, 4 or 8 bytes.
pub open spec fn pte_shift_of(pte_size: usize) -> u64 {
    if pte_size == 1 {
        0
    } else if pte_size == 2 {
        1
    } else if pte_size == 4 {
        2
    } else {
        3
    }
}

/// The low `k` bits set, for `k < 64`.
pub fn low_bits_exec(k: u64) -> (r: u64)
    requires
        k < 64,
    ensures
        r == low_bits(k),
{
    if k == 0 {
        0
    } else {
        u64::MAX >> (64 - k)
    }
}

/// A mask with bits `lo..=hi` set.
pub fn make_bit_mask(lo: u8, hi: u8) -> (r: u64)
    requires
        lo <= hi < 64,
    ensures
        r == bit_mask(lo as u64, hi as u64),
{
    (u64::MAX >> ((63 - hi) as u64)) & !low_bits_exec(lo as u64)
}

pub proof fn lemma_sum_from_mono(s: Seq<u8>, i: int, j: int)
    requires
        0 <= i <= j,
    ensures
        sum_from(s, j) <= sum_from(s, i),
        sum_from(s, j) >= 0,
    decreases j - i,
{
    if i < j {
        lemma_sum_from_mono(s, i + 1, j);
    } else {
        lemma_sum_from_nonneg(s, j);
    }
}

pub proof fn lemma_sum_from_nonneg(s: Seq<u8>, i: int)
    ensures
        sum_from(s, i) >= 0,
    decreases s.len() - i,
{
    if 0 <= i < s.len() {
        lemma_sum_from_nonneg(s, i + 1);
    }
}

/// A full description of a paging hierarchy.
///
/// Steps are numbered from the root table: a walk reads one table entry at
/// each step `0 ..= n - 2` (with `n` splits); the last split is the offset
/// inside a page of the finest size.
pub struct ArchMMUSpec {
    /// Bit widths of the virtual-address parts, most significant first.
    pub virtual_address_splits: Vec<u8>,
    /// Steps at which a walk may end in a large page.
    pub valid_final_page_steps: Vec<usize>,
    /// Width of a physical address.
    pub address_space_bits: u8,
    /// Bytes of a pointer.
    pub addr_size: u8,
    /// Bytes of a page-table entry.
    pub pte_size: usize,
    pub present_bit: u8,
    pub writeable_bit: u8,
    /// Bit of the no-execute flag; 64 where entries have none.
    pub nx_bit: u8,
    pub large_page_bit: u8,
}

impl ArchMMUSpec {
    pub open spec fn splits(&self) -> Seq<u8> {
        self.virtual_address_splits@
    }

    pub open spec fn n(&self) -> int {
        self.virtual_address_splits@.len() as int
    }

    /// Number of virtual-address bits that a walk translates.
    pub open spec fn vbits(&self) -> int {
        sum_from(self.splits(), 0)
    }

    pub open spec fn wf(&self) -> bool {
        &&& 2 <= self.n() <= 8
        &&& forall|i: int| 0 <= i < self.n() ==> 1 <= #[trigger] self.splits()[i]
        &&& forall|i: int|
            0 <= i < self.n() ==> #[trigger] self.splits()[i] + pte_shift_of(self.pte_size)
                < self.address_space_bits
        &&& self.vbits() <= 63
        &&& sum_from(self.splits(), 1) < self.address_space_bits
        &&& self.address_space_bits <= 64
        &&& self.pte_size == 1 || self.pte_size == 2 || self.pte_size == 4 || self.pte_size == 8
        &&& self.addr_size == 4 || self.addr_size == 8
        &&& self.present_bit < 64 && self.writeable_bit < 64
        &&& self.nx_bit <= 64 && self.large_page_bit < 64
        &&& forall|i: int|
            0 <= i < self.valid_final_page_steps@.len() ==> #[trigger] self.valid_final_page_steps@[i]
                < self.n()
    }

    /// Low bits of the address of a table read at `step` that its alignment
    /// clears; at the last step, the bits of the offset in a page.
    pub open spec fn table_align_bits(&self, step: int) -> u64 {
        if step == self.n() - 1 {
            self.splits()[step] as u64
        } else {
            (self.splits()[step] + pte_shift_of(self.pte_size)) as u64
        }
    }

    /// Bits of the offset inside a page whose walk ends at `step`.
    pub open spec fn page_bits(&self, step: int) -> u64 {
        sum_from(self.splits(), step) as u64
    }

    /// The 1-based page size level `level` is the page that ends at step
    /// `n - level`.
    pub open spec fn page_size_of_level(&self, level: int) -> u64 {
        1u64 << self.page_bits(self.n() - level)
    }

    pub open spec fn pte_addr_mask_spec(&self, addr: u64, step: int) -> u64 {
        addr & bit_mask(self.table_align_bits(step), (self.address_space_bits - 1) as u64)
    }

    pub fn split_count(&self) -> (r: usize)
        ensures
            r == self.n(),
    {
        self.virtual_address_splits.len()
    }

    pub fn pte_shift(&self) -> (r: u64)
        requires
            self.wf(),
        ensures
            r == pte_shift_of(self.pte_size),
    {
        if self.pte_size == 1 {
            0
        } else if self.pte_size == 2 {
            1
        } else if self.pte_size == 4 {
            2
        } else {
            3
        }
    }

    /// Sum of the splits from index `i` on.
    pub fn split_sum_from(&self, i: usize) -> (r: u8)
        requires
            self.wf(),
            i <= self.n(),
        ensures
            r == sum_from(self.splits(), i as int),
            r <= self.vbits(),
    {
        let n = self.virtual_address_splits.len();
        let mut j: usize = n;
        let mut acc: u8 = 0;
        while j > i
            invariant
                self.wf(),
                n == self.n(),
                i <= j <= n,
                acc == sum_from(self.splits(), j as int),
            decreases j,
        {
            j = j - 1;
            proof {
                lemma_sum_from_mono(self.splits(), 0, j as int);
            }
            acc = acc + self.virtual_address_splits[j];
        }
        proof {
            lemma_sum_from_mono(self.splits(), 0, i as int);
        }
        acc
    }

    /// The table-address mask of `step` applied to `pte_addr`: the bits from
    /// the table's alignment up to the physical width.
    pub fn pte_addr_mask(&self, pte_addr: crate::types::Address, step: usize) -> (r: u64)
        requires
            self.wf(),
            step < self.n(),
        ensures
            r == self.pte_addr_mask_spec(pte_addr.0, step as int),
    {
        let max = self.address_space_bits - 1;
        let split = self.virtual_address_splits[step];
        let min = if step == self.virtual_address_splits.len() - 1 {
            split
        } else {
            split + self.pte_shift() as u8
        };
        pte_addr.0 & make_bit_mask(min, max)
    }

    /// Bytes of a page table read at `step`.
    pub fn pt_leaf_size(&self, step: usize) -> (r: u64)
        requires
            self.wf(),
            step < self.n(),
        ensures
            r == 1u64 << ((self.splits()[step as int] + pte_shift_of(self.pte_size)) as u64),
    {
        let bits = self.virtual_address_splits[step] as u64 + self.pte_shift();
        1u64 << bits
    }

    /// Size of a page of the 1-based size level `level` (1 is the finest).
    pub fn page_size_level(&self, level: usize) -> (r: u64)
        requires
            self.wf(),
            1 <= level <= self.n(),
        ensures
            r == self.page_size_of_level(level as int),
    {
        let bits = self.split_sum_from(self.virtual_address_splits.len() - level);
        1u64 << (bits as u64)
    }
}

} // verus!
