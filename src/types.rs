use vstd::prelude::*;

verus! {

/// A 64-bit guest address; zero is the null address and all ones the
/// invalid one.
#[derive(Clone, Copy, Debug, PartialEq, Eq, Structural)]
pub struct Address(pub u64);

pub const ADDRESS_INVALID: u64 = 0xffff_ffff_ffff_ffff;

impl Address {
    pub fn null() -> (r: Address)
        ensures
            r.0 == 0,
    {
        Address(0)
    }

    pub fn invalid() -> (r: Address)
        ensures
            r.0 == u64::MAX,
    {
        Address(ADDRESS_INVALID)
    }

    pub fn is_null(&self) -> (r: bool)
        ensures
            r == (self.0 == 0),
    {
        self.0 == 0
    }

    pub fn as_u64(&self) -> (r: u64)
        ensures
            r == self.0,
    {
        self.0
    }
}

/// Permission and size information of the page an address lies in.
#[derive(Clone, Copy, Debug, PartialEq, Eq, Structural)]
pub struct PageInfo {
    /// Size level of the page: 0 is the finest page size of the
    /// architecture, each level above it one large-page level more.
    pub level: u8,
    pub writeable: bool,
    pub nx: bool,
}

/// A physical address with optional page metadata. Without metadata
/// nothing is known of the page, and caches do not trust it.
#[derive(Clone, Copy, Debug, PartialEq, Eq, Structural)]
pub struct PhysicalAddress {
    pub address: u64,
    pub page: Option<PageInfo>,
}

impl PhysicalAddress {
    pub fn with_page(address: u64, page: PageInfo) -> (r: PhysicalAddress)
        ensures
            r.address == address,
            r.page == Some(page),
    {
        PhysicalAddress { address, page: Some(page) }
    }

    pub fn from_address(address: u64) -> (r: PhysicalAddress)
        ensures
            r.address == address,
            r.page is None,
    {
        PhysicalAddress { address, page: None }
    }
}

/// The kinds of failure of the library.
#[derive(Clone, Copy, Debug, PartialEq, Eq, Structural)]
pub enum Error {
    /// The physical backend failed.
    Backend,
    /// A page-table entry was not present, or the address is not canonical.
    Translation,
    /// An architecture the operation does not support.
    InvalidArchitecture,
    /// An address beyond the backend's range.
    Bounds,
    /// A cache or builder was given parameters it cannot work with.
    Config,
    /// A virtual read had a page that could not be read.
    PartialRead,
    /// A kernel structure, process or module could not be found.
    NotFound,
    /// The named process was found but its module was not.
    ModuleInfo,
    /// No process matched.
    ProcessInfo,
}

} // verus!
