//! Out-of-band guest memory introspection: table-driven page-table walks,
//! batched virtual reads and writes over a physical source, a page cache and
//! a translation cache, and the Windows kernel's process and module lists
//! walked on top of them.

pub mod types;
pub mod size;
pub mod mmu;
pub mod x86;
pub mod x86_pae;
pub mod x64;
pub mod phys_mem;
pub mod dummy;
pub mod walker;
pub mod architecture;
pub mod tlb;
pub mod virt_mem;
pub mod cache;
pub mod win32;
pub mod kernel;
pub mod builder;
