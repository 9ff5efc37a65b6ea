//! Paging: page-table flags and entries, page-table indices and the
//! recursive mapping through which page tables are reached.
use vstd::prelude::*;

pub mod x86_64;
pub mod aarch64;
pub mod entry;
pub mod tables;
pub mod mapping;

verus! {

/// The size of a page.
pub const PAGE_SIZE: usize = 4096;

/// The number of levels of page tables.
pub const PAGE_TABLE_LEVELS: usize = 4;

/// The number of entries of one page table.
pub const ENTRIES_PER_TABLE: usize = 512;

/// The kind of memory a page maps.
#[derive(Clone, Copy, Debug, PartialEq, Eq, Structural)]
pub enum MemoryType {
    Normal,
    Device,
}

/// Who may use a page, and how.
#[derive(Clone, Copy, Debug, PartialEq, Eq, Structural)]
pub struct PagePermissions {
    pub user: bool,
    pub writable: bool,
    pub executable: bool,
}

} // verus!
