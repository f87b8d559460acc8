//! The layout of the kernel's address space.

use vstd::prelude::*;
use super::page_table::PageTable;

verus! {

/// The kernel's address space: the page table that maps it.
pub struct KernelLayout {
    page_table: PageTable,
}

impl KernelLayout {
    /// The page table of the layout.
    pub closed spec fn table(&self) -> PageTable {
        self.page_table
    }

    /// The layout that `page_table` maps.
    pub fn new(page_table: PageTable) -> (r: Self)
        ensures
            r.table() == page_table,
    {
        Self { page_table }
    }

    /// The page table of the layout, to map and to translate with.
    pub fn into_page_table(self) -> (r: PageTable)
        ensures
            r == self.table(),
    {
        self.page_table
    }
}

} // verus!
