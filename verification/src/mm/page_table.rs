//! The page-table manager: a four-level tree of tables, each one frame of
//! the kernel heap, that maps virtual pages to physical frames.

use vstd::prelude::*;
use super::page_table_entry::{
    PhysAddr, VirtAddr, PTE, PTEFlags, PRESENT, WRITABLE, PHYS_ADDR_MASK, FLAGS_MASK,
    PAGE_NUMBER_MASK, level_index, page_offset, is_frame_addr, is_flag_bits, same_table,
    lemma_entry_round_trip, lemma_frame_addr_aligned, lemma_level_index_bound,
    lemma_same_indices_same_page, lemma_table_flags, lemma_offset_zero,
};
use super::page_table_proofs::{
    kept_but, table_step, lemma_grown_twice, lemma_kept_chain, lemma_kept_off_way,
    lemma_leaf_write, lemma_level1_table_owned, lemma_new_table_entry, lemma_region_kept,
    lemma_region_partial, lemma_region_step, lemma_region_tables_monotone,
    lemma_region_tables_step, lemma_step_keeps_mappings, lemma_step_keeps_tree, lemma_step_needs,
    lemma_way_owned,
};
use super::phys_mem::MAX_PHYS_ADDR;
use super::phys_page::{KernelHeap, phys_page_alloc, set_frame};

verus! {

/// Every page table holds 512 entries.
pub const NUM_PAGE_ENTRY: usize = 512;

/// The largest region that one call maps: half of the 48-bit address
/// space, so that no two pages of a region share a page number.
pub const REGION_MAX: u64 = 0x8000_0000_0000;

/// Why a mapping was refused.
#[derive(Clone, Copy, Debug, PartialEq, Eq, Structural)]
pub enum MapError {
    /// The virtual address is not page aligned.
    UnalignedVirtAddr,
    /// The physical address is not page aligned or not below 2^52.
    InvalidPhysAddr,
    /// The flags reach into the address field of the entry.
    InvalidFlags,
    /// A table is missing on the way and the allocator has no frame left.
    OutOfFrames,
    /// The region is larger than half of the 48-bit address space, or it
    /// does not end within the virtual or the physical address space.
    RegionTooLarge,
}

/// The table that entry `index` of the table at `table` points at: the
/// address field of the entry, where the table is a frame of the heap and
/// the entry is in use.
pub open spec fn child_table(heap: &KernelHeap, table: u64, index: int) -> Option<u64> {
    if heap.has_frame(table) && heap.entry(table, index) != 0 {
        Some(heap.entry(table, index) & PHYS_ADDR_MASK)
    } else {
        None
    }
}

/// The first fault of a request to map `vaddr` to `paddr` with `flags`,
/// where it has one.
pub open spec fn map_fault(vaddr: u64, paddr: u64, flags: u64) -> Option<MapError> {
    if page_offset(vaddr) != 0 {
        Some(MapError::UnalignedVirtAddr)
    } else if !is_frame_addr(paddr) {
        Some(MapError::InvalidPhysAddr)
    } else if !is_flag_bits(flags) {
        Some(MapError::InvalidFlags)
    } else {
        None
    }
}

/// Number of page-size steps that cover `size` bytes.
pub open spec fn region_pages(size: int) -> int {
    (size + 4095) / 4096
}

/// The address `k` page-size steps above `start`.
pub open spec fn step_addr(start: u64, k: int) -> u64 {
    (start + 4096 * k) as u64
}

/// `u` and `w` have the same page number, and so the same level-1 entry.
pub open spec fn same_page(u: u64, w: u64) -> bool {
    u & PAGE_NUMBER_MASK == w & PAGE_NUMBER_MASK
}

/// `w` lies in the page of one of the first `pages` steps from `start`.
pub open spec fn steps_touch(start: u64, pages: int, w: u64) -> bool {
    exists|k: int| 0 <= k < pages && same_page(#[trigger] step_addr(start, k), w)
}

/// `w` goes through the table of `level`, 3 down to 1, of one of the first
/// `pages` steps from `start`.
pub open spec fn steps_share(start: u64, pages: int, w: u64, level: int) -> bool {
    exists|k: int| 0 <= k < pages && same_table(#[trigger] step_addr(start, k), w, level)
}

/// The first fault of a request to map the region of `size` bytes from
/// `virt_start` to `phys_start` with `flags`, where it has one.
pub open spec fn region_fault(virt_start: u64, phys_start: u64, size: usize, flags: u64) -> Option<
    MapError,
> {
    if page_offset(virt_start) != 0 {
        Some(MapError::UnalignedVirtAddr)
    } else if !is_frame_addr(phys_start) {
        Some(MapError::InvalidPhysAddr)
    } else if !is_flag_bits(flags) {
        Some(MapError::InvalidFlags)
    } else if size > REGION_MAX || virt_start + 4096 * region_pages(size as int) > u64::MAX + 1
        || phys_start + 4096 * region_pages(size as int) > MAX_PHYS_ADDR {
        Some(MapError::RegionTooLarge)
    } else {
        None
    }
}

/// A tree of page tables, known by the frame of its level-4 table. Beside
/// the address the table keeps, for proofs only, the level of each frame of
/// the tree and the entry that points at it.
pub struct PageTable {
    base: PhysAddr,
    level: Ghost<Map<u64, int>>,
    parent: Ghost<Map<u64, (u64, int)>>,
}

impl PageTable {
    /// Address of the level-4 table.
    pub closed spec fn root(&self) -> u64 {
        self.base@
    }

    /// The level, 4 down to 1, of each frame that is a table of this tree.
    pub closed spec fn levels(&self) -> Map<u64, int> {
        self.level@
    }

    /// For each table of this tree but the level-4 table, the table and the
    /// index of the entry that points at it.
    pub closed spec fn parents(&self) -> Map<u64, (u64, int)> {
        self.parent@
    }

    /// `frame` is a table of this tree.
    pub open spec fn owns(&self, frame: u64) -> bool {
        self.levels().dom().contains(frame)
    }

    /// Level of the table at `frame`.
    pub open spec fn level_of(&self, frame: u64) -> int {
        self.levels()[frame]
    }

    /// The tables are a tree in the heap: each is an allocated frame with a
    /// level, the root has level 4, and an entry in use of a table above
    /// level 1 points at a table one level below that no other entry points
    /// at.
    pub open spec fn wf(&self, heap: &KernelHeap) -> bool {
        &&& heap.wf()
        &&& self.owns(self.root())
        &&& self.level_of(self.root()) == 4
        &&& forall|t: u64| #[trigger]
            self.owns(t) ==> heap.allocated(t) && 1 <= self.level_of(t) <= 4
        &&& forall|t: u64, i: int|
            self.owns(t) && self.level_of(t) >= 2 && 0 <= i < 512 && #[trigger] heap.entry(t, i)
                != 0 ==> {
                let c: u64 = heap.entry(t, i) & PHYS_ADDR_MASK;
                &&& self.owns(c)
                &&& self.level_of(c) == self.level_of(t) - 1
                &&& self.parents().dom().contains(c)
                &&& self.parents()[c] == (t, i)
            }
    }

    /// The level-3 table on the way of `vaddr`, where the level-4 entry
    /// points at one.
    pub open spec fn level3_table(&self, heap: &KernelHeap, vaddr: u64) -> Option<u64> {
        child_table(heap, self.root(), level_index(vaddr, 4) as int)
    }

    /// The level-2 table on the way of `vaddr`, where the two tables above
    /// it point the way.
    pub open spec fn level2_table(&self, heap: &KernelHeap, vaddr: u64) -> Option<u64> {
        match self.level3_table(heap, vaddr) {
            Some(l3) => child_table(heap, l3, level_index(vaddr, 3) as int),
            None => None,
        }
    }

    /// The level-1 table on the way of `vaddr`, where the three tables
    /// above it point the way.
    pub open spec fn level1_table(&self, heap: &KernelHeap, vaddr: u64) -> Option<u64> {
        match child_table(heap, self.root(), level_index(vaddr, 4) as int) {
            Some(l3) => match child_table(heap, l3, level_index(vaddr, 3) as int) {
                Some(l2) => child_table(heap, l2, level_index(vaddr, 2) as int),
                None => None,
            },
            None => None,
        }
    }

    /// The bits of the level-1 entry of `vaddr`, where the walk gets to a
    /// level-1 table that is a frame of the heap.
    pub open spec fn level1_entry(&self, heap: &KernelHeap, vaddr: u64) -> Option<u64> {
        match self.level1_table(heap, vaddr) {
            Some(l1) => if heap.has_frame(l1) {
                Some(heap.entry(l1, level_index(vaddr, 1) as int))
            } else {
                None
            },
            None => None,
        }
    }

    /// What the tree holds for the page of `vaddr`: the bits of its level-1
    /// entry, zero where the walk does not get to one.
    #[verifier::opaque]
    pub open spec fn mapping(&self, heap: &KernelHeap, vaddr: u64) -> u64 {
        match self.level1_entry(heap, vaddr) {
            Some(e) => e,
            None => 0,
        }
    }

    /// The physical address that `vaddr`'s page is mapped to: the address
    /// field of its level-1 entry, where that entry is in use.
    pub open spec fn translation(&self, heap: &KernelHeap, vaddr: u64) -> Option<u64> {
        if self.mapping(heap, vaddr) != 0 {
            Some(self.mapping(heap, vaddr) & PHYS_ADDR_MASK)
        } else {
            None
        }
    }

    /// The table of `level`, 3 down to 1, on the way of `vaddr`.
    pub open spec fn table_on_way(&self, heap: &KernelHeap, vaddr: u64, level: int) -> Option<
        u64,
    > {
        if level == 3 {
            self.level3_table(heap, vaddr)
        } else if level == 2 {
            self.level2_table(heap, vaddr)
        } else {
            self.level1_table(heap, vaddr)
        }
    }

    /// The tables on the way of `vaddr` have grown from those of `before` in
    /// `heap0`: a table that was there is there still, and one that was not
    /// there is, where it is there now, no table that `before` had.
    pub open spec fn way_grown(
        &self,
        heap: &KernelHeap,
        before: &PageTable,
        heap0: &KernelHeap,
        vaddr: u64,
    ) -> bool {
        forall|level: int|
            1 <= level <= 3 ==> #[trigger] self.table_grown(heap, before, heap0, vaddr, level)
    }

    /// The table of `level` on the way of `vaddr` has grown from that of
    /// `before` in `heap0`: it is the same table where there was one, and
    /// no table that `before` had where there is one now.
    pub open spec fn table_grown(
        &self,
        heap: &KernelHeap,
        before: &PageTable,
        heap0: &KernelHeap,
        vaddr: u64,
        level: int,
    ) -> bool {
        match before.table_on_way(heap0, vaddr, level) {
            Some(t) => self.table_on_way(heap, vaddr, level) == Some(t),
            None => self.table_on_way(heap, vaddr, level) matches Some(t) ==> !before.owns(t),
        }
    }

    /// Entry `index` of the table at `table` lies on the way of `vaddr`: it
    /// is the entry that the walk for `vaddr` reads at one of the four
    /// levels.
    pub open spec fn on_way(&self, heap: &KernelHeap, vaddr: u64, table: u64, index: int) -> bool {
        ||| table == self.root() && index == level_index(vaddr, 4)
        ||| self.level3_table(heap, vaddr) == Some(table) && index == level_index(vaddr, 3)
        ||| self.level2_table(heap, vaddr) == Some(table) && index == level_index(vaddr, 2)
        ||| self.level1_table(heap, vaddr) == Some(table) && index == level_index(vaddr, 1)
    }

    /// The three tables below the root on the way of `vaddr` are there, and
    /// the entry that points at each holds its address with the flags
    /// present and writable.
    pub open spec fn way_is_set(&self, heap: &KernelHeap, vaddr: u64) -> bool {
        &&& self.level3_table(heap, vaddr) is Some
        &&& self.level2_table(heap, vaddr) is Some
        &&& self.level1_table(heap, vaddr) is Some
        &&& heap.entry(self.root(), level_index(vaddr, 4) as int) == (PRESENT | WRITABLE)
            | self.level3_table(heap, vaddr)->0
        &&& heap.entry(self.level3_table(heap, vaddr)->0, level_index(vaddr, 3) as int) == (PRESENT
            | WRITABLE) | self.level2_table(heap, vaddr)->0
        &&& heap.entry(self.level2_table(heap, vaddr)->0, level_index(vaddr, 2) as int) == (PRESENT
            | WRITABLE) | self.level1_table(heap, vaddr)->0
    }

    /// Every word of the heap off the way of `vaddr` is accounted for: it
    /// is zero in a table that this tree has more than `before`, and as it
    /// was in `heap0` in every other frame.
    pub open spec fn off_way_kept(
        &self,
        heap: &KernelHeap,
        before: &PageTable,
        heap0: &KernelHeap,
        vaddr: u64,
    ) -> bool {
        forall|t: u64, i: int|
            heap.has_frame(t) && 0 <= i < 512 && !self.on_way(heap, vaddr, t, i)
                ==> #[trigger] heap.entry(t, i) == (if self.owns(t) && !before.owns(t) {
                0
            } else {
                heap0.entry(t, i)
            })
    }

    /// The tree holds `bits` for the page of `vaddr`, and for every other
    /// page what `before` held in `heap0`.
    pub open spec fn differs_at(
        &self,
        heap: &KernelHeap,
        before: &PageTable,
        heap0: &KernelHeap,
        vaddr: u64,
        bits: u64,
    ) -> bool {
        &&& forall|w: u64| same_page(vaddr, w) ==> #[trigger] self.mapping(heap, w) == bits
        &&& forall|w: u64|
            !same_page(vaddr, w) ==> #[trigger] self.mapping(heap, w) == before.mapping(heap0, w)
    }

    /// The page of each of the first `pages` page-size steps from
    /// `virt_start` is mapped, with `flags`, to the same step from
    /// `phys_start`.
    pub open spec fn maps_steps(
        &self,
        heap: &KernelHeap,
        virt_start: u64,
        phys_start: u64,
        flags: u64,
        pages: int,
    ) -> bool {
        forall|i: int, w: u64|
            0 <= i < pages && same_page(#[trigger] step_addr(virt_start, i), w)
                ==> #[trigger] self.mapping(heap, w) == flags | step_addr(phys_start, i)
    }

    /// The page of each of the first `pages` page-size steps from
    /// `virt_start` is mapped, with `flags`, to the same step from
    /// `phys_start`, or it is as `before` held it in `heap0`.
    pub open spec fn maps_steps_or_not(
        &self,
        heap: &KernelHeap,
        before: &PageTable,
        heap0: &KernelHeap,
        virt_start: u64,
        phys_start: u64,
        flags: u64,
        pages: int,
    ) -> bool {
        forall|i: int, w: u64|
            0 <= i < pages && same_page(#[trigger] step_addr(virt_start, i), w)
                ==> #[trigger] self.mapping(heap, w) == flags | step_addr(phys_start, i)
                || self.mapping(heap, w) == before.mapping(heap0, w)
    }

    /// Mapping step `k` of a region from `virt_start` needs the table of
    /// `level` made: the table is missing on the way of the step, and the
    /// step before, which would have made it, goes through another one.
    pub open spec fn needs_table(
        &self,
        heap: &KernelHeap,
        virt_start: u64,
        k: int,
        level: int,
    ) -> bool {
        &&& self.table_on_way(heap, step_addr(virt_start, k), level) is None
        &&& k == 0 || !same_table(step_addr(virt_start, k - 1), step_addr(virt_start, k), level)
    }

    /// Number of tables that mapping step `k` of a region from `virt_start`
    /// needs made.
    pub open spec fn tables_for_step(&self, heap: &KernelHeap, virt_start: u64, k: int) -> int {
        (if self.needs_table(heap, virt_start, k, 3) {
            1int
        } else {
            0
        }) + (if self.needs_table(heap, virt_start, k, 2) {
            1int
        } else {
            0
        }) + (if self.needs_table(heap, virt_start, k, 1) {
            1int
        } else {
            0
        })
    }

    /// Number of tables that mapping the first `pages` steps of a region
    /// from `virt_start` needs made.
    pub open spec fn tables_for_region(
        &self,
        heap: &KernelHeap,
        virt_start: u64,
        pages: int,
    ) -> int
        decreases pages,
    {
        if pages <= 0 {
            0
        } else {
            self.tables_for_region(heap, virt_start, pages - 1) + self.tables_for_step(
                heap,
                virt_start,
                pages - 1,
            )
        }
    }

    /// The tree has, on the way of any address, the tables that `before`
    /// had in `heap0` and those of the first `k` steps from `virt_start`.
    pub open spec fn tables_grown(
        &self,
        heap: &KernelHeap,
        before: &PageTable,
        heap0: &KernelHeap,
        virt_start: u64,
        k: int,
    ) -> bool {
        forall|w: u64, level: int|
            1 <= level <= 3 ==> (#[trigger] self.table_on_way(heap, w, level) is Some
                <==> before.table_on_way(heap0, w, level) is Some || steps_share(
                virt_start,
                k,
                w,
                level,
            ))
    }

    /// The region has been mapped up to its step `k`: the pages of the
    /// first `k` steps are mapped as asked, and every other page is as
    /// `before` held it in `heap0`.
    pub open spec fn mapped_up_to(
        &self,
        heap: &KernelHeap,
        before: &PageTable,
        heap0: &KernelHeap,
        virt_start: u64,
        phys_start: u64,
        flags: u64,
        k: int,
    ) -> bool {
        &&& self.maps_steps(heap, virt_start, phys_start, flags, k)
        &&& self.same_outside_steps(heap, before, heap0, virt_start, k)
    }

    /// Every page outside those of the first `pages` page-size steps from
    /// `virt_start` is as `before` held it in `heap0`.
    pub open spec fn same_outside_steps(
        &self,
        heap: &KernelHeap,
        before: &PageTable,
        heap0: &KernelHeap,
        virt_start: u64,
        pages: int,
    ) -> bool {
        forall|w: u64|
            !steps_touch(virt_start, pages, w) ==> #[trigger] self.mapping(heap, w)
                == before.mapping(heap0, w)
    }

    /// The tree holds for every page what `before` held in `heap0`.
    pub open spec fn same_mappings(
        &self,
        heap: &KernelHeap,
        before: &PageTable,
        heap0: &KernelHeap,
    ) -> bool {
        forall|w: u64| #[trigger] self.mapping(heap, w) == before.mapping(heap0, w)
    }

    /// Every table of `before` is a table of this tree; the frames that
    /// have become allocated since `heap0` are the tables that this tree
    /// has more than `before`; and no word of a frame of `heap0` that is no
    /// table of this tree has changed.
    pub open spec fn grown_from(
        &self,
        heap: &KernelHeap,
        before: &PageTable,
        heap0: &KernelHeap,
    ) -> bool {
        &&& self.root() == before.root()
        &&& heap.base() == heap0.base()
        &&& heap.limit() == heap0.limit()
        &&& forall|t: u64| #[trigger] before.owns(t) ==> self.owns(t)
        &&& forall|t: u64| #[trigger] heap0.has_frame(t) ==> heap.has_frame(t)
        &&& forall|g: u64| #[trigger]
            heap.allocated(g) <==> heap0.allocated(g) || (self.owns(g) && !before.owns(g))
        &&& forall|g: u64| #[trigger] self.owns(g) && !before.owns(g) ==> !heap0.allocated(g)
        &&& forall|g: u64|
            #[trigger] heap.has_frame(g) && !heap0.has_frame(g) ==> self.owns(g) && !before.owns(g)
        &&& forall|g: u64, j: int|
            heap0.has_frame(g) && !self.owns(g) && 0 <= j < 512 ==> #[trigger] heap.entry(g, j)
                == heap0.entry(g, j)
    }

    /// The tree is new in `heap`: its only table is its root, a frame that
    /// was not allocated in `heap0` and is the one frame allocated since;
    /// and no word of another frame of `heap0` has changed.
    pub open spec fn fresh_in(&self, heap: &KernelHeap, heap0: &KernelHeap) -> bool {
        &&& heap.base() == heap0.base()
        &&& heap.limit() == heap0.limit()
        &&& forall|g: u64| self.owns(g) <==> g == self.root()
        &&& !heap0.allocated(self.root())
        &&& forall|t: u64| #[trigger] heap0.has_frame(t) ==> heap.has_frame(t)
        &&& forall|g: u64| #[trigger]
            heap.allocated(g) <==> heap0.allocated(g) || g == self.root()
        &&& heap.same_frames_but(heap0, self.root())
    }

    /// The tree shares no table with `other`.
    pub open spec fn beside(&self, other: &PageTable) -> bool {
        forall|t: u64| #[trigger] self.owns(t) ==> !other.owns(t)
    }

    /// Number of tables that are missing on the way of `vaddr`: 3 where
    /// the level-4 entry is unused, down to 0 where a level-1 table is there.
    pub open spec fn missing_tables(&self, heap: &KernelHeap, vaddr: u64) -> int {
        match child_table(heap, self.root(), level_index(vaddr, 4) as int) {
            Some(l3) => match child_table(heap, l3, level_index(vaddr, 3) as int) {
                Some(l2) => match child_table(heap, l2, level_index(vaddr, 2) as int) {
                    Some(l1) => 0,
                    None => 1,
                },
                None => 2,
            },
            None => 3,
        }
    }
}

impl PageTable {
    /// Create a new page table: one frame from the allocator, filled with
    /// zeros, so that every entry of the level-4 table is unused and no
    /// page is mapped. `None` where the allocator has no frame left; the
    /// heap is then as it was.
    pub fn new(heap: &mut KernelHeap) -> (r: Option<Self>)
        requires
            old(heap).wf(),
        ensures
            final(heap).wf(),
            r is Some <==> old(heap).available() > 0,
            r is None ==> final(heap).same_frames(old(heap)) && final(heap).same_memory(old(heap)),
            r matches Some(table) ==> {
                &&& table.wf(final(heap))
                &&& table.fresh_in(final(heap), old(heap))
                &&& final(heap).available() == old(heap).available() - 1
                &&& forall|j: int|
                    0 <= j < 512 ==> #[trigger] final(heap).entry(table.root(), j) == 0
                &&& forall|vaddr: u64| #[trigger] table.mapping(final(heap), vaddr) == 0
            },
    {
        let result: Option<PhysAddr> = phys_page_alloc(heap);
        match result {
            Some(phys_page) => {
                set_frame(heap, phys_page, 0);
                let table: PageTable = PageTable {
                    base: phys_page,
                    level: Ghost(Map::empty().insert(phys_page@, 4int)),
                    parent: Ghost(Map::empty()),
                };
                proof {
                    assert forall|vaddr: u64| #[trigger] table.mapping(heap, vaddr) == 0 by {
                        reveal(PageTable::mapping);
                        lemma_level_index_bound(vaddr);
                        assert(heap.entry(table.root(), level_index(vaddr, 4) as int) == 0);
                    }
                }
                Some(table)
            },
            None => None,
        }
    }

    /// The value to load into the translation-root register to make this
    /// table the active one: the address of its level-4 table.
    pub fn enable(&self) -> (r: u64)
        ensures
            r == self.root(),
    {
        self.base.to_u64()
    }

    /// Address of the level-4 table.
    pub fn base(&self) -> (r: PhysAddr)
        ensures
            r@ == self.root(),
    {
        self.base
    }

    /// Get next level table: the table that entry `index` of the table at
    /// `table` points at; `None` where that entry is unused or the heap has
    /// no such table.
    fn next_table(heap: &KernelHeap, table: PhysAddr, index: usize) -> (r: Option<PhysAddr>)
        requires
            heap.wf(),
            index < 512,
        ensures
            r is Some <==> child_table(heap, table@, index as int) is Some,
            r matches Some(next) ==> child_table(heap, table@, index as int) == Some(next@),
    {
        match heap.read_entry(table, index) {
            None => None,
            Some(pte) => {
                if pte.is_unused() {
                    None
                } else {
                    Some(pte.phys_addr())
                }
            },
        }
    }

    /// Create next level table: a frame from the allocator, filled with
    /// zeros, and the entry that points at it. `None` where the allocator
    /// has no frame left; the heap is then as it was.
    fn create_next_table(heap: &mut KernelHeap) -> (r: Option<PTE>)
        requires
            old(heap).wf(),
        ensures
            final(heap).wf(),
            final(heap).base() == old(heap).base(),
            final(heap).limit() == old(heap).limit(),
            final(heap).top() >= old(heap).top(),
            r is Some <==> old(heap).available() > 0,
            r is None ==> final(heap).same_frames(old(heap)) && final(heap).same_memory(old(heap)),
            r matches Some(pte) ==> {
                let f: u64 = pte@ & PHYS_ADDR_MASK;
                &&& pte@ == (PRESENT | WRITABLE) | f
                &&& pte@ != 0
                &&& final(heap).has_frame(f)
                &&& !old(heap).allocated(f)
                &&& final(heap).allocated(f)
                &&& forall|g: u64| g != f ==> final(heap).allocated(g) == old(heap).allocated(g)
                &&& final(heap).available() == old(heap).available() - 1
                &&& forall|j: int| 0 <= j < 512 ==> #[trigger] final(heap).entry(f, j) == 0
                &&& final(heap).same_frames_but(old(heap), f)
                &&& forall|t: u64|
                    #[trigger] final(heap).has_frame(t) ==> old(heap).has_frame(t) || t == f
            },
    {
        let new_table: Option<PhysAddr> = phys_page_alloc(heap);
        match new_table {
            Some(next_table) => {
                set_frame(heap, next_table, 0);
                proof {
                    lemma_new_table_entry(heap, next_table@);
                }
                Some(PTE::new_table_entry(next_table))
            },
            None => None,
        }
    }

    /// Create and set up next level table: make sure that entry `index` of
    /// the table at `table` points at a table, and return that table. An
    /// entry in use keeps its table and gets the flags present and
    /// writable; an unused entry gets a new, empty table. `None` where a
    /// table is needed and the allocator has no frame left. What the tree
    /// holds for any page stays as it was.
    fn setup_next_table(&mut self, heap: &mut KernelHeap, table: PhysAddr, index: usize) -> (r:
        Option<PhysAddr>)
        requires
            old(self).wf(old(heap)),
            old(self).owns(table@),
            old(self).level_of(table@) >= 2,
            index < 512,
        ensures
            final(self).wf(final(heap)),
            r is None <==> old(heap).entry(table@, index as int) == 0 && old(heap).available()
                == 0,
            table_step(
                old(self),
                old(heap),
                final(self),
                final(heap),
                table@,
                index as int,
                match r {
                    Some(next) => Some(next@),
                    None => None,
                },
            ),
            r matches Some(next) ==> {
                &&& child_table(final(heap), table@, index as int) == Some(next@)
                &&& final(self).owns(next@)
                &&& final(self).level_of(next@) == old(self).level_of(table@) - 1
            },
            forall|t: u64| #[trigger]
                old(self).owns(t) ==> final(self).owns(t)
                    && final(self).level_of(t) == old(self).level_of(t),
            forall|t: u64, i: int|
                old(self).owns(t) && 0 <= i < 512 && !(t == table@ && i == index)
                    ==> #[trigger] final(heap).entry(t, i) == old(heap).entry(t, i),
            final(self).grown_from(final(heap), old(self), old(heap)),
            final(self).same_mappings(final(heap), old(self), old(heap)),
            kept_but(final(self), final(heap), old(self), old(heap), set![(table@, index as int)]),
    {
        proof {
            assert(old(heap).allocated(table@));
        }
        let entry: Option<PTE> = heap.read_entry(table, index);
        let mut pte: PTE = match entry {
            Some(pte) => pte,
            None => { return None; },
        };
        let result: Option<PhysAddr> = if pte.is_unused() {
            let created: Option<PTE> = Self::create_next_table(heap);
            match created {
                Some(new_pte) => {
                    let next: PhysAddr = new_pte.phys_addr();
                    let ghost made: KernelHeap = *heap;
                    heap.write_entry(table, index, new_pte);
                    proof {
                        assert forall|t: u64| #[trigger] heap.has_frame(t) implies t == next@
                            || old(heap).has_frame(t) by {
                            assert(made.has_frame(t));
                        }
                    }
                    self.level = Ghost(
                        self.level@.insert(next@, old(self).level@[table@] - 1),
                    );
                    self.parent = Ghost(self.parent@.insert(next@, (table@, index as int)));
                    Some(next)
                },
                None => None,
            }
        } else {
            pte.set_flags(PTEFlags::new(PRESENT | WRITABLE));
            proof {
                lemma_table_flags(old(heap).entry(table@, index as int));
            }
            heap.write_entry(table, index, pte);
            Some(pte.phys_addr())
        };
        proof {
            let ghost_r: Option<u64> = match result {
                Some(next) => Some(next@),
                None => None,
            };
            lemma_step_keeps_tree(old(self), old(heap), self, heap, table@, index as int, ghost_r);
            assert forall|w: u64| #[trigger]
                self.mapping(heap, w) == old(self).mapping(old(heap), w) by {
                lemma_step_keeps_mappings(
                    old(self),
                    old(heap),
                    self,
                    heap,
                    table@,
                    index as int,
                    ghost_r,
                    w,
                );
            }
        }
        result
    }

    /// Walk down to the level-1 table on the way of `vaddr`, creating the
    /// tables that are missing, and return it. `None` where the allocator
    /// has fewer frames than tables are missing: the tables created up to
    /// then stay, and the allocator is left with no frame. What the tree
    /// holds for any page stays as it was.
    fn setup_level1_table(&mut self, heap: &mut KernelHeap, vaddr: VirtAddr) -> (r: Option<
        PhysAddr,
    >)
        requires
            old(self).wf(old(heap)),
        ensures
            final(self).wf(final(heap)),
            r is Some <==> old(self).missing_tables(old(heap), vaddr@) <= old(heap).available(),
            r is None ==> final(heap).available() == 0,
            r matches Some(l1) ==> {
                &&& final(self).level1_table(final(heap), vaddr@) == Some(l1@)
                &&& final(self).owns(l1@)
                &&& final(self).level_of(l1@) == 1
                &&& final(heap).available() == old(heap).available() - old(self).missing_tables(
                    old(heap),
                    vaddr@,
                )
            },
            r is Some ==> final(self).way_is_set(final(heap), vaddr@),
            final(self).way_grown(final(heap), old(self), old(heap), vaddr@),
            final(self).grown_from(final(heap), old(self), old(heap)),
            final(self).same_mappings(final(heap), old(self), old(heap)),
            final(self).off_way_kept(final(heap), old(self), old(heap), vaddr@),
    {
        let l4_index: usize = vaddr.l4_index();
        let l3_index: usize = vaddr.l3_index();
        let l2_index: usize = vaddr.l2_index();
        let root: PhysAddr = self.base;
        let ghost slot4: Set<(u64, int)> = set![(root@, l4_index as int)];
        proof {
            assert(old(heap).allocated(root@));
            assert forall|t: u64| #[trigger] old(self).owns(t) implies old(heap).allocated(t) by {}
        }

        let step: Option<PhysAddr> = self.setup_next_table(heap, root, l4_index);
        proof {
            lemma_kept_off_way(self, heap, old(self), old(heap), slot4, vaddr@);
        }
        let l3_table: PhysAddr = match step {
            Some(table) => table,
            None => {
                proof {
                    heap.lemma_same_memory(old(heap));
                    assert(self.table_grown(heap, old(self), old(heap), vaddr@, 3));
                    assert(self.table_grown(heap, old(self), old(heap), vaddr@, 2));
                    assert(self.table_grown(heap, old(self), old(heap), vaddr@, 1));
                }
                return None;
            },
        };
        let ghost table1: PageTable = *self;
        let ghost heap1: KernelHeap = *heap;
        let ghost made1: bool = old(heap).entry(root@, l4_index as int) == 0;
        let ghost slot3: Set<(u64, int)> = set![(l3_table@, l3_index as int)];
        proof {
            lemma_table_flags(old(heap).entry(root@, l4_index as int));
            assert(heap1.allocated(l3_table@) && heap1.allocated(root@));
            assert(heap1.entry(root@, l4_index as int) == (PRESENT | WRITABLE) | l3_table@);
            assert(made1 ==> heap1.entry(l3_table@, l3_index as int) == 0);
            assert(!made1 ==> old(self).owns(l3_table@) && heap1.entry(
                l3_table@,
                l3_index as int,
            ) == old(heap).entry(l3_table@, l3_index as int));
            assert(match old(self).level3_table(old(heap), vaddr@) {
                Some(t) => t == l3_table@,
                None => !old(self).owns(l3_table@),
            });
        }

        let step: Option<PhysAddr> = self.setup_next_table(heap, l3_table, l3_index);
        proof {
            lemma_grown_twice(old(self), old(heap), &table1, &heap1, self, heap);
            lemma_kept_chain(old(self), old(heap), &table1, &heap1, self, heap, slot4, slot3);
            assert(heap.allocated(root@));
            assert(heap.entry(root@, l4_index as int) == heap1.entry(root@, l4_index as int));
            assert(child_table(heap, root@, l4_index as int) == Some(l3_table@));
            lemma_kept_off_way(self, heap, old(self), old(heap), slot4.union(slot3), vaddr@);
        }
        let l2_table: PhysAddr = match step {
            Some(table) => table,
            None => {
                proof {
                    heap.lemma_same_memory(&heap1);
                    assert(heap.entry(l3_table@, l3_index as int) == 0);
                    assert(self.level2_table(heap, vaddr@) is None);
                    assert(old(self).level2_table(old(heap), vaddr@) is None);
                    assert(self.table_grown(heap, old(self), old(heap), vaddr@, 3));
                    assert(self.table_grown(heap, old(self), old(heap), vaddr@, 2));
                    assert(self.table_grown(heap, old(self), old(heap), vaddr@, 1));
                }
                return None;
            },
        };
        let ghost table2: PageTable = *self;
        let ghost heap2: KernelHeap = *heap;
        let ghost made2: bool = heap1.entry(l3_table@, l3_index as int) == 0;
        let ghost slot2: Set<(u64, int)> = set![(l2_table@, l2_index as int)];
        proof {
            lemma_table_flags(heap1.entry(l3_table@, l3_index as int));
            assert(heap2.allocated(l2_table@) && heap2.allocated(l3_table@));
            assert(heap2.entry(l3_table@, l3_index as int) == (PRESENT | WRITABLE) | l2_table@);
            assert(made2 ==> heap2.entry(l2_table@, l2_index as int) == 0);
            if !made2 {
                assert(table1.owns(l2_table@));
                assert(old(self).owns(l2_table@)) by {
                    assert(old(heap).entry(l3_table@, l3_index as int) != 0);
                }
                assert(heap2.entry(l2_table@, l2_index as int) == heap1.entry(
                    l2_table@,
                    l2_index as int,
                ));
                assert(heap1.entry(l2_table@, l2_index as int) == old(heap).entry(
                    l2_table@,
                    l2_index as int,
                ));
            }
            assert(match old(self).level2_table(old(heap), vaddr@) {
                Some(t) => t == l2_table@,
                None => !old(self).owns(l2_table@),
            });
        }

        let step: Option<PhysAddr> = self.setup_next_table(heap, l2_table, l2_index);
        proof {
            lemma_grown_twice(old(self), old(heap), &table2, &heap2, self, heap);
            lemma_kept_chain(
                old(self),
                old(heap),
                &table2,
                &heap2,
                self,
                heap,
                slot4.union(slot3),
                slot2,
            );
            assert(heap.allocated(l3_table@) && heap.allocated(root@));
            assert(heap.entry(root@, l4_index as int) == heap2.entry(root@, l4_index as int));
            assert(heap.entry(l3_table@, l3_index as int) == heap2.entry(
                l3_table@,
                l3_index as int,
            ));
            assert(child_table(heap, root@, l4_index as int) == Some(l3_table@));
            assert(child_table(heap, l3_table@, l3_index as int) == Some(l2_table@));
            lemma_kept_off_way(
                self,
                heap,
                old(self),
                old(heap),
                slot4.union(slot3).union(slot2),
                vaddr@,
            );
        }
        let l1_table: PhysAddr = match step {
            Some(table) => table,
            None => {
                proof {
                    heap.lemma_same_memory(&heap2);
                    assert(heap.entry(l2_table@, l2_index as int) == 0);
                    assert(self.level2_table(heap, vaddr@) == Some(l2_table@));
                    assert(self.level1_table(heap, vaddr@) is None);
                    assert(old(self).level1_table(old(heap), vaddr@) is None);
                    assert(self.table_grown(heap, old(self), old(heap), vaddr@, 3));
                    assert(self.table_grown(heap, old(self), old(heap), vaddr@, 2));
                    assert(self.table_grown(heap, old(self), old(heap), vaddr@, 1));
                }
                return None;
            },
        };
        proof {
            lemma_table_flags(heap2.entry(l2_table@, l2_index as int));
            assert(heap.allocated(l1_table@) && heap.allocated(l2_table@));
            assert(heap.entry(l2_table@, l2_index as int) == (PRESENT | WRITABLE) | l1_table@);
            assert(child_table(heap, l2_table@, l2_index as int) == Some(l1_table@));
            assert(match old(self).level1_table(old(heap), vaddr@) {
                Some(t) => t == l1_table@,
                None => !old(self).owns(l1_table@),
            });
            assert(self.table_grown(heap, old(self), old(heap), vaddr@, 3));
            assert(self.table_grown(heap, old(self), old(heap), vaddr@, 2));
            assert(self.table_grown(heap, old(self), old(heap), vaddr@, 1));
        }
        Some(l1_table)
    }

    /// Get level 1 page table entry: a read-only walk down the four levels.
    /// `None` where a table is missing on the way.
    pub fn get_level1_pte(&self, heap: &KernelHeap, vaddr: VirtAddr) -> (r: Option<PTE>)
        requires
            heap.wf(),
        ensures
            r is Some <==> self.level1_entry(heap, vaddr@) is Some,
            r matches Some(pte) ==> self.level1_entry(heap, vaddr@) == Some(pte@),
    {
        let l3_table: PhysAddr = match Self::next_table(heap, self.base, vaddr.l4_index()) {
            Some(table) => table,
            None => { return None; },
        };
        let l2_table: PhysAddr = match Self::next_table(heap, l3_table, vaddr.l3_index()) {
            Some(table) => table,
            None => { return None; },
        };
        let l1_table: PhysAddr = match Self::next_table(heap, l2_table, vaddr.l2_index()) {
            Some(table) => table,
            None => { return None; },
        };
        heap.read_entry(l1_table, vaddr.l1_index())
    }

    /// Translate `vaddr`: the physical address in its level-1 entry. `None`
    /// where the page is not mapped: a table is missing on the way or the
    /// level-1 entry is unused.
    pub fn retrieve(&self, heap: &KernelHeap, vaddr: VirtAddr) -> (r: Option<PhysAddr>)
        requires
            heap.wf(),
        ensures
            r is Some <==> self.translation(heap, vaddr@) is Some,
            r matches Some(paddr) ==> self.translation(heap, vaddr@) == Some(paddr@),
    {
        proof {
            reveal(PageTable::mapping);
        }
        match self.get_level1_pte(heap, vaddr) {
            None => None,
            Some(pte) => {
                if pte.is_unused() {
                    None
                } else {
                    Some(pte.phys_addr())
                }
            },
        }
    }

    /// Map physical to virtual address in this page table: walk down the
    /// four levels on the way of `vaddr`, create the tables that are
    /// missing, and write the entry for `paddr` with `flags` into the
    /// level-1 table. A page that is mapped already is mapped anew. The
    /// request is refused where `vaddr` or `paddr` is not page aligned,
    /// `paddr` is not below 2^52 or `flags` reach into the address field;
    /// nothing changes then. It fails where the allocator has fewer frames
    /// than tables are missing: the tables created up to then stay, and no
    /// page is mapped otherwise than before.
    pub fn map(
        &mut self,
        heap: &mut KernelHeap,
        vaddr: VirtAddr,
        paddr: PhysAddr,
        flags: PTEFlags,
    ) -> (r: Result<(), MapError>)
        requires
            old(self).wf(old(heap)),
        ensures
            final(self).wf(final(heap)),
            final(self).grown_from(final(heap), old(self), old(heap)),
            map_fault(vaddr@, paddr@, flags@) matches Some(e) ==> {
                &&& r == Err::<(), MapError>(e)
                &&& final(heap).same_frames(old(heap))
                &&& final(heap).same_memory(old(heap))
            },
            map_fault(vaddr@, paddr@, flags@) is None ==> {
                &&& r is Ok <==> old(self).missing_tables(old(heap), vaddr@)
                    <= old(heap).available()
                &&& r is Err ==> r == Err::<(), MapError>(MapError::OutOfFrames)
                &&& r is Err ==> final(heap).available() == 0
            },
            r is Err ==> final(self).same_mappings(final(heap), old(self), old(heap)),
            final(self).way_grown(final(heap), old(self), old(heap), vaddr@),
            final(self).off_way_kept(final(heap), old(self), old(heap), vaddr@),
            r is Ok ==> {
                &&& final(self).way_is_set(final(heap), vaddr@)
                &&& final(self).level1_entry(final(heap), vaddr@) == Some(flags@ | paddr@)
                &&& final(self).differs_at(
                    final(heap),
                    old(self),
                    old(heap),
                    vaddr@,
                    flags@ | paddr@,
                )
                &&& (flags@ | paddr@) & PHYS_ADDR_MASK == paddr@
                &&& (flags@ | paddr@) & FLAGS_MASK == flags@
                &&& (paddr@ != 0 || flags@ != 0) ==> final(self).translation(final(heap), vaddr@)
                    == Some(paddr@)
                &&& final(heap).available() == old(heap).available() - old(self).missing_tables(
                    old(heap),
                    vaddr@,
                )
            },
    {
        proof {
            assert forall|t: u64| #[trigger] old(self).owns(t) implies old(heap).allocated(t) by {}
        }
        if vaddr.offset() != 0 {
            return Err(MapError::UnalignedVirtAddr);
        }
        if paddr.to_u64() & FLAGS_MASK != 0 {
            return Err(MapError::InvalidPhysAddr);
        }
        if flags.as_u64() & PHYS_ADDR_MASK != 0 {
            return Err(MapError::InvalidFlags);
        }
        let l1_table: PhysAddr = match self.setup_level1_table(heap, vaddr) {
            Some(table) => table,
            None => { return Err(MapError::OutOfFrames); },
        };
        let l1_index: usize = vaddr.l1_index();
        let ghost heap3: KernelHeap = *heap;
        let pte: PTE = PTE::new_page_entry(paddr, flags);
        proof {
            assert(heap3.allocated(l1_table@));
        }
        heap.write_entry(l1_table, l1_index, pte);
        proof {
            let i4: int = level_index(vaddr@, 4) as int;
            let i3: int = level_index(vaddr@, 3) as int;
            let i2: int = level_index(vaddr@, 2) as int;
            let l3: u64 = self.level3_table(&heap3, vaddr@)->0;
            let l2: u64 = self.level2_table(&heap3, vaddr@)->0;
            lemma_level_index_bound(vaddr@);
            lemma_entry_round_trip(paddr@, flags@);
            lemma_leaf_write(self, &heap3, heap, l1_table@, pte@, vaddr@, vaddr@);
            assert forall|w: u64| same_page(vaddr@, w) implies #[trigger] self.mapping(heap, w)
                == flags@ | paddr@ by {
                lemma_leaf_write(self, &heap3, heap, l1_table@, pte@, vaddr@, w);
            }
            assert forall|w: u64| !same_page(vaddr@, w) implies #[trigger] self.mapping(heap, w)
                == old(self).mapping(old(heap), w) by {
                lemma_leaf_write(self, &heap3, heap, l1_table@, pte@, vaddr@, w);
            }
            // The tables above the level-1 table are as the walk left them.
            lemma_way_owned(self, &heap3, vaddr@);
            assert(heap.entry(self.root(), i4) == heap3.entry(self.root(), i4));
            assert(heap.entry(l3, i3) == heap3.entry(l3, i3));
            assert(heap.entry(l2, i2) == heap3.entry(l2, i2));
            assert(self.level3_table(heap, vaddr@) == Some(l3));
            assert(self.level2_table(heap, vaddr@) == Some(l2));
            assert(self.level1_table(heap, vaddr@) == Some(l1_table@));
            assert forall|level: int| 1 <= level <= 3 implies #[trigger] self.table_grown(
                heap,
                old(self),
                old(heap),
                vaddr@,
                level,
            ) by {
                assert(self.table_grown(&heap3, old(self), old(heap), vaddr@, level));
                assert(self.table_on_way(heap, vaddr@, level) == self.table_on_way(
                    &heap3,
                    vaddr@,
                    level,
                ));
            }
            assert forall|g: u64| #[trigger]
                heap.allocated(g) <==> old(heap).allocated(g) || (self.owns(g) && !old(self).owns(
                    g,
                )) by {
                assert(heap.allocated(g) == heap3.allocated(g));
            }
            assert forall|g: u64| #[trigger] heap.has_frame(g) && !old(heap).has_frame(g)
                implies self.owns(g) && !old(self).owns(g) by {
                assert(heap3.has_frame(g));
            }
            assert forall|g: u64, j: int|
                old(heap).has_frame(g) && !self.owns(g) && 0 <= j < 512
                    implies #[trigger] heap.entry(g, j) == old(heap).entry(g, j) by {
                assert(heap3.has_frame(g));
                assert(heap3.entry(g, j) == old(heap).entry(g, j));
            }
            assert forall|t: u64, i: int|
                heap.has_frame(t) && 0 <= i < 512 && !self.on_way(heap, vaddr@, t, i)
                    implies #[trigger] heap.entry(t, i) == (if self.owns(t) && !old(self).owns(t) {
                0
            } else {
                old(heap).entry(t, i)
            }) by {
                assert(heap3.has_frame(t));
                assert(!self.on_way(&heap3, vaddr@, t, i));
                assert(heap.entry(t, i) == heap3.entry(t, i));
            }
        }
        Ok(())
    }

    /// Unmap page: the level-1 entry of `vaddr` is set unused. Where a
    /// table is missing on the way there is no such entry, and nothing
    /// changes; nothing changes either where the entry is unused already.
    /// No table is given back to the allocator, nor the page's frame.
    pub fn unmap(&mut self, heap: &mut KernelHeap, vaddr: VirtAddr)
        requires
            old(self).wf(old(heap)),
        ensures
            final(self).wf(final(heap)),
            final(self).grown_from(final(heap), old(self), old(heap)),
            forall|t: u64| final(self).owns(t) == old(self).owns(t),
            final(heap).same_frames(old(heap)),
            old(self).mapping(old(heap), vaddr@) == 0 ==> final(heap).same_memory(old(heap)),
            final(self).differs_at(final(heap), old(self), old(heap), vaddr@, 0),
            match old(self).level1_table(old(heap), vaddr@) {
                Some(l1) => final(heap).same_entries_but(
                    old(heap),
                    l1,
                    level_index(vaddr@, 1) as int,
                ),
                None => final(heap).same_memory(old(heap)),
            },
            final(self).translation(final(heap), vaddr@) is None,
            final(self).level1_entry(final(heap), vaddr@) == (if old(self).level1_entry(
                old(heap),
                vaddr@,
            ) is Some {
                Some(0u64)
            } else {
                None
            }),
    {
        proof {
            reveal(PageTable::mapping);
            lemma_same_indices_same_page(vaddr@, vaddr@);
            assert forall|w: u64|
                same_page(vaddr@, w) implies #[trigger] self.mapping(
                heap,
                w,
            ) == self.mapping(heap, vaddr@) by {
                lemma_same_indices_same_page(w, vaddr@);
            }
        }
        let l3_table: PhysAddr = match Self::next_table(heap, self.base, vaddr.l4_index()) {
            Some(table) => table,
            None => { return ; },
        };
        let l2_table: PhysAddr = match Self::next_table(heap, l3_table, vaddr.l3_index()) {
            Some(table) => table,
            None => { return ; },
        };
        let l1_table: PhysAddr = match Self::next_table(heap, l2_table, vaddr.l2_index()) {
            Some(table) => table,
            None => { return ; },
        };
        let l1_index: usize = vaddr.l1_index();
        proof {
            lemma_level1_table_owned(self, heap, vaddr@);
        }
        let mut l1_pte: PTE = match heap.read_entry(l1_table, l1_index) {
            Some(pte) => pte,
            None => { return ; },
        };
        l1_pte.set_unused();
        heap.write_entry(l1_table, l1_index, l1_pte);
        proof {
            lemma_leaf_write(self, old(heap), heap, l1_table@, 0, vaddr@, vaddr@);
            assert forall|w: u64|
                same_page(vaddr@, w) implies #[trigger] self.mapping(
                heap,
                w,
            ) == 0 by {
                lemma_leaf_write(self, old(heap), heap, l1_table@, 0, vaddr@, w);
            }
            assert forall|w: u64|
                !same_page(vaddr@, w) implies #[trigger] self.mapping(
                heap,
                w,
            ) == old(self).mapping(old(heap), w) by {
                lemma_leaf_write(self, old(heap), heap, l1_table@, 0, vaddr@, w);
            }
            if old(self).mapping(old(heap), vaddr@) == 0 {
                assert(heap.memory()@ =~= old(heap).memory()@);
            }
        }
    }

    /// Map the pages of the first `pages` page-size steps from `vstart` to
    /// the same steps from `pstart`, one after the other. The first step
    /// for which the allocator has no frame ends it: the steps before it
    /// stay mapped.
    fn map_steps(
        &mut self,
        heap: &mut KernelHeap,
        vstart: u64,
        pstart: u64,
        flags: PTEFlags,
        pages: u64,
    ) -> (r: Result<(), MapError>)
        requires
            old(self).wf(old(heap)),
            page_offset(vstart) == 0,
            is_frame_addr(pstart),
            is_flag_bits(flags@),
            1 <= pages,
            4096 * pages <= REGION_MAX,
            vstart + 4096 * pages <= u64::MAX + 1,
            pstart + 4096 * pages <= MAX_PHYS_ADDR,
        ensures
            final(self).wf(final(heap)),
            final(self).grown_from(final(heap), old(self), old(heap)),
            r is Ok <==> old(self).tables_for_region(old(heap), vstart, pages as int)
                <= old(heap).available(),
            r is Ok ==> final(heap).available() + old(self).tables_for_region(
                old(heap),
                vstart,
                pages as int,
            ) == old(heap).available(),
            r is Err ==> r == Err::<(), MapError>(MapError::OutOfFrames),
            r is Err ==> final(heap).available() == 0,
            exists|k: int|
                0 <= k <= pages && (k == pages <==> r is Ok) && #[trigger] final(self).mapped_up_to(
                    final(heap),
                    old(self),
                    old(heap),
                    vstart,
                    pstart,
                    flags@,
                    k,
                ),
            final(self).same_outside_steps(
                final(heap),
                old(self),
                old(heap),
                vstart,
                pages as int,
            ),
            r is Ok ==> forall|i: int|
                0 <= i < pages && (flags@ != 0 || step_addr(pstart, i) != 0)
                    ==> final(self).translation(final(heap), #[trigger] step_addr(vstart, i))
                    == Some(step_addr(pstart, i)),
    {
        let span: u64 = 4096 * pages;
        let ghost mut k: int = 0;
        let mut step: u64 = 0;
        proof {
            lemma_frame_addr_aligned(pstart);
            lemma_offset_zero(vstart);
            assert forall|t: u64| #[trigger] old(self).owns(t) implies old(heap).allocated(t) by {}
            assert forall|w: u64| #[trigger]
                self.mapping(heap, w) == old(self).mapping(old(heap), w) by {}
            assert(self.tables_grown(heap, old(self), old(heap), vstart, 0));
        }
        while step < span
            invariant
                span == 4096 * pages,
                0 < span <= REGION_MAX,
                0 <= k <= pages,
                step == 4096 * k,
                page_offset(vstart) == 0,
                vstart % 4096 == 0,
                pstart % 4096 == 0,
                vstart + span <= u64::MAX + 1,
                pstart + span <= MAX_PHYS_ADDR,
                is_flag_bits(flags@),
                self.wf(heap),
                self.grown_from(heap, old(self), old(heap)),
                heap.available() + old(self).tables_for_region(old(heap), vstart, k)
                    == old(heap).available(),
                self.tables_grown(heap, old(self), old(heap), vstart, k),
                self.mapped_up_to(heap, old(self), old(heap), vstart, pstart, flags@, k),
            decreases span - step,
        {
            let virt_step: VirtAddr = VirtAddr::new(vstart + step);
            let phys_step: PhysAddr = PhysAddr::new(pstart + step);
            let ghost table0: PageTable = *self;
            let ghost heap0: KernelHeap = *heap;
            proof {
                lemma_offset_zero(virt_step@);
                lemma_frame_addr_aligned(phys_step@);
                assert(map_fault(virt_step@, phys_step@, flags@) is None);
                lemma_step_needs(old(self), old(heap), &table0, &heap0, vstart, k);
                lemma_region_tables_monotone(old(self), old(heap), vstart, k + 1, pages as int);
                assert(virt_step@ == step_addr(vstart, k));
                assert(phys_step@ == step_addr(pstart, k));
            }
            let mapped: Result<(), MapError> = self.map(heap, virt_step, phys_step, flags);
            proof {
                lemma_grown_twice(old(self), old(heap), &table0, &heap0, self, heap);
            }
            match mapped {
                Ok(()) => {},
                Err(e) => {
                    proof {
                        lemma_region_kept(
                            old(self),
                            old(heap),
                            &table0,
                            &heap0,
                            self,
                            heap,
                            vstart,
                            pstart,
                            flags@,
                            k,
                        );
                        lemma_region_partial(
                            old(self),
                            old(heap),
                            self,
                            heap,
                            vstart,
                            pstart,
                            flags@,
                            k,
                            pages as int,
                        );
                    }
                    return Err(e);
                },
            }
            proof {
                lemma_region_tables_step(
                    old(self),
                    old(heap),
                    &table0,
                    &heap0,
                    self,
                    heap,
                    vstart,
                    k,
                );
                lemma_region_step(
                    old(self),
                    old(heap),
                    &table0,
                    &heap0,
                    self,
                    heap,
                    vstart,
                    pstart,
                    flags@,
                    k,
                );
                k = k + 1;
            }
            step = step + 4096;
        }
        proof {
            lemma_region_translates(self, heap, vstart, pstart, flags@, pages as int);
        }
        Ok(())
    }

    /// The first fault of a request to map a region that is not empty,
    /// where it has one.
    fn check_region(virt_start: VirtAddr, phys_start: PhysAddr, size: usize, flags: PTEFlags) -> (r:
        Option<MapError>)
        requires
            size > 0,
        ensures
            r == region_fault(virt_start@, phys_start@, size, flags@),
    {
        let vstart: u64 = virt_start.to_u64();
        let pstart: u64 = phys_start.to_u64();
        if virt_start.offset() != 0 {
            return Some(MapError::UnalignedVirtAddr);
        }
        if pstart & FLAGS_MASK != 0 {
            return Some(MapError::InvalidPhysAddr);
        }
        if flags.as_u64() & PHYS_ADDR_MASK != 0 {
            return Some(MapError::InvalidFlags);
        }
        if size as u64 > REGION_MAX {
            return Some(MapError::RegionTooLarge);
        }
        let span: u64 = (size as u64 + 4095) / 4096 * 4096;
        proof {
            lemma_frame_addr_aligned(pstart);
        }
        if u64::MAX - vstart < span - 1 || MAX_PHYS_ADDR - pstart < span {
            return Some(MapError::RegionTooLarge);
        }
        None
    }

    /// Map a physical region [phys_start, phys_start + size) to [virt_start,
    /// virt_start + size), page by page from the first. An empty region
    /// maps nothing. The request is refused, and nothing changes, where an
    /// address is not page aligned, the flags reach into the address field
    /// or the region is too large. It fails where the allocator has fewer
    /// frames than the region needs tables made: the pages mapped up to then
    /// stay mapped, every other page is as it was, and no frame is left.
    pub fn map_region(
        &mut self,
        heap: &mut KernelHeap,
        virt_start: VirtAddr,
        phys_start: PhysAddr,
        size: usize,
        flags: PTEFlags,
    ) -> (r: Result<(), MapError>)
        requires
            old(self).wf(old(heap)),
        ensures
            final(self).wf(final(heap)),
            final(self).grown_from(final(heap), old(self), old(heap)),
            size == 0 ==> r is Ok,
            size > 0 ==> match region_fault(virt_start@, phys_start@, size, flags@) {
                Some(e) => r == Err::<(), MapError>(e),
                None => {
                    &&& r is Ok <==> old(self).tables_for_region(
                        old(heap),
                        virt_start@,
                        region_pages(size as int),
                    ) <= old(heap).available()
                    &&& r is Ok ==> final(heap).available() + old(self).tables_for_region(
                        old(heap),
                        virt_start@,
                        region_pages(size as int),
                    ) == old(heap).available()
                    &&& r is Err ==> r == Err::<(), MapError>(MapError::OutOfFrames)
                    &&& r is Err ==> final(heap).available() == 0
                },
            },
            size == 0 || region_fault(virt_start@, phys_start@, size, flags@) is Some ==> {
                &&& final(heap).same_frames(old(heap))
                &&& final(heap).same_memory(old(heap))
            },
            exists|k: int|
                0 <= k <= region_pages(size as int) && (k == region_pages(size as int) <==> r is Ok)
                    && #[trigger] final(self).mapped_up_to(
                    final(heap),
                    old(self),
                    old(heap),
                    virt_start@,
                    phys_start@,
                    flags@,
                    k,
                ),
            final(self).same_outside_steps(
                final(heap),
                old(self),
                old(heap),
                virt_start@,
                region_pages(size as int),
            ),
            r is Ok ==> forall|i: int|
                0 <= i < region_pages(size as int) && (flags@ != 0 || step_addr(phys_start@, i)
                    != 0) ==> final(self).translation(
                    final(heap),
                    #[trigger] step_addr(virt_start@, i),
                ) == Some(step_addr(phys_start@, i)),
    {
        proof {
            assert forall|w: u64| #[trigger]
                self.mapping(heap, w) == old(self).mapping(old(heap), w) by {}
            assert(self.mapped_up_to(
                heap,
                old(self),
                old(heap),
                virt_start@,
                phys_start@,
                flags@,
                0,
            ));
        }
        if size == 0 {
            return Ok(());
        }
        if let Some(fault) = Self::check_region(virt_start, phys_start, size, flags) {
            return Err(fault);
        }
        let pages: u64 = (size as u64 + 4095) / 4096;
        self.map_steps(heap, virt_start.to_u64(), phys_start.to_u64(), flags, pages)
    }

    /// Unmap a virtual region [virt_start, virt_start + size): the level-1
    /// entry of the page of each page-size step from `virt_start` is set
    /// unused, where there is one. Every other page is as it was.
    pub fn unmap_region(&mut self, heap: &mut KernelHeap, virt_start: VirtAddr, size: usize)
        requires
            old(self).wf(old(heap)),
            virt_start@ + size <= u64::MAX + 1,
        ensures
            final(self).wf(final(heap)),
            final(self).grown_from(final(heap), old(self), old(heap)),
            forall|t: u64| final(self).owns(t) == old(self).owns(t),
            final(heap).same_frames(old(heap)),
            forall|w: u64|
                steps_touch(virt_start@, region_pages(size as int), w)
                    ==> #[trigger] final(self).mapping(final(heap), w) == 0,
            final(self).same_outside_steps(
                final(heap),
                old(self),
                old(heap),
                virt_start@,
                region_pages(size as int),
            ),
    {
        let vstart: u64 = virt_start.to_u64();
        let bytes: u64 = size as u64;
        let ghost pages: int = region_pages(size as int);
        let ghost mut k: int = 0;
        let mut step: u64 = 0;
        proof {
            assert forall|t: u64| #[trigger] old(self).owns(t) implies old(heap).allocated(t) by {}
            assert forall|w: u64| #[trigger]
                self.mapping(heap, w) == old(self).mapping(old(heap), w) by {}
        }
        while step < bytes
            invariant
                vstart == virt_start@,
                bytes == size,
                pages == region_pages(size as int),
                vstart + bytes <= u64::MAX + 1,
                0 <= k <= pages,
                step == 4096 * k,
                step >= bytes ==> k == pages,
                self.wf(heap),
                self.grown_from(heap, old(self), old(heap)),
                forall|t: u64| self.owns(t) == old(self).owns(t),
                heap.same_frames(old(heap)),
                forall|w: u64| steps_touch(vstart, k, w) ==> #[trigger] self.mapping(heap, w) == 0,
                self.same_outside_steps(heap, old(self), old(heap), vstart, k),
            decreases bytes - step,
        {
            let virt_step: VirtAddr = VirtAddr::new(vstart + step);
            let ghost table0: PageTable = *self;
            let ghost heap0: KernelHeap = *heap;
            self.unmap(heap, virt_step);
            proof {
                lemma_grown_twice(old(self), old(heap), &table0, &heap0, self, heap);
                assert(virt_step@ == step_addr(vstart, k));
                assert forall|w: u64| steps_touch(vstart, k + 1, w) implies #[trigger] self.mapping(
                    heap,
                    w,
                ) == 0 by {
                    if !same_page(virt_step@, w) {
                        let i: int = choose|i: int|
                            0 <= i < k + 1 && same_page(#[trigger] step_addr(vstart, i), w);
                        assert(same_page(step_addr(vstart, i), w));
                        assert(steps_touch(vstart, k, w));
                        assert(table0.mapping(&heap0, w) == 0);
                    }
                }
                assert forall|w: u64|
                    !steps_touch(vstart, k + 1, w) implies #[trigger] self.mapping(heap, w)
                    == old(self).mapping(old(heap), w) by {
                    if same_page(step_addr(vstart, k), w) {
                        assert(steps_touch(vstart, k + 1, w));
                    }
                    if steps_touch(vstart, k, w) {
                        let i: int = choose|i: int|
                            0 <= i < k && same_page(#[trigger] step_addr(vstart, i), w);
                        assert(same_page(step_addr(vstart, i), w));
                        assert(steps_touch(vstart, k + 1, w));
                    }
                    assert(table0.mapping(&heap0, w) == old(self).mapping(old(heap), w));
                }
                k = k + 1;
            }
            if bytes - step <= 4096 {
                return ;
            }
            step = step + 4096;
        }
    }
}

/// A tree outlives whatever happens to the heap beside it: where its tables
/// are still allocated and hold the words that they held, it is a tree
/// still, and holds for every page what it held.
pub proof fn lemma_tree_survives(table: &PageTable, heap0: &KernelHeap, heap1: &KernelHeap)
    requires
        table.wf(heap0),
        heap1.wf(),
        forall|t: u64| #[trigger] table.owns(t) ==> heap1.allocated(t),
        forall|t: u64, j: int|
            table.owns(t) && 0 <= j < 512 ==> #[trigger] heap1.entry(t, j) == heap0.entry(t, j),
    ensures
        table.wf(heap1),
        table.same_mappings(heap1, table, heap0),
{
    assert forall|t: u64, i: int|
        table.owns(t) && table.level_of(t) >= 2 && 0 <= i < 512 && #[trigger] heap1.entry(t, i)
            != 0 implies {
        let c: u64 = heap1.entry(t, i) & PHYS_ADDR_MASK;
        &&& table.owns(c)
        &&& table.level_of(c) == table.level_of(t) - 1
        &&& table.parents().dom().contains(c)
        &&& table.parents()[c] == (t, i)
    } by {
        assert(heap1.entry(t, i) == heap0.entry(t, i));
    }
    assert forall|w: u64| #[trigger] table.mapping(heap1, w) == table.mapping(heap0, w) by {
        reveal(PageTable::mapping);
        lemma_level_index_bound(w);
        let root: u64 = table.root();
        let j4: int = level_index(w, 4) as int;
        let j3: int = level_index(w, 3) as int;
        let j2: int = level_index(w, 2) as int;
        let j1: int = level_index(w, 1) as int;
        assert(table.owns(root) && heap0.allocated(root) && heap1.allocated(root));
        assert(heap1.entry(root, j4) == heap0.entry(root, j4));
        if child_table(heap0, root, j4) is Some {
            let b3: u64 = child_table(heap0, root, j4)->0;
            assert(heap0.entry(root, j4) != 0);
            assert(table.owns(b3) && table.level_of(b3) == 3);
            assert(heap0.allocated(b3) && heap1.allocated(b3));
            assert(heap1.entry(b3, j3) == heap0.entry(b3, j3));
            if child_table(heap0, b3, j3) is Some {
                let b2: u64 = child_table(heap0, b3, j3)->0;
                assert(heap0.entry(b3, j3) != 0);
                assert(table.owns(b2) && table.level_of(b2) == 2);
                assert(heap0.allocated(b2) && heap1.allocated(b2));
                assert(heap1.entry(b2, j2) == heap0.entry(b2, j2));
                if child_table(heap0, b2, j2) is Some {
                    let b1: u64 = child_table(heap0, b2, j2)->0;
                    assert(heap0.entry(b2, j2) != 0);
                    assert(table.owns(b1) && table.level_of(b1) == 1);
                    assert(heap0.allocated(b1) && heap1.allocated(b1));
                    assert(heap1.entry(b1, j1) == heap0.entry(b1, j1));
                }
            }
        }
    }
}

/// A tree outlives the growth of a tree beside it: it is a tree still,
/// holds for every page what it held, and shares no table with the tree
/// that has grown.
pub proof fn lemma_beside_grown(
    other: &PageTable,
    before: &PageTable,
    heap0: &KernelHeap,
    grown: &PageTable,
    heap1: &KernelHeap,
)
    requires
        other.wf(heap0),
        heap1.wf(),
        grown.grown_from(heap1, before, heap0),
        other.beside(before),
    ensures
        other.wf(heap1),
        other.same_mappings(heap1, other, heap0),
        other.beside(grown),
{
    assert forall|t: u64| #[trigger] other.owns(t) implies !grown.owns(t) by {
        assert(heap0.allocated(t));
        assert(!before.owns(t));
    }
    assert forall|t: u64| #[trigger] other.owns(t) implies heap1.allocated(t) by {
        assert(heap0.allocated(t));
    }
    assert forall|t: u64, j: int| other.owns(t) && 0 <= j < 512 implies #[trigger] heap1.entry(
        t,
        j,
    ) == heap0.entry(t, j) by {
        assert(heap0.allocated(t));
        assert(!grown.owns(t));
    }
    lemma_tree_survives(other, heap0, heap1);
}

/// A tree outlives the making of a new tree beside it: it is a tree still,
/// holds for every page what it held, and shares no table with the new
/// tree.
pub proof fn lemma_beside_fresh(
    other: &PageTable,
    heap0: &KernelHeap,
    fresh: &PageTable,
    heap1: &KernelHeap,
)
    requires
        other.wf(heap0),
        heap1.wf(),
        fresh.fresh_in(heap1, heap0),
    ensures
        other.wf(heap1),
        other.same_mappings(heap1, other, heap0),
        other.beside(fresh),
        fresh.beside(other),
{
    assert forall|t: u64| #[trigger] other.owns(t) implies !fresh.owns(t) by {
        assert(heap0.allocated(t));
    }
    assert forall|t: u64| #[trigger] fresh.owns(t) implies !other.owns(t) by {
        if other.owns(t) {
            assert(heap0.allocated(t));
        }
    }
    assert forall|t: u64| #[trigger] other.owns(t) implies heap1.allocated(t) by {
        assert(heap0.allocated(t));
    }
    assert forall|t: u64, j: int| other.owns(t) && 0 <= j < 512 implies #[trigger] heap1.entry(
        t,
        j,
    ) == heap0.entry(t, j) by {
        assert(heap0.allocated(t));
    }
    lemma_tree_survives(other, heap0, heap1);
}

/// A page that is mapped and then unmapped is not mapped, and every other
/// page is as it was before the two.
pub proof fn lemma_unmap_after_map(
    start: &PageTable,
    heap0: &KernelHeap,
    mapped: &PageTable,
    heap1: &KernelHeap,
    unmapped: &PageTable,
    heap2: &KernelHeap,
    vaddr: u64,
    bits: u64,
)
    requires
        mapped.differs_at(heap1, start, heap0, vaddr, bits),
        unmapped.differs_at(heap2, mapped, heap1, vaddr, 0),
    ensures
        unmapped.differs_at(heap2, start, heap0, vaddr, 0),
        unmapped.translation(heap2, vaddr) is None,
{
    assert(same_page(vaddr, vaddr));
    assert forall|w: u64| !same_page(vaddr, w) implies #[trigger] unmapped.mapping(heap2, w)
        == start.mapping(heap0, w) by {
        assert(mapped.mapping(heap1, w) == start.mapping(heap0, w));
    }
}

/// Unmapping a page twice leaves what unmapping it once leaves.
pub proof fn lemma_unmap_twice(
    start: &PageTable,
    heap0: &KernelHeap,
    once: &PageTable,
    heap1: &KernelHeap,
    twice: &PageTable,
    heap2: &KernelHeap,
    vaddr: u64,
)
    requires
        once.differs_at(heap1, start, heap0, vaddr, 0),
        twice.differs_at(heap2, once, heap1, vaddr, 0),
    ensures
        twice.same_mappings(heap2, once, heap1),
{
    assert forall|w: u64| #[trigger] twice.mapping(heap2, w) == once.mapping(heap1, w) by {
        if same_page(vaddr, w) {
            assert(once.mapping(heap1, w) == 0);
        }
    }
}

/// A page that is mapped twice is mapped as the second mapping says, and
/// every other page is as it was before the two.
pub proof fn lemma_map_again(
    start: &PageTable,
    heap0: &KernelHeap,
    first: &PageTable,
    heap1: &KernelHeap,
    second: &PageTable,
    heap2: &KernelHeap,
    vaddr: u64,
    first_bits: u64,
    second_bits: u64,
)
    requires
        first.differs_at(heap1, start, heap0, vaddr, first_bits),
        second.differs_at(heap2, first, heap1, vaddr, second_bits),
    ensures
        second.differs_at(heap2, start, heap0, vaddr, second_bits),
{
    assert forall|w: u64| !same_page(vaddr, w) implies #[trigger] second.mapping(heap2, w)
        == start.mapping(heap0, w) by {
        assert(first.mapping(heap1, w) == start.mapping(heap0, w));
    }
}

/// Each page-size step of a mapped region translates to the same step of
/// the physical region, unless it is mapped to address zero with no flag.
pub proof fn lemma_region_translates(
    table: &PageTable,
    heap: &KernelHeap,
    virt_start: u64,
    phys_start: u64,
    flags: u64,
    pages: int,
)
    requires
        table.maps_steps(heap, virt_start, phys_start, flags, pages),
        is_frame_addr(phys_start),
        is_flag_bits(flags),
        phys_start + 4096 * pages <= MAX_PHYS_ADDR,
    ensures
        forall|i: int|
            0 <= i < pages && (flags != 0 || step_addr(phys_start, i) != 0) ==> table.translation(
                heap,
                #[trigger] step_addr(virt_start, i),
            ) == Some(step_addr(phys_start, i)),
{
    lemma_frame_addr_aligned(phys_start);
    assert forall|i: int|
        0 <= i < pages && (flags != 0 || step_addr(phys_start, i) != 0) implies table.translation(
        heap,
        #[trigger] step_addr(virt_start, i),
    ) == Some(step_addr(phys_start, i)) by {
        let v: u64 = step_addr(virt_start, i);
        let p: u64 = step_addr(phys_start, i);
        lemma_frame_addr_aligned(p);
        lemma_entry_round_trip(p, flags);
        assert(same_page(v, v));
        assert(table.mapping(heap, v) == flags | p);
    }
}

} // verus!
