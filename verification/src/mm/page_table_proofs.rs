//! The proofs behind the page-table manager: what one step of a walk does
//! to the tree and to what it maps, and how the steps of a region add up.

use vstd::prelude::*;
use super::page_table_entry::{
    PRESENT, WRITABLE, PHYS_ADDR_MASK, PAGE_NUMBER_MASK, level_index, page_offset, is_frame_addr,
    lemma_entry_round_trip, lemma_frame_addr_aligned, lemma_level_index_bound,
    lemma_same_indices_same_page, lemma_table_flags, lemma_page_numbers, lemma_offset_zero,
    lemma_table_prefix, lemma_tables_in_a_row, same_table,
};
use super::page_table::{
    PageTable, REGION_MAX, child_table, same_page, step_addr, steps_share, steps_touch,
};
use super::phys_page::KernelHeap;

verus! {

/// What making sure of the table behind entry `index` of `table` does.
/// An entry in use keeps its address and gets the flags present and
/// writable. An unused entry gets a new table: a frame from the allocator,
/// filled with zeros, one level below `table`. Where there is no frame left
/// nothing changes and there is no result.
pub open spec fn table_step(
    before: &PageTable,
    heap0: &KernelHeap,
    after: &PageTable,
    heap1: &KernelHeap,
    table: u64,
    index: int,
    r: Option<u64>,
) -> bool {
    let e: u64 = heap0.entry(table, index);
    &&& after.root() == before.root()
    &&& heap1.base() == heap0.base()
    &&& heap1.limit() == heap0.limit()
    &&& heap1.top() >= heap0.top()
    &&& if e != 0 {
        &&& r == Some(e & PHYS_ADDR_MASK)
        &&& heap1.same_frames(heap0)
        &&& heap1.entry(table, index) == (e & PHYS_ADDR_MASK) | (PRESENT | WRITABLE)
        &&& heap1.same_entries_but(heap0, table, index)
        &&& after.levels() == before.levels()
        &&& after.parents() == before.parents()
    } else if heap0.available() > 0 {
        &&& r matches Some(f)
        &&& heap1.has_frame(f)
        &&& !heap0.allocated(f)
        &&& heap1.allocated(f)
        &&& forall|g: u64| g != f ==> heap1.allocated(g) == heap0.allocated(g)
        &&& heap1.available() == heap0.available() - 1
        &&& forall|t: u64| #[trigger] heap1.has_frame(t) ==> heap0.has_frame(t) || t == f
        &&& heap1.entry(table, index) == (PRESENT | WRITABLE) | f
        &&& forall|j: int| 0 <= j < 512 ==> #[trigger] heap1.entry(f, j) == 0
        &&& forall|g: u64, j: int|
            heap0.has_frame(g) && 0 <= j < 512 && g != f && !(g == table && j == index)
                ==> #[trigger] heap1.entry(g, j) == heap0.entry(g, j)
        &&& after.levels() == before.levels().insert(f, before.level_of(table) - 1)
        &&& after.parents() == before.parents().insert(f, (table, index))
    } else {
        &&& r is None
        &&& heap1.same_frames(heap0)
        &&& heap1.same_memory(heap0)
        &&& after.levels() == before.levels()
        &&& after.parents() == before.parents()
    }
}

/// The entry that points at a new table at the frame `f` of the heap is in
/// use, and its address field is `f`.
pub proof fn lemma_new_table_entry(heap: &KernelHeap, f: u64)
    requires
        heap.wf(),
        heap.has_frame(f),
    ensures
        ((PRESENT | WRITABLE) | f) & PHYS_ADDR_MASK == f,
        ((PRESENT | WRITABLE) | f) != 0,
        is_frame_addr(f),
{
    lemma_frame_addr_aligned(f);
    lemma_table_flags(0);
    lemma_entry_round_trip(f, PRESENT | WRITABLE);
}

/// Every word of `heap1` but those in `slots` is accounted for: it is zero
/// in a table that `after` has more than `before`, and as it was in `heap0`
/// in every other frame.
pub open spec fn kept_but(
    after: &PageTable,
    heap1: &KernelHeap,
    before: &PageTable,
    heap0: &KernelHeap,
    slots: Set<(u64, int)>,
) -> bool {
    forall|t: u64, i: int|
        heap1.has_frame(t) && 0 <= i < 512 && !slots.contains((t, i)) ==> #[trigger] heap1.entry(
            t,
            i,
        ) == (if after.owns(t) && !before.owns(t) {
            0
        } else {
            heap0.entry(t, i)
        })
}

/// What is accounted for over two changes in a row is accounted for over
/// both, but for the words that either leaves out.
pub proof fn lemma_kept_chain(
    first: &PageTable,
    heap0: &KernelHeap,
    second: &PageTable,
    heap1: &KernelHeap,
    third: &PageTable,
    heap2: &KernelHeap,
    slots1: Set<(u64, int)>,
    slots2: Set<(u64, int)>,
)
    requires
        second.grown_from(heap1, first, heap0),
        third.grown_from(heap2, second, heap1),
        kept_but(second, heap1, first, heap0, slots1),
        kept_but(third, heap2, second, heap1, slots2),
    ensures
        kept_but(third, heap2, first, heap0, slots1.union(slots2)),
{
    assert forall|t: u64, i: int|
        heap2.has_frame(t) && 0 <= i < 512 && !slots1.union(slots2).contains((t, i))
            implies #[trigger] heap2.entry(t, i) == (if third.owns(t) && !first.owns(t) {
        0
    } else {
        heap0.entry(t, i)
    }) by {
        assert(!slots1.contains((t, i)) && !slots2.contains((t, i)));
        if first.owns(t) {
            assert(second.owns(t));
        }
        if second.owns(t) {
            assert(third.owns(t));
        }
        if heap1.has_frame(t) {
            assert(heap1.entry(t, i) == (if second.owns(t) && !first.owns(t) {
                0
            } else {
                heap0.entry(t, i)
            }));
        } else {
            assert(third.owns(t) && !second.owns(t));
        }
    }
}

/// What is accounted for but for words on the way of an address is
/// accounted for off the way.
pub proof fn lemma_kept_off_way(
    after: &PageTable,
    heap1: &KernelHeap,
    before: &PageTable,
    heap0: &KernelHeap,
    slots: Set<(u64, int)>,
    vaddr: u64,
)
    requires
        kept_but(after, heap1, before, heap0, slots),
        forall|t: u64, i: int| #[trigger]
            slots.contains((t, i)) ==> after.on_way(heap1, vaddr, t, i),
    ensures
        after.off_way_kept(heap1, before, heap0, vaddr),
{
    assert forall|t: u64, i: int|
        heap1.has_frame(t) && 0 <= i < 512 && !after.on_way(heap1, vaddr, t, i)
            implies #[trigger] heap1.entry(t, i) == (if after.owns(t) && !before.owns(t) {
        0
    } else {
        heap0.entry(t, i)
    }) by {
        assert(!slots.contains((t, i)));
    }
}

/// A step at an entry of a table of the tree leaves a tree. The table that
/// it gives is the one that the entry then points at, one level below; the
/// tables of before are still tables, at their levels, and their other
/// entries are as they were.
pub proof fn lemma_step_keeps_tree(
    before: &PageTable,
    heap0: &KernelHeap,
    after: &PageTable,
    heap1: &KernelHeap,
    table: u64,
    index: int,
    r: Option<u64>,
)
    requires
        before.wf(heap0),
        heap1.wf(),
        before.owns(table),
        before.level_of(table) >= 2,
        0 <= index < 512,
        table_step(before, heap0, after, heap1, table, index, r),
    ensures
        after.wf(heap1),
        r matches Some(c) ==> {
            &&& child_table(heap1, table, index) == Some(c)
            &&& after.owns(c)
            &&& after.level_of(c) == before.level_of(table) - 1
        },
        forall|t: u64| #[trigger]
            before.owns(t) ==> after.owns(t) && after.level_of(t) == before.level_of(t),
        forall|t: u64, i: int|
            before.owns(t) && 0 <= i < 512 && !(t == table && i == index)
                ==> #[trigger] heap1.entry(t, i) == heap0.entry(t, i),
        after.grown_from(heap1, before, heap0),
        kept_but(after, heap1, before, heap0, set![(table, index)]),
{
    let e: u64 = heap0.entry(table, index);
    lemma_table_flags(e);
    assert(heap0.allocated(table));
    if e == 0 && heap0.available() <= 0 {
        heap1.lemma_same_memory(heap0);
    }
    assert forall|g: u64| #[trigger]
        heap1.allocated(g) <==> heap0.allocated(g) || (after.owns(g) && !before.owns(g)) by {
        if before.owns(g) {
            assert(heap0.allocated(g));
        }
    }
    assert forall|g: u64, j: int|
        heap0.has_frame(g) && !after.owns(g) && 0 <= j < 512 implies #[trigger] heap1.entry(g, j)
        == heap0.entry(g, j) by {}
    assert forall|t: u64, i: int|
        before.owns(t) && 0 <= i < 512 && !(t == table && i == index)
            implies #[trigger] heap1.entry(t, i) == heap0.entry(t, i) by {
        assert(heap0.allocated(t));
    }
    if e != 0 {
        let c: u64 = e & PHYS_ADDR_MASK;
        assert(before.owns(c) && before.level_of(c) == before.level_of(table) - 1);
        assert forall|t: u64| #[trigger] after.owns(t) implies heap1.allocated(t) && 1
            <= after.level_of(t) <= 4 by {
            assert(before.owns(t));
        }
        assert forall|t: u64, i: int|
            after.owns(t) && after.level_of(t) >= 2 && 0 <= i < 512 && #[trigger] heap1.entry(t, i)
                != 0 implies {
            let c: u64 = heap1.entry(t, i) & PHYS_ADDR_MASK;
            &&& after.owns(c)
            &&& after.level_of(c) == after.level_of(t) - 1
            &&& after.parents().dom().contains(c)
            &&& after.parents()[c] == (t, i)
        } by {
            assert(before.owns(t));
            if t == table && i == index {
            } else {
                assert(heap1.entry(t, i) == heap0.entry(t, i));
            }
        }
    } else if heap0.available() > 0 {
        let f: u64 = r->0;
        lemma_new_table_entry(heap1, f);
        assert(!before.owns(f)) by {
            if before.owns(f) {
                assert(heap0.allocated(f));
            }
        }
        assert forall|t: u64| #[trigger] after.owns(t) implies heap1.allocated(t) && 1
            <= after.level_of(t) <= 4 by {
            if t != f {
                assert(before.owns(t));
            }
        }
        assert forall|t: u64, i: int|
            after.owns(t) && after.level_of(t) >= 2 && 0 <= i < 512 && #[trigger] heap1.entry(t, i)
                != 0 implies {
            let c: u64 = heap1.entry(t, i) & PHYS_ADDR_MASK;
            &&& after.owns(c)
            &&& after.level_of(c) == after.level_of(t) - 1
            &&& after.parents().dom().contains(c)
            &&& after.parents()[c] == (t, i)
        } by {
            if t == f {
            } else if t == table && i == index {
            } else {
                assert(before.owns(t));
                assert(heap1.entry(t, i) == heap0.entry(t, i));
                let c: u64 = heap0.entry(t, i) & PHYS_ADDR_MASK;
                assert(before.owns(c));
                assert(c != f);
            }
        }
    } else {
        assert forall|t: u64| #[trigger] after.owns(t) implies heap1.allocated(t) && 1
            <= after.level_of(t) <= 4 by {
            assert(before.owns(t));
        }
        assert forall|t: u64, i: int|
            after.owns(t) && after.level_of(t) >= 2 && 0 <= i < 512 && #[trigger] heap1.entry(t, i)
                != 0 implies {
            let c: u64 = heap1.entry(t, i) & PHYS_ADDR_MASK;
            &&& after.owns(c)
            &&& after.level_of(c) == after.level_of(t) - 1
            &&& after.parents().dom().contains(c)
            &&& after.parents()[c] == (t, i)
        } by {
            assert(before.owns(t));
            assert(heap0.allocated(t));
            assert(heap1.entry(t, i) == heap0.entry(t, i));
        }
    }
}

/// A step at an entry of a table of the tree changes what the tree holds
/// for no page: a new table is empty, and an entry in use keeps its
/// address.
pub proof fn lemma_step_keeps_mappings(
    before: &PageTable,
    heap0: &KernelHeap,
    after: &PageTable,
    heap1: &KernelHeap,
    table: u64,
    index: int,
    r: Option<u64>,
    w: u64,
)
    requires
        before.wf(heap0),
        heap1.wf(),
        before.owns(table),
        before.level_of(table) >= 2,
        0 <= index < 512,
        table_step(before, heap0, after, heap1, table, index, r),
    ensures
        after.mapping(heap1, w) == before.mapping(heap0, w),
{
    reveal(PageTable::mapping);
    lemma_step_keeps_tree(before, heap0, after, heap1, table, index, r);
    lemma_level_index_bound(w);
    let e: u64 = heap0.entry(table, index);
    lemma_table_flags(e);
    let j4: int = level_index(w, 4) as int;
    let j3: int = level_index(w, 3) as int;
    let j2: int = level_index(w, 2) as int;
    let j1: int = level_index(w, 1) as int;
    let root: u64 = before.root();
    assert(before.owns(root) && heap0.allocated(root) && heap1.has_frame(root));
    let created: bool = e == 0 && heap0.available() > 0;
    if created {
        lemma_new_table_entry(heap1, r->0);
    }
    if e == 0 && !created {
        heap1.lemma_same_memory(heap0);
    }
    if table == root && index == j4 {
        if created {
            let f: u64 = r->0;
            assert(child_table(heap0, root, j4) is None);
            assert(child_table(heap1, root, j4) == Some(f));
            assert(heap1.entry(f, j3) == 0);
            assert(child_table(heap1, f, j3) is None);
        } else {
            assert(child_table(heap1, root, j4) == child_table(heap0, root, j4));
        }
    } else {
        assert(heap1.entry(root, j4) == heap0.entry(root, j4));
    }
    if !(table == root && index == j4 && created) {
        assert(child_table(heap1, root, j4) == child_table(heap0, root, j4));
        if child_table(heap0, root, j4) is Some {
            let l3: u64 = child_table(heap0, root, j4)->0;
            assert(heap0.entry(root, j4) != 0);
            assert(before.owns(l3) && before.level_of(l3) == 3);
            assert(heap0.allocated(l3) && heap1.has_frame(l3));
            if table == l3 && index == j3 {
                if created {
                    let f: u64 = r->0;
                    assert(child_table(heap0, l3, j3) is None);
                    assert(child_table(heap1, l3, j3) == Some(f));
                    assert(heap1.entry(f, j2) == 0);
                    assert(child_table(heap1, f, j2) is None);
                } else {
                    assert(child_table(heap1, l3, j3) == child_table(heap0, l3, j3));
                }
            } else {
                assert(heap1.entry(l3, j3) == heap0.entry(l3, j3));
            }
            if !(table == l3 && index == j3 && created) {
                assert(child_table(heap1, l3, j3) == child_table(heap0, l3, j3));
                if child_table(heap0, l3, j3) is Some {
                    let l2: u64 = child_table(heap0, l3, j3)->0;
                    assert(heap0.entry(l3, j3) != 0);
                    assert(before.owns(l2) && before.level_of(l2) == 2);
                    assert(heap0.allocated(l2) && heap1.has_frame(l2));
                    if table == l2 && index == j2 {
                        if created {
                            let f: u64 = r->0;
                            assert(child_table(heap0, l2, j2) is None);
                            assert(child_table(heap1, l2, j2) == Some(f));
                            assert(heap1.entry(f, j1) == 0);
                        } else {
                            assert(child_table(heap1, l2, j2) == child_table(heap0, l2, j2));
                        }
                    } else {
                        assert(heap1.entry(l2, j2) == heap0.entry(l2, j2));
                    }
                    if !(table == l2 && index == j2 && created) {
                        assert(child_table(heap1, l2, j2) == child_table(heap0, l2, j2));
                        if child_table(heap0, l2, j2) is Some {
                            let l1: u64 = child_table(heap0, l2, j2)->0;
                            assert(heap0.entry(l2, j2) != 0);
                            assert(before.owns(l1) && before.level_of(l1) == 1);
                            assert(heap0.allocated(l1) && heap1.has_frame(l1));
                            assert(heap1.entry(l1, j1) == heap0.entry(l1, j1));
                        }
                    }
                }
            }
        }
    }
}

/// The tables on the way of an address to its level-1 table are tables of
/// the tree, each at its level, and allocated frames of the heap.
pub proof fn lemma_way_owned(table: &PageTable, heap: &KernelHeap, vaddr: u64)
    requires
        table.wf(heap),
        table.level1_table(heap, vaddr) is Some,
    ensures
        table.level3_table(heap, vaddr) is Some,
        table.level2_table(heap, vaddr) is Some,
        table.owns(table.level3_table(heap, vaddr)->0),
        table.level_of(table.level3_table(heap, vaddr)->0) == 3,
        heap.allocated(table.level3_table(heap, vaddr)->0),
        table.owns(table.level2_table(heap, vaddr)->0),
        table.level_of(table.level2_table(heap, vaddr)->0) == 2,
        heap.allocated(table.level2_table(heap, vaddr)->0),
        table.owns(table.level1_table(heap, vaddr)->0),
        table.level_of(table.level1_table(heap, vaddr)->0) == 1,
        heap.allocated(table.level1_table(heap, vaddr)->0),
        heap.allocated(table.root()),
{
    lemma_level_index_bound(vaddr);
    let root: u64 = table.root();
    let i4: int = level_index(vaddr, 4) as int;
    let i3: int = level_index(vaddr, 3) as int;
    let i2: int = level_index(vaddr, 2) as int;
    assert(table.owns(root));
    let a3: u64 = child_table(heap, root, i4)->0;
    assert(heap.entry(root, i4) != 0);
    assert(table.owns(a3) && table.level_of(a3) == 3);
    let a2: u64 = child_table(heap, a3, i3)->0;
    assert(heap.entry(a3, i3) != 0);
    assert(table.owns(a2) && table.level_of(a2) == 2);
    let a1: u64 = child_table(heap, a2, i2)->0;
    assert(heap.entry(a2, i2) != 0);
    assert(table.owns(a1) && table.level_of(a1) == 1);
}

/// The tables of the tree on the way of an address, as far as the way
/// goes, are tables of the tree, each at its level.
pub proof fn lemma_way_levels(table: &PageTable, heap: &KernelHeap, vaddr: u64)
    requires
        table.wf(heap),
    ensures
        table.level3_table(heap, vaddr) matches Some(t) ==> table.owns(t) && table.level_of(t)
            == 3 && table.parents()[t] == (table.root(), level_index(vaddr, 4) as int),
        table.level2_table(heap, vaddr) matches Some(t) ==> table.owns(t) && table.level_of(t)
            == 2 && table.parents()[t] == (
            table.level3_table(heap, vaddr)->0,
            level_index(vaddr, 3) as int,
        ),
        table.level1_table(heap, vaddr) matches Some(t) ==> table.owns(t) && table.level_of(t)
            == 1 && table.parents()[t] == (
            table.level2_table(heap, vaddr)->0,
            level_index(vaddr, 2) as int,
        ),
        table.level2_table(heap, vaddr) is Some ==> table.level3_table(heap, vaddr) is Some,
        table.level1_table(heap, vaddr) is Some ==> table.level2_table(heap, vaddr) is Some,
{
    lemma_level_index_bound(vaddr);
    let root: u64 = table.root();
    let i4: int = level_index(vaddr, 4) as int;
    let i3: int = level_index(vaddr, 3) as int;
    let i2: int = level_index(vaddr, 2) as int;
    assert(table.owns(root));
    if child_table(heap, root, i4) is Some {
        let a3: u64 = child_table(heap, root, i4)->0;
        assert(heap.entry(root, i4) != 0);
        assert(table.owns(a3) && table.level_of(a3) == 3);
        if child_table(heap, a3, i3) is Some {
            let a2: u64 = child_table(heap, a3, i3)->0;
            assert(heap.entry(a3, i3) != 0);
            assert(table.owns(a2) && table.level_of(a2) == 2);
            if child_table(heap, a2, i2) is Some {
                assert(heap.entry(a2, i2) != 0);
            }
        }
    }
}

/// Where a page has been mapped, the tables on the way of any address are
/// those on the way of the mapped page as far as the two go together, and
/// those of before from where they part.
pub proof fn lemma_map_tables(
    before: &PageTable,
    heap0: &KernelHeap,
    after: &PageTable,
    heap1: &KernelHeap,
    vaddr: u64,
    w: u64,
)
    requires
        before.wf(heap0),
        after.wf(heap1),
        after.grown_from(heap1, before, heap0),
        after.way_is_set(heap1, vaddr),
        after.way_grown(heap1, before, heap0, vaddr),
        after.off_way_kept(heap1, before, heap0, vaddr),
    ensures
        forall|level: int|
            1 <= level <= 3 ==> #[trigger] after.table_on_way(heap1, w, level) == (if same_table(
                vaddr,
                w,
                level,
            ) {
                after.table_on_way(heap1, vaddr, level)
            } else {
                before.table_on_way(heap0, w, level)
            }),
{
    lemma_level_index_bound(vaddr);
    lemma_level_index_bound(w);
    lemma_table_prefix(vaddr, w);
    lemma_way_levels(after, heap1, vaddr);
    lemma_way_levels(after, heap1, w);
    lemma_way_levels(before, heap0, vaddr);
    lemma_way_levels(before, heap0, w);
    let root: u64 = after.root();
    let i4: int = level_index(vaddr, 4) as int;
    let i3: int = level_index(vaddr, 3) as int;
    let i2: int = level_index(vaddr, 2) as int;
    let j4: int = level_index(w, 4) as int;
    let j3: int = level_index(w, 3) as int;
    let j2: int = level_index(w, 2) as int;
    let l3: u64 = after.level3_table(heap1, vaddr)->0;
    let l2: u64 = after.level2_table(heap1, vaddr)->0;
    let l1: u64 = after.level1_table(heap1, vaddr)->0;
    assert(before.owns(root) && after.owns(root));
    assert(heap0.allocated(root) && heap1.allocated(root));
    assert(after.table_grown(heap1, before, heap0, vaddr, 3));
    assert(after.table_grown(heap1, before, heap0, vaddr, 2));
    assert(after.table_grown(heap1, before, heap0, vaddr, 1));
    assert(before.table_on_way(heap0, vaddr, 3) == before.level3_table(heap0, vaddr));
    assert(before.table_on_way(heap0, vaddr, 2) == before.level2_table(heap0, vaddr));
    assert(before.table_on_way(heap0, vaddr, 1) == before.level1_table(heap0, vaddr));
    assert(after.table_on_way(heap1, vaddr, 3) == Some(l3));
    assert(after.table_on_way(heap1, vaddr, 2) == Some(l2));
    assert(after.table_on_way(heap1, vaddr, 1) == Some(l1));

    // Level 3.
    if j4 != i4 {
        assert(!after.on_way(heap1, vaddr, root, j4));
        assert(heap1.entry(root, j4) == heap0.entry(root, j4));
        assert(after.level3_table(heap1, w) == before.level3_table(heap0, w));
    }
    // Level 2.
    if !same_table(vaddr, w, 2) {
        if j4 == i4 {
            assert(after.level3_table(heap1, w) == Some(l3));
            assert(!after.on_way(heap1, vaddr, l3, j3));
            assert(heap1.allocated(l3));
            if before.level3_table(heap0, vaddr) is Some {
                assert(before.level3_table(heap0, vaddr) == Some(l3));
                assert(before.owns(l3) && heap0.allocated(l3));
                assert(heap1.entry(l3, j3) == heap0.entry(l3, j3));
            } else {
                assert(!before.owns(l3));
                assert(heap1.entry(l3, j3) == 0);
            }
            assert(after.level2_table(heap1, w) == before.level2_table(heap0, w));
        } else {
            if before.level3_table(heap0, w) is Some {
                let t: u64 = before.level3_table(heap0, w)->0;
                assert(before.owns(t) && heap0.allocated(t) && heap1.allocated(t));
                assert(after.owns(t) && after.level_of(t) == 3);
                assert(after.parents()[t] == (root, j4));
                assert(t != l3);
                assert(!after.on_way(heap1, vaddr, t, j3));
                assert(heap1.entry(t, j3) == heap0.entry(t, j3));
            }
            assert(after.level2_table(heap1, w) == before.level2_table(heap0, w));
        }
    }
    // Level 1.
    if !same_table(vaddr, w, 1) {
        if same_table(vaddr, w, 2) {
            assert(after.level2_table(heap1, w) == Some(l2));
            assert(before.level2_table(heap0, w) == before.level2_table(heap0, vaddr));
            assert(!after.on_way(heap1, vaddr, l2, j2));
            assert(heap1.allocated(l2));
            if before.level2_table(heap0, vaddr) is Some {
                assert(before.level2_table(heap0, vaddr) == Some(l2));
                assert(before.owns(l2) && heap0.allocated(l2));
                assert(heap1.entry(l2, j2) == heap0.entry(l2, j2));
            } else {
                assert(!before.owns(l2));
                assert(heap1.entry(l2, j2) == 0);
            }
            assert(after.level1_table(heap1, w) == before.level1_table(heap0, w));
        } else {
            assert(after.level2_table(heap1, w) == before.level2_table(heap0, w));
            if before.level2_table(heap0, w) is Some {
                let t: u64 = before.level2_table(heap0, w)->0;
                assert(before.owns(t) && heap0.allocated(t) && heap1.allocated(t));
                assert(after.owns(t) && after.level_of(t) == 2);
                assert(after.parents()[t] == (after.level3_table(heap1, w)->0, j3));
                assert(after.parents()[l2] == (l3, i3));
                assert(after.parents()[l3] == (root, i4));
                assert(t != l2);
                assert(!after.on_way(heap1, vaddr, t, j2));
                assert(heap1.entry(t, j2) == heap0.entry(t, j2));
            }
            assert(after.level1_table(heap1, w) == before.level1_table(heap0, w));
        }
    }
    assert forall|level: int| 1 <= level <= 3 implies #[trigger] after.table_on_way(
        heap1,
        w,
        level,
    ) == (if same_table(vaddr, w, level) {
        after.table_on_way(heap1, vaddr, level)
    } else {
        before.table_on_way(heap0, w, level)
    }) by {}
}

/// The level-1 table on the way of an address is a table of the tree, at
/// level 1, and an allocated frame of the heap.
pub proof fn lemma_level1_table_owned(table: &PageTable, heap: &KernelHeap, vaddr: u64)
    requires
        table.wf(heap),
        table.level1_table(heap, vaddr) is Some,
    ensures
        table.owns(table.level1_table(heap, vaddr)->0),
        table.level_of(table.level1_table(heap, vaddr)->0) == 1,
        heap.allocated(table.level1_table(heap, vaddr)->0),
{
    lemma_level_index_bound(vaddr);
    let root: u64 = table.root();
    let i4: int = level_index(vaddr, 4) as int;
    let i3: int = level_index(vaddr, 3) as int;
    let i2: int = level_index(vaddr, 2) as int;
    assert(table.owns(root));
    let a3: u64 = child_table(heap, root, i4)->0;
    assert(heap.entry(root, i4) != 0);
    assert(table.owns(a3) && table.level_of(a3) == 3);
    let a2: u64 = child_table(heap, a3, i3)->0;
    assert(heap.entry(a3, i3) != 0);
    assert(table.owns(a2) && table.level_of(a2) == 2);
    let a1: u64 = child_table(heap, a2, i2)->0;
    assert(heap.entry(a2, i2) != 0);
    assert(table.owns(a1) && table.level_of(a1) == 1);
}

/// Writing the level-1 entry of `vaddr` leaves the tree a tree. The tree
/// then holds the written bits for the page of `vaddr`, and for every other
/// page what it held before.
pub proof fn lemma_leaf_write(
    table: &PageTable,
    heap0: &KernelHeap,
    heap1: &KernelHeap,
    l1: u64,
    bits: u64,
    vaddr: u64,
    w: u64,
)
    requires
        table.wf(heap0),
        heap1.wf(),
        table.level1_table(heap0, vaddr) == Some(l1),
        heap1.same_frames(heap0),
        heap1.entry(l1, level_index(vaddr, 1) as int) == bits,
        heap1.same_entries_but(heap0, l1, level_index(vaddr, 1) as int),
    ensures
        table.wf(heap1),
        table.level1_table(heap1, w) == table.level1_table(heap0, w),
        table.level1_entry(heap1, vaddr) == Some(bits),
        w & PAGE_NUMBER_MASK == vaddr & PAGE_NUMBER_MASK ==> table.mapping(heap1, w) == bits,
        w & PAGE_NUMBER_MASK != vaddr & PAGE_NUMBER_MASK ==> table.mapping(heap1, w)
            == table.mapping(heap0, w),
{
    reveal(PageTable::mapping);
    lemma_level_index_bound(w);
    lemma_level_index_bound(vaddr);
    lemma_same_indices_same_page(w, vaddr);
    let root: u64 = table.root();
    let i4: int = level_index(vaddr, 4) as int;
    let i3: int = level_index(vaddr, 3) as int;
    let i2: int = level_index(vaddr, 2) as int;
    let i1: int = level_index(vaddr, 1) as int;
    let j4: int = level_index(w, 4) as int;
    let j3: int = level_index(w, 3) as int;
    let j2: int = level_index(w, 2) as int;
    let j1: int = level_index(w, 1) as int;
    // The way of `vaddr`: three tables above `l1`, each at its level.
    assert(table.owns(root) && heap0.allocated(root));
    let a3: u64 = child_table(heap0, root, i4)->0;
    assert(heap0.entry(root, i4) != 0);
    assert(table.owns(a3) && table.level_of(a3) == 3 && table.parents()[a3] == (root, i4));
    assert(heap0.allocated(a3));
    let a2: u64 = child_table(heap0, a3, i3)->0;
    assert(heap0.entry(a3, i3) != 0);
    assert(table.owns(a2) && table.level_of(a2) == 2 && table.parents()[a2] == (a3, i3));
    assert(heap0.allocated(a2));
    assert(heap0.entry(a2, i2) != 0);
    assert(table.owns(l1) && table.level_of(l1) == 1 && table.parents()[l1] == (a2, i2));
    assert(heap0.allocated(l1));
    // No entry of a table above level 1 changes.
    assert forall|t: u64, i: int|
        table.owns(t) && table.level_of(t) >= 2 && 0 <= i < 512 implies #[trigger] heap1.entry(t, i)
        == heap0.entry(t, i) by {
        assert(heap0.allocated(t));
    }
    assert forall|t: u64| #[trigger] table.owns(t) implies heap1.allocated(t) && 1
        <= table.level_of(t) <= 4 by {
        assert(heap0.allocated(t));
    }
    assert forall|t: u64, i: int|
        table.owns(t) && table.level_of(t) >= 2 && 0 <= i < 512 && #[trigger] heap1.entry(t, i)
            != 0 implies {
        let c: u64 = heap1.entry(t, i) & PHYS_ADDR_MASK;
        &&& table.owns(c)
        &&& table.level_of(c) == table.level_of(t) - 1
        &&& table.parents().dom().contains(c)
        &&& table.parents()[c] == (t, i)
    } by {
        assert(heap1.entry(t, i) == heap0.entry(t, i));
    }
    assert(heap1.entry(root, i4) == heap0.entry(root, i4));
    assert(heap1.entry(a3, i3) == heap0.entry(a3, i3));
    assert(heap1.entry(a2, i2) == heap0.entry(a2, i2));
    // The way of `w`.
    assert(heap1.entry(root, j4) == heap0.entry(root, j4));
    assert(child_table(heap1, root, j4) == child_table(heap0, root, j4));
    if child_table(heap0, root, j4) is Some {
        let b3: u64 = child_table(heap0, root, j4)->0;
        assert(heap0.entry(root, j4) != 0);
        assert(table.owns(b3) && table.level_of(b3) == 3 && table.parents()[b3] == (root, j4));
        assert(heap0.allocated(b3));
        assert(heap1.entry(b3, j3) == heap0.entry(b3, j3));
        assert(child_table(heap1, b3, j3) == child_table(heap0, b3, j3));
        if child_table(heap0, b3, j3) is Some {
            let b2: u64 = child_table(heap0, b3, j3)->0;
            assert(heap0.entry(b3, j3) != 0);
            assert(table.owns(b2) && table.level_of(b2) == 2 && table.parents()[b2] == (b3, j3));
            assert(heap0.allocated(b2));
            assert(heap1.entry(b2, j2) == heap0.entry(b2, j2));
            assert(child_table(heap1, b2, j2) == child_table(heap0, b2, j2));
            if child_table(heap0, b2, j2) is Some {
                let b1: u64 = child_table(heap0, b2, j2)->0;
                assert(heap0.entry(b2, j2) != 0);
                assert(table.owns(b1) && table.level_of(b1) == 1 && table.parents()[b1] == (
                    b2,
                    j2,
                ));
                assert(heap0.allocated(b1));
                if b1 == l1 && j1 == i1 {
                    assert(b2 == a2 && j2 == i2);
                    assert(b3 == a3 && j3 == i3);
                    assert(j4 == i4);
                } else {
                    assert(heap1.entry(b1, j1) == heap0.entry(b1, j1));
                }
            }
        }
    }
}

/// A tree that has grown from one that has grown from a first one has grown
/// from the first.
pub proof fn lemma_grown_twice(
    first: &PageTable,
    heap0: &KernelHeap,
    second: &PageTable,
    heap1: &KernelHeap,
    third: &PageTable,
    heap2: &KernelHeap,
)
    requires
        second.grown_from(heap1, first, heap0),
        third.grown_from(heap2, second, heap1),
        forall|t: u64| #[trigger] first.owns(t) ==> heap0.allocated(t),
    ensures
        third.grown_from(heap2, first, heap0),
{
    assert forall|g: u64| #[trigger]
        heap2.allocated(g) <==> heap0.allocated(g) || (third.owns(g) && !first.owns(g)) by {
        assert(heap1.allocated(g) <==> heap0.allocated(g) || (second.owns(g) && !first.owns(g)));
        if first.owns(g) {
            assert(second.owns(g) && third.owns(g));
        }
        if second.owns(g) {
            assert(third.owns(g));
        }
    }
    assert forall|g: u64| #[trigger] third.owns(g) && !first.owns(g) implies !heap0.allocated(
        g,
    ) by {
        if second.owns(g) {
        } else {
            assert(!heap1.allocated(g));
            assert(heap1.allocated(g) <==> heap0.allocated(g) || (second.owns(g) && !first.owns(
                g,
            )));
        }
    }
    assert forall|g: u64, j: int|
        heap0.has_frame(g) && !third.owns(g) && 0 <= j < 512 implies #[trigger] heap2.entry(g, j)
        == heap0.entry(g, j) by {
        assert(heap1.has_frame(g));
        if second.owns(g) {
            assert(third.owns(g));
        }
        assert(heap1.entry(g, j) == heap0.entry(g, j));
    }
}

/// Two steps of a region that starts at a page boundary and is no larger
/// than half of the 48-bit address space lie in different pages.
pub proof fn lemma_steps_apart(start: u64, i: int, j: int, w: u64)
    requires
        page_offset(start) == 0,
        0 <= i < j,
        4096 * j <= REGION_MAX,
        start + 4096 * j <= u64::MAX,
        same_page(step_addr(start, i), w),
    ensures
        !same_page(step_addr(start, j), w),
{
    lemma_offset_zero(start);
    lemma_offset_zero(step_addr(start, j));
    lemma_page_numbers(step_addr(start, j), step_addr(start, i));
}

/// The tables that a step of a region needs made are at most three, and
/// those that a region needs grow with its steps.
pub proof fn lemma_region_tables_monotone(
    table: &PageTable,
    heap: &KernelHeap,
    virt_start: u64,
    k: int,
    pages: int,
)
    requires
        0 <= k <= pages,
    ensures
        0 <= table.tables_for_region(heap, virt_start, k) <= table.tables_for_region(
            heap,
            virt_start,
            pages,
        ),
        table.tables_for_region(heap, virt_start, pages) <= 3 * pages,
    decreases pages,
{
    if pages > 0 {
        if k < pages {
            lemma_region_tables_monotone(table, heap, virt_start, k, pages - 1);
        } else {
            lemma_region_tables_monotone(table, heap, virt_start, k - 1, pages - 1);
        }
    }
}

/// A step of a region and a step before it that share a table share it
/// with the step just before.
pub proof fn lemma_share_with_last(virt_start: u64, k: int, level: int)
    requires
        page_offset(virt_start) == 0,
        0 <= k,
        4096 * k <= REGION_MAX,
        virt_start + 4096 * k <= u64::MAX,
        1 <= level <= 3,
    ensures
        steps_share(virt_start, k, step_addr(virt_start, k), level) <==> k >= 1 && same_table(
            step_addr(virt_start, k - 1),
            step_addr(virt_start, k),
            level,
        ),
{
    let v: u64 = step_addr(virt_start, k);
    if steps_share(virt_start, k, v, level) {
        let j: int = choose|j: int|
            0 <= j < k && same_table(#[trigger] step_addr(virt_start, j), v, level);
        lemma_tables_in_a_row(step_addr(virt_start, j), step_addr(virt_start, k - 1), v, level);
    }
    if k >= 1 && same_table(step_addr(virt_start, k - 1), v, level) {
        assert(steps_share(virt_start, k, v, level));
    }
}

/// Where the tree has the tables of the start and of the first `k` steps
/// of a region, the tables missing on the way of step `k` are those that
/// the step needs made.
pub proof fn lemma_step_needs(
    start_table: &PageTable,
    start_heap: &KernelHeap,
    table0: &PageTable,
    heap0: &KernelHeap,
    virt_start: u64,
    k: int,
)
    requires
        table0.wf(heap0),
        page_offset(virt_start) == 0,
        0 <= k,
        4096 * k <= REGION_MAX,
        virt_start + 4096 * k <= u64::MAX,
        table0.tables_grown(heap0, start_table, start_heap, virt_start, k),
    ensures
        table0.missing_tables(heap0, step_addr(virt_start, k)) == start_table.tables_for_step(
            start_heap,
            virt_start,
            k,
        ),
{
    let v: u64 = step_addr(virt_start, k);
    lemma_way_levels(table0, heap0, v);
    lemma_share_with_last(virt_start, k, 3);
    lemma_share_with_last(virt_start, k, 2);
    lemma_share_with_last(virt_start, k, 1);
    assert(table0.table_on_way(heap0, v, 3) is None <==> start_table.needs_table(
        start_heap,
        virt_start,
        k,
        3,
    ));
    assert(table0.table_on_way(heap0, v, 2) is None <==> start_table.needs_table(
        start_heap,
        virt_start,
        k,
        2,
    ));
    assert(table0.table_on_way(heap0, v, 1) is None <==> start_table.needs_table(
        start_heap,
        virt_start,
        k,
        1,
    ));
}

/// One more page of a region: where the tree has the tables of the start
/// and of the first `k` steps, mapping step `k` gives it those of the
/// first `k + 1` steps.
pub proof fn lemma_region_tables_step(
    start_table: &PageTable,
    start_heap: &KernelHeap,
    table0: &PageTable,
    heap0: &KernelHeap,
    table1: &PageTable,
    heap1: &KernelHeap,
    virt_start: u64,
    k: int,
)
    requires
        0 <= k,
        table0.wf(heap0),
        table1.wf(heap1),
        table1.grown_from(heap1, table0, heap0),
        table1.way_is_set(heap1, step_addr(virt_start, k)),
        table1.way_grown(heap1, table0, heap0, step_addr(virt_start, k)),
        table1.off_way_kept(heap1, table0, heap0, step_addr(virt_start, k)),
        table0.tables_grown(heap0, start_table, start_heap, virt_start, k),
    ensures
        table1.tables_grown(heap1, start_table, start_heap, virt_start, k + 1),
{
    let v: u64 = step_addr(virt_start, k);
    assert forall|w: u64, level: int| 1 <= level <= 3 implies (#[trigger] table1.table_on_way(
        heap1,
        w,
        level,
    ) is Some <==> start_table.table_on_way(start_heap, w, level) is Some || steps_share(
        virt_start,
        k + 1,
        w,
        level,
    )) by {
        lemma_map_tables(table0, heap0, table1, heap1, v, w);
        assert(table1.table_on_way(heap1, v, level) is Some);
        assert(table0.table_on_way(heap0, w, level) is Some <==> start_table.table_on_way(
            start_heap,
            w,
            level,
        ) is Some || steps_share(virt_start, k, w, level));
        if steps_share(virt_start, k, w, level) {
            let j: int = choose|j: int|
                0 <= j < k && same_table(#[trigger] step_addr(virt_start, j), w, level);
            assert(same_table(step_addr(virt_start, j), w, level));
            assert(steps_share(virt_start, k + 1, w, level));
        }
        if same_table(v, w, level) {
            assert(steps_share(virt_start, k + 1, w, level));
        }
        if steps_share(virt_start, k + 1, w, level) && !same_table(v, w, level) {
            let j: int = choose|j: int|
                0 <= j < k + 1 && same_table(#[trigger] step_addr(virt_start, j), w, level);
            assert(same_table(step_addr(virt_start, j), w, level));
            assert(steps_share(virt_start, k, w, level));
        }
    }
}

/// One more page of a region: where the region has been mapped up to its
/// step `k`, mapping the page of step `k` maps it up to step `k + 1`.
pub proof fn lemma_region_step(
    start_table: &PageTable,
    start_heap: &KernelHeap,
    table0: &PageTable,
    heap0: &KernelHeap,
    table1: &PageTable,
    heap1: &KernelHeap,
    virt_start: u64,
    phys_start: u64,
    flags: u64,
    k: int,
)
    requires
        page_offset(virt_start) == 0,
        0 <= k,
        4096 * k <= REGION_MAX,
        virt_start + 4096 * k <= u64::MAX,
        table0.mapped_up_to(heap0, start_table, start_heap, virt_start, phys_start, flags, k),
        table1.differs_at(
            heap1,
            table0,
            heap0,
            step_addr(virt_start, k),
            flags | step_addr(phys_start, k),
        ),
    ensures
        table1.mapped_up_to(heap1, start_table, start_heap, virt_start, phys_start, flags, k + 1),
{
    assert forall|i: int, w: u64|
        0 <= i < k + 1 && same_page(
            #[trigger] step_addr(virt_start, i),
            w,
        ) implies #[trigger] table1.mapping(heap1, w) == flags | step_addr(phys_start, i) by {
        if i < k {
            lemma_steps_apart(virt_start, i, k, w);
            assert(table0.mapping(heap0, w) == flags | step_addr(phys_start, i));
        }
    }
    assert forall|w: u64| !steps_touch(virt_start, k + 1, w) implies #[trigger] table1.mapping(
        heap1,
        w,
    ) == start_table.mapping(start_heap, w) by {
        if same_page(step_addr(virt_start, k), w) {
            assert(steps_touch(virt_start, k + 1, w));
        }
        if steps_touch(virt_start, k, w) {
            let i: int = choose|i: int|
                0 <= i < k && same_page(#[trigger] step_addr(virt_start, i), w);
            assert(same_page(step_addr(virt_start, i), w));
            assert(steps_touch(virt_start, k + 1, w));
        }
        assert(table0.mapping(heap0, w) == start_table.mapping(start_heap, w));
    }
}

/// A region that has been mapped up to a step is mapped up to it still
/// where no page is held otherwise than before.
pub proof fn lemma_region_kept(
    start_table: &PageTable,
    start_heap: &KernelHeap,
    table0: &PageTable,
    heap0: &KernelHeap,
    table1: &PageTable,
    heap1: &KernelHeap,
    virt_start: u64,
    phys_start: u64,
    flags: u64,
    k: int,
)
    requires
        table0.mapped_up_to(heap0, start_table, start_heap, virt_start, phys_start, flags, k),
        table1.same_mappings(heap1, table0, heap0),
    ensures
        table1.mapped_up_to(heap1, start_table, start_heap, virt_start, phys_start, flags, k),
{
    assert forall|i: int, w: u64|
        0 <= i < k && same_page(
            #[trigger] step_addr(virt_start, i),
            w,
        ) implies #[trigger] table1.mapping(heap1, w) == flags | step_addr(phys_start, i) by {
        assert(table1.mapping(heap1, w) == table0.mapping(heap0, w));
    }
    assert forall|w: u64| !steps_touch(virt_start, k, w) implies #[trigger] table1.mapping(
        heap1,
        w,
    ) == start_table.mapping(start_heap, w) by {
        assert(table1.mapping(heap1, w) == table0.mapping(heap0, w));
    }
}

/// A region that has been mapped up to its step `k` only: each page of
/// the whole region is mapped as asked or is as at the start, and every
/// page outside the region is as at the start.
pub proof fn lemma_region_partial(
    start_table: &PageTable,
    start_heap: &KernelHeap,
    table0: &PageTable,
    heap0: &KernelHeap,
    virt_start: u64,
    phys_start: u64,
    flags: u64,
    k: int,
    pages: int,
)
    requires
        page_offset(virt_start) == 0,
        0 <= k <= pages,
        4096 * pages <= REGION_MAX,
        virt_start + 4096 * pages <= u64::MAX + 1,
        table0.mapped_up_to(heap0, start_table, start_heap, virt_start, phys_start, flags, k),
    ensures
        table0.maps_steps_or_not(
            heap0,
            start_table,
            start_heap,
            virt_start,
            phys_start,
            flags,
            pages,
        ),
        table0.same_outside_steps(heap0, start_table, start_heap, virt_start, pages),
{
    assert forall|i: int, w: u64|
        0 <= i < pages && same_page(
            #[trigger] step_addr(virt_start, i),
            w,
        ) implies #[trigger] table0.mapping(heap0, w) == flags | step_addr(phys_start, i)
        || table0.mapping(heap0, w) == start_table.mapping(start_heap, w) by {
        if i >= k {
            if steps_touch(virt_start, k, w) {
                let j: int = choose|j: int|
                    0 <= j < k && same_page(#[trigger] step_addr(virt_start, j), w);
                lemma_steps_apart(virt_start, j, i, w);
            }
        }
    }
    assert forall|w: u64| !steps_touch(virt_start, pages, w) implies #[trigger] table0.mapping(
        heap0,
        w,
    ) == start_table.mapping(start_heap, w) by {
        if steps_touch(virt_start, k, w) {
            let j: int = choose|j: int|
                0 <= j < k && same_page(#[trigger] step_addr(virt_start, j), w);
            assert(same_page(step_addr(virt_start, j), w));
            assert(steps_touch(virt_start, pages, w));
        }
    }
}

} // verus!
