//! The physical frame allocator: a bump cursor over the kernel heap and a
//! free list that lives in the freed frames themselves.

use vstd::prelude::*;
use super::page_table_entry::{PhysAddr, VirtAddr, PTE};
use super::phys_mem::{PhysMemory, MAX_PHYS_ADDR, lemma_frames_apart};
use crate::utils::linked_list::{Iter, LinkedList, chain_start, lemma_chain_survives};

verus! {

/// Set normal page size as 4k.
pub const PAGE_SIZE: usize = 4096;

/// Offset of the direct mapping of physical memory.
pub const PHYS_TO_VIRT_BASE: usize = 0;

/// The word that holds `val` in each of its eight bytes.
pub open spec fn splat(val: u8) -> u64 {
    (val * 0x0101_0101_0101_0101) as u64
}

/// The state of the kernel heap: where free memory starts, the top of the
/// heap, the bound that the heap may not grow beyond, the list of freed
/// frames, and the memory of the heap itself, from the base up to the top.
pub struct KernelHeap {
    free_mem_base: PhysAddr,
    kernel_heap_top: u64,
    heap_limit: u64,
    free_mem_list: LinkedList,
    memory: PhysMemory,
}

impl KernelHeap {
    /// Start of kernel free memory.
    pub closed spec fn base(&self) -> u64 {
        self.free_mem_base@
    }

    /// Top of the kernel heap: the address of the next frame that the heap
    /// grows by.
    pub closed spec fn top(&self) -> u64 {
        self.kernel_heap_top
    }

    /// The address that the top of the heap never passes.
    pub closed spec fn limit(&self) -> u64 {
        self.heap_limit
    }

    /// The memory of the heap.
    pub closed spec fn memory(&self) -> PhysMemory {
        self.memory
    }

    /// The free memory list.
    pub closed spec fn list(&self) -> LinkedList {
        self.free_mem_list
    }

    /// The freed frames, the one freed last first.
    pub open spec fn free_list(&self) -> Seq<u64> {
        self.list()@
    }

    /// The heap's memory runs from its base to its top, the top is within
    /// the limit, the base is not null, and the free list is a chain of
    /// frames of the heap.
    pub open spec fn wf(&self) -> bool {
        &&& self.memory().wf()
        &&& self.memory().base() == self.base()
        &&& self.base() != 0
        &&& self.top() == self.memory().end()
        &&& self.top() <= self.limit() <= MAX_PHYS_ADDR
        &&& self.list().wf(&self.memory())
        &&& forall|i: int|
            0 <= i < self.free_list().len() ==> self.has_frame(#[trigger] self.free_list()[i])
    }

    /// `frame` is the address of a frame between the base and the top.
    pub open spec fn has_frame(&self, frame: u64) -> bool {
        frame % 4096 == 0 && self.base() <= frame && frame + 4096 <= self.top()
    }

    /// `frame` is a frame of the heap that is not on the free list: it has
    /// been handed out and not been given back.
    pub open spec fn allocated(&self, frame: u64) -> bool {
        self.has_frame(frame) && !self.free_list().contains(frame)
    }

    /// Word `index` of the frame at `frame`.
    pub open spec fn entry(&self, frame: u64, index: int) -> u64 {
        self.memory().entry(frame, index)
    }

    /// Number of frames that can still be handed out: those on the free
    /// list and those between the top and the limit.
    pub open spec fn available(&self) -> int {
        self.free_list().len() + (self.limit() - self.top()) / 4096
    }

    /// Base, top, limit and free list are those of `before`.
    pub open spec fn same_frames(&self, before: &KernelHeap) -> bool {
        &&& self.base() == before.base()
        &&& self.top() == before.top()
        &&& self.limit() == before.limit()
        &&& self.free_list() == before.free_list()
    }

    /// The words of the heap's memory are those of `before`.
    pub open spec fn same_memory(&self, before: &KernelHeap) -> bool {
        self.memory()@ == before.memory()@
    }

    /// Every word of every frame of `before` but word `index` of `frame` is
    /// as it was in `before`.
    pub open spec fn same_entries_but(&self, before: &KernelHeap, frame: u64, index: int) -> bool {
        forall|f: u64, j: int|
            before.has_frame(f) && 0 <= j < 512 && !(f == frame && j == index)
                ==> #[trigger] self.entry(f, j) == before.entry(f, j)
    }

    /// Every word of every frame of `before` but those of `frame` is as it
    /// was in `before`.
    pub open spec fn same_frames_but(&self, before: &KernelHeap, frame: u64) -> bool {
        forall|f: u64, j: int|
            before.has_frame(f) && 0 <= j < 512 && f != frame ==> #[trigger] self.entry(f, j)
                == before.entry(f, j)
    }

    /// A heap with the words of `before` holds the same word in every
    /// frame.
    pub proof fn lemma_same_memory(&self, before: &KernelHeap)
        requires
            self.wf(),
            before.wf(),
            self.base() == before.base(),
            self.same_memory(before),
        ensures
            forall|f: u64, j: int| #[trigger] self.entry(f, j) == before.entry(f, j),
    {
        self.memory().lemma_same_words(&before.memory());
    }

    /// A heap that starts at `base` and may grow up to `limit`: nothing
    /// handed out, nothing freed. `None` where `base` is null, not page
    /// aligned or above `limit`, or `limit` above 2^52.
    pub fn with_limit(base: PhysAddr, limit: PhysAddr) -> (r: Option<KernelHeap>)
        ensures
            r is Some <==> base@ != 0 && base@ % 4096 == 0 && base@ <= limit@ <= MAX_PHYS_ADDR,
            r matches Some(heap) ==> {
                &&& heap.wf()
                &&& heap.base() == base@
                &&& heap.top() == base@
                &&& heap.limit() == limit@
                &&& heap.free_list() == Seq::<u64>::empty()
            },
    {
        let b: u64 = base.to_u64();
        let l: u64 = limit.to_u64();
        if b == 0 || b > l || l > MAX_PHYS_ADDR {
            return None;
        }
        match PhysMemory::new(base) {
            None => None,
            Some(memory) => {
                let free_mem_list: LinkedList = LinkedList::new();
                Some(
                    KernelHeap {
                        free_mem_base: base,
                        kernel_heap_top: b,
                        heap_limit: l,
                        free_mem_list,
                        memory,
                    },
                )
            },
        }
    }

    /// Start of kernel free memory.
    pub fn free_mem_base(&self) -> (r: PhysAddr)
        ensures
            r@ == self.base(),
    {
        self.free_mem_base
    }

    /// Top of the kernel heap.
    pub fn kernel_heap_top(&self) -> (r: PhysAddr)
        ensures
            r@ == self.top(),
    {
        PhysAddr::new(self.kernel_heap_top)
    }

    /// Whether `frame` is the address of a frame between the base and the
    /// top.
    pub fn holds_frame(&self, frame: PhysAddr) -> (r: bool)
        requires
            self.wf(),
        ensures
            r == self.has_frame(frame@),
    {
        self.memory.holds_frame(frame)
    }

    /// Whether `frame` is a frame of the heap that is not on the free list.
    /// Walks the free list.
    pub fn is_allocated(&self, frame: PhysAddr) -> (r: bool)
        requires
            self.wf(),
        ensures
            r == self.allocated(frame@),
    {
        if !self.memory.holds_frame(frame) {
            return false;
        }
        let ghost all: Seq<u64> = self.free_mem_list@;
        let mut cursor: Iter = self.free_mem_list.iter();
        let ghost mut seen: int = 0;
        loop
            invariant
                self.wf(),
                self.has_frame(frame@),
                all == self.free_list(),
                cursor.wf(&self.memory),
                0 <= seen <= all.len(),
                cursor@ == all.skip(seen),
                forall|i: int| 0 <= i < seen ==> all[i] != frame@,
            decreases all.len() - seen,
        {
            match cursor.next(&self.memory) {
                None => {
                    assert(seen == all.len());
                    assert(!all.contains(frame@)) by {
                        if all.contains(frame@) {
                            let i: int = choose|i: int| 0 <= i < all.len() && all[i] == frame@;
                            assert(all[i] != frame@);
                        }
                    }
                    return true;
                },
                Some(node) => {
                    assert(all.skip(seen)[0] == all[seen]);
                    if node.to_u64() == frame.to_u64() {
                        return false;
                    }
                    proof {
                        assert(all.skip(seen).drop_first() =~= all.skip(seen + 1));
                        seen = seen + 1;
                    }
                },
            }
        }
    }

    /// Read word `index` of the frame at `frame`; `None` where the heap has
    /// no such frame or a frame has no such word.
    pub fn read_entry(&self, frame: PhysAddr, index: usize) -> (r: Option<PTE>)
        requires
            self.wf(),
        ensures
            r is Some <==> self.has_frame(frame@) && index < 512,
            r matches Some(e) ==> e@ == self.entry(frame@, index as int),
    {
        match self.memory.read_entry(frame, index) {
            None => None,
            Some(bits) => Some(PTE::from_u64(bits)),
        }
    }

    /// Write `entry` to word `index` of the allocated frame at `frame`. No
    /// other word changes, nor the free list, nor the bounds of the heap.
    pub fn write_entry(&mut self, frame: PhysAddr, index: usize, entry: PTE)
        requires
            old(self).wf(),
            old(self).allocated(frame@),
            index < 512,
        ensures
            final(self).wf(),
            final(self).same_frames(old(self)),
            final(self).entry(frame@, index as int) == entry@,
            final(self).same_entries_but(old(self), frame@, index as int),
            entry@ == old(self).entry(frame@, index as int) ==> final(self).same_memory(old(self)),
    {
        let ghost before: PhysMemory = self.memory;
        let written: bool = self.memory.write_entry(frame, index, entry.as_u64());
        proof {
            let nodes: Seq<u64> = self.free_mem_list@;
            assert forall|i: int| 0 <= i < nodes.len() implies self.memory.word(#[trigger] nodes[i])
                == before.word(nodes[i]) by {
                assert(old(self).has_frame(old(self).free_list()[i]));
                assert(nodes.contains(nodes[i]));
                lemma_frames_apart(frame@, nodes[i]);
            }
            lemma_chain_survives(nodes, &before, &self.memory);
        }
    }
}

/// What the bump allocator does: where a frame fits between the top and the
/// limit, the heap grows by it, the frame reads as zeros and its address,
/// the old top, is the result; else nothing changes and there is no result.
pub open spec fn bump_step(before: &KernelHeap, after: &KernelHeap, r: Option<PhysAddr>) -> bool {
    &&& after.base() == before.base()
    &&& after.limit() == before.limit()
    &&& after.free_list() == before.free_list()
    &&& if before.top() + 4096 <= before.limit() {
        &&& r matches Some(f) && f@ == before.top()
        &&& after.top() == before.top() + 4096
        &&& forall|j: int| 0 <= j < 512 ==> #[trigger] after.entry(before.top(), j) == 0
        &&& after.same_frames_but(before, before.top())
    } else {
        &&& r is None
        &&& after.top() == before.top()
        &&& after.same_memory(before)
    }
}

/// What an allocation does: where the free list holds a frame, its head
/// leaves the list and is the result, and no word changes; else the bump
/// allocator decides.
pub open spec fn alloc_step(before: &KernelHeap, after: &KernelHeap, r: Option<PhysAddr>) -> bool {
    if before.free_list().len() > 0 {
        &&& after.base() == before.base()
        &&& after.limit() == before.limit()
        &&& after.top() == before.top()
        &&& r matches Some(f) && f@ == before.free_list()[0]
        &&& after.free_list() == before.free_list().drop_first()
        &&& after.same_memory(before)
    } else {
        bump_step(before, after, r)
    }
}

/// What freeing `frame` does: the frame is the new head of the free list,
/// and its first word holds the address of the old head; no other word
/// changes.
pub open spec fn free_step(before: &KernelHeap, after: &KernelHeap, frame: u64) -> bool {
    &&& after.base() == before.base()
    &&& after.limit() == before.limit()
    &&& after.top() == before.top()
    &&& after.free_list() == seq![frame] + before.free_list()
    &&& after.entry(frame, 0) == chain_start(before.free_list())
    &&& after.same_entries_but(before, frame, 0)
}

/// Initialize kernel heap: `free_mem_base` is both the base of the heap and
/// its first top, and the heap may grow up to 2^52. `None` where the base is
/// null, not page aligned or above 2^52.
#[inline]
pub fn kernel_heap_init(free_mem_base: &PhysAddr) -> (r: Option<KernelHeap>)
    ensures
        r is Some <==> free_mem_base@ != 0 && free_mem_base@ % 4096 == 0 && free_mem_base@
            <= MAX_PHYS_ADDR,
        r matches Some(heap) ==> {
            &&& heap.wf()
            &&& heap.base() == free_mem_base@
            &&& heap.top() == free_mem_base@
            &&& heap.limit() == MAX_PHYS_ADDR
            &&& heap.free_list() == Seq::<u64>::empty()
        },
{
    KernelHeap::with_limit(*free_mem_base, PhysAddr::new(MAX_PHYS_ADDR))
}

/// Allocate next physical page directly from kernel heap: the heap grows by
/// one frame at its top, whatever the free list holds.
#[inline]
pub fn alloc_next_frame(heap: &mut KernelHeap) -> (r: Option<PhysAddr>)
    requires
        old(heap).wf(),
    ensures
        final(heap).wf(),
        bump_step(old(heap), final(heap), r),
        r matches Some(f) ==> {
            &&& !old(heap).has_frame(f@)
            &&& final(heap).allocated(f@)
            &&& forall|j: int| 0 <= j < 512 ==> #[trigger] final(heap).entry(f@, j) == 0
            &&& final(heap).same_frames_but(old(heap), f@)
        },
{
    if heap.heap_limit - heap.kernel_heap_top < PAGE_SIZE as u64 {
        return None;
    }
    let ghost before: PhysMemory = heap.memory;
    match heap.memory.grow() {
        None => None,
        Some(frame) => {
            heap.kernel_heap_top = heap.kernel_heap_top + PAGE_SIZE as u64;
            proof {
                let nodes: Seq<u64> = heap.free_mem_list@;
                assert(nodes == old(heap).free_list());
                assert forall|i: int| 0 <= i < nodes.len() implies heap.memory.word(
                    #[trigger] nodes[i],
                ) == before.word(nodes[i]) by {
                    assert(old(heap).has_frame(old(heap).free_list()[i]));
                }
                lemma_chain_survives(nodes, &before, &heap.memory);
                assert forall|i: int| 0 <= i < nodes.len() implies heap.has_frame(
                    #[trigger] heap.free_list()[i],
                ) by {
                    assert(old(heap).has_frame(old(heap).free_list()[i]));
                }
                assert(!heap.free_list().contains(frame@)) by {
                    if heap.free_list().contains(frame@) {
                        let i: int = choose|i: int| 0 <= i < nodes.len() && nodes[i] == frame@;
                        assert(old(heap).has_frame(old(heap).free_list()[i]));
                    }
                }
            }
            Some(frame)
        },
    }
}

/// Set the whole physical page to a value: each byte of the allocated frame
/// at `frame` becomes `val`. Nothing else changes.
#[inline]
pub fn set_frame(heap: &mut KernelHeap, frame: PhysAddr, val: u8)
    requires
        old(heap).wf(),
        old(heap).allocated(frame@),
    ensures
        final(heap).wf(),
        final(heap).same_frames(old(heap)),
        forall|j: int| 0 <= j < 512 ==> #[trigger] final(heap).entry(frame@, j) == splat(val),
        final(heap).same_frames_but(old(heap), frame@),
{
    let word: u64 = (val as u64) * 0x0101_0101_0101_0101;
    let ghost before: PhysMemory = heap.memory;
    let filled: bool = heap.memory.fill_frame(frame, word);
    proof {
        let nodes: Seq<u64> = heap.free_mem_list@;
        assert(nodes == old(heap).free_list());
        assert forall|i: int| 0 <= i < nodes.len() implies heap.memory.word(#[trigger] nodes[i])
            == before.word(nodes[i]) by {
            assert(old(heap).has_frame(old(heap).free_list()[i]));
            assert(nodes.contains(nodes[i]));
            lemma_frames_apart(frame@, nodes[i]);
        }
        lemma_chain_survives(nodes, &before, &heap.memory);
    }
}

/// Simple physical to virtual translation by direct-mapping.
pub fn simple_phys_to_virt(paddr: PhysAddr) -> (r: VirtAddr)
    ensures
        r@ == paddr@ + PHYS_TO_VIRT_BASE,
        r@ == paddr@,
{
    VirtAddr::new(paddr.to_u64() + PHYS_TO_VIRT_BASE as u64)
}

/// Physical to virtual translation: the direct mapping.
pub fn phys_to_virt(paddr: PhysAddr) -> (r: VirtAddr)
    ensures
        r@ == paddr@,
{
    simple_phys_to_virt(paddr)
}

/// Simple allocator: use a linked list as free memory pool. The head of the
/// free list is handed out first, as it is; with an empty list the heap
/// grows by one frame, which is filled with zeros. `None` where the list is
/// empty and the heap is at its limit.
pub fn phys_page_alloc(heap: &mut KernelHeap) -> (r: Option<PhysAddr>)
    requires
        old(heap).wf(),
    ensures
        final(heap).wf(),
        alloc_step(old(heap), final(heap), r),
        r is Some <==> old(heap).available() > 0,
        r is Some ==> final(heap).available() == old(heap).available() - 1,
        r matches Some(f) ==> {
            &&& f@ % 4096 == 0
            &&& !old(heap).allocated(f@)
            &&& final(heap).allocated(f@)
            &&& forall|g: u64| g != f@ ==> final(heap).allocated(g) == old(heap).allocated(g)
            &&& final(heap).same_frames_but(old(heap), f@)
        },
{
    if !heap.free_mem_list.is_empty() {
        let r: Option<PhysAddr> = heap.free_mem_list.pop(&heap.memory);
        proof {
            assert forall|i: int| 0 <= i < heap.free_list().len() implies heap.has_frame(
                #[trigger] heap.free_list()[i],
            ) by {
                assert(old(heap).has_frame(old(heap).free_list()[i + 1]));
            }
            lemma_alloc_fresh(old(heap), heap, r);
        }
        r
    } else {
        let frame: Option<PhysAddr> = alloc_next_frame(heap);
        match frame {
            Some(next_frame) => {
                let ghost grown: KernelHeap = *heap;
                set_frame(heap, next_frame, 0);
                proof {
                    assert forall|f: u64, j: int|
                        old(heap).has_frame(f) && 0 <= j < 512 && f != next_frame@
                            implies #[trigger] heap.entry(f, j) == old(heap).entry(f, j) by {
                        assert(grown.entry(f, j) == old(heap).entry(f, j));
                    }
                    lemma_alloc_fresh(old(heap), heap, frame);
                }
                Some(next_frame)
            },
            None => None,
        }
    }
}

/// Free a physical page: the allocated frame at `paddr` goes to the front
/// of the free list, and its first word takes the address of the frame
/// that was there.
pub fn phys_page_free(heap: &mut KernelHeap, paddr: PhysAddr)
    requires
        old(heap).wf(),
        old(heap).allocated(paddr@),
    ensures
        final(heap).wf(),
        free_step(old(heap), final(heap), paddr@),
        !final(heap).allocated(paddr@),
        forall|g: u64| g != paddr@ ==> final(heap).allocated(g) == old(heap).allocated(g),
        final(heap).available() == old(heap).available() + 1,
{
    let ghost before: PhysMemory = heap.memory;
    heap.free_mem_list.push(&mut heap.memory, paddr);
    proof {
        let nodes: Seq<u64> = heap.free_list();
        assert forall|i: int| 0 <= i < nodes.len() implies heap.has_frame(#[trigger] nodes[i]) by {
            if i > 0 {
                assert(nodes[i] == old(heap).free_list()[i - 1]);
            }
        }
        assert(nodes[0] == paddr@);
        assert forall|g: u64| g != paddr@ implies heap.allocated(g) == old(heap).allocated(g) by {
            if old(heap).free_list().contains(g) {
                let i: int = choose|i: int|
                    0 <= i < old(heap).free_list().len() && old(heap).free_list()[i] == g;
                assert(nodes[i + 1] == g);
            }
            if nodes.contains(g) {
                let i: int = choose|i: int| 0 <= i < nodes.len() && nodes[i] == g;
                assert(old(heap).free_list()[i - 1] == g);
            }
        }
        before.lemma_entry_word(paddr@, 0);
        heap.memory.lemma_entry_word(paddr@, 0);
        assert forall|f: u64, j: int|
            old(heap).has_frame(f) && 0 <= j < 512 && !(f == paddr@ && j == 0)
                implies #[trigger] heap.entry(f, j) == old(heap).entry(f, j) by {
            let other: u64 = (f + 8 * j) as u64;
            before.lemma_entry_word(f, j);
            heap.memory.lemma_entry_word(f, j);
            if f != paddr@ {
                lemma_frames_apart(f, paddr@);
            }
            assert(other != paddr@);
        }
    }
}

/// A frame that an allocation hands out is page aligned and was not
/// allocated before; it is allocated afterwards, and no other frame changes
/// sides. Every word of every other frame is as it was.
pub proof fn lemma_alloc_fresh(before: &KernelHeap, after: &KernelHeap, r: Option<PhysAddr>)
    requires
        before.wf(),
        after.wf(),
        alloc_step(before, after, r),
    ensures
        r is Some <==> before.available() > 0,
        r is Some ==> after.available() == before.available() - 1,
        r is None ==> after.same_frames(before) && after.same_memory(before),
        r matches Some(f) ==> {
            &&& f@ % 4096 == 0
            &&& !before.allocated(f@)
            &&& after.allocated(f@)
            &&& forall|g: u64| g != f@ ==> after.allocated(g) == before.allocated(g)
            &&& after.same_frames_but(before, f@)
        },
{
    let old_list: Seq<u64> = before.free_list();
    let new_list: Seq<u64> = after.free_list();
    if after.same_memory(before) {
        after.memory().lemma_same_words(&before.memory());
    }
    if old_list.len() > 0 {
        let f: u64 = old_list[0];
        assert(before.has_frame(old_list[0]));
        assert(old_list.contains(f));
        assert(!new_list.contains(f)) by {
            if new_list.contains(f) {
                let i: int = choose|i: int| 0 <= i < new_list.len() && new_list[i] == f;
                assert(old_list[i + 1] == f);
            }
        }
        assert forall|g: u64| g != f implies after.allocated(g) == before.allocated(g) by {
            if old_list.contains(g) {
                let i: int = choose|i: int| 0 <= i < old_list.len() && old_list[i] == g;
                assert(new_list[i - 1] == g);
            }
            if new_list.contains(g) {
                let i: int = choose|i: int| 0 <= i < new_list.len() && new_list[i] == g;
                assert(old_list[i + 1] == g);
            }
        }
    } else if before.top() + 4096 <= before.limit() {
        let f: u64 = before.top();
        assert(new_list.len() == 0);
        assert forall|g: u64| g != f implies after.allocated(g) == before.allocated(g) by {}
    }
}

/// A frame that is freed and then allocated again, with nothing freed in
/// between, is the frame that the allocation hands out, and the free list
/// is then what it was before the frame was freed.
pub proof fn lemma_free_then_alloc(
    start: &KernelHeap,
    freed: &KernelHeap,
    after: &KernelHeap,
    frame: u64,
    r: Option<PhysAddr>,
)
    requires
        free_step(start, freed, frame),
        alloc_step(freed, after, r),
    ensures
        r matches Some(f) && f@ == frame,
        after.free_list() == start.free_list(),
        after.top() == start.top(),
{
    assert(freed.free_list()[0] == frame);
    assert(freed.free_list().drop_first() =~= start.free_list());
}

} // verus!
