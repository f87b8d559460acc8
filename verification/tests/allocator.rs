use micro_os::mm::page_table_entry::{PhysAddr, PTE};
use micro_os::mm::phys_page::{
    alloc_next_frame, kernel_heap_init, phys_page_alloc, phys_page_free, set_frame, KernelHeap,
    PAGE_SIZE,
};

fn heap_at(base: u64) -> KernelHeap {
    kernel_heap_init(&PhysAddr::new(base)).unwrap()
}

fn heap_between(base: u64, limit: u64) -> KernelHeap {
    KernelHeap::with_limit(PhysAddr::new(base), PhysAddr::new(limit)).unwrap()
}

#[test]
fn alloc_hands_out_consecutive_frames_from_the_base() {
    let mut heap = heap_at(0x100000);
    let expected: [u64; 5] = [0x100000, 0x101000, 0x102000, 0x103000, 0x104000];
    for want in expected {
        let frame = phys_page_alloc(&mut heap).unwrap();
        assert_eq!(frame.to_u64(), want);
    }
    assert_eq!(heap.kernel_heap_top().to_u64(), 0x105000);
    assert_eq!(heap.free_mem_base().to_u64(), 0x100000);
}

#[test]
fn freed_frames_come_back_last_freed_first() {
    let mut heap = heap_at(0x100000);
    let mut frames = Vec::new();
    for _ in 0..5 {
        frames.push(phys_page_alloc(&mut heap).unwrap());
    }
    assert!(heap.is_allocated(frames[1]));
    phys_page_free(&mut heap, frames[1]);
    assert!(heap.is_allocated(frames[3]));
    phys_page_free(&mut heap, frames[3]);
    assert_eq!(phys_page_alloc(&mut heap).unwrap().to_u64(), 0x103000);
    assert_eq!(phys_page_alloc(&mut heap).unwrap().to_u64(), 0x101000);
    // The free list is empty again: the heap grows.
    assert_eq!(phys_page_alloc(&mut heap).unwrap().to_u64(), 0x105000);
}

#[test]
fn a_freed_frame_is_allocated_next() {
    let mut heap = heap_at(0x200000);
    let a = phys_page_alloc(&mut heap).unwrap();
    let b = phys_page_alloc(&mut heap).unwrap();
    assert!(heap.is_allocated(a));
    phys_page_free(&mut heap, a);
    assert!(!heap.is_allocated(a));
    assert!(heap.is_allocated(b));
    assert_eq!(phys_page_alloc(&mut heap).unwrap(), a);
    assert!(heap.is_allocated(a));
}

#[test]
fn allocated_frames_are_aligned_and_distinct() {
    let mut heap = heap_at(0x100000);
    let mut live: Vec<u64> = Vec::new();
    for round in 0..40 {
        let frame = phys_page_alloc(&mut heap).unwrap();
        assert_eq!(frame.to_u64() % PAGE_SIZE as u64, 0);
        assert!(!live.contains(&frame.to_u64()));
        live.push(frame.to_u64());
        if round % 3 == 2 {
            let back = live.remove(round % live.len());
            assert!(heap.is_allocated(PhysAddr::new(back)));
            phys_page_free(&mut heap, PhysAddr::new(back));
        }
    }
}

#[test]
fn free_writes_the_old_head_into_the_first_word() {
    let mut heap = heap_at(0x100000);
    let a = phys_page_alloc(&mut heap).unwrap();
    let b = phys_page_alloc(&mut heap).unwrap();
    phys_page_free(&mut heap, a);
    assert_eq!(heap.read_entry(a, 0).unwrap().as_u64(), 0);
    phys_page_free(&mut heap, b);
    assert_eq!(heap.read_entry(b, 0).unwrap().as_u64(), a.to_u64());
    assert_eq!(heap.read_entry(a, 0).unwrap().as_u64(), 0);
}

#[test]
fn a_frame_from_the_free_list_keeps_its_old_content() {
    let mut heap = heap_at(0x100000);
    let a = phys_page_alloc(&mut heap).unwrap();
    heap.write_entry(a, 7, PTE::from_u64(0xdead_beef));
    phys_page_free(&mut heap, a);
    let again = phys_page_alloc(&mut heap).unwrap();
    assert_eq!(again, a);
    assert_eq!(heap.read_entry(a, 7).unwrap().as_u64(), 0xdead_beef);
}

#[test]
fn a_frame_from_the_bump_allocator_is_zero() {
    let mut heap = heap_at(0x100000);
    let a = phys_page_alloc(&mut heap).unwrap();
    for i in 0..512 {
        assert_eq!(heap.read_entry(a, i).unwrap().as_u64(), 0);
    }
    assert!(heap.read_entry(a, 512).is_none());
}

#[test]
fn alloc_next_frame_grows_the_heap_past_a_free_list() {
    let mut heap = heap_at(0x100000);
    let a = phys_page_alloc(&mut heap).unwrap();
    phys_page_free(&mut heap, a);
    let b = alloc_next_frame(&mut heap).unwrap();
    assert_eq!(b.to_u64(), 0x101000);
    assert_eq!(heap.kernel_heap_top().to_u64(), 0x102000);
    assert_eq!(phys_page_alloc(&mut heap).unwrap(), a);
}

#[test]
fn set_frame_fills_every_byte() {
    let mut heap = heap_at(0x100000);
    let a = phys_page_alloc(&mut heap).unwrap();
    let b = phys_page_alloc(&mut heap).unwrap();
    heap.write_entry(b, 3, PTE::from_u64(0x55));
    set_frame(&mut heap, a, 0xab);
    for i in 0..512 {
        assert_eq!(heap.read_entry(a, i).unwrap().as_u64(), 0xabab_abab_abab_abab);
    }
    assert_eq!(heap.read_entry(b, 3).unwrap().as_u64(), 0x55);
    assert_eq!(heap.read_entry(b, 0).unwrap().as_u64(), 0);
    set_frame(&mut heap, a, 0);
    assert_eq!(heap.read_entry(a, 511).unwrap().as_u64(), 0);
    set_frame(&mut heap, a, 0xff);
    assert_eq!(heap.read_entry(a, 0).unwrap().as_u64(), u64::MAX);
}

#[test]
fn alloc_fails_at_the_limit() {
    let mut heap = heap_between(0x100000, 0x102000);
    let a = phys_page_alloc(&mut heap).unwrap();
    let b = phys_page_alloc(&mut heap).unwrap();
    assert_eq!(a.to_u64(), 0x100000);
    assert_eq!(b.to_u64(), 0x101000);
    assert!(phys_page_alloc(&mut heap).is_none());
    assert!(alloc_next_frame(&mut heap).is_none());
    assert_eq!(heap.kernel_heap_top().to_u64(), 0x102000);
    // A freed frame can still be handed out.
    phys_page_free(&mut heap, a);
    assert_eq!(phys_page_alloc(&mut heap).unwrap(), a);
    assert!(phys_page_alloc(&mut heap).is_none());
}

#[test]
fn a_limit_that_leaves_less_than_a_frame_gives_nothing() {
    let mut heap = heap_between(0x100000, 0x100fff);
    assert!(phys_page_alloc(&mut heap).is_none());
    let mut empty = heap_between(0x100000, 0x100000);
    assert!(phys_page_alloc(&mut empty).is_none());
}

#[test]
fn init_refuses_a_base_that_is_no_frame() {
    assert!(kernel_heap_init(&PhysAddr::new(0)).is_none());
    assert!(kernel_heap_init(&PhysAddr::new(0x100001)).is_none());
    assert!(kernel_heap_init(&PhysAddr::new(0x100800)).is_none());
    assert!(kernel_heap_init(&PhysAddr::new(0x20_0000_0000_0000)).is_none());
    assert!(kernel_heap_init(&PhysAddr::new(0x1000)).is_some());
    assert!(kernel_heap_init(&PhysAddr::new(0x10_0000_0000_0000)).is_some());
}

#[test]
fn with_limit_refuses_a_limit_out_of_range() {
    assert!(KernelHeap::with_limit(PhysAddr::new(0x2000), PhysAddr::new(0x1000)).is_none());
    assert!(
        KernelHeap::with_limit(PhysAddr::new(0x2000), PhysAddr::new(0x10_0000_0000_0001)).is_none()
    );
    assert!(KernelHeap::with_limit(PhysAddr::new(0), PhysAddr::new(0x1000)).is_none());
}

#[test]
fn frames_outside_the_heap_are_not_allocated() {
    let mut heap = heap_at(0x100000);
    let a = phys_page_alloc(&mut heap).unwrap();
    assert!(heap.holds_frame(a));
    assert!(!heap.holds_frame(PhysAddr::new(0x101000)));
    assert!(!heap.holds_frame(PhysAddr::new(0xff000)));
    assert!(!heap.holds_frame(PhysAddr::new(0x100008)));
    assert!(!heap.is_allocated(PhysAddr::new(0x101000)));
    assert!(!heap.is_allocated(PhysAddr::new(0x100010)));
    assert!(heap.read_entry(PhysAddr::new(0x101000), 0).is_none());
}
