use micro_os::mm::layout::KernelLayout;
use micro_os::mm::page_table::{MapError, PageTable, REGION_MAX};
use micro_os::mm::page_table_entry::{
    PhysAddr, PTEFlags, VirtAddr, NO_EXECUTE, PRESENT, PTE, USER, WRITABLE,
};
use micro_os::mm::phys_page::{kernel_heap_init, phys_page_alloc, phys_page_free, KernelHeap};

fn heap_at(base: u64) -> KernelHeap {
    kernel_heap_init(&PhysAddr::new(base)).unwrap()
}

fn bounded_heap(base: u64, frames: u64) -> KernelHeap {
    KernelHeap::with_limit(PhysAddr::new(base), PhysAddr::new(base + frames * 4096)).unwrap()
}

#[test]
fn new_table_takes_one_zeroed_frame() {
    let mut heap = heap_at(0x100000);
    let table = PageTable::new(&mut heap).unwrap();
    assert_eq!(table.base().to_u64(), 0x100000);
    assert_eq!(table.enable(), 0x100000);
    assert!(heap.is_allocated(table.base()));
    for i in 0..512 {
        assert!(heap.read_entry(table.base(), i).unwrap().is_unused());
    }
    assert!(table.retrieve(&heap, VirtAddr::new(0x10000)).is_none());
    assert!(table.get_level1_pte(&heap, VirtAddr::new(0x10000)).is_none());
}

#[test]
fn new_table_zeroes_a_frame_from_the_free_list() {
    let mut heap = heap_at(0x100000);
    let frame = phys_page_alloc(&mut heap).unwrap();
    heap.write_entry(frame, 5, PTE::from_u64(0x1234_5003));
    phys_page_free(&mut heap, frame);
    let table = PageTable::new(&mut heap).unwrap();
    assert_eq!(table.base(), frame);
    for i in 0..512 {
        assert!(heap.read_entry(frame, i).unwrap().is_unused());
    }
}

#[test]
fn new_table_fails_without_a_frame() {
    let mut heap = bounded_heap(0x100000, 0);
    assert!(PageTable::new(&mut heap).is_none());
    assert_eq!(heap.kernel_heap_top().to_u64(), 0x100000);
}

#[test]
fn map_then_retrieve() {
    let mut heap = heap_at(0x100000);
    let mut table = PageTable::new(&mut heap).unwrap();
    let v = VirtAddr::new(0x10000);
    let p = PhysAddr::new(0x200000);
    assert_eq!(table.map(&mut heap, v, p, PTEFlags::new_kern_flags()), Ok(()));
    assert_eq!(table.retrieve(&heap, v), Some(p));
    let pte = table.get_level1_pte(&heap, v).unwrap();
    assert_eq!(pte.as_u64(), 0x200003);
    assert_eq!(pte.flags().as_u64(), PRESENT | WRITABLE);
    assert_eq!(pte.phys_addr(), p);
}

#[test]
fn map_builds_three_tables_below_the_root() {
    let mut heap = heap_at(0x100000);
    let mut table = PageTable::new(&mut heap).unwrap();
    // Indices of 0x0000_0080_4060_3000: 1, 1, 3, 3.
    let v = VirtAddr::new(0x0000_0080_4060_3000);
    assert_eq!((v.l4_index(), v.l3_index(), v.l2_index(), v.l1_index()), (1, 1, 3, 3));
    table.map(&mut heap, v, PhysAddr::new(0xabc000), PTEFlags::new(PRESENT | USER)).unwrap();
    assert_eq!(heap.kernel_heap_top().to_u64(), 0x104000);
    assert_eq!(heap.read_entry(PhysAddr::new(0x100000), 1).unwrap().as_u64(), 0x101003);
    assert_eq!(heap.read_entry(PhysAddr::new(0x101000), 1).unwrap().as_u64(), 0x102003);
    assert_eq!(heap.read_entry(PhysAddr::new(0x102000), 3).unwrap().as_u64(), 0x103003);
    assert_eq!(heap.read_entry(PhysAddr::new(0x103000), 3).unwrap().as_u64(), 0xabc005);
    // Nothing else was written.
    assert!(heap.read_entry(PhysAddr::new(0x100000), 0).unwrap().is_unused());
    assert!(heap.read_entry(PhysAddr::new(0x103000), 2).unwrap().is_unused());
}

#[test]
fn a_second_page_in_the_same_table_takes_no_frame() {
    let mut heap = heap_at(0x100000);
    let mut table = PageTable::new(&mut heap).unwrap();
    table.map(&mut heap, VirtAddr::new(0x10000), PhysAddr::new(0x200000), PTEFlags::new(PRESENT))
        .unwrap();
    let top = heap.kernel_heap_top();
    table.map(&mut heap, VirtAddr::new(0x11000), PhysAddr::new(0x300000), PTEFlags::new(PRESENT))
        .unwrap();
    assert_eq!(heap.kernel_heap_top(), top);
    assert_eq!(table.retrieve(&heap, VirtAddr::new(0x10000)), Some(PhysAddr::new(0x200000)));
    assert_eq!(table.retrieve(&heap, VirtAddr::new(0x11000)), Some(PhysAddr::new(0x300000)));
    // A page under another level-2 entry takes one table more.
    table.map(&mut heap, VirtAddr::new(0x200000), PhysAddr::new(0x400000), PTEFlags::new(PRESENT))
        .unwrap();
    assert_eq!(heap.kernel_heap_top().to_u64(), top.to_u64() + 4096);
}

#[test]
fn mapping_again_refreshes_the_flags_of_the_tables_above() {
    let mut heap = heap_at(0x100000);
    let mut table = PageTable::new(&mut heap).unwrap();
    let v = VirtAddr::new(0x10000);
    table.map(&mut heap, v, PhysAddr::new(0x200000), PTEFlags::new(PRESENT)).unwrap();
    let root = table.base();
    heap.write_entry(root, 0, PTE::from_u64(0x101000 | PRESENT | USER | NO_EXECUTE));
    table.map(&mut heap, v, PhysAddr::new(0x200000), PTEFlags::new(PRESENT)).unwrap();
    assert_eq!(heap.read_entry(root, 0).unwrap().as_u64(), 0x101003);
}

#[test]
fn remap_last_write_wins() {
    let mut heap = heap_at(0x100000);
    let mut table = PageTable::new(&mut heap).unwrap();
    let v = VirtAddr::new(0x10000);
    let pa = PhysAddr::new(0x200000);
    let pb = PhysAddr::new(0x345000);
    table.map(&mut heap, v, pa, PTEFlags::new_kern_flags()).unwrap();
    table.map(&mut heap, v, pb, PTEFlags::new_user_flags()).unwrap();
    assert_eq!(table.retrieve(&heap, v), Some(pb));
    assert_eq!(table.get_level1_pte(&heap, v).unwrap().flags().as_u64(), 0x7);
    assert_eq!(heap.kernel_heap_top().to_u64(), 0x104000);
}

#[test]
fn unmap_makes_the_entry_unused() {
    let mut heap = heap_at(0x100000);
    let mut table = PageTable::new(&mut heap).unwrap();
    let v = VirtAddr::new(0x10000);
    table.map(&mut heap, v, PhysAddr::new(0x200000), PTEFlags::new_kern_flags()).unwrap();
    table
        .map(&mut heap, VirtAddr::new(0x11000), PhysAddr::new(0x201000), PTEFlags::new_kern_flags())
        .unwrap();
    table.unmap(&mut heap, v);
    assert!(table.get_level1_pte(&heap, v).unwrap().is_unused());
    assert!(table.retrieve(&heap, v).is_none());
    assert_eq!(table.retrieve(&heap, VirtAddr::new(0x11000)), Some(PhysAddr::new(0x201000)));
    // A second unmap changes nothing.
    let before: Vec<u64> =
        (0..512).map(|i| heap.read_entry(PhysAddr::new(0x103000), i).unwrap().as_u64()).collect();
    table.unmap(&mut heap, v);
    let after: Vec<u64> =
        (0..512).map(|i| heap.read_entry(PhysAddr::new(0x103000), i).unwrap().as_u64()).collect();
    assert_eq!(before, after);
    assert!(table.get_level1_pte(&heap, v).unwrap().is_unused());
    // The tables stay, and so does the top of the heap.
    assert_eq!(heap.kernel_heap_top().to_u64(), 0x104000);
    assert_eq!(heap.read_entry(PhysAddr::new(0x100000), 0).unwrap().as_u64(), 0x101003);
}

#[test]
fn unmap_of_a_page_without_tables_changes_nothing() {
    let mut heap = heap_at(0x100000);
    let mut table = PageTable::new(&mut heap).unwrap();
    table.unmap(&mut heap, VirtAddr::new(0x7000_0000));
    assert_eq!(heap.kernel_heap_top().to_u64(), 0x101000);
    for i in 0..512 {
        assert!(heap.read_entry(table.base(), i).unwrap().is_unused());
    }
}

#[test]
fn unmap_takes_any_address_of_the_page() {
    let mut heap = heap_at(0x100000);
    let mut table = PageTable::new(&mut heap).unwrap();
    let v = VirtAddr::new(0x10000);
    table.map(&mut heap, v, PhysAddr::new(0x200000), PTEFlags::new_kern_flags()).unwrap();
    assert_eq!(table.retrieve(&heap, VirtAddr::new(0x10abc)), Some(PhysAddr::new(0x200000)));
    table.unmap(&mut heap, VirtAddr::new(0x10fff));
    assert!(table.retrieve(&heap, v).is_none());
}

#[test]
fn map_region_maps_each_page() {
    let mut heap = heap_at(0x100000);
    let mut table = PageTable::new(&mut heap).unwrap();
    let vstart = VirtAddr::new(0x40_0000);
    let pstart = PhysAddr::new(0x900_0000);
    assert_eq!(
        table.map_region(&mut heap, vstart, pstart, 3 * 4096, PTEFlags::new_kern_flags()),
        Ok(())
    );
    assert_eq!(table.retrieve(&heap, vstart), Some(pstart));
    assert_eq!(table.retrieve(&heap, vstart + 4096usize), Some(pstart + 4096usize));
    assert_eq!(table.retrieve(&heap, vstart + 8192usize), Some(pstart + 8192usize));
    assert!(table.retrieve(&heap, vstart + 12288usize).is_none());
    assert!(table.retrieve(&heap, vstart - 4096usize).is_none());
}

#[test]
fn map_region_rounds_the_size_up_to_whole_pages() {
    let mut heap = heap_at(0x100000);
    let mut table = PageTable::new(&mut heap).unwrap();
    let vstart = VirtAddr::new(0x40_0000);
    let pstart = PhysAddr::new(0x900_0000);
    table.map_region(&mut heap, vstart, pstart, 4097, PTEFlags::new_kern_flags()).unwrap();
    assert_eq!(table.retrieve(&heap, vstart), Some(pstart));
    assert_eq!(table.retrieve(&heap, vstart + 4096usize), Some(pstart + 4096usize));
    assert!(table.retrieve(&heap, vstart + 8192usize).is_none());
}

#[test]
fn map_region_crosses_into_the_next_level1_table() {
    let mut heap = heap_at(0x100000);
    let mut table = PageTable::new(&mut heap).unwrap();
    // The last page of one level-1 table and the first of the next.
    let vstart = VirtAddr::new(0x1ff000);
    let pstart = PhysAddr::new(0x800000);
    table.map_region(&mut heap, vstart, pstart, 2 * 4096, PTEFlags::new(PRESENT)).unwrap();
    assert_eq!(heap.kernel_heap_top().to_u64(), 0x105000);
    assert_eq!(table.retrieve(&heap, VirtAddr::new(0x1ff000)), Some(PhysAddr::new(0x800000)));
    assert_eq!(table.retrieve(&heap, VirtAddr::new(0x200000)), Some(PhysAddr::new(0x801000)));
}

#[test]
fn an_empty_region_maps_nothing() {
    let mut heap = heap_at(0x100000);
    let mut table = PageTable::new(&mut heap).unwrap();
    assert_eq!(
        table.map_region(
            &mut heap,
            VirtAddr::new(0x123),
            PhysAddr::new(0x456),
            0,
            PTEFlags::new(1)
        ),
        Ok(())
    );
    assert_eq!(heap.kernel_heap_top().to_u64(), 0x101000);
}

#[test]
fn unmap_region_unmaps_each_page() {
    let mut heap = heap_at(0x100000);
    let mut table = PageTable::new(&mut heap).unwrap();
    let vstart = VirtAddr::new(0x40_0000);
    let pstart = PhysAddr::new(0x900_0000);
    table.map_region(&mut heap, vstart, pstart, 4 * 4096, PTEFlags::new_kern_flags()).unwrap();
    table.unmap_region(&mut heap, vstart + 4096usize, 2 * 4096);
    assert_eq!(table.retrieve(&heap, vstart), Some(pstart));
    assert!(table.retrieve(&heap, vstart + 4096usize).is_none());
    assert!(table.retrieve(&heap, vstart + 8192usize).is_none());
    assert_eq!(table.retrieve(&heap, vstart + 12288usize), Some(pstart + 12288usize));
    table.unmap_region(&mut heap, vstart, 0);
    assert_eq!(table.retrieve(&heap, vstart), Some(pstart));
}

#[test]
fn map_refuses_an_unaligned_virtual_address() {
    let mut heap = heap_at(0x100000);
    let mut table = PageTable::new(&mut heap).unwrap();
    let r = table.map(&mut heap, VirtAddr::new(0x10001), PhysAddr::new(0x200000), PTEFlags::new(1));
    assert_eq!(r, Err(MapError::UnalignedVirtAddr));
    assert_eq!(heap.kernel_heap_top().to_u64(), 0x101000);
    assert!(heap.read_entry(table.base(), 0).unwrap().is_unused());
}

#[test]
fn map_refuses_a_physical_address_that_is_no_frame() {
    let mut heap = heap_at(0x100000);
    let mut table = PageTable::new(&mut heap).unwrap();
    let v = VirtAddr::new(0x10000);
    assert_eq!(
        table.map(&mut heap, v, PhysAddr::new(0x200010), PTEFlags::new(1)),
        Err(MapError::InvalidPhysAddr)
    );
    assert_eq!(
        table.map(&mut heap, v, PhysAddr::new(0x10_0000_0000_0000), PTEFlags::new(1)),
        Err(MapError::InvalidPhysAddr)
    );
    assert_eq!(heap.kernel_heap_top().to_u64(), 0x101000);
}

#[test]
fn map_refuses_flags_in_the_address_field() {
    let mut heap = heap_at(0x100000);
    let mut table = PageTable::new(&mut heap).unwrap();
    let r = table.map(
        &mut heap,
        VirtAddr::new(0x10000),
        PhysAddr::new(0x200000),
        PTEFlags::new(PRESENT | 0x1000),
    );
    assert_eq!(r, Err(MapError::InvalidFlags));
    assert_eq!(heap.kernel_heap_top().to_u64(), 0x101000);
}

#[test]
fn map_fails_when_the_frames_run_out() {
    // Room for the root and two tables: the third table is missing.
    let mut heap = bounded_heap(0x100000, 3);
    let mut table = PageTable::new(&mut heap).unwrap();
    let v = VirtAddr::new(0x10000);
    let r = table.map(&mut heap, v, PhysAddr::new(0x200000), PTEFlags::new_kern_flags());
    assert_eq!(r, Err(MapError::OutOfFrames));
    assert!(table.retrieve(&heap, v).is_none());
    // The two tables that were created stay.
    assert_eq!(heap.read_entry(PhysAddr::new(0x100000), 0).unwrap().as_u64(), 0x101003);
    assert_eq!(heap.read_entry(PhysAddr::new(0x101000), 0).unwrap().as_u64(), 0x102003);
    assert!(heap.read_entry(PhysAddr::new(0x102000), 0).unwrap().is_unused());
    assert!(phys_page_alloc(&mut heap).is_none());
}

#[test]
fn map_succeeds_with_exactly_the_missing_frames() {
    let mut heap = bounded_heap(0x100000, 4);
    let mut table = PageTable::new(&mut heap).unwrap();
    let v = VirtAddr::new(0x10000);
    let flags = PTEFlags::new_kern_flags();
    assert_eq!(table.map(&mut heap, v, PhysAddr::new(0x200000), flags), Ok(()));
    // No frame is left, but a page in the same level-1 table needs none.
    assert!(phys_page_alloc(&mut heap).is_none());
    assert_eq!(
        table.map(&mut heap, VirtAddr::new(0x11000), PhysAddr::new(0x201000), PTEFlags::new(1)),
        Ok(())
    );
    // A page under another level-4 entry needs three.
    assert_eq!(
        table.map(
            &mut heap,
            VirtAddr::new(0x80_0000_0000),
            PhysAddr::new(0x201000),
            PTEFlags::new(1)
        ),
        Err(MapError::OutOfFrames)
    );
    assert_eq!(table.retrieve(&heap, v), Some(PhysAddr::new(0x200000)));
}

#[test]
fn map_takes_its_tables_from_the_free_list_and_zeroes_them() {
    let mut heap = heap_at(0x100000);
    let mut table = PageTable::new(&mut heap).unwrap();
    let stale = phys_page_alloc(&mut heap).unwrap();
    for i in 0..512 {
        heap.write_entry(stale, i, PTE::from_u64(0x7777_7000 | PRESENT));
    }
    phys_page_free(&mut heap, stale);
    let v = VirtAddr::new(0x10000);
    table.map(&mut heap, v, PhysAddr::new(0x200000), PTEFlags::new_kern_flags()).unwrap();
    // The freed frame is the level-3 table now, and holds one entry.
    assert_eq!(heap.read_entry(table.base(), 0).unwrap().phys_addr(), stale);
    for i in 1..512 {
        assert!(heap.read_entry(stale, i).unwrap().is_unused());
    }
    assert_eq!(table.retrieve(&heap, v), Some(PhysAddr::new(0x200000)));
    assert!(table.retrieve(&heap, VirtAddr::new(0x4000_0000)).is_none());
}

#[test]
fn map_region_refuses_what_map_refuses() {
    let mut heap = heap_at(0x100000);
    let mut table = PageTable::new(&mut heap).unwrap();
    let flags = PTEFlags::new_kern_flags();
    assert_eq!(
        table.map_region(&mut heap, VirtAddr::new(0x10800), PhysAddr::new(0x200000), 4096, flags),
        Err(MapError::UnalignedVirtAddr)
    );
    assert_eq!(
        table.map_region(&mut heap, VirtAddr::new(0x10000), PhysAddr::new(0x200800), 4096, flags),
        Err(MapError::InvalidPhysAddr)
    );
    assert_eq!(
        table.map_region(
            &mut heap,
            VirtAddr::new(0x10000),
            PhysAddr::new(0x200000),
            4096,
            PTEFlags::new(0x2000)
        ),
        Err(MapError::InvalidFlags)
    );
    assert_eq!(heap.kernel_heap_top().to_u64(), 0x101000);
}

#[test]
fn map_region_refuses_a_region_that_is_too_large() {
    let mut heap = heap_at(0x100000);
    let mut table = PageTable::new(&mut heap).unwrap();
    let flags = PTEFlags::new_kern_flags();
    assert_eq!(
        table.map_region(
            &mut heap,
            VirtAddr::new(0),
            PhysAddr::new(0),
            REGION_MAX as usize + 1,
            flags
        ),
        Err(MapError::RegionTooLarge)
    );
    // The region ends behind the last virtual address.
    assert_eq!(
        table.map_region(
            &mut heap,
            VirtAddr::new(0xffff_ffff_ffff_f000),
            PhysAddr::new(0x200000),
            2 * 4096,
            flags
        ),
        Err(MapError::RegionTooLarge)
    );
    // The region ends behind the last physical frame.
    assert_eq!(
        table.map_region(
            &mut heap,
            VirtAddr::new(0x10000),
            PhysAddr::new(0x000f_ffff_ffff_f000),
            2 * 4096,
            flags
        ),
        Err(MapError::RegionTooLarge)
    );
    assert_eq!(heap.kernel_heap_top().to_u64(), 0x101000);
}

#[test]
fn map_region_maps_the_last_page_of_the_address_space() {
    let mut heap = heap_at(0x100000);
    let mut table = PageTable::new(&mut heap).unwrap();
    let v = VirtAddr::new(0xffff_ffff_ffff_f000);
    let p = PhysAddr::new(0x000f_ffff_ffff_f000);
    assert_eq!(table.map_region(&mut heap, v, p, 4096, PTEFlags::new(PRESENT)), Ok(()));
    assert_eq!(table.retrieve(&heap, v), Some(p));
}

#[test]
fn map_region_stops_when_the_frames_run_out() {
    // The root, three tables for the first page, and nothing for the page
    // under the next level-2 entry.
    let mut heap = bounded_heap(0x100000, 4);
    let mut table = PageTable::new(&mut heap).unwrap();
    let vstart = VirtAddr::new(0x1ff000);
    let pstart = PhysAddr::new(0x800000);
    let r = table.map_region(&mut heap, vstart, pstart, 2 * 4096, PTEFlags::new(PRESENT));
    assert_eq!(r, Err(MapError::OutOfFrames));
    assert_eq!(table.retrieve(&heap, VirtAddr::new(0x1ff000)), Some(PhysAddr::new(0x800000)));
    assert!(table.retrieve(&heap, VirtAddr::new(0x200000)).is_none());
    assert!(phys_page_alloc(&mut heap).is_none());
}

#[test]
fn addresses_with_the_same_low_48_bits_share_their_entry() {
    let mut heap = heap_at(0x100000);
    let mut table = PageTable::new(&mut heap).unwrap();
    table
        .map(&mut heap, VirtAddr::new(0x10000), PhysAddr::new(0x200000), PTEFlags::new(PRESENT))
        .unwrap();
    assert_eq!(
        table.retrieve(&heap, VirtAddr::new(0xffff_0000_0001_0000)),
        Some(PhysAddr::new(0x200000))
    );
}

#[test]
fn mapping_nothing_at_address_zero_reads_as_unmapped() {
    let mut heap = heap_at(0x100000);
    let mut table = PageTable::new(&mut heap).unwrap();
    let v = VirtAddr::new(0x10000);
    assert_eq!(table.map(&mut heap, v, PhysAddr::new(0), PTEFlags::new(0)), Ok(()));
    assert!(table.get_level1_pte(&heap, v).unwrap().is_unused());
    assert!(table.retrieve(&heap, v).is_none());
    // With a flag the frame at address zero is a mapping like any other.
    assert_eq!(table.map(&mut heap, v, PhysAddr::new(0), PTEFlags::new(PRESENT)), Ok(()));
    assert_eq!(table.retrieve(&heap, v), Some(PhysAddr::new(0)));
}

#[test]
fn two_tables_in_one_heap_do_not_meet() {
    let mut heap = heap_at(0x100000);
    let mut first = PageTable::new(&mut heap).unwrap();
    let mut second = PageTable::new(&mut heap).unwrap();
    let v = VirtAddr::new(0x10000);
    first.map(&mut heap, v, PhysAddr::new(0x200000), PTEFlags::new(PRESENT)).unwrap();
    second.map(&mut heap, v, PhysAddr::new(0x300000), PTEFlags::new(PRESENT)).unwrap();
    assert_eq!(first.retrieve(&heap, v), Some(PhysAddr::new(0x200000)));
    assert_eq!(second.retrieve(&heap, v), Some(PhysAddr::new(0x300000)));
    second.unmap(&mut heap, v);
    assert_eq!(first.retrieve(&heap, v), Some(PhysAddr::new(0x200000)));
    assert!(second.retrieve(&heap, v).is_none());
}

fn words_of(heap: &KernelHeap) -> Vec<(u64, usize, u64)> {
    let mut words = Vec::new();
    let mut frame = heap.free_mem_base().to_u64();
    while frame < heap.kernel_heap_top().to_u64() {
        for index in 0..512 {
            let word = heap.read_entry(PhysAddr::new(frame), index).unwrap().as_u64();
            if word != 0 {
                words.push((frame, index, word));
            }
        }
        frame += 4096;
    }
    words
}

#[test]
fn map_changes_the_words_on_the_way_only() {
    let mut heap = heap_at(0x100000);
    let mut table = PageTable::new(&mut heap).unwrap();
    let data = phys_page_alloc(&mut heap).unwrap();
    heap.write_entry(data, 9, PTE::from_u64(0xfeed));
    table.map(&mut heap, VirtAddr::new(0x10000), PhysAddr::new(0x200000), PTEFlags::new(PRESENT))
        .unwrap();
    assert_eq!(
        words_of(&heap),
        vec![
            (0x100000, 0, 0x102003),
            (0x101000, 9, 0xfeed),
            (0x102000, 0, 0x103003),
            (0x103000, 0, 0x104003),
            (0x104000, 16, 0x200001),
        ]
    );
    // Another page under the same level-2 table: one more level-1 entry.
    table.map(&mut heap, VirtAddr::new(0x1f000), PhysAddr::new(0x300000), PTEFlags::new(USER))
        .unwrap();
    assert_eq!(
        words_of(&heap),
        vec![
            (0x100000, 0, 0x102003),
            (0x101000, 9, 0xfeed),
            (0x102000, 0, 0x103003),
            (0x103000, 0, 0x104003),
            (0x104000, 16, 0x200001),
            (0x104000, 31, 0x300004),
        ]
    );
    table.unmap(&mut heap, VirtAddr::new(0x10000));
    assert_eq!(
        words_of(&heap),
        vec![
            (0x100000, 0, 0x102003),
            (0x101000, 9, 0xfeed),
            (0x102000, 0, 0x103003),
            (0x103000, 0, 0x104003),
            (0x104000, 31, 0x300004),
        ]
    );
}

#[test]
fn a_failed_region_keeps_its_first_pages() {
    // The root and three tables: the second level-1 table cannot be made.
    let mut heap = bounded_heap(0x100000, 4);
    let mut table = PageTable::new(&mut heap).unwrap();
    let vstart = VirtAddr::new(0x1fe000);
    let pstart = PhysAddr::new(0x800000);
    let r = table.map_region(&mut heap, vstart, pstart, 4 * 4096, PTEFlags::new(PRESENT));
    assert_eq!(r, Err(MapError::OutOfFrames));
    assert_eq!(table.retrieve(&heap, VirtAddr::new(0x1fe000)), Some(PhysAddr::new(0x800000)));
    assert_eq!(table.retrieve(&heap, VirtAddr::new(0x1ff000)), Some(PhysAddr::new(0x801000)));
    assert!(table.retrieve(&heap, VirtAddr::new(0x200000)).is_none());
    assert!(table.retrieve(&heap, VirtAddr::new(0x201000)).is_none());
}

#[test]
fn a_layout_hands_its_table_back() {
    let mut heap = heap_at(0x100000);
    let mut table = PageTable::new(&mut heap).unwrap();
    let flags = PTEFlags::new(PRESENT | WRITABLE);
    table.map(&mut heap, VirtAddr::new(0x7000), PhysAddr::new(0x9000), flags).unwrap();
    let table = KernelLayout::new(table).into_page_table();
    assert_eq!(table.base().to_u64(), 0x100000);
    assert_eq!(table.retrieve(&heap, VirtAddr::new(0x7000)).unwrap().to_u64(), 0x9000);
}
