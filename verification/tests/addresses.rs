use micro_os::mm::page_table_entry::{PhysAddr, VirtAddr};
use micro_os::mm::phys_page::{phys_to_virt, simple_phys_to_virt};

#[test]
fn indices_of_a_virtual_address() {
    // 0x0000_7f12_3456_7abc: bits 39..47 = 0xfe, 30..38 = 0x48, 21..29 = 0x1a2, 12..20 = 0x167.
    let v = VirtAddr::new(0x0000_7f12_3456_7abc);
    assert_eq!(v.l4_index(), 0xfe);
    assert_eq!(v.l3_index(), 0x48);
    assert_eq!(v.l2_index(), 0x1a2);
    assert_eq!(v.l1_index(), 0x167);
    assert_eq!(v.offset(), 0xabc);
}

#[test]
fn index_by_level_matches_the_named_functions() {
    let v = VirtAddr::new(0x0000_7f12_3456_7abc);
    assert_eq!(v.index(4), v.l4_index());
    assert_eq!(v.index(3), v.l3_index());
    assert_eq!(v.index(2), v.l2_index());
    assert_eq!(v.index(1), v.l1_index());
}

#[test]
fn index_of_a_level_outside_one_to_four_is_512() {
    let v = VirtAddr::new(0x0000_7f12_3456_7abc);
    assert_eq!(v.index(0), 0x200);
    assert_eq!(v.index(5), 0x200);
    assert_eq!(v.index(u32::MAX), 0x200);
}

#[test]
fn indices_and_offset_put_together_give_the_low_48_bits() {
    let samples: [u64; 6] = [
        0,
        0xfff,
        0x1000,
        0x0000_7f12_3456_7abc,
        0xffff_ffff_ffff_ffff,
        0x8000_0000_0000_0000,
    ];
    for a in samples {
        let v = VirtAddr::new(a);
        let l4 = v.l4_index() as u64;
        let l3 = v.l3_index() as u64;
        let l2 = v.l2_index() as u64;
        let l1 = v.l1_index() as u64;
        let off = v.offset() as u64;
        assert!(l4 < 512 && l3 < 512 && l2 < 512 && l1 < 512 && off < 4096);
        let low48 = a & 0x0000_ffff_ffff_ffff;
        assert_eq!((l4 << 39) | (l3 << 30) | (l2 << 21) | (l1 << 12) | off, low48);
        assert_eq!((l4 << 39) + (l3 << 30) + (l2 << 21) + (l1 << 12) + off, low48);
        assert_eq!(off, a & 0xfff);
    }
}

#[test]
fn highest_indices_are_511() {
    let v = VirtAddr::new(0xffff_ffff_ffff_ffff);
    assert_eq!(v.l4_index(), 511);
    assert_eq!(v.l3_index(), 511);
    assert_eq!(v.l2_index(), 511);
    assert_eq!(v.l1_index(), 511);
    assert_eq!(v.offset(), 4095);
}

#[test]
fn addresses_move_by_byte_offsets() {
    let p = PhysAddr::new(0x100000);
    assert_eq!((p + 0x1000usize).to_u64(), 0x101000);
    assert_eq!((p - 0x1000usize).to_u64(), 0xff000);
    assert_eq!(((p + 8usize) - 8usize).to_u64(), 0x100000);
    let v = VirtAddr::new(0x4000);
    assert_eq!((v + 0x2000usize).to_u64(), 0x6000);
    assert_eq!((v - 0x4000usize).to_u64(), 0);
}

#[test]
fn addresses_convert_from_and_to_numbers() {
    assert_eq!(PhysAddr::from(0xb8000usize).to_u64(), 0xb8000);
    assert_eq!(PhysAddr::from(0xb8000usize).to_usize(), 0xb8000);
    assert_eq!(VirtAddr::from(0x1234usize).to_u64(), 0x1234);
    assert_eq!(VirtAddr::from(0x1234usize).to_usize(), 0x1234);
    assert_eq!(PhysAddr::new(7), PhysAddr::from(7usize));
    assert_eq!(VirtAddr::new(7), VirtAddr::from(7usize));
    assert_eq!(PhysAddr::default().to_u64(), 0);
}

#[test]
fn addresses_are_ordered_by_their_numbers() {
    assert!(PhysAddr::new(0x1000) < PhysAddr::new(0x2000));
    assert!(VirtAddr::new(0x3000) > VirtAddr::new(0x2000));
}

#[test]
fn direct_mapping_keeps_the_number() {
    assert_eq!(simple_phys_to_virt(PhysAddr::new(0xb8000)).to_u64(), 0xb8000);
    assert_eq!(phys_to_virt(PhysAddr::new(0x123000)).to_u64(), 0x123000);
}
