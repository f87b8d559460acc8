use micro_os::mm::page_table_entry::PhysAddr;
use micro_os::mm::phys_mem::{PhysMemory, FRAME_BYTES, FRAME_WORDS, MAX_PHYS_ADDR};

#[test]
fn new_memory_is_empty() {
    let mem = PhysMemory::new(PhysAddr::new(0x100000)).unwrap();
    assert_eq!(mem.base_addr().to_u64(), 0x100000);
    assert_eq!(mem.end_addr().to_u64(), 0x100000);
    assert!(!mem.holds_word(PhysAddr::new(0x100000)));
    assert!(!mem.holds_frame(PhysAddr::new(0x100000)));
    assert!(mem.read(PhysAddr::new(0x100000)).is_none());
}

#[test]
fn memory_starts_at_a_frame_boundary() {
    assert!(PhysMemory::new(PhysAddr::new(0x100008)).is_none());
    assert!(PhysMemory::new(PhysAddr::new(MAX_PHYS_ADDR + FRAME_BYTES)).is_none());
    assert!(PhysMemory::new(PhysAddr::new(0)).is_some());
    assert!(PhysMemory::new(PhysAddr::new(MAX_PHYS_ADDR)).is_some());
}

#[test]
fn grow_appends_a_zero_frame() {
    let mut mem = PhysMemory::new(PhysAddr::new(0x100000)).unwrap();
    assert_eq!(mem.grow(), Some(PhysAddr::new(0x100000)));
    assert_eq!(mem.grow(), Some(PhysAddr::new(0x101000)));
    assert_eq!(mem.end_addr().to_u64(), 0x102000);
    assert_eq!(FRAME_WORDS, 512);
    for i in 0..1024u64 {
        assert_eq!(mem.read(PhysAddr::new(0x100000 + 8 * i)), Some(0));
    }
    assert!(mem.read(PhysAddr::new(0x102000)).is_none());
}

#[test]
fn grow_stops_at_the_end_of_the_address_space() {
    let mut mem = PhysMemory::new(PhysAddr::new(MAX_PHYS_ADDR - FRAME_BYTES)).unwrap();
    assert_eq!(mem.grow(), Some(PhysAddr::new(MAX_PHYS_ADDR - FRAME_BYTES)));
    assert_eq!(mem.grow(), None);
    assert_eq!(mem.end_addr().to_u64(), MAX_PHYS_ADDR);
}

#[test]
fn write_changes_one_word() {
    let mut mem = PhysMemory::new(PhysAddr::new(0x100000)).unwrap();
    mem.grow().unwrap();
    assert!(mem.write(PhysAddr::new(0x100010), 0x1234));
    assert_eq!(mem.read(PhysAddr::new(0x100010)), Some(0x1234));
    assert_eq!(mem.read(PhysAddr::new(0x100008)), Some(0));
    assert_eq!(mem.read(PhysAddr::new(0x100018)), Some(0));
}

#[test]
fn words_are_eight_bytes_apart_and_inside_the_memory() {
    let mut mem = PhysMemory::new(PhysAddr::new(0x100000)).unwrap();
    mem.grow().unwrap();
    assert!(!mem.write(PhysAddr::new(0x100004), 1));
    assert!(!mem.write(PhysAddr::new(0x101000), 1));
    assert!(!mem.write(PhysAddr::new(0xffff8), 1));
    assert!(mem.read(PhysAddr::new(0x100001)).is_none());
    assert!(mem.holds_word(PhysAddr::new(0x100ff8)));
    assert!(!mem.holds_word(PhysAddr::new(0x101000)));
    assert!(mem.holds_frame(PhysAddr::new(0x100000)));
    assert!(!mem.holds_frame(PhysAddr::new(0x100800)));
    for i in 0..512u64 {
        assert_eq!(mem.read(PhysAddr::new(0x100000 + 8 * i)), Some(0));
    }
}

#[test]
fn entries_are_the_words_of_a_frame() {
    let mut mem = PhysMemory::new(PhysAddr::new(0x100000)).unwrap();
    mem.grow().unwrap();
    mem.grow().unwrap();
    assert!(mem.write_entry(PhysAddr::new(0x101000), 3, 0xabcd));
    assert_eq!(mem.read(PhysAddr::new(0x101018)), Some(0xabcd));
    assert_eq!(mem.read_entry(PhysAddr::new(0x101000), 3), Some(0xabcd));
    assert_eq!(mem.read_entry(PhysAddr::new(0x100000), 3), Some(0));
    assert!(mem.read_entry(PhysAddr::new(0x101000), 512).is_none());
    assert!(mem.read_entry(PhysAddr::new(0x102000), 0).is_none());
    assert!(!mem.write_entry(PhysAddr::new(0x101000), 512, 1));
    assert!(!mem.write_entry(PhysAddr::new(0x101008), 0, 1));
    assert_eq!(mem.read_entry(PhysAddr::new(0x101000), 1), Some(0));
}

#[test]
fn fill_frame_sets_the_words_of_one_frame() {
    let mut mem = PhysMemory::new(PhysAddr::new(0x100000)).unwrap();
    mem.grow().unwrap();
    mem.grow().unwrap();
    mem.grow().unwrap();
    assert!(mem.fill_frame(PhysAddr::new(0x101000), 0x5a5a));
    assert_eq!(mem.read(PhysAddr::new(0x100ff8)), Some(0));
    assert_eq!(mem.read(PhysAddr::new(0x101000)), Some(0x5a5a));
    assert_eq!(mem.read(PhysAddr::new(0x101ff8)), Some(0x5a5a));
    assert_eq!(mem.read(PhysAddr::new(0x102000)), Some(0));
    assert!(!mem.fill_frame(PhysAddr::new(0x103000), 1));
    assert!(!mem.fill_frame(PhysAddr::new(0x100008), 1));
    assert_eq!(mem.read(PhysAddr::new(0x100008)), Some(0));
}
