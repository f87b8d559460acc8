use micro_os::mm::page_table_entry::PhysAddr;
use micro_os::mm::phys_mem::PhysMemory;
use micro_os::utils::linked_list::LinkedList;

fn memory_of(frames: usize) -> PhysMemory {
    let mut mem = PhysMemory::new(PhysAddr::new(0x100000)).unwrap();
    for _ in 0..frames {
        mem.grow().unwrap();
    }
    mem
}

fn nodes_of(list: &LinkedList, mem: &PhysMemory) -> Vec<u64> {
    let mut cursor = list.iter();
    let mut out = Vec::new();
    while let Some(node) = cursor.next(mem) {
        out.push(node.to_u64());
    }
    out
}

#[test]
fn a_new_list_is_empty() {
    let mem = memory_of(1);
    let mut list = LinkedList::new();
    assert!(list.is_empty());
    assert!(list.pop(&mem).is_none());
    assert!(list.iter().next(&mem).is_none());
    assert!(list.iter_mut().next(&mem).is_none());
}

#[test]
fn push_and_pop_are_last_in_first_out() {
    let mut mem = memory_of(4);
    let mut list = LinkedList::new();
    list.push(&mut mem, PhysAddr::new(0x100000));
    list.push(&mut mem, PhysAddr::new(0x102000));
    list.push(&mut mem, PhysAddr::new(0x101008));
    assert!(!list.is_empty());
    assert_eq!(nodes_of(&list, &mem), vec![0x101008, 0x102000, 0x100000]);
    assert_eq!(list.pop(&mem), Some(PhysAddr::new(0x101008)));
    assert_eq!(list.pop(&mem), Some(PhysAddr::new(0x102000)));
    assert_eq!(list.pop(&mem), Some(PhysAddr::new(0x100000)));
    assert_eq!(list.pop(&mem), None);
    assert!(list.is_empty());
}

#[test]
fn push_writes_the_link_into_the_node() {
    let mut mem = memory_of(2);
    let mut list = LinkedList::new();
    mem.write(PhysAddr::new(0x100000), 0xffff);
    list.push(&mut mem, PhysAddr::new(0x100000));
    assert_eq!(mem.read(PhysAddr::new(0x100000)), Some(0));
    list.push(&mut mem, PhysAddr::new(0x101000));
    assert_eq!(mem.read(PhysAddr::new(0x101000)), Some(0x100000));
    assert_eq!(mem.read(PhysAddr::new(0x100000)), Some(0));
    // No other word changes.
    assert_eq!(mem.read(PhysAddr::new(0x100008)), Some(0));
    assert_eq!(mem.read(PhysAddr::new(0x101008)), Some(0));
}

#[test]
fn a_node_can_be_taken_out_of_the_middle() {
    let mut mem = memory_of(4);
    let mut list = LinkedList::new();
    for addr in [0x100000u64, 0x101000, 0x102000, 0x103000] {
        list.push(&mut mem, PhysAddr::new(addr));
    }
    let mut cursor = list.iter_mut();
    let first = cursor.next(&mem).unwrap();
    assert_eq!(first.value().to_u64(), 0x103000);
    let second = cursor.next(&mem).unwrap();
    assert_eq!(second.value().to_u64(), 0x102000);
    assert_eq!(second.pop(&mut list, &mut mem).to_u64(), 0x102000);
    assert_eq!(nodes_of(&list, &mem), vec![0x103000, 0x101000, 0x100000]);
    assert_eq!(mem.read(PhysAddr::new(0x103000)), Some(0x101000));
}

#[test]
fn the_first_node_can_be_taken_out() {
    let mut mem = memory_of(2);
    let mut list = LinkedList::new();
    list.push(&mut mem, PhysAddr::new(0x100000));
    list.push(&mut mem, PhysAddr::new(0x101000));
    let node = list.iter_mut().next(&mem).unwrap();
    assert_eq!(node.pop(&mut list, &mut mem).to_u64(), 0x101000);
    assert_eq!(nodes_of(&list, &mem), vec![0x100000]);
    let last = list.iter_mut().next(&mem).unwrap();
    assert_eq!(last.pop(&mut list, &mut mem).to_u64(), 0x100000);
    assert!(list.is_empty());
}

#[test]
fn the_last_node_can_be_taken_out() {
    let mut mem = memory_of(3);
    let mut list = LinkedList::new();
    for addr in [0x100000u64, 0x101000, 0x102000] {
        list.push(&mut mem, PhysAddr::new(addr));
    }
    let mut cursor = list.iter_mut();
    cursor.next(&mem).unwrap();
    cursor.next(&mem).unwrap();
    let last = cursor.next(&mem).unwrap();
    assert!(cursor.next(&mem).is_none());
    assert_eq!(last.pop(&mut list, &mut mem).to_u64(), 0x100000);
    assert_eq!(nodes_of(&list, &mem), vec![0x102000, 0x101000]);
    assert_eq!(mem.read(PhysAddr::new(0x101000)), Some(0));
}
