use micro_os::asms::gdt::{
    GDE64, GDT64, GDTR, GDT_KERNEL_CODE, GDT_KERNEL_DATA, GDT_USER_CODE, GDT_USER_DATA,
    NUM_GLOBAL_DESP_ENTRIES,
};
use micro_os::asms::idt::{
    InterruptTypes, ATTR_INT_GATE, ATTR_TRAP_GATE, IDE64, IDT64, IDTR, IV64,
    NUM_INTERRUPT_DESP_ENTRIES,
};
use micro_os::locks::spin::Spinlock;

#[test]
fn gdt_entry_words() {
    assert_eq!(GDE64::new(0, 0, 0, 0).to_words(), (0, 0));
    assert_eq!(GDE64::new(0xffff, 0, 0xa, 0x9a).to_words(), (0x000a_9a00_0000_ffff, 0));
    assert_eq!(GDE64::new(0xffff, 0, 0xc, 0xf2).to_words(), (0x000c_f200_0000_ffff, 0));
    // Limit bits 16 to 19 join the flags; the base is spread over four fields.
    assert_eq!(
        GDE64::new(0xf_ffff, 0x1122_3344_5566_7788, 0xa0, 0x9a).to_words(),
        (0x55af_9a66_7788_ffff, 0x1122_3344)
    );
}

#[test]
fn gdt_pointer_words() {
    assert_eq!(GDTR::new(6, 0).to_words(), [6, 0, 0]);
    assert_eq!(GDTR::new(6, 0x1122_3344_5566_7788).to_words(), [6, 0x5566_7788, 0x1122_3344]);
}

#[test]
fn gdt_has_six_entries() {
    let gdt = GDT64::new();
    assert_eq!(NUM_GLOBAL_DESP_ENTRIES, 6);
    assert_eq!(gdt.entry(0).to_words(), (0, 0));
    assert_eq!(gdt.entry(1).to_words(), (0x000c_9a00_0000_ffff, 0));
    assert_eq!(gdt.entry(2).to_words(), (0x000a_9a00_0000_ffff, 0));
    assert_eq!(gdt.entry(3).to_words(), (0x000c_9200_0000_ffff, 0));
    assert_eq!(gdt.entry(4).to_words(), (0x000a_fa00_0000_ffff, 0));
    assert_eq!(gdt.entry(5).to_words(), (0x000c_f200_0000_ffff, 0));
}

#[test]
fn gdt_selectors() {
    assert_eq!(GDT64::selector(0), 0);
    assert_eq!(GDT64::selector(1) as u64, GDT_KERNEL_CODE);
    assert_eq!(GDT64::selector(2) as u64, GDT_KERNEL_DATA);
    assert_eq!(GDT64::selector(3) as u64, GDT_USER_DATA);
    assert_eq!(GDT64::selector(4) as u64, GDT_USER_CODE);
    assert_eq!(GDT64::selector(0x1fff), 0xfff8);
    assert_eq!(GDT64::selector(0x2001), 0x0008);
}

#[test]
fn gdt_enable_points_at_the_entries() {
    let mut gdt = GDT64::new();
    let pointer = gdt.enable(0xffff_8000_0010_2000);
    assert_eq!(pointer.to_words(), [6, 0x0010_2000, 0xffff_8000]);
    assert_eq!(gdt.entry(2).to_words(), (0x000a_9a00_0000_ffff, 0));
}

#[test]
fn interrupt_vectors() {
    assert_eq!(InterruptTypes::IvDevideError.vector(), 0);
    assert_eq!(InterruptTypes::IvDoubleFault.vector(), 8);
    assert_eq!(InterruptTypes::IVPageFault.vector(), 14);
    assert_eq!(InterruptTypes::IvAlignmentCheck.vector(), 17);
    assert_eq!(InterruptTypes::IvTimer.vector(), 0x20);
    assert_eq!(InterruptTypes::IvKeyboard.vector(), 0x21);
    assert_eq!(InterruptTypes::IvPicCascade.vector(), 0x22);
    assert_eq!(InterruptTypes::IvNetwork.vector(), 0x23);
    assert_eq!(InterruptTypes::IvMouse.vector(), 0x24);
    assert_eq!(InterruptTypes::IvIDE.vector(), 0x2e);
    assert_eq!(InterruptTypes::IvSyscall.vector(), 0x80);
}

#[test]
fn idt_entry_words() {
    assert_eq!(IDE64::null().to_words(), (0, 0));
    assert_eq!(
        IDE64::new(0x1234_5678_9abc_def0, 0x08, 0, ATTR_INT_GATE).to_words(),
        (0x9abc_8e00_0008_def0, 0x5678)
    );
    assert_eq!(
        IDE64::new(0xffff_ffff_ffff_ffff, 0x10, 3, ATTR_TRAP_GATE).to_words(),
        (0xffff_8f03_0010_ffff, 0xffff)
    );
}

#[test]
fn idt_pointer_words() {
    assert_eq!(IDTR::null().to_words(), [0, 0, 0]);
    assert_eq!(IDTR::new(256, 0x1_0000_2000).to_words(), [256, 0x2000, 1]);
}

#[test]
fn vector_table_keeps_the_handlers() {
    let mut iv = IV64::new();
    for i in 0..NUM_INTERRUPT_DESP_ENTRIES {
        assert_eq!(iv.handler(i), 0);
        assert!(!iv.takes_error_code(i));
    }
    iv.set_handler(InterruptTypes::IVPageFault, true, 0xffff_8000_0000_1000);
    iv.set_handler(InterruptTypes::IvTimer, false, 0xffff_8000_0000_2000);
    iv.default_setup();
    assert_eq!(iv.handler(14), 0xffff_8000_0000_1000);
    assert!(iv.takes_error_code(14));
    assert_eq!(iv.handler(0x20), 0xffff_8000_0000_2000);
    assert!(!iv.takes_error_code(0x20));
    assert_eq!(iv.handler(13), 0);
    assert_eq!(iv.handler(15), 0);
}

#[test]
fn idt_set_handler_writes_an_interrupt_gate() {
    let mut idt = IDT64::new();
    for i in 0..NUM_INTERRUPT_DESP_ENTRIES {
        assert_eq!(idt.entry(i).to_words(), (0, 0));
    }
    idt.set_handler(false, InterruptTypes::IvSyscall, 0x1234_5678_9abc_def0);
    assert_eq!(idt.entry(0x80).to_words(), (0x9abc_8e00_0008_def0, 0x5678));
    assert_eq!(idt.entry(0x7f).to_words(), (0, 0));
    assert_eq!(idt.entry(0x81).to_words(), (0, 0));
}

#[test]
fn idt_default_setup_writes_a_gate_for_every_vector() {
    let mut idt = IDT64::new();
    idt.set_handler(true, InterruptTypes::IvDoubleFault, 0x40_1000);
    idt.default_setup();
    // A vector without a handler gets a gate for address zero.
    assert_eq!(idt.entry(0).to_words(), (0x0000_8e00_0008_0000, 0));
    assert_eq!(idt.entry(255).to_words(), (0x0000_8e00_0008_0000, 0));
    assert_eq!(idt.entry(8).to_words(), (0x0040_8e00_0008_1000, 0));
}

#[test]
fn idt_enable_points_at_the_entries() {
    let mut idt = IDT64::new();
    let pointer = idt.enable(0x0000_0001_0020_3000);
    assert_eq!(pointer.to_words(), [256, 0x0020_3000, 1]);
}

#[test]
fn a_new_spin_lock_can_be_made() {
    let _lock = Spinlock::new();
}
