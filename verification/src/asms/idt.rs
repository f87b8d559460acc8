//! The interrupt descriptor table: the vector of handlers, the entries that
//! the CPU reads, the table's pointer and the table.
//!
//! An entry is modelled by its two 64-bit words: bits 0 to 15 of the
//! handler's address, the segment selector, the IST offset, the attribute
//! byte and bits 16 to 31 of the address in the low word; bits 32 to 47 of
//! the address in the high word.

use vstd::prelude::*;
use super::gdt::{GDT_KERNEL_CODE, table_pointer_words, lemma_address_halves};

verus! {

/// Gate type and DPL for interrupts.
pub const ATTR_INT_GATE: u8 = 0x8e;

/// Gate type and DPL for traps.
pub const ATTR_TRAP_GATE: u8 = 0x8f;

/// Total number of interrupt descriptor entries.
pub const NUM_INTERRUPT_DESP_ENTRIES: usize = 256;

pub const MASTER_PIC_BOUND: u32 = 0x20;

pub const SLAVE_PIC_BOUND: u32 = 0x28;

/// An interrupt handler, known by the address of its entry point.
pub type InterruptHandler = u64;

/// The interrupts that the kernel knows.
#[derive(Clone, Copy, Debug, PartialEq, Eq, Structural)]
pub enum InterruptTypes {
    IvDevideError,
    IvDebug,
    IvNMI,
    IvBreakpoint,
    IvOverflow,
    IvBoundCheck,
    IvInvalidOpcode,
    IvDeviceNotAvailable,
    IvDoubleFault,
    IvCoprocessorSegOverrun,
    IvInvalidTss,
    IvSegmentNotPresent,
    IvStackSegment,
    IvGeneralProtection,
    IVPageFault,
    IvIntelReserved,
    IvFloatingPointError,
    IvAlignmentCheck,
    IvTimer,
    IvKeyboard,
    IvPicCascade,
    IvNetwork,
    IvMouse,
    IvIDE,
    IvSyscall,
}

impl InterruptTypes {
    /// The vector of the interrupt: the exceptions count up from 0, the
    /// devices from 0x20, the disk has 0x2e and the system call 0x80.
    pub open spec fn vector_of(self) -> int {
        match self {
            InterruptTypes::IvDevideError => 0,
            InterruptTypes::IvDebug => 1,
            InterruptTypes::IvNMI => 2,
            InterruptTypes::IvBreakpoint => 3,
            InterruptTypes::IvOverflow => 4,
            InterruptTypes::IvBoundCheck => 5,
            InterruptTypes::IvInvalidOpcode => 6,
            InterruptTypes::IvDeviceNotAvailable => 7,
            InterruptTypes::IvDoubleFault => 8,
            InterruptTypes::IvCoprocessorSegOverrun => 9,
            InterruptTypes::IvInvalidTss => 10,
            InterruptTypes::IvSegmentNotPresent => 11,
            InterruptTypes::IvStackSegment => 12,
            InterruptTypes::IvGeneralProtection => 13,
            InterruptTypes::IVPageFault => 14,
            InterruptTypes::IvIntelReserved => 15,
            InterruptTypes::IvFloatingPointError => 16,
            InterruptTypes::IvAlignmentCheck => 17,
            InterruptTypes::IvTimer => 0x20,
            InterruptTypes::IvKeyboard => 0x21,
            InterruptTypes::IvPicCascade => 0x22,
            InterruptTypes::IvNetwork => 0x23,
            InterruptTypes::IvMouse => 0x24,
            InterruptTypes::IvIDE => 0x2e,
            InterruptTypes::IvSyscall => 0x80,
        }
    }

    /// The vector of the interrupt, an index into the tables.
    pub fn vector(&self) -> (r: usize)
        ensures
            r == self.vector_of(),
            r < 256,
    {
        match self {
            InterruptTypes::IvDevideError => 0,
            InterruptTypes::IvDebug => 1,
            InterruptTypes::IvNMI => 2,
            InterruptTypes::IvBreakpoint => 3,
            InterruptTypes::IvOverflow => 4,
            InterruptTypes::IvBoundCheck => 5,
            InterruptTypes::IvInvalidOpcode => 6,
            InterruptTypes::IvDeviceNotAvailable => 7,
            InterruptTypes::IvDoubleFault => 8,
            InterruptTypes::IvCoprocessorSegOverrun => 9,
            InterruptTypes::IvInvalidTss => 10,
            InterruptTypes::IvSegmentNotPresent => 11,
            InterruptTypes::IvStackSegment => 12,
            InterruptTypes::IvGeneralProtection => 13,
            InterruptTypes::IVPageFault => 14,
            InterruptTypes::IvIntelReserved => 15,
            InterruptTypes::IvFloatingPointError => 16,
            InterruptTypes::IvAlignmentCheck => 17,
            InterruptTypes::IvTimer => 0x20,
            InterruptTypes::IvKeyboard => 0x21,
            InterruptTypes::IvPicCascade => 0x22,
            InterruptTypes::IvNetwork => 0x23,
            InterruptTypes::IvMouse => 0x24,
            InterruptTypes::IvIDE => 0x2e,
            InterruptTypes::IvSyscall => 0x80,
        }
    }
}

/// Interrupt Vectors: for each vector the address of its handler, zero
/// where there is none, and whether the CPU pushes an error code for it.
/// Its view is the sequence of the 256 addresses.
pub struct IV64 {
    entries: [InterruptHandler; NUM_INTERRUPT_DESP_ENTRIES],
    error_codes: [bool; NUM_INTERRUPT_DESP_ENTRIES],
}

impl View for IV64 {
    type V = Seq<u64>;

    closed spec fn view(&self) -> Seq<u64> {
        self.entries@
    }
}

impl IV64 {
    /// For each vector, whether its handler takes an error code.
    pub closed spec fn error_codes(&self) -> Seq<bool> {
        self.error_codes@
    }

    /// Create a new interrupt vector: no handler anywhere.
    pub fn new() -> (r: Self)
        ensures
            r@.len() == 256,
            r.error_codes().len() == 256,
            forall|i: int| 0 <= i < 256 ==> r@[i] == 0 && !r.error_codes()[i],
    {
        Self {
            entries: [0u64;NUM_INTERRUPT_DESP_ENTRIES],
            error_codes: [false;NUM_INTERRUPT_DESP_ENTRIES],
        }
    }

    /// Setup the interrupt vector in default: every vector stays as it is.
    pub fn default_setup(&mut self)
        ensures
            final(self)@ == old(self)@,
            final(self).error_codes() == old(self).error_codes(),
    {
    }

    /// Set one interrupt handler: the vector of `intr_type` gets `handler`
    /// and the note whether it takes an error code; no other vector
    /// changes.
    pub fn set_handler(
        &mut self,
        intr_type: InterruptTypes,
        with_error_code: bool,
        handler: InterruptHandler,
    )
        ensures
            final(self)@ == old(self)@.update(intr_type.vector_of(), handler),
            final(self).error_codes() == old(self).error_codes().update(
                intr_type.vector_of(),
                with_error_code,
            ),
    {
        let vector: usize = intr_type.vector();
        self.entries[vector] = handler;
        self.error_codes[vector] = with_error_code;
        assert(self.entries@ =~= old(self).entries@.update(vector as int, handler));
        assert(self.error_codes@ =~= old(self).error_codes@.update(vector as int, with_error_code));
    }

    /// The handler of `vector`.
    pub fn handler(&self, vector: usize) -> (r: InterruptHandler)
        requires
            vector < 256,
        ensures
            r == self@[vector as int],
    {
        self.entries[vector]
    }

    /// Whether the handler of `vector` takes an error code.
    pub fn takes_error_code(&self, vector: usize) -> (r: bool)
        requires
            vector < 256,
        ensures
            r == self.error_codes()[vector as int],
    {
        self.error_codes[vector]
    }
}

/// The low word of the entry for the handler at `offset`.
pub open spec fn ide_low_word(
    offset: u64,
    gdt_selector: u16,
    ist_offset: u8,
    privilege: u8,
) -> u64 {
    (offset & 0xffff) | ((gdt_selector as u64) << 16) | ((ist_offset as u64) << 32) | ((
    privilege as u64) << 40) | (((offset >> 16) & 0xffff) << 48)
}

/// The high word of the entry for the handler at `offset`: bits 32 to 47 of
/// the address.
pub open spec fn ide_high_word(offset: u64) -> u64 {
    (offset >> 32) & 0xffff
}

/// The fields of an entry fit their widths, and the words of the entry for
/// no handler are zero.
proof fn lemma_ide_fields(offset: u64)
    ensures
        offset & 0xffff <= 0xffff,
        (offset >> 16) & 0xffff <= 0xffff,
        (offset >> 32) & 0xffff <= 0xffff,
        ((offset >> 32) & 0xffff) | (0u64 << 32) == (offset >> 32) & 0xffff,
        0u64 | (0u64 << 16) | (0u64 << 32) | (0u64 << 40) | (0u64 << 48) == 0,
        0u64 | (0u64 << 32) == 0,
{
    assert(offset & 0xffff <= 0xffff && (offset >> 16) & 0xffff <= 0xffff && (offset >> 32) & 0xffff
        <= 0xffff && ((offset >> 32) & 0xffff) | (0u64 << 32) == (offset >> 32) & 0xffff && 0u64
        | (0u64 << 16) | (0u64 << 32) | (0u64 << 40) | (0u64 << 48) == 0 && 0u64 | (0u64 << 32)
        == 0) by (bit_vector);
}

/// Interrupt Descriptor Entry. Its view is its low and its high word.
#[derive(Clone, Copy)]
pub struct IDE64 {
    offset_low: u16,
    selector: u16,
    ist: u8,
    gate_and_dpl: u8,
    offset_mid: u16,
    offset_high: u32,
    reserved: u32,
}

impl View for IDE64 {
    type V = (u64, u64);

    closed spec fn view(&self) -> (u64, u64) {
        (
            (self.offset_low as u64) | ((self.selector as u64) << 16) | ((self.ist as u64) << 32)
                | ((self.gate_and_dpl as u64) << 40) | ((self.offset_mid as u64) << 48),
            (self.offset_high as u64) | ((self.reserved as u64) << 32),
        )
    }
}

impl IDE64 {
    /// Create a new Interrupt Descriptor Entry.
    pub fn new(offset: u64, gdt_selector: u16, ist_offset: u8, privilege: u8) -> (r: Self)
        ensures
            r@ == (
                ide_low_word(offset, gdt_selector, ist_offset, privilege),
                ide_high_word(offset),
            ),
    {
        proof {
            lemma_ide_fields(offset);
        }
        Self {
            offset_low: (offset & 0xffff) as u16,
            selector: gdt_selector,
            ist: ist_offset,
            gate_and_dpl: privilege,
            offset_mid: ((offset >> 16) & 0xffff) as u16,
            offset_high: ((offset >> 32) & 0xffff) as u32,
            reserved: 0,
        }
    }

    /// Create a null Interrupt Descriptor Entry: both words are zero.
    pub fn null() -> (r: Self)
        ensures
            r@ == (0u64, 0u64),
    {
        proof {
            lemma_ide_fields(0);
        }
        Self {
            offset_low: 0,
            selector: 0,
            ist: 0,
            gate_and_dpl: 0,
            offset_mid: 0,
            offset_high: 0,
            reserved: 0,
        }
    }

    /// The two words of the entry as the table holds them in memory, the
    /// low word first.
    pub fn to_words(&self) -> (r: (u64, u64))
        ensures
            r == self@,
    {
        (
            (self.offset_low as u64) | ((self.selector as u64) << 16) | ((self.ist as u64) << 32)
                | ((self.gate_and_dpl as u64) << 40) | ((self.offset_mid as u64) << 48),
            (self.offset_high as u64) | ((self.reserved as u64) << 32),
        )
    }
}

/// Interrupt Descriptor Table Pointer: the number of entries, then the low
/// and the high half of the table's address. Its view is these three
/// words.
#[derive(Clone, Copy)]
pub struct IDTR {
    idtr: [u32; 3],
}

impl View for IDTR {
    type V = Seq<u32>;

    closed spec fn view(&self) -> Seq<u32> {
        self.idtr@
    }
}

impl IDTR {
    /// Create a null idtr.
    pub fn null() -> (r: Self)
        ensures
            r@ == seq![0u32, 0u32, 0u32],
    {
        let r: IDTR = Self { idtr: [0, 0, 0] };
        assert(r@ =~= seq![0u32, 0u32, 0u32]);
        r
    }

    /// Create a new idtr.
    pub fn new(num_entries: u32, idt_base: u64) -> (r: Self)
        ensures
            r@ == table_pointer_words(num_entries, idt_base),
    {
        proof {
            lemma_address_halves(idt_base);
        }
        let r: IDTR = Self {
            idtr: [
                num_entries,
                (idt_base & 0xffff_ffff) as u32,
                ((idt_base >> 32) & 0xffff_ffff) as u32,
            ],
        };
        assert(r@ =~= table_pointer_words(num_entries, idt_base));
        r
    }

    /// The three words of the pointer.
    pub fn to_words(&self) -> (r: [u32; 3])
        ensures
            r@ == self@,
    {
        self.idtr
    }
}

/// Interrupt Descriptor Table. Its view is the words of its 256 entries.
pub struct IDT64 {
    iv: IV64,
    entries: [IDE64; NUM_INTERRUPT_DESP_ENTRIES],
    idtr: IDTR,
}

impl View for IDT64 {
    type V = Seq<(u64, u64)>;

    closed spec fn view(&self) -> Seq<(u64, u64)> {
        Seq::new(256, |i: int| self.entries@[i]@)
    }
}

/// The words of the interrupt gate for the handler at `handler`: the
/// selector of the kernel's segment, IST offset 0 and the attributes of an
/// interrupt gate.
pub open spec fn interrupt_gate(handler: u64) -> (u64, u64) {
    (ide_low_word(handler, GDT_KERNEL_CODE as u16, 0, ATTR_INT_GATE), ide_high_word(handler))
}

impl IDT64 {
    /// The interrupt vectors of the table.
    pub closed spec fn vectors(&self) -> IV64 {
        self.iv
    }

    /// The pointer of the table.
    pub closed spec fn pointer(&self) -> IDTR {
        self.idtr
    }

    /// Create a new idt: no handler, null entries and a null pointer.
    pub fn new() -> (r: Self)
        ensures
            r@.len() == 256,
            forall|i: int| 0 <= i < 256 ==> r@[i] == (0u64, 0u64),
            r.vectors()@.len() == 256,
            forall|i: int| 0 <= i < 256 ==> r.vectors()@[i] == 0,
            r.pointer()@ == seq![0u32, 0u32, 0u32],
    {
        Self {
            iv: IV64::new(),
            entries: [IDE64::null();NUM_INTERRUPT_DESP_ENTRIES],
            idtr: IDTR::null(),
        }
    }

    /// Defaultly setup the idt: each entry becomes the interrupt gate for
    /// the handler of its vector.
    pub fn default_setup(&mut self)
        ensures
            final(self).vectors()@ == old(self).vectors()@,
            final(self).pointer() == old(self).pointer(),
            final(self)@.len() == 256,
            forall|i: int|
                0 <= i < 256 ==> final(self)@[i] == interrupt_gate(old(self).vectors()@[i]),
    {
        self.iv.default_setup();
        let mut i: usize = 0;
        while i < NUM_INTERRUPT_DESP_ENTRIES
            invariant
                0 <= i <= 256,
                self.iv@ == old(self).iv@,
                self.idtr == old(self).idtr,
                forall|j: int| 0 <= j < i ==> self.entries@[j]@ == interrupt_gate(self.iv@[j]),
            decreases 256 - i,
        {
            let handler: InterruptHandler = self.iv.handler(i);
            let entry: IDE64 = IDE64::new(handler, GDT_KERNEL_CODE as u16, 0, ATTR_INT_GATE);
            self.entries[i] = entry;
            i = i + 1;
        }
    }

    /// Set a particular interrupt handler: the vector of `intr_type` gets
    /// `handler`, and its entry becomes the interrupt gate for it. No other
    /// vector and no other entry changes.
    pub fn set_handler(
        &mut self,
        with_error_code: bool,
        intr_type: InterruptTypes,
        handler: InterruptHandler,
    )
        ensures
            final(self).vectors()@ == old(self).vectors()@.update(intr_type.vector_of(), handler),
            final(self).vectors().error_codes() == old(self).vectors().error_codes().update(
                intr_type.vector_of(),
                with_error_code,
            ),
            final(self).pointer() == old(self).pointer(),
            final(self)@ == old(self)@.update(intr_type.vector_of(), interrupt_gate(handler)),
    {
        self.iv.set_handler(intr_type, with_error_code, handler);
        let vector: usize = intr_type.vector();
        let installed: InterruptHandler = self.iv.handler(vector);
        let entry: IDE64 = IDE64::new(installed, GDT_KERNEL_CODE as u16, 0, ATTR_INT_GATE);
        self.entries[vector] = entry;
        assert(self@ =~= old(self)@.update(intr_type.vector_of(), interrupt_gate(handler)));
    }

    /// Entry `index` of the table.
    pub fn entry(&self, index: usize) -> (r: IDE64)
        requires
            index < 256,
        ensures
            r@ == self@[index as int],
    {
        self.entries[index]
    }

    /// Enable the idt: its pointer is set to the 256 entries at
    /// `entries_addr`, the address at which the caller has laid them out.
    /// The result is the pointer, for the caller to load.
    pub fn enable(&mut self, entries_addr: u64) -> (r: IDTR)
        ensures
            final(self)@ == old(self)@,
            final(self).vectors() == old(self).vectors(),
            final(self).pointer()@ == table_pointer_words(256, entries_addr),
            r@ == table_pointer_words(256, entries_addr),
    {
        self.idtr = IDTR::new(NUM_INTERRUPT_DESP_ENTRIES as u32, entries_addr);
        self.idtr
    }
}

/// Interrupt Stack Frame: what the CPU pushes before it enters a handler.
#[derive(Clone, Copy)]
pub struct IntrStackFrame {
    rip: u64,
    cs: u64,
    rflags: u64,
    rsp: u64,
    ss: u64,
}

} // verus!
