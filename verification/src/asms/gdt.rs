//! The global descriptor table: its entries, its pointer and the table.
//!
//! An entry is modelled by the two 64-bit words that the CPU reads: limit
//! bits 0 to 15, base bits 0 to 23, the access byte, the flags with limit
//! bits 16 to 19, and base bits 24 to 31 in the low word; base bits 32 to
//! 63 and a reserved half in the high word.

use vstd::prelude::*;

verus! {

/// GDT Selectors.
pub const GDT_KERNEL_CODE: u64 = 0x08;

pub const GDT_KERNEL_DATA: u64 = 0x10;

pub const GDT_USER_DATA: u64 = 0x18;

pub const GDT_USER_CODE: u64 = 0x20;

/// Total number of global descriptor entries.
pub const NUM_GLOBAL_DESP_ENTRIES: usize = 6;

/// The low word of the entry for a segment: its limit, the low 32 bits of
/// its base, the access byte `privilege`, and `flags` laid over bits 16 to
/// 19 of the limit.
pub open spec fn gde_low_word(limit: u64, base: u64, flags: u8, privilege: u8) -> u64 {
    (limit & 0xffff) | ((base & 0xffff) << 16) | (((base >> 16) & 0xff) << 32) | ((
    privilege as u64) << 40) | ((((limit >> 16) & 0xf) | (flags as u64)) << 48) | (((base >> 24)
        & 0xff) << 56)
}

/// The high word of the entry for a segment: the high 32 bits of its base.
pub open spec fn gde_high_word(base: u64) -> u64 {
    (base >> 32) & 0xffff_ffff
}

/// The fields of an entry fit their widths.
proof fn lemma_gde_fields(limit: u64, base: u64, flags: u8)
    ensures
        limit & 0xffff <= 0xffff,
        base & 0xffff <= 0xffff,
        (base >> 16) & 0xff <= 0xff,
        ((limit >> 16) & 0xf) | (flags as u64) <= 0xff,
        (base >> 24) & 0xff <= 0xff,
        (base >> 32) & 0xffff_ffff <= 0xffff_ffff,
{
    assert(limit & 0xffff <= 0xffff && base & 0xffff <= 0xffff && (base >> 16) & 0xff <= 0xff && ((
    limit >> 16) & 0xf) | (flags as u64) <= 0xff && (base >> 24) & 0xff <= 0xff && (base >> 32)
        & 0xffff_ffff <= 0xffff_ffff) by (bit_vector);
}

/// Global Descriptor Entry.
#[derive(Clone, Copy)]
pub struct GDE64 {
    limit_low: u16,
    base_low: u16,
    base_mid: u8,
    access: u8,
    flags_and_limit: u8,
    base_high: u8,
    base_extend: u32,
    reserved: u32,
}

impl View for GDE64 {
    type V = (u64, u64);

    /// The low and the high word of the entry.
    closed spec fn view(&self) -> (u64, u64) {
        (
            (self.limit_low as u64) | ((self.base_low as u64) << 16) | ((self.base_mid as u64)
                << 32) | ((self.access as u64) << 40) | ((self.flags_and_limit as u64) << 48) | ((
            self.base_high as u64) << 56),
            (self.base_extend as u64) | ((self.reserved as u64) << 32),
        )
    }
}

impl GDE64 {
    /// Create a new global descriptor entry.
    pub fn new(limit: u64, base: u64, flags: u8, privilege: u8) -> (r: Self)
        ensures
            r@ == (gde_low_word(limit, base, flags, privilege), gde_high_word(base)),
    {
        proof {
            lemma_gde_fields(limit, base, flags);
            assert(((base >> 32) & 0xffff_ffff) | (0u64 << 32) == (base >> 32) & 0xffff_ffff)
                by (bit_vector);
        }
        Self {
            limit_low: (limit & 0xffff) as u16,
            base_low: (base & 0xffff) as u16,
            base_mid: ((base >> 16) & 0xff) as u8,
            access: privilege,
            flags_and_limit: (((limit >> 16) & 0xf) | flags as u64) as u8,
            base_high: ((base >> 24) & 0xff) as u8,
            base_extend: ((base >> 32) & 0xffff_ffff) as u32,
            reserved: 0,
        }
    }

    /// The two words of the entry as the table holds them in memory, the
    /// low word first.
    pub fn to_words(&self) -> (r: (u64, u64))
        ensures
            r == self@,
    {
        (
            (self.limit_low as u64) | ((self.base_low as u64) << 16) | ((self.base_mid as u64)
                << 32) | ((self.access as u64) << 40) | ((self.flags_and_limit as u64) << 48) | ((
            self.base_high as u64) << 56),
            (self.base_extend as u64) | ((self.reserved as u64) << 32),
        )
    }
}

/// Global Descriptor Table Pointer: the number of entries, then the low and
/// the high half of the table's address. Its view is these three words.
#[derive(Clone, Copy)]
pub struct GDTR {
    gdtr: [u32; 3],
}

impl View for GDTR {
    type V = Seq<u32>;

    closed spec fn view(&self) -> Seq<u32> {
        self.gdtr@
    }
}

/// The three words of a pointer to a table of `num_entries` entries at
/// `base`.
pub open spec fn table_pointer_words(num_entries: u32, base: u64) -> Seq<u32> {
    seq![num_entries, (base & 0xffff_ffff) as u32, ((base >> 32) & 0xffff_ffff) as u32]
}

/// The two halves of an address fit 32 bits each, and put together they
/// are the address.
pub proof fn lemma_address_halves(base: u64)
    ensures
        base & 0xffff_ffff <= 0xffff_ffff,
        (base >> 32) & 0xffff_ffff <= 0xffff_ffff,
        ((base >> 32) & 0xffff_ffff) << 32 | (base & 0xffff_ffff) == base,
{
    assert(base & 0xffff_ffff <= 0xffff_ffff && (base >> 32) & 0xffff_ffff <= 0xffff_ffff && ((base
        >> 32) & 0xffff_ffff) << 32 | (base & 0xffff_ffff) == base) by (bit_vector);
}

impl GDTR {
    /// Create a new global descriptor table pointer.
    pub fn new(num_entries: u32, gdt_base: u64) -> (r: Self)
        ensures
            r@ == table_pointer_words(num_entries, gdt_base),
    {
        proof {
            lemma_address_halves(gdt_base);
        }
        let r: GDTR = Self {
            gdtr: [
                num_entries,
                (gdt_base & 0xffff_ffff) as u32,
                ((gdt_base >> 32) & 0xffff_ffff) as u32,
            ],
        };
        assert(r@ =~= table_pointer_words(num_entries, gdt_base));
        r
    }

    /// The three words of the pointer.
    pub fn to_words(&self) -> (r: [u32; 3])
        ensures
            r@ == self@,
    {
        self.gdtr
    }
}

/// Global Descriptor Table. Its view is the words of its six entries.
#[derive(Clone, Copy)]
pub struct GDT64 {
    entries: [GDE64; NUM_GLOBAL_DESP_ENTRIES],
    gdtr: GDTR,
}

impl View for GDT64 {
    type V = Seq<(u64, u64)>;

    closed spec fn view(&self) -> Seq<(u64, u64)> {
        Seq::new(6, |i: int| self.entries@[i]@)
    }
}

impl GDT64 {
    /// The pointer of the table.
    pub closed spec fn pointer(&self) -> GDTR {
        self.gdtr
    }

    /// Create a new global descriptor table: the null entry, kernel code
    /// for 32 and for 64 bits, kernel data, user code and user data, each
    /// with base 0 and limit 0xffff, and a pointer to six entries at no
    /// address yet.
    pub fn new() -> (r: Self)
        ensures
            r@.len() == 6,
            r@[0] == (gde_low_word(0, 0, 0, 0), gde_high_word(0)),
            r@[1] == (gde_low_word(0xffff, 0, 0xc, 0x9a), gde_high_word(0)),
            r@[2] == (gde_low_word(0xffff, 0, 0xa, 0x9a), gde_high_word(0)),
            r@[3] == (gde_low_word(0xffff, 0, 0xc, 0x92), gde_high_word(0)),
            r@[4] == (gde_low_word(0xffff, 0, 0xa, 0xfa), gde_high_word(0)),
            r@[5] == (gde_low_word(0xffff, 0, 0xc, 0xf2), gde_high_word(0)),
            r.pointer()@ == table_pointer_words(6, 0),
    {
        Self {
            entries: [
                GDE64::new(0, 0, 0, 0),
                GDE64::new(0xffff, 0, 0xc, 0x9a),
                GDE64::new(0xffff, 0, 0xa, 0x9a),
                GDE64::new(0xffff, 0, 0xc, 0x92),
                GDE64::new(0xffff, 0, 0xa, 0xfa),
                GDE64::new(0xffff, 0, 0xc, 0xf2),
            ],
            gdtr: GDTR::new(NUM_GLOBAL_DESP_ENTRIES as u32, 0),
        }
    }

    /// Get segment selector: the index of an entry, moved up by the three
    /// bits of a selector that say where and for whom.
    pub fn selector(index: u16) -> (r: u16)
        ensures
            r == index << 3,
            index < 0x2000 ==> r == index * 8,
    {
        assert(index < 0x2000 ==> index << 3 == index * 8) by (bit_vector);
        index << 3
    }

    /// Entry `index` of the table.
    pub fn entry(&self, index: usize) -> (r: GDE64)
        requires
            index < 6,
        ensures
            r@ == self@[index as int],
    {
        self.entries[index]
    }

    /// Enable this gdt: its pointer is set to the six entries at
    /// `entries_addr`, the address at which the caller has laid them out.
    /// The result is the pointer, for the caller to load.
    pub fn enable(&mut self, entries_addr: u64) -> (r: GDTR)
        ensures
            final(self)@ == old(self)@,
            final(self).pointer()@ == table_pointer_words(6, entries_addr),
            r@ == table_pointer_words(6, entries_addr),
    {
        self.gdtr = GDTR::new(NUM_GLOBAL_DESP_ENTRIES as u32, entries_addr);
        self.gdtr
    }
}

} // verus!
