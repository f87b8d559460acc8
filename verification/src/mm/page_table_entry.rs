//! Typed physical and virtual addresses and the 64-bit page-table entry.
//!
//! Every type here wraps one `u64`; its view is that number, and every
//! contract is stated over views.

use vstd::prelude::*;

verus! {

/// The page is in memory.
pub const PRESENT: u64 = 0x1;

/// The page is writable.
pub const WRITABLE: u64 = 0x2;

/// User mode code may access this page.
pub const USER: u64 = 0x4;

/// Writes go directly to memory.
pub const WRITE_THROUGH: u64 = 0x8;

/// No cache is used for this page.
pub const NO_CACHE: u64 = 0x10;

/// The CPU sets this bit when the page is accessed.
pub const ACCESSED: u64 = 0x20;

/// The CPU sets this bit when the page is modified.
pub const DIRTY: u64 = 0x40;

/// Huge page. Must be clear in level-1 and level-4 tables.
pub const HUGE_PAGE: u64 = 0x80;

/// The page is not flushed from the caches on an address-space switch.
pub const GLOBAL: u64 = 0x100;

/// Code on this page must not be executed (bit 63).
pub const NO_EXECUTE: u64 = 0x8000_0000_0000_0000;

/// Bits 12 to 51: the physical address of a page or of the next table.
pub const PHYS_ADDR_MASK: u64 = 0x000f_ffff_ffff_f000;

/// Every bit of an entry outside the address field.
pub const FLAGS_MASK: u64 = 0xfff0_0000_0000_0fff;

/// The bits of a virtual address that select its page: four 9-bit indices.
pub const PAGE_NUMBER_MASK: u64 = 0x0000_ffff_ffff_f000;

/// The index that `vaddr` selects in the table of `level` (4 down to 1);
/// 512, which is no index, for any other level.
pub open spec fn level_index(vaddr: u64, level: u32) -> u64 {
    if level == 4 {
        (vaddr >> 39) & 0x1ff
    } else if level == 3 {
        (vaddr >> 30) & 0x1ff
    } else if level == 2 {
        (vaddr >> 21) & 0x1ff
    } else if level == 1 {
        (vaddr >> 12) & 0x1ff
    } else {
        0x200
    }
}

/// The bits of `vaddr` that select the table of `level`, 3 down to 1, on
/// its way: the indices of all levels above.
pub open spec fn table_prefix(vaddr: u64, level: int) -> u64 {
    if level == 3 {
        (vaddr >> 39) & 0x1ff
    } else if level == 2 {
        (vaddr >> 30) & 0x3_ffff
    } else {
        (vaddr >> 21) & 0x7ff_ffff
    }
}

/// `u` and `w` go through the same table of `level`, 3 down to 1.
pub open spec fn same_table(u: u64, w: u64, level: int) -> bool {
    table_prefix(u, level) == table_prefix(w, level)
}

/// The offset of `vaddr` inside its page.
pub open spec fn page_offset(vaddr: u64) -> u64 {
    vaddr & 0xfff
}

/// An address with no bit outside the address field of an entry: page
/// aligned and below 2^52.
pub open spec fn is_frame_addr(addr: u64) -> bool {
    addr & FLAGS_MASK == 0
}

/// Flag bits that leave the address field of an entry alone.
pub open spec fn is_flag_bits(bits: u64) -> bool {
    bits & PHYS_ADDR_MASK == 0
}

/// Each of the four indices of a virtual address is below 512, and its
/// offset below 4096.
pub proof fn lemma_level_index_bound(vaddr: u64)
    ensures
        level_index(vaddr, 4) < 512,
        level_index(vaddr, 3) < 512,
        level_index(vaddr, 2) < 512,
        level_index(vaddr, 1) < 512,
        page_offset(vaddr) < 4096,
{
    assert((vaddr >> 39) & 0x1ff < 512 && (vaddr >> 30) & 0x1ff < 512 && (vaddr >> 21) & 0x1ff
        < 512 && (vaddr >> 12) & 0x1ff < 512 && vaddr & 0xfff < 4096) by (bit_vector);
}

/// Physical address.
#[derive(Copy, Clone, Debug, Default, Ord, PartialOrd, Eq, PartialEq, Hash)]
pub struct PhysAddr {
    phys_addr: u64,
}

/// Virtual address.
#[derive(Copy, Clone, Debug, Default, Ord, PartialOrd, Eq, PartialEq, Hash)]
pub struct VirtAddr {
    virt_addr: u64,
}

impl View for PhysAddr {
    type V = u64;

    closed spec fn view(&self) -> u64 {
        self.phys_addr
    }
}

impl View for VirtAddr {
    type V = u64;

    closed spec fn view(&self) -> u64 {
        self.virt_addr
    }
}

impl PhysAddr {
    /// The physical address with the given number.
    #[inline]
    pub fn new(addr: u64) -> (r: Self)
        ensures
            r@ == addr,
    {
        Self { phys_addr: addr }
    }

    /// Convert to usize.
    #[inline]
    pub fn to_usize(&self) -> (r: usize)
        ensures
            r == self@ as usize,
    {
        self.phys_addr as usize
    }

    /// Convert to u64.
    #[inline]
    pub fn to_u64(&self) -> (r: u64)
        ensures
            r == self@,
    {
        self.phys_addr
    }
}

impl VirtAddr {
    /// The virtual address with the given number.
    #[inline]
    pub fn new(addr: u64) -> (r: Self)
        ensures
            r@ == addr,
    {
        Self { virt_addr: addr }
    }

    /// Convert to usize.
    #[inline]
    pub fn to_usize(&self) -> (r: usize)
        ensures
            r == self@ as usize,
    {
        self.virt_addr as usize
    }

    /// Convert to u64.
    #[inline]
    pub fn to_u64(&self) -> (r: u64)
        ensures
            r == self@,
    {
        self.virt_addr
    }

    /// Get level 4 index: bits 39 to 47.
    #[inline]
    pub fn l4_index(&self) -> (r: usize)
        ensures
            r == level_index(self@, 4),
            r < 512,
    {
        let v: u64 = self.virt_addr;
        proof {
            lemma_level_index_bound(v);
        }
        ((v >> 39) & 0x1ff) as usize
    }

    /// Get level 3 index: bits 30 to 38.
    #[inline]
    pub fn l3_index(&self) -> (r: usize)
        ensures
            r == level_index(self@, 3),
            r < 512,
    {
        let v: u64 = self.virt_addr;
        proof {
            lemma_level_index_bound(v);
        }
        ((v >> 30) & 0x1ff) as usize
    }

    /// Get level 2 index: bits 21 to 29.
    #[inline]
    pub fn l2_index(&self) -> (r: usize)
        ensures
            r == level_index(self@, 2),
            r < 512,
    {
        let v: u64 = self.virt_addr;
        proof {
            lemma_level_index_bound(v);
        }
        ((v >> 21) & 0x1ff) as usize
    }

    /// Get level 1 index: bits 12 to 20.
    #[inline]
    pub fn l1_index(&self) -> (r: usize)
        ensures
            r == level_index(self@, 1),
            r < 512,
    {
        let v: u64 = self.virt_addr;
        proof {
            lemma_level_index_bound(v);
        }
        ((v >> 12) & 0x1ff) as usize
    }

    /// Given level, get index. A level outside 1 to 4 has no index: the
    /// result is then 512.
    #[inline]
    pub fn index(&self, level: u32) -> (r: usize)
        ensures
            r == level_index(self@, level),
            1 <= level <= 4 ==> r < 512,
            !(1 <= level <= 4) ==> r == 512,
    {
        match level {
            4 => self.l4_index(),
            3 => self.l3_index(),
            2 => self.l2_index(),
            1 => self.l1_index(),
            _ => 0x200usize,
        }
    }

    /// Get the offset inside the page: bits 0 to 11.
    #[inline]
    pub fn offset(&self) -> (r: usize)
        ensures
            r == page_offset(self@),
            r == self@ & 0xfff,
            r < 4096,
    {
        let v: u64 = self.virt_addr;
        proof {
            lemma_level_index_bound(v);
        }
        (v & 0xfff) as usize
    }
}

/// Convert usize to physical address.
impl From<usize> for PhysAddr {
    #[inline]
    fn from(rhs: usize) -> (r: Self)
        ensures
            r@ == rhs,
    {
        Self { phys_addr: rhs as u64 }
    }
}

impl vstd::std_specs::convert::FromSpecImpl<usize> for PhysAddr {
    open spec fn obeys_from_spec() -> bool {
        true
    }

    closed spec fn from_spec(rhs: usize) -> Self {
        Self { phys_addr: rhs as u64 }
    }
}

/// `+` moves a physical address up by a byte offset.
impl core::ops::Add<usize> for PhysAddr {
    type Output = Self;

    #[inline]
    fn add(self, offset: usize) -> (r: Self)
        ensures
            r@ == self@ + offset,
    {
        Self { phys_addr: self.phys_addr + offset as u64 }
    }
}

impl vstd::std_specs::ops::AddSpecImpl<usize> for PhysAddr {
    open spec fn obeys_add_spec() -> bool {
        true
    }

    open spec fn add_req(self, offset: usize) -> bool {
        self@ + offset <= u64::MAX
    }

    closed spec fn add_spec(self, offset: usize) -> Self {
        Self { phys_addr: (self.phys_addr + offset) as u64 }
    }
}

/// `-` moves a physical address down by a byte offset.
impl core::ops::Sub<usize> for PhysAddr {
    type Output = Self;

    #[inline]
    fn sub(self, offset: usize) -> (r: Self)
        ensures
            r@ == self@ - offset,
    {
        Self { phys_addr: self.phys_addr - offset as u64 }
    }
}

impl vstd::std_specs::ops::SubSpecImpl<usize> for PhysAddr {
    open spec fn obeys_sub_spec() -> bool {
        true
    }

    open spec fn sub_req(self, offset: usize) -> bool {
        offset <= self@
    }

    closed spec fn sub_spec(self, offset: usize) -> Self {
        Self { phys_addr: (self.phys_addr - offset) as u64 }
    }
}

/// Convert usize to virtual address.
impl From<usize> for VirtAddr {
    #[inline]
    fn from(addr: usize) -> (r: Self)
        ensures
            r@ == addr,
    {
        Self { virt_addr: addr as u64 }
    }
}

impl vstd::std_specs::convert::FromSpecImpl<usize> for VirtAddr {
    open spec fn obeys_from_spec() -> bool {
        true
    }

    closed spec fn from_spec(addr: usize) -> Self {
        Self { virt_addr: addr as u64 }
    }
}

/// `+` moves a virtual address up by a byte offset.
impl core::ops::Add<usize> for VirtAddr {
    type Output = Self;

    #[inline]
    fn add(self, offset: usize) -> (r: Self)
        ensures
            r@ == self@ + offset,
    {
        Self { virt_addr: self.virt_addr + offset as u64 }
    }
}

impl vstd::std_specs::ops::AddSpecImpl<usize> for VirtAddr {
    open spec fn obeys_add_spec() -> bool {
        true
    }

    open spec fn add_req(self, offset: usize) -> bool {
        self@ + offset <= u64::MAX
    }

    closed spec fn add_spec(self, offset: usize) -> Self {
        Self { virt_addr: (self.virt_addr + offset) as u64 }
    }
}

/// `-` moves a virtual address down by a byte offset.
impl core::ops::Sub<usize> for VirtAddr {
    type Output = Self;

    #[inline]
    fn sub(self, offset: usize) -> (r: Self)
        ensures
            r@ == self@ - offset,
    {
        Self { virt_addr: self.virt_addr - offset as u64 }
    }
}

impl vstd::std_specs::ops::SubSpecImpl<usize> for VirtAddr {
    open spec fn obeys_sub_spec() -> bool {
        true
    }

    open spec fn sub_req(self, offset: usize) -> bool {
        offset <= self@
    }

    closed spec fn sub_spec(self, offset: usize) -> Self {
        Self { virt_addr: (self.virt_addr - offset) as u64 }
    }
}

/// The four indices and the offset of a virtual address are five fields of
/// it that share no bit: put back at their places they give the low 48 bits
/// of the address, and any two of them, at their places, have no bit in
/// common.
pub proof fn lemma_indices_partition(v: u64)
    ensures
        (level_index(v, 4) << 39) | (level_index(v, 3) << 30) | (level_index(v, 2) << 21) | (
        level_index(v, 1) << 12) | page_offset(v) == v & 0x0000_ffff_ffff_ffff,
        (level_index(v, 4) << 39) & (level_index(v, 3) << 30) == 0,
        (level_index(v, 4) << 39) & (level_index(v, 2) << 21) == 0,
        (level_index(v, 4) << 39) & (level_index(v, 1) << 12) == 0,
        (level_index(v, 4) << 39) & page_offset(v) == 0,
        (level_index(v, 3) << 30) & (level_index(v, 2) << 21) == 0,
        (level_index(v, 3) << 30) & (level_index(v, 1) << 12) == 0,
        (level_index(v, 3) << 30) & page_offset(v) == 0,
        (level_index(v, 2) << 21) & (level_index(v, 1) << 12) == 0,
        (level_index(v, 2) << 21) & page_offset(v) == 0,
        (level_index(v, 1) << 12) & page_offset(v) == 0,
        page_offset(v) == v & 0xfff,
{
    let a: u64 = (v >> 39) & 0x1ff;
    let b: u64 = (v >> 30) & 0x1ff;
    let c: u64 = (v >> 21) & 0x1ff;
    let d: u64 = (v >> 12) & 0x1ff;
    let e: u64 = v & 0xfff;
    assert({
        &&& (a << 39) | (b << 30) | (c << 21) | (d << 12) | e == v & 0x0000_ffff_ffff_ffff
        &&& (a << 39) & (b << 30) == 0
        &&& (a << 39) & (c << 21) == 0
        &&& (a << 39) & (d << 12) == 0
        &&& (a << 39) & e == 0
        &&& (b << 30) & (c << 21) == 0
        &&& (b << 30) & (d << 12) == 0
        &&& (b << 30) & e == 0
        &&& (c << 21) & (d << 12) == 0
        &&& (c << 21) & e == 0
        &&& (d << 12) & e == 0
    }) by (bit_vector)
        requires
            a == (v >> 39) & 0x1ff,
            b == (v >> 30) & 0x1ff,
            c == (v >> 21) & 0x1ff,
            d == (v >> 12) & 0x1ff,
            e == v & 0xfff,
    ;
}

/// Two virtual addresses with the same four indices lie in the same page of
/// the 48-bit address space, and two in the same page have the same indices.
pub proof fn lemma_same_indices_same_page(v: u64, w: u64)
    ensures
        (level_index(v, 4) == level_index(w, 4) && level_index(v, 3) == level_index(w, 3)
            && level_index(v, 2) == level_index(w, 2) && level_index(v, 1) == level_index(w, 1))
            <==> v & PAGE_NUMBER_MASK == w & PAGE_NUMBER_MASK,
{
    assert((((v >> 39) & 0x1ff) == ((w >> 39) & 0x1ff) && ((v >> 30) & 0x1ff) == ((w >> 30)
        & 0x1ff) && ((v >> 21) & 0x1ff) == ((w >> 21) & 0x1ff) && ((v >> 12) & 0x1ff) == ((w
        >> 12) & 0x1ff)) <==> v & 0x0000_ffff_ffff_f000 == w & 0x0000_ffff_ffff_f000)
        by (bit_vector);
}

/// Two addresses go through the same table of a level where their indices
/// of all levels above are the same, and only there.
pub proof fn lemma_table_prefix(u: u64, w: u64)
    ensures
        same_table(u, w, 3) <==> level_index(u, 4) == level_index(w, 4),
        same_table(u, w, 2) <==> level_index(u, 4) == level_index(w, 4) && level_index(u, 3)
            == level_index(w, 3),
        same_table(u, w, 1) <==> level_index(u, 4) == level_index(w, 4) && level_index(u, 3)
            == level_index(w, 3) && level_index(u, 2) == level_index(w, 2),
{
    assert(((u >> 30) & 0x3_ffff == (w >> 30) & 0x3_ffff <==> (u >> 39) & 0x1ff == (w >> 39) & 0x1ff
        && (u >> 30) & 0x1ff == (w >> 30) & 0x1ff) && ((u >> 21) & 0x7ff_ffff == (w >> 21)
        & 0x7ff_ffff <==> (u >> 39) & 0x1ff == (w >> 39) & 0x1ff && (u >> 30) & 0x1ff == (w >> 30)
        & 0x1ff && (u >> 21) & 0x1ff == (w >> 21) & 0x1ff)) by (bit_vector);
}

/// Of three addresses in a row that span no more than half of the 48-bit
/// address space, the middle one goes through every table that the outer
/// two share.
pub proof fn lemma_tables_in_a_row(a: u64, b: u64, c: u64, level: int)
    requires
        a <= b <= c,
        c - a <= 0x8000_0000_0000,
        1 <= level <= 3,
        same_table(a, c, level),
    ensures
        same_table(b, c, level),
{
    assert(a <= b && b <= c && c - a <= 0x8000_0000_0000 ==> ((a >> 39) & 0x1ff == (c >> 39) & 0x1ff
        ==> (b >> 39) & 0x1ff == (c >> 39) & 0x1ff) && ((a >> 30) & 0x3_ffff == (c >> 30)
        & 0x3_ffff ==> (b >> 30) & 0x3_ffff == (c >> 30) & 0x3_ffff) && ((a >> 21) & 0x7ff_ffff
        == (c >> 21) & 0x7ff_ffff ==> (b >> 21) & 0x7ff_ffff == (c >> 21) & 0x7ff_ffff))
        by (bit_vector);
}

/// The addresses of one page share its page number, and addresses of two
/// pages that lie no further apart than half of the 48-bit address space
/// have different page numbers.
pub proof fn lemma_page_numbers(page: u64, w: u64)
    requires
        page_offset(page) == 0,
    ensures
        page % 4096 == 0,
        page <= w && w - page < 4096 ==> w & PAGE_NUMBER_MASK == page & PAGE_NUMBER_MASK
            && page_offset(w) == w - page,
        w < page && page - w <= 0x8000_0000_0000 ==> w & PAGE_NUMBER_MASK != page
            & PAGE_NUMBER_MASK,
        page <= w && 4096 <= w - page <= 0x8000_0000_0000 ==> w & PAGE_NUMBER_MASK != page
            & PAGE_NUMBER_MASK,
{
    assert(page & 0xfff == 0 ==> page % 4096 == 0) by (bit_vector);
    assert(page & 0xfff == 0 && page <= w && w - page < 4096 ==> w & 0x0000_ffff_ffff_f000 == page
        & 0x0000_ffff_ffff_f000 && w & 0xfff == w - page) by (bit_vector);
    assert(page & 0xfff == 0 && w < page && page - w <= 0x8000_0000_0000 ==> w
        & 0x0000_ffff_ffff_f000 != page & 0x0000_ffff_ffff_f000) by (bit_vector);
    assert(page & 0xfff == 0 && page <= w && 4096 <= w - page && w - page <= 0x8000_0000_0000 ==> w
        & 0x0000_ffff_ffff_f000 != page & 0x0000_ffff_ffff_f000) by (bit_vector);
}

/// An address is page aligned where its offset is zero, and only there.
pub proof fn lemma_offset_zero(addr: u64)
    ensures
        page_offset(addr) == 0 <==> addr % 4096 == 0,
{
    assert(addr & 0xfff == 0 <==> addr % 4096 == 0) by (bit_vector);
}

/// The flag bits of a page-table entry.
#[derive(Clone, Copy, Debug)]
pub struct PTEFlags {
    flags: u64,
}

impl View for PTEFlags {
    type V = u64;

    closed spec fn view(&self) -> u64 {
        self.flags
    }
}

impl PTEFlags {
    /// The flags with the given bits.
    #[inline]
    pub fn new(bits: u64) -> (r: Self)
        ensures
            r@ == bits,
    {
        Self { flags: bits }
    }

    /// The bits of the flags.
    #[inline]
    pub fn as_u64(&self) -> (r: u64)
        ensures
            r == self@,
    {
        self.flags
    }

    /// Whether any of the bits of `bit` is set.
    #[inline]
    pub fn is_contain(&self, bit: u64) -> (r: bool)
        ensures
            r == (self@ & bit != 0),
    {
        if self.flags & bit != 0 {
            true
        } else {
            false
        }
    }

    /// Flags of a kernel page: present and writable.
    #[inline]
    pub fn new_kern_flags() -> (r: Self)
        ensures
            r@ == PRESENT | WRITABLE,
            r@ == 0x3,
            is_flag_bits(r@),
    {
        assert(0x1u64 | 0x2u64 == 0x3u64 && 0x3u64 & 0x000f_ffff_ffff_f000u64 == 0) by (bit_vector);
        Self { flags: PRESENT | WRITABLE }
    }

    /// Flags of a user page: present, writable and user-accessible.
    #[inline]
    pub fn new_user_flags() -> (r: Self)
        ensures
            r@ == PRESENT | WRITABLE | USER,
            r@ == 0x7,
            is_flag_bits(r@),
    {
        assert(0x1u64 | 0x2u64 | 0x4u64 == 0x7u64 && 0x7u64 & 0x000f_ffff_ffff_f000u64 == 0)
            by (bit_vector);
        Self { flags: PRESENT | WRITABLE | USER }
    }
}

/// Convert usize to flags.
impl From<usize> for PTEFlags {
    #[inline]
    fn from(bits: usize) -> (r: Self)
        ensures
            r@ == bits,
    {
        Self { flags: bits as u64 }
    }
}

impl vstd::std_specs::convert::FromSpecImpl<usize> for PTEFlags {
    open spec fn obeys_from_spec() -> bool {
        true
    }

    closed spec fn from_spec(bits: usize) -> Self {
        Self { flags: bits as u64 }
    }
}

/// `&` keeps the flags that are also set in the right-hand bits.
impl core::ops::BitAnd<u64> for PTEFlags {
    type Output = Self;

    #[inline]
    fn bitand(self, rhs: u64) -> (r: Self)
        ensures
            r@ == self@ & rhs,
    {
        Self { flags: self.flags & rhs }
    }
}

impl vstd::std_specs::ops::BitAndSpecImpl<u64> for PTEFlags {
    open spec fn obeys_bitand_spec() -> bool {
        true
    }

    open spec fn bitand_req(self, rhs: u64) -> bool {
        true
    }

    closed spec fn bitand_spec(self, rhs: u64) -> Self {
        Self { flags: self.flags & rhs }
    }
}

/// `|` adds the right-hand bits to the flags.
impl core::ops::BitOr<u64> for PTEFlags {
    type Output = Self;

    #[inline]
    fn bitor(self, rhs: u64) -> (r: Self)
        ensures
            r@ == self@ | rhs,
    {
        Self { flags: self.flags | rhs }
    }
}

impl vstd::std_specs::ops::BitOrSpecImpl<u64> for PTEFlags {
    open spec fn obeys_bitor_spec() -> bool {
        true
    }

    open spec fn bitor_req(self, rhs: u64) -> bool {
        true
    }

    closed spec fn bitor_spec(self, rhs: u64) -> Self {
        Self { flags: self.flags | rhs }
    }
}

/// 64-bit page-table entry: an address field at bits 12 to 51, flags around
/// it. The entry whose bits are all zero is the unused one.
#[derive(Clone, Copy, Debug)]
pub struct PTE {
    entry: u64,
}

impl View for PTE {
    type V = u64;

    closed spec fn view(&self) -> u64 {
        self.entry
    }
}

impl PTE {
    /// Create an unused page table entry.
    #[inline]
    pub fn new() -> (r: Self)
        ensures
            r@ == 0,
    {
        Self { entry: 0 }
    }

    /// The entry with the given bits, as a table holds it in memory.
    #[inline]
    pub fn from_u64(bits: u64) -> (r: Self)
        ensures
            r@ == bits,
    {
        Self { entry: bits }
    }

    /// The bits of the entry, as a table holds it in memory.
    #[inline]
    pub fn as_u64(&self) -> (r: u64)
        ensures
            r == self@,
    {
        self.entry
    }

    /// Set unused.
    #[inline]
    pub fn set_unused(&mut self)
        ensures
            final(self)@ == 0,
    {
        self.entry = 0;
    }

    /// Get the physical address from the entry: the address field alone.
    #[inline]
    pub fn phys_addr(&self) -> (r: PhysAddr)
        ensures
            r@ == self@ & PHYS_ADDR_MASK,
            is_frame_addr(r@),
    {
        let e: u64 = self.entry;
        assert((e & 0x000f_ffff_ffff_f000) & 0xfff0_0000_0000_0fff == 0) by (bit_vector);
        PhysAddr::new(e & PHYS_ADDR_MASK)
    }

    /// Get the flags from the entry: every bit outside the address field.
    #[inline]
    pub fn flags(&self) -> (r: PTEFlags)
        ensures
            r@ == self@ & FLAGS_MASK,
            is_flag_bits(r@),
    {
        let e: u64 = self.entry;
        assert((e & 0xfff0_0000_0000_0fff) & 0x000f_ffff_ffff_f000 == 0) by (bit_vector);
        PTEFlags::new(e & FLAGS_MASK)
    }

    /// Set the physical address: the address field is replaced by that of
    /// `paddr`, the flags stay.
    #[inline]
    pub fn set_phys_addr(&mut self, paddr: PhysAddr)
        ensures
            final(self)@ == (old(self)@ & !PHYS_ADDR_MASK) | (paddr@ & PHYS_ADDR_MASK),
            final(self)@ & PHYS_ADDR_MASK == paddr@ & PHYS_ADDR_MASK,
            final(self)@ & FLAGS_MASK == old(self)@ & FLAGS_MASK,
    {
        let e: u64 = self.entry;
        let p: u64 = paddr.to_u64();
        assert(((e & !0x000f_ffff_ffff_f000) | (p & 0x000f_ffff_ffff_f000)) & 0x000f_ffff_ffff_f000
            == p & 0x000f_ffff_ffff_f000 && ((e & !0x000f_ffff_ffff_f000) | (p
            & 0x000f_ffff_ffff_f000)) & 0xfff0_0000_0000_0fff == e & 0xfff0_0000_0000_0fff)
            by (bit_vector);
        self.entry = (e & !PHYS_ADDR_MASK) | (p & PHYS_ADDR_MASK);
    }

    /// Set the flags: the address field stays, and `flags` is laid over it.
    /// Flags that keep out of the address field replace the old flags and
    /// leave the address as it was.
    #[inline]
    pub fn set_flags(&mut self, flags: PTEFlags)
        ensures
            final(self)@ == (old(self)@ & PHYS_ADDR_MASK) | flags@,
            is_flag_bits(flags@) ==> final(self)@ & PHYS_ADDR_MASK == old(self)@ & PHYS_ADDR_MASK,
            is_flag_bits(flags@) ==> final(self)@ & FLAGS_MASK == flags@,
    {
        let e: u64 = self.entry;
        let f: u64 = flags.as_u64();
        assert(f & 0x000f_ffff_ffff_f000 == 0 ==> ((e & 0x000f_ffff_ffff_f000) | f)
            & 0x000f_ffff_ffff_f000 == e & 0x000f_ffff_ffff_f000 && ((e & 0x000f_ffff_ffff_f000)
            | f) & 0xfff0_0000_0000_0fff == f) by (bit_vector);
        self.entry = (e & PHYS_ADDR_MASK) | f;
    }

    /// Create a page table entry for a new page. A frame address and flags
    /// that keep out of the address field are both read back from the
    /// entry as they went in.
    #[inline]
    pub fn new_page_entry(paddr: PhysAddr, flags: PTEFlags) -> (r: Self)
        ensures
            r@ == flags@ | paddr@,
            is_frame_addr(paddr@) && is_flag_bits(flags@) ==> r@ & PHYS_ADDR_MASK == paddr@ && r@
                & FLAGS_MASK == flags@,
    {
        proof {
            if is_frame_addr(paddr@) && is_flag_bits(flags@) {
                lemma_entry_round_trip(paddr@, flags@);
            }
        }
        Self { entry: flags.as_u64() | paddr.to_u64() }
    }

    /// Create a page table entry for a new kernel page table.
    #[inline]
    pub fn new_table_entry(paddr: PhysAddr) -> (r: Self)
        ensures
            r@ == (PRESENT | WRITABLE) | paddr@,
            r@ == 0x3 | paddr@,
    {
        assert(0x1u64 | 0x2u64 == 0x3u64) by (bit_vector);
        let flags: PTEFlags = PTEFlags::new(PRESENT | WRITABLE);
        Self { entry: flags.as_u64() | paddr.to_u64() }
    }

    /// Create a page table entry for a new user page table.
    #[inline]
    pub fn new_user_table_entry(paddr: PhysAddr) -> (r: Self)
        ensures
            r@ == (PRESENT | WRITABLE | USER) | paddr@,
            r@ == 0x7 | paddr@,
    {
        assert(0x1u64 | 0x2u64 | 0x4u64 == 0x7u64) by (bit_vector);
        let flags: PTEFlags = PTEFlags::new(PRESENT | WRITABLE | USER);
        Self { entry: flags.as_u64() | paddr.to_u64() }
    }

    /// Determine if the entry contains a specific flag.
    #[inline]
    pub fn is_contain(&self, flag: u64) -> (r: bool)
        ensures
            r == (self@ & flag != 0),
    {
        self.entry & flag != 0
    }

    /// Determine if the page is present.
    #[inline]
    pub fn is_present(&self) -> (r: bool)
        ensures
            r == (self@ & PRESENT != 0),
    {
        self.is_contain(PRESENT)
    }

    /// Determine if the entry is unused: all of its bits are zero.
    #[inline]
    pub fn is_unused(&self) -> (r: bool)
        ensures
            r == (self@ == 0),
    {
        self.entry == 0
    }
}

/// An entry made of a frame address and of flag bits gives both back: the
/// address field is the address, the bits around it are the flags. It is
/// the unused entry only where both are zero.
pub proof fn lemma_entry_round_trip(paddr: u64, flags: u64)
    requires
        is_frame_addr(paddr),
        is_flag_bits(flags),
    ensures
        (flags | paddr) & PHYS_ADDR_MASK == paddr,
        (flags | paddr) & FLAGS_MASK == flags,
        (flags | paddr) == 0 <==> (flags == 0 && paddr == 0),
{
    assert(paddr & 0xfff0_0000_0000_0fff == 0 && flags & 0x000f_ffff_ffff_f000 == 0 ==> (flags
        | paddr) & 0x000f_ffff_ffff_f000 == paddr && (flags | paddr) & 0xfff0_0000_0000_0fff
        == flags && ((flags | paddr) == 0 <==> (flags == 0 && paddr == 0))) by (bit_vector);
}

/// The flags of an entry that points at a table, present and writable, keep
/// out of the address field. Laid over the address field of any entry they
/// give an entry in use with the same address.
pub proof fn lemma_table_flags(entry: u64)
    ensures
        PRESENT | WRITABLE == 0x3,
        is_flag_bits(PRESENT | WRITABLE),
        ((entry & PHYS_ADDR_MASK) | (PRESENT | WRITABLE)) & PHYS_ADDR_MASK == entry
            & PHYS_ADDR_MASK,
        ((entry & PHYS_ADDR_MASK) | (PRESENT | WRITABLE)) != 0,
        (entry & PHYS_ADDR_MASK) | (PRESENT | WRITABLE) == (PRESENT | WRITABLE) | (entry
            & PHYS_ADDR_MASK),
{
    assert(0x1u64 | 0x2u64 == 0x3u64 && (0x1u64 | 0x2u64) & 0x000f_ffff_ffff_f000u64 == 0 && ((entry
        & 0x000f_ffff_ffff_f000) | (0x1u64 | 0x2u64)) & 0x000f_ffff_ffff_f000 == entry
        & 0x000f_ffff_ffff_f000 && ((entry & 0x000f_ffff_ffff_f000) | (0x1u64 | 0x2u64)) != 0 && (
    entry & 0x000f_ffff_ffff_f000) | (0x1u64 | 0x2u64) == (0x1u64 | 0x2u64) | (entry
        & 0x000f_ffff_ffff_f000)) by (bit_vector);
}

/// The address field and the flag bits of an entry share no bit, and
/// together they are the whole entry.
pub proof fn lemma_entry_fields_disjoint(entry: u64)
    ensures
        (entry & PHYS_ADDR_MASK) & (entry & FLAGS_MASK) == 0,
        (entry & PHYS_ADDR_MASK) | (entry & FLAGS_MASK) == entry,
        PHYS_ADDR_MASK & FLAGS_MASK == 0,
        PHYS_ADDR_MASK | FLAGS_MASK == 0xffff_ffff_ffff_ffff,
{
    assert((entry & 0x000f_ffff_ffff_f000) & (entry & 0xfff0_0000_0000_0fff) == 0 && (entry
        & 0x000f_ffff_ffff_f000) | (entry & 0xfff0_0000_0000_0fff) == entry
        && 0x000f_ffff_ffff_f000u64 & 0xfff0_0000_0000_0fffu64 == 0 && 0x000f_ffff_ffff_f000u64
        | 0xfff0_0000_0000_0fffu64 == 0xffff_ffff_ffff_ffffu64) by (bit_vector);
}

/// A frame address is a multiple of the page size below 2^52, and every such
/// multiple is a frame address.
pub proof fn lemma_frame_addr_aligned(addr: u64)
    ensures
        is_frame_addr(addr) <==> (addr % 4096 == 0 && addr < 0x10_0000_0000_0000),
{
    assert(addr & 0xfff0_0000_0000_0fff == 0 <==> (addr % 4096 == 0 && addr
        < 0x10_0000_0000_0000)) by (bit_vector);
}

} // verus!
