//! The heap's physical memory as the kernel sees it: a run of 64-bit words
//! that starts at a page-aligned physical address and grows frame by frame.

use vstd::prelude::*;
use super::page_table_entry::PhysAddr;

verus! {

/// Number of 64-bit words in one frame.
pub const FRAME_WORDS: usize = 512;

/// Size of one frame in bytes.
pub const FRAME_BYTES: u64 = 4096;

/// The first physical address that the address field of an entry cannot
/// hold: 2^52.
pub const MAX_PHYS_ADDR: u64 = 0x10_0000_0000_0000;

/// Word `i` of a frame lies `i` positions behind the frame's first word,
/// the first word of a frame lies at a multiple of 512, and words of two
/// distinct frames lie at distinct positions.
pub proof fn lemma_frame_words(base: u64, f: u64, g: u64, i: int, j: int)
    requires
        base % 4096 == 0,
        f % 4096 == 0,
        g % 4096 == 0,
        base <= f,
        base <= g,
        0 <= i < 512,
        0 <= j < 512,
    ensures
        (f + 8 * i - base) / 8 == (f - base) / 8 + i,
        (f + 8 * i) % 8 == 0,
        f != g ==> (f - base) / 8 + i != (g - base) / 8 + j,
        (f - base) / 8 % 512 == 0,
{
    let a: int = (f - base) / 4096;
    let b: int = (g - base) / 4096;
    assert(f - base == 4096 * a);
    assert(g - base == 4096 * b);
    assert((f - base) / 8 == 512 * a);
    assert((g - base) / 8 == 512 * b);
    assert((f + 8 * i - base) / 8 == 512 * a + i);
}

/// A word address at or behind a base that is one lies a whole number of
/// words behind it, and within `len` words where it is below their end.
pub proof fn lemma_word_position(base: u64, len: int, addr: u64)
    requires
        base % 8 == 0,
        addr % 8 == 0,
        base <= addr < base + 8 * len,
    ensures
        0 <= (addr - base) / 8 < len,
        addr - base == 8 * ((addr - base) / 8),
{
    let k: int = (addr - base) / 8;
    assert((addr - base) % 8 == 0);
    assert(addr - base == 8 * k);
}

/// Two distinct word addresses lie at distinct positions behind a base that
/// is itself a word address.
pub proof fn lemma_word_index_distinct(base: u64, a: u64, b: u64)
    requires
        base % 8 == 0,
        a % 8 == 0,
        b % 8 == 0,
        base <= a,
        base <= b,
        a != b,
    ensures
        (a - base) / 8 != (b - base) / 8,
{
    lemma_word_position(base, (a - base) / 8 + 1, a);
    lemma_word_position(base, (b - base) / 8 + 1, b);
}

/// The start of a frame does not lie within another frame.
pub proof fn lemma_frames_apart(f: u64, g: u64)
    requires
        f % 4096 == 0,
        g % 4096 == 0,
        f != g,
    ensures
        !(f <= g < f + 4096),
{
    let a: int = f as int / 4096;
    let b: int = g as int / 4096;
    assert(f == 4096 * a);
    assert(g == 4096 * b);
}

/// Word-addressed physical memory from `base()` up to `end()`. Its view is
/// the sequence of its words: word `i` lies at address `base() + 8 * i`.
pub struct PhysMemory {
    base: u64,
    words: Vec<u64>,
}

impl View for PhysMemory {
    type V = Seq<u64>;

    closed spec fn view(&self) -> Seq<u64> {
        self.words@
    }
}

impl PhysMemory {
    /// Address of the first word.
    pub closed spec fn base(&self) -> u64 {
        self.base
    }

    /// Address just behind the last word.
    pub open spec fn end(&self) -> int {
        self.base() + 8 * self@.len()
    }

    /// The memory is a whole number of frames, starts at a frame boundary
    /// and ends at or below 2^52.
    pub open spec fn wf(&self) -> bool {
        &&& self.base() % 4096 == 0
        &&& self@.len() % 512 == 0
        &&& self.end() <= MAX_PHYS_ADDR
    }

    /// `addr` is the address of a word of this memory.
    pub open spec fn has_word(&self, addr: u64) -> bool {
        addr % 8 == 0 && self.base() <= addr < self.end()
    }

    /// `addr` is the address of a frame of this memory.
    pub open spec fn has_frame(&self, addr: u64) -> bool {
        addr % 4096 == 0 && self.base() <= addr && addr + 4096 <= self.end()
    }

    /// Position in the view of the word at `addr`.
    #[verifier::opaque]
    pub open spec fn word_index(&self, addr: u64) -> int {
        (addr - self.base()) / 8
    }

    /// The word at `addr`.
    pub open spec fn word(&self, addr: u64) -> u64 {
        self@[self.word_index(addr)]
    }

    /// Word `index` of the frame at `frame`: entry `index` of a table there.
    pub open spec fn entry(&self, frame: u64, index: int) -> u64 {
        self@[self.word_index(frame) + index]
    }

    /// Word `index` of a frame is the word at the address `8 * index` behind
    /// the frame's, a word of the memory.
    pub proof fn lemma_entry_word(&self, frame: u64, index: int)
        requires
            self.wf(),
            self.has_frame(frame),
            0 <= index < 512,
        ensures
            self.has_word((frame + 8 * index) as u64),
            self.entry(frame, index) == self.word((frame + 8 * index) as u64),
            0 <= self.word_index(frame) + index < self@.len(),
    {
        reveal(PhysMemory::word_index);
        lemma_frame_words(self.base(), frame, frame, index, 0);
    }

    /// Two memories with the same base and the same words hold the same word
    /// at every address.
    pub proof fn lemma_same_words(&self, other: &PhysMemory)
        requires
            self.base() == other.base(),
            self@ == other@,
        ensures
            forall|addr: u64| #[trigger] self.word(addr) == other.word(addr),
            forall|frame: u64, index: int| #[trigger]
                self.entry(frame, index) == other.entry(frame, index),
    {
        reveal(PhysMemory::word_index);
    }

    /// A memory that is another one with a frame of zero words behind it
    /// holds every word of the other where the other holds it, and zeros in
    /// the frame at the other's end.
    pub proof fn lemma_appended(&self, before: &PhysMemory)
        requires
            before.wf(),
            self.base() == before.base(),
            self@ == before@ + Seq::new(512, |i: int| 0u64),
        ensures
            forall|a: u64| before.has_word(a) ==> #[trigger] self.word(a) == before.word(a),
            forall|g: u64, j: int|
                before.has_frame(g) && 0 <= j < 512 ==> #[trigger] self.entry(g, j)
                    == before.entry(g, j),
            forall|j: int| 0 <= j < 512 ==> #[trigger] self.entry(before.end() as u64, j) == 0,
    {
        reveal(PhysMemory::word_index);
        assert forall|g: u64, j: int|
            before.has_frame(g) && 0 <= j < 512 implies #[trigger] self.entry(g, j)
            == before.entry(g, j) by {
            lemma_frame_words(self.base(), g, g, j, 0);
        }
    }

    /// Empty memory that starts at `base`; `None` where `base` is no frame
    /// boundary at or below 2^52.
    pub fn new(base: PhysAddr) -> (r: Option<Self>)
        ensures
            r is Some <==> base@ % 4096 == 0 && base@ <= MAX_PHYS_ADDR,
            r matches Some(m) ==> m.wf() && m.base() == base@ && m@.len() == 0,
    {
        let b: u64 = base.to_u64();
        if b % FRAME_BYTES != 0 || b > MAX_PHYS_ADDR {
            return None;
        }
        Some(Self { base: b, words: Vec::new() })
    }

    /// Address of the first word.
    pub fn base_addr(&self) -> (r: PhysAddr)
        ensures
            r@ == self.base(),
    {
        PhysAddr::new(self.base)
    }

    /// Address just behind the last word.
    pub fn end_addr(&self) -> (r: PhysAddr)
        requires
            self.wf(),
        ensures
            r@ == self.end(),
    {
        let n: u64 = self.words.len() as u64;
        PhysAddr::new(self.base + 8 * n)
    }

    /// Whether `addr` is the address of a word of this memory.
    pub fn holds_word(&self, addr: PhysAddr) -> (r: bool)
        requires
            self.wf(),
        ensures
            r == self.has_word(addr@),
    {
        let a: u64 = addr.to_u64();
        let n: u64 = self.words.len() as u64;
        a % 8 == 0 && self.base <= a && a < self.base + 8 * n
    }

    /// Whether `addr` is the address of a frame of this memory.
    pub fn holds_frame(&self, addr: PhysAddr) -> (r: bool)
        requires
            self.wf(),
        ensures
            r == self.has_frame(addr@),
    {
        let a: u64 = addr.to_u64();
        let n: u64 = self.words.len() as u64;
        a % FRAME_BYTES == 0 && self.base <= a && a <= self.base + 8 * n && self.base + 8 * n - a
            >= FRAME_BYTES
    }

    /// Read the word at `addr`; `None` where this memory has no such word.
    pub fn read(&self, addr: PhysAddr) -> (r: Option<u64>)
        requires
            self.wf(),
        ensures
            r is Some <==> self.has_word(addr@),
            r matches Some(value) ==> value == self.word(addr@),
    {
        if !self.holds_word(addr) {
            return None;
        }
        proof {
            reveal(PhysMemory::word_index);
            lemma_word_position(self.base, self.words@.len() as int, addr@);
        }
        let i: u64 = (addr.to_u64() - self.base) / 8;
        assert(i == self.word_index(addr@) && i < self.words.len());
        Some(self.words[i as usize])
    }

    /// Write `value` to the word at `addr`; no other word changes. Where
    /// this memory has no such word nothing changes and the result is
    /// `false`.
    pub fn write(&mut self, addr: PhysAddr, value: u64) -> (r: bool)
        requires
            old(self).wf(),
        ensures
            final(self).wf(),
            final(self).base() == old(self).base(),
            final(self)@.len() == old(self)@.len(),
            r == old(self).has_word(addr@),
            !r ==> final(self)@ == old(self)@,
            r ==> 0 <= old(self).word_index(addr@) < old(self)@.len(),
            r ==> final(self)@ == old(self)@.update(old(self).word_index(addr@), value),
            r ==> final(self).word(addr@) == value,
            r ==> forall|other: u64|
                old(self).has_word(other) && other != addr@ ==> #[trigger] final(self).word(other)
                    == old(self).word(other),
    {
        if !self.holds_word(addr) {
            return false;
        }
        proof {
            reveal(PhysMemory::word_index);
            lemma_word_position(self.base, self.words@.len() as int, addr@);
        }
        let i: u64 = (addr.to_u64() - self.base) / 8;
        assert(i == self.word_index(addr@) && i < self.words.len());
        self.words.set(i as usize, value);
        proof {
            assert forall|other: u64|
                old(self).has_word(other) && other != addr@ implies #[trigger] self.word(other)
                == old(self).word(other) by {
                lemma_word_index_distinct(self.base, addr@, other);
            }
        }
        true
    }

    /// Read word `index` of the frame at `frame`; `None` where this memory
    /// has no such frame or a frame has no such word.
    pub fn read_entry(&self, frame: PhysAddr, index: usize) -> (r: Option<u64>)
        requires
            self.wf(),
        ensures
            r is Some <==> self.has_frame(frame@) && index < 512,
            r matches Some(value) ==> value == self.entry(frame@, index as int),
    {
        if index >= FRAME_WORDS || !self.holds_frame(frame) {
            return None;
        }
        proof {
            self.lemma_entry_word(frame@, index as int);
        }
        let addr: u64 = frame.to_u64() + 8 * (index as u64);
        self.read(PhysAddr::new(addr))
    }

    /// Write `value` to word `index` of the frame at `frame`; no other
    /// word changes. Where this memory has no such frame or a frame has no
    /// such word nothing changes and the result is `false`.
    pub fn write_entry(&mut self, frame: PhysAddr, index: usize, value: u64) -> (r: bool)
        requires
            old(self).wf(),
        ensures
            final(self).wf(),
            final(self).base() == old(self).base(),
            final(self)@.len() == old(self)@.len(),
            r == (old(self).has_frame(frame@) && index < 512),
            !r ==> final(self)@ == old(self)@,
            r ==> 0 <= old(self).word_index(frame@) + index < old(self)@.len(),
            r ==> final(self)@ == old(self)@.update(old(self).word_index(frame@) + index, value),
            r ==> final(self).entry(frame@, index as int) == value,
            r ==> forall|g: u64, j: int|
                old(self).has_frame(g) && 0 <= j < 512 && !(g == frame@ && j == index)
                    ==> #[trigger] final(self).entry(g, j) == old(self).entry(g, j),
            r ==> forall|a: u64|
                old(self).has_word(a) && !(frame@ <= a < frame@ + 4096)
                    ==> #[trigger] final(self).word(a) == old(self).word(a),
            r && value == old(self).entry(frame@, index as int) ==> final(self)@ == old(self)@,
    {
        if index >= FRAME_WORDS || !self.holds_frame(frame) {
            return false;
        }
        proof {
            self.lemma_entry_word(frame@, index as int);
        }
        let addr: u64 = frame.to_u64() + 8 * (index as u64);
        let written: bool = self.write(PhysAddr::new(addr), value);
        proof {
            reveal(PhysMemory::word_index);
            lemma_frame_words(self.base, frame@, frame@, index as int, 0);
            assert forall|g: u64, j: int|
                old(self).has_frame(g) && 0 <= j < 512 && !(g == frame@ && j == index)
                    implies #[trigger] self.entry(g, j) == old(self).entry(g, j) by {
                lemma_frame_words(self.base, g, frame@, j, index as int);
            }
            if value == old(self).entry(frame@, index as int) {
                assert(self@ =~= old(self)@);
            }
        }
        true
    }

    /// Append one frame of zero words; no word that was there changes.
    /// Where the memory would then end above 2^52 nothing changes and the
    /// result is `None`; else the result is the address of the new frame,
    /// the old end.
    pub fn grow(&mut self) -> (r: Option<PhysAddr>)
        requires
            old(self).wf(),
        ensures
            final(self).wf(),
            final(self).base() == old(self).base(),
            r is Some <==> old(self).end() + 4096 <= MAX_PHYS_ADDR,
            r is None ==> final(self)@ == old(self)@,
            r matches Some(f) ==> {
                &&& f@ == old(self).end()
                &&& final(self).has_frame(f@)
                &&& final(self)@ == old(self)@ + Seq::new(512, |i: int| 0u64)
                &&& forall|j: int| 0 <= j < 512 ==> #[trigger] final(self).entry(f@, j) == 0
                &&& forall|g: u64, j: int|
                    old(self).has_frame(g) && 0 <= j < 512 ==> #[trigger] final(self).entry(g, j)
                        == old(self).entry(g, j)
                &&& forall|a: u64|
                    old(self).has_word(a) ==> #[trigger] final(self).word(a) == old(self).word(a)
            },
    {
        let n: u64 = self.words.len() as u64;
        let top: u64 = self.base + 8 * n;
        if MAX_PHYS_ADDR - top < FRAME_BYTES {
            return None;
        }
        let mut i: usize = 0;
        while i < FRAME_WORDS
            invariant
                0 <= i <= 512,
                self.base == old(self).base,
                self.words@ == old(self).words@ + Seq::new(i as nat, |j: int| 0u64),
            decreases 512 - i,
        {
            self.words.push(0u64);
            i = i + 1;
            assert(self.words@ =~= old(self).words@ + Seq::new(i as nat, |j: int| 0u64));
        }
        proof {
            self.lemma_appended(old(self));
        }
        Some(PhysAddr::new(top))
    }

    /// Set every word of the frame at `frame` to `value`; no other word
    /// changes. Where this memory has no such frame nothing changes and the
    /// result is `false`.
    pub fn fill_frame(&mut self, frame: PhysAddr, value: u64) -> (r: bool)
        requires
            old(self).wf(),
        ensures
            final(self).wf(),
            final(self).base() == old(self).base(),
            final(self)@.len() == old(self)@.len(),
            r == old(self).has_frame(frame@),
            !r ==> final(self)@ == old(self)@,
            r ==> forall|j: int| 0 <= j < 512 ==> #[trigger] final(self).entry(frame@, j) == value,
            r ==> forall|g: u64, j: int|
                old(self).has_frame(g) && g != frame@ && 0 <= j < 512
                    ==> #[trigger] final(self).entry(g, j) == old(self).entry(g, j),
            r ==> forall|a: u64|
                old(self).has_word(a) && !(frame@ <= a < frame@ + 4096)
                    ==> #[trigger] final(self).word(a) == old(self).word(a),
    {
        if !self.holds_frame(frame) {
            return false;
        }
        let mut i: usize = 0;
        while i < FRAME_WORDS
            invariant
                0 <= i <= 512,
                self.wf(),
                self.base() == old(self).base(),
                self@.len() == old(self)@.len(),
                old(self).has_frame(frame@),
                forall|j: int| 0 <= j < i ==> #[trigger] self.entry(frame@, j) == value,
                forall|g: u64, j: int|
                    old(self).has_frame(g) && g != frame@ && 0 <= j < 512
                        ==> #[trigger] self.entry(g, j) == old(self).entry(g, j),
                forall|a: u64|
                    old(self).has_word(a) && !(frame@ <= a < frame@ + 4096)
                        ==> #[trigger] self.word(a) == old(self).word(a),
            decreases 512 - i,
        {
            let ghost before: PhysMemory = *self;
            let written: bool = self.write_entry(frame, i, value);
            proof {
                assert forall|j: int| 0 <= j < i + 1 implies #[trigger] self.entry(frame@, j)
                    == value by {
                    if j < i {
                        assert(before.entry(frame@, j) == value);
                    }
                }
                assert forall|g: u64, j: int|
                    old(self).has_frame(g) && g != frame@ && 0 <= j < 512
                        implies #[trigger] self.entry(g, j) == old(self).entry(g, j) by {
                    assert(before.has_frame(g));
                    assert(before.entry(g, j) == old(self).entry(g, j));
                }
                assert forall|a: u64|
                    old(self).has_word(a) && !(frame@ <= a < frame@ + 4096)
                        implies #[trigger] self.word(a) == old(self).word(a) by {
                    assert(before.has_word(a));
                    assert(before.word(a) == old(self).word(a));
                }
            }
            i = i + 1;
        }
        true
    }
}

} // verus!
