//! What the console takes from the boot information: the header of the
//! information, the place of the next tag, and the choice of a frame
//! buffer.

use vstd::prelude::*;

verus! {

/// Bits per pixel of the frame buffer that the console draws into.
pub const CONSOLE_BPP: u8 = 32;

/// Width in pixels of the frame buffer that the console draws into.
pub const CONSOLE_WIDTH: u32 = 800;

/// Height in pixels of the frame buffer that the console draws into.
pub const CONSOLE_HEIGHT: u32 = 600;

/// Bytes per pixel row of the frame buffer that the console draws into.
pub const CONSOLE_PITCH: u32 = 3200;

/// The header of the boot information.
#[derive(Debug, Clone, Copy)]
pub struct MultibootInfo {
    pub total_size: u32,
    pub pad: u32,
}

/// Whether a frame buffer of this shape is the one that the console draws
/// into: 800 by 600 pixels of 32 bits, 3200 bytes to the row.
pub fn is_console_mode(bpp: u8, width: u32, height: u32, pitch: u32) -> (r: bool)
    ensures
        r == (bpp == CONSOLE_BPP && width == CONSOLE_WIDTH && height == CONSOLE_HEIGHT && pitch
            == CONSOLE_PITCH),
{
    bpp == 32 && width == 800 && height == 600 && pitch == 3200
}

/// What a tag of the boot information says of a frame buffer: where it
/// lies, its shape, and whether its kind of colour is one that is known.
#[derive(Debug, Clone, Copy)]
pub struct FramebufferInfo {
    pub address: u64,
    pub pitch: u32,
    pub width: u32,
    pub height: u32,
    pub bpp: u8,
    pub known_type: bool,
}

impl FramebufferInfo {
    /// The frame buffer has the shape that the console draws into.
    pub open spec fn fits_console(&self) -> bool {
        self.bpp == CONSOLE_BPP && self.width == CONSOLE_WIDTH && self.height == CONSOLE_HEIGHT
            && self.pitch == CONSOLE_PITCH
    }
}

/// The frame buffer that a walk over `tags` finds: the address of the first
/// one that the console can draw into, unless one of an unknown kind comes
/// before it, which ends the walk with nothing.
pub open spec fn first_console_buffer(tags: Seq<FramebufferInfo>) -> Option<u64>
    decreases tags.len(),
{
    if tags.len() == 0 {
        None
    } else if !tags[0].known_type {
        None
    } else if tags[0].fits_console() {
        Some(tags[0].address)
    } else {
        first_console_buffer(tags.drop_first())
    }
}

/// Find frame buffer from the frame-buffer tags of the boot information,
/// in their order.
pub fn find_fb(tags: &[FramebufferInfo]) -> (r: Option<u64>)
    ensures
        r == first_console_buffer(tags@),
{
    let mut i: usize = 0;
    assert(tags@.skip(0) =~= tags@);
    while i < tags.len()
        invariant
            0 <= i <= tags@.len(),
            first_console_buffer(tags@) == first_console_buffer(tags@.skip(i as int)),
        decreases tags@.len() - i,
    {
        let tag: FramebufferInfo = tags[i];
        proof {
            assert(tags@.skip(i as int)[0] == tags@[i as int]);
            assert(tags@.skip(i as int).drop_first() =~= tags@.skip(i + 1));
        }
        if !tag.known_type {
            return None;
        }
        if is_console_mode(tag.bpp, tag.width, tag.height, tag.pitch) {
            return Some(tag.address);
        }
        i = i + 1;
    }
    None
}

/// Distance in bytes from the start of a tag of `size` bytes to the start
/// of the next tag: the size rounded up to a multiple of 8.
pub fn next_tag_offset(size: u32) -> (r: u64)
    ensures
        r == (size + 7) / 8 * 8,
        r % 8 == 0,
        size <= r < size + 8,
{
    (size as u64 + 7) / 8 * 8
}

} // verus!
