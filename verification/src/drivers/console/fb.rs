//! A console that draws text into a frame buffer of 32-bit pixels.
//!
//! The frame buffer is a sequence of pixels, row after row, `_width` pixels
//! to the row. The screen is a grid of character cells, `_max_x` to the row
//! and `_max_y` rows, each `_font_width` pixels wide and `_font_height`
//! high. A font holds, for each character, one byte for each pixel row of
//! its cell: bit 7 is the leftmost pixel.

use vstd::prelude::*;
use vstd::string::StringSliceAdditionalSpecFns;
use vstd::arithmetic::div_mod::{lemma_fundamental_div_mod, lemma_fundamental_div_mod_converse};

verus! {

/// Colour of a pixel that belongs to a character.
pub const INK: u32 = 0xffff_ffff;

/// The character drawn for a byte that is no ASCII character.
pub const UNKNOWN_CHAR: u8 = 0x3f;

/// The line feed.
pub const NEWLINE: u8 = 0x0a;

/// The state of the console: the geometry of the screen, the cell of the
/// cursor and the address of the frame buffer.
#[derive(Debug, Clone, Copy)]
pub struct FrameBuffer {
    pub _width: usize,
    pub _font_width: usize,
    pub _font_height: usize,
    pub _pos_x: usize,
    pub _pos_y: usize,
    pub _max_x: usize,
    pub _max_y: usize,
    pub _buffer: usize,
}

/// Colour of pixel `i` of a pixel row with the font byte `bits`: ink where
/// the bit is set, counted from bit 7; pixels from the ninth on are blank.
pub open spec fn glyph_pixel(bits: u8, i: int) -> u32 {
    if 0 <= i < 8 && (bits >> ((7 - i) as u8)) & 1 == 1 {
        INK
    } else {
        0
    }
}

/// The pixels after the rows of text have moved up by one: `count` pixels
/// are taken from `row` pixels further on, the `row` pixels behind them are
/// blank, and the rest is as before.
pub open spec fn scrolled(pixels: Seq<u32>, row: int, count: int) -> Seq<u32> {
    Seq::new(
        pixels.len(),
        |k: int|
            if k < count {
                pixels[k + row]
            } else if k < count + row {
                0u32
            } else {
                pixels[k]
            },
    )
}

/// The pixels after the first `rows` pixel rows of a cell, and the first
/// `cols` pixels of the row behind them, have been drawn: the cell has its
/// left top pixel at column `left` of pixel row `top`, and the bytes of its
/// character start at `glyph` in `font`.
pub open spec fn drawn(
    pixels: Seq<u32>,
    width: int,
    left: int,
    top: int,
    font_width: int,
    font: Seq<u8>,
    glyph: int,
    rows: int,
    cols: int,
) -> Seq<u32> {
    Seq::new(
        pixels.len(),
        |k: int|
            {
                let r: int = k / width;
                let c: int = k % width;
                if (top <= r < top + rows && left <= c < left + font_width) || (r == top + rows
                    && left <= c < left + cols) {
                    glyph_pixel(font[glyph + (r - top)], c - left)
                } else {
                    pixels[k]
                }
            },
    )
}

/// The pixel at column `col` of row `row` lies at `row * width + col`, on
/// the screen where the row is.
pub proof fn lemma_pixel_index(width: int, row: int, col: int, rows: int)
    requires
        0 <= row < rows,
        0 <= col < width,
    ensures
        0 <= row * width + col < rows * width,
        (row * width + col) / width == row,
        (row * width + col) % width == col,
{
    assert(row * width + width <= rows * width) by (nonlinear_arith)
        requires
            0 <= row < rows,
            0 < width,
    ;
    assert(0 <= row * width) by (nonlinear_arith)
        requires
            0 <= row,
            0 < width,
    ;
    lemma_fundamental_div_mod_converse(row * width + col, width, row, col);
}

impl FrameBuffer {
    /// Number of pixels of one row of text.
    pub open spec fn text_row(&self) -> int {
        self._width * self._font_height
    }

    /// Number of pixel rows of the screen.
    pub open spec fn pixel_rows(&self) -> int {
        self._max_y * self._font_height
    }

    /// Number of pixels of the screen.
    pub open spec fn screen(&self) -> int {
        self.pixel_rows() * self._width
    }

    /// Number of pixels that the cells of the screen take up, row by row
    /// from the first pixel.
    pub open spec fn cell_pixels(&self) -> int {
        self._max_x * self._font_width * self.pixel_rows()
    }

    /// Number of bytes of `font` for one character.
    pub open spec fn glyph_bytes(&self) -> int {
        (self._font_width * self._font_height) / 8
    }

    /// The screen has cells in at least two rows, its rows of cells fit
    /// the width, the whole screen lies in the first `pixel_count` pixels,
    /// and the cursor is on the screen or just behind the end of a row.
    pub open spec fn fits(&self, pixel_count: int) -> bool {
        &&& self._font_width >= 1
        &&& self._font_height >= 1
        &&& self._max_x >= 1
        &&& self._max_y >= 2
        &&& self._max_x * self._font_width <= self._width
        &&& self.screen() <= pixel_count
        &&& pixel_count <= usize::MAX
        &&& self._pos_x <= self._max_x
        &&& self._pos_y < self._max_y
    }

    /// The console is well formed for `pixels`: it fits their number.
    pub open spec fn wf(&self, pixels: Seq<u32>) -> bool {
        self.fits(pixels.len() as int)
    }

    /// A font of `font_bytes` bytes holds the bytes of all 256 characters.
    pub open spec fn font_fits(&self, font_bytes: int) -> bool {
        255 * self.glyph_bytes() + self._font_height <= font_bytes
    }

    /// `font` holds the bytes of all 256 characters.
    pub open spec fn has_font(&self, font: Seq<u8>) -> bool {
        self.font_fits(font.len() as int)
    }

    /// The console with its cursor at cell `x` of row `y`.
    pub open spec fn at(&self, x: int, y: int) -> FrameBuffer {
        FrameBuffer { _pos_x: x as usize, _pos_y: y as usize, ..*self }
    }

    /// The console and the pixels after `ch` has been put out. The byte 0
    /// changes nothing. A line feed, or a cursor behind the end of its row,
    /// moves the cursor to the start of the next row; where that is below
    /// the screen, the text moves up by one row. Any other byte is drawn at
    /// the cursor, which then moves one cell on; a byte from 128 on moves
    /// the cursor like a question mark.
    pub open spec fn after_output(&self, pixels: Seq<u32>, font: Seq<u8>, ch: u8) -> (
        FrameBuffer,
        Seq<u32>,
    ) {
        if ch == 0 {
            (*self, pixels)
        } else {
            let wraps: bool = ch == NEWLINE || self._pos_x == self._max_x;
            let x: int = if wraps {
                0
            } else {
                self._pos_x as int
            };
            let below: bool = wraps && self._pos_y + 1 == self._max_y;
            let y: int = if wraps && !below {
                self._pos_y + 1
            } else {
                self._pos_y as int
            };
            let moved: Seq<u32> = if below {
                scrolled(pixels, self.text_row(), self.screen() - self.text_row())
            } else {
                pixels
            };
            if ch == NEWLINE {
                (self.at(x, y), moved)
            } else {
                (
                    self.at(x + 1, y),
                    drawn(
                        moved,
                        self._width as int,
                        x * self._font_width,
                        y * self._font_height,
                        self._font_width as int,
                        font,
                        ch * self.glyph_bytes(),
                        self._font_height as int,
                        0,
                    ),
                )
            }
        }
    }

    /// The console and the pixels after the bytes of `text` have been put
    /// out one after the other.
    pub open spec fn after_print(&self, pixels: Seq<u32>, font: Seq<u8>, text: Seq<u8>) -> (
        FrameBuffer,
        Seq<u32>,
    )
        decreases text.len(),
    {
        if text.len() == 0 {
            (*self, pixels)
        } else {
            let before: (FrameBuffer, Seq<u32>) = self.after_print(pixels, font, text.drop_last());
            before.0.after_output(before.1, font, text.last())
        }
    }

    /// What follows from the geometry of a well-formed console: a pixel row
    /// holds a pixel, the rows of text make up the screen, and the cells
    /// lie on the screen.
    pub proof fn lemma_geometry(&self, pixels: Seq<u32>)
        requires
            self.wf(pixels),
        ensures
            self._width >= 1,
            self.text_row() >= 1,
            self.pixel_rows() >= 2,
            self.screen() == self._max_y * self.text_row(),
            self.screen() == self._width * ((self._max_y - 1) * self._font_height)
                + self.text_row(),
            self._width * ((self._max_y - 1) * self._font_height) >= 0,
            (self._max_y - 1) * self._font_height >= 0,
            self.pixel_rows() <= self.screen(),
            self._max_x * self._font_width * self.pixel_rows() <= self.screen(),
            self._max_x * self._font_width >= 1,
            (self._max_y - 1) * self._font_height <= self.pixel_rows(),
    {
        let w: int = self._width as int;
        let fw: int = self._font_width as int;
        let fh: int = self._font_height as int;
        let mx: int = self._max_x as int;
        let my: int = self._max_y as int;
        assert(mx * fw >= 1) by (nonlinear_arith)
            requires
                mx >= 1,
                fw >= 1,
        ;
        assert(w * fh >= 1) by (nonlinear_arith)
            requires
                w >= 1,
                fh >= 1,
        ;
        assert(my * fh >= 2) by (nonlinear_arith)
            requires
                my >= 2,
                fh >= 1,
        ;
        assert((my * fh) * w == my * (w * fh)) by (nonlinear_arith);
        assert((my * fh) * w == w * ((my - 1) * fh) + w * fh) by (nonlinear_arith);
        assert(w * ((my - 1) * fh) >= 0 && (my - 1) * fh >= 0) by (nonlinear_arith)
            requires
                my >= 1,
                fh >= 1,
                w >= 1,
        ;
        assert(my * fh <= (my * fh) * w) by (nonlinear_arith)
            requires
                my * fh >= 0,
                w >= 1,
        ;
        assert(mx * fw * (my * fh) <= (my * fh) * w) by (nonlinear_arith)
            requires
                mx * fw <= w,
                my * fh >= 0,
        ;
        assert((my - 1) * fh <= my * fh) by (nonlinear_arith)
            requires
                fh >= 1,
        ;
    }

    /// The cell `x` of row `y` of a well-formed console lies on the screen:
    /// its pixel columns within the width, its pixel rows within the rows
    /// of the screen.
    pub proof fn lemma_cell(&self, pixels: Seq<u32>, x: int, y: int)
        requires
            self.wf(pixels),
            0 <= x < self._max_x,
            0 <= y < self._max_y,
        ensures
            0 <= x * self._font_width,
            x * self._font_width + self._font_width <= self._width,
            0 <= y * self._font_height,
            y * self._font_height + self._font_height <= self.pixel_rows(),
    {
        let fw: int = self._font_width as int;
        let fh: int = self._font_height as int;
        let mx: int = self._max_x as int;
        let my: int = self._max_y as int;
        assert(0 <= x * fw && x * fw + fw <= mx * fw) by (nonlinear_arith)
            requires
                0 <= x < mx,
                fw >= 1,
        ;
        assert(0 <= y * fh && y * fh + fh <= my * fh) by (nonlinear_arith)
            requires
                0 <= y < my,
                fh >= 1,
        ;
    }

    /// Whether the console can draw into a frame buffer of `pixel_count`
    /// pixels with a font of `font_bytes` bytes: it fits such a frame
    /// buffer, and such a font holds all of its characters.
    pub fn is_ready(&self, pixel_count: usize, font_bytes: usize) -> (r: bool)
        ensures
            r == (self.fits(pixel_count as int) && self.font_fits(font_bytes as int)),
    {
        if self._font_width == 0 || self._font_height == 0 || self._max_x == 0 || self._max_y < 2
            || self._pos_x > self._max_x || self._pos_y >= self._max_y {
            return false;
        }
        let fw: usize = self._font_width;
        let fh: usize = self._font_height;
        match self._max_x.checked_mul(fw) {
            None => { return false; },
            Some(cells_width) => {
                if cells_width > self._width {
                    return false;
                }
            },
        }
        proof {
            assert(self._max_x * fw >= fw) by (nonlinear_arith)
                requires
                    self._max_x >= 1,
                    fw >= 1,
            ;
        }
        let rows: usize = match self._max_y.checked_mul(fh) {
            None => {
                proof {
                    assert(self.pixel_rows() * self._width >= self.pixel_rows())
                        by (nonlinear_arith)
                        requires
                            self._width >= 1,
                            self.pixel_rows() >= 0,
                    ;
                }
                return false;
            },
            Some(rows) => rows,
        };
        let screen: usize = match rows.checked_mul(self._width) {
            None => { return false; },
            Some(screen) => screen,
        };
        if screen > pixel_count {
            return false;
        }
        proof {
            assert(fh <= rows) by (nonlinear_arith)
                requires
                    rows == self._max_y * fh,
                    self._max_y >= 1,
                    fh >= 1,
            ;
            assert(fw * fh <= rows * self._width) by (nonlinear_arith)
                requires
                    1 <= fw <= self._width,
                    1 <= fh <= rows,
            ;
        }
        let glyph_bytes: usize = (fw * fh) / 8;
        let all: usize = match glyph_bytes.checked_mul(255) {
            None => { return false; },
            Some(all) => all,
        };
        match all.checked_add(fh) {
            None => false,
            Some(needed) => needed <= font_bytes,
        }
    }

    /// Clean all frameBuffer: the pixels that the cells take up, the first
    /// `_max_x * _font_width * _max_y * _font_height` ones, become blank.
    pub fn clean(&mut self, pixels: &mut Vec<u32>)
        requires
            old(self).wf(old(pixels)@),
        ensures
            *final(self) == *old(self),
            final(pixels)@.len() == old(pixels)@.len(),
            forall|k: int|
                0 <= k < final(pixels)@.len() ==> #[trigger] final(pixels)@[k] == (if k
                    < old(self).cell_pixels() {
                    0u32
                } else {
                    old(pixels)@[k]
                }),
    {
        proof {
            self.lemma_geometry(pixels@);
        }
        let buffer_size: usize = self._max_x * self._font_width * (self._max_y
            * self._font_height);
        let mut i: usize = 0;
        while i < buffer_size
            invariant
                0 <= i <= buffer_size <= pixels@.len(),
                pixels@.len() == old(pixels)@.len(),
                forall|k: int|
                    0 <= k < pixels@.len() ==> #[trigger] pixels@[k] == (if k < i {
                        0u32
                    } else {
                        old(pixels)@[k]
                    }),
            decreases buffer_size - i,
        {
            pixels.set(i, 0x00000000);
            i = i + 1;
        }
    }

    /// Set frameBuffer base.
    pub fn set_base(&mut self, buffer: usize)
        ensures
            *final(self) == (FrameBuffer { _buffer: buffer, ..*old(self) }),
    {
        self._buffer = buffer;
    }

    /// Scroll up frameBuffer: every row of text but the first moves up by
    /// one row, and the last row becomes blank.
    pub fn scroll_up(&mut self, pixels: &mut Vec<u32>)
        requires
            old(self).wf(old(pixels)@),
        ensures
            *final(self) == *old(self),
            final(pixels)@ == scrolled(
                old(pixels)@,
                old(self).text_row(),
                old(self).screen() - old(self).text_row(),
            ),
    {
        proof {
            self.lemma_geometry(pixels@);
        }
        let count: usize = self._width * ((self._max_y - 1) * self._font_height);
        let row: usize = self._width * self._font_height;
        let mut cur: usize = 0;
        // Move the text up one row.
        while cur < count
            invariant
                0 <= cur <= count,
                count + row <= pixels@.len() <= usize::MAX,
                pixels@.len() == old(pixels)@.len(),
                forall|k: int|
                    0 <= k < pixels@.len() ==> #[trigger] pixels@[k] == (if k < cur {
                        old(pixels)@[k + row]
                    } else {
                        old(pixels)@[k]
                    }),
            decreases count - cur,
        {
            let content: u32 = pixels[cur + row];
            pixels.set(cur, content);
            cur = cur + 1;
        }
        // Clean up the last row.
        let end: usize = count + row;
        while cur < end
            invariant
                count <= cur <= end,
                end == count + row,
                end <= pixels@.len(),
                pixels@.len() == old(pixels)@.len(),
                forall|k: int|
                    0 <= k < pixels@.len() ==> #[trigger] pixels@[k] == (if k < count {
                        old(pixels)@[k + row]
                    } else if k < cur {
                        0u32
                    } else {
                        old(pixels)@[k]
                    }),
            decreases end - cur,
        {
            pixels.set(cur, 0x00000000);
            cur = cur + 1;
        }
        assert(pixels@ =~= scrolled(old(pixels)@, row as int, count as int));
    }

    /// Draw the character whose bytes start at `glyph` in `font` into the
    /// cell with its left top pixel at column `left` of pixel row `top`.
    /// No pixel outside the cell changes.
    fn draw(&self, pixels: &mut Vec<u32>, font: &[u8], glyph: usize, left: usize, top: usize)
        requires
            self._width >= 1,
            self._font_width >= 1,
            left + self._font_width <= self._width,
            top + self._font_height <= self.pixel_rows(),
            self.screen() <= old(pixels)@.len(),
            glyph + self._font_height <= font@.len(),
        ensures
            final(pixels)@ == drawn(
                old(pixels)@,
                self._width as int,
                left as int,
                top as int,
                self._font_width as int,
                font@,
                glyph as int,
                self._font_height as int,
                0,
            ),
    {
        let width: usize = self._width;
        let font_width: usize = self._font_width;
        let font_height: usize = self._font_height;
        let pixel_count: usize = pixels.len();
        let font_bytes: usize = font.len();
        let ghost start: Seq<u32> = pixels@;
        let mut j: usize = 0;
        assert(pixels@ =~= drawn(
            start,
            width as int,
            left as int,
            top as int,
            font_width as int,
            font@,
            glyph as int,
            0,
            0,
        ));
        while j < font_height
            invariant
                0 <= j <= font_height,
                width == self._width,
                font_width == self._font_width,
                font_height == self._font_height,
                width >= 1,
                font_width >= 1,
                left + font_width <= width,
                top + font_height <= self.pixel_rows(),
                self.screen() <= start.len(),
                start.len() <= usize::MAX,
                glyph + font_height <= font@.len() <= usize::MAX,
                pixels@ == drawn(
                    start,
                    width as int,
                    left as int,
                    top as int,
                    font_width as int,
                    font@,
                    glyph as int,
                    j as int,
                    0,
                ),
            decreases font_height - j,
        {
            let bits: u8 = font[glyph + j];
            let mut i: usize = 0;
            proof {
                lemma_pixel_index(width as int, top + j, left as int, self.pixel_rows());
                lemma_pixel_index(
                    width as int,
                    top + j,
                    left + font_width - 1,
                    self.pixel_rows(),
                );
            }
            let row_start: usize = (top + j) * width + left;
            while i < font_width
                invariant
                    0 <= i <= font_width,
                    0 <= j < font_height,
                    width == self._width,
                    font_width == self._font_width,
                    width >= 1,
                    left + font_width <= width,
                    top + font_height <= self.pixel_rows(),
                    self.screen() <= start.len(),
                    start.len() <= usize::MAX,
                    row_start == (top + j) * width + left,
                    row_start + font_width <= self.screen(),
                    glyph + font_height <= font@.len(),
                    bits == font@[glyph + j],
                    pixels@ == drawn(
                        start,
                        width as int,
                        left as int,
                        top as int,
                        font_width as int,
                        font@,
                        glyph as int,
                        j as int,
                        i as int,
                    ),
                decreases font_width - i,
            {
                let color: u32 = if i < 8 && (bits >> (7 - i as u8)) & 1 == 1 {
                    INK
                } else {
                    0
                };
                let ghost before: Seq<u32> = pixels@;
                pixels.set(row_start + i, color);
                proof {
                    let at: int = row_start + i;
                    lemma_pixel_index(width as int, top + j, left + i, self.pixel_rows());
                    assert(width * (top + j) == (top + j) * width) by (nonlinear_arith);
                    let next: Seq<u32> = drawn(
                        start,
                        width as int,
                        left as int,
                        top as int,
                        font_width as int,
                        font@,
                        glyph as int,
                        j as int,
                        i + 1,
                    );
                    assert forall|k: int| 0 <= k < next.len() implies pixels@[k] == next[k] by {
                        lemma_fundamental_div_mod(k, width as int);
                        if k != at {
                            assert(pixels@[k] == before[k]);
                        }
                    }
                    assert(pixels@ =~= next);
                }
                i = i + 1;
            }
            proof {
                let full: Seq<u32> = drawn(
                    start,
                    width as int,
                    left as int,
                    top as int,
                    font_width as int,
                    font@,
                    glyph as int,
                    j as int,
                    font_width as int,
                );
                let next: Seq<u32> = drawn(
                    start,
                    width as int,
                    left as int,
                    top as int,
                    font_width as int,
                    font@,
                    glyph as int,
                    j + 1,
                    0,
                );
                assert(full =~= next);
            }
            j = j + 1;
        }
    }

    /// Output a single character on frameBuffer.
    pub fn output(&mut self, pixels: &mut Vec<u32>, font: &[u8], ch: u8)
        requires
            old(self).wf(old(pixels)@),
            old(self).has_font(font@),
        ensures
            final(self).wf(final(pixels)@),
            final(self).has_font(font@),
            (*final(self), final(pixels)@) == old(self).after_output(old(pixels)@, font@, ch),
    {
        proof {
            self.lemma_geometry(pixels@);
        }
        let pixel_count: usize = pixels.len();
        let font_bytes: usize = font.len();
        let mut mch: u8 = ch;
        if mch >= 128 || mch == 0 {
            if mch == 0 {
                return ;
            }
            mch = UNKNOWN_CHAR;
        }
        if mch == NEWLINE || self._pos_x == self._max_x {
            self._pos_x = 0;
            self._pos_y = self._pos_y + 1;
        }
        if self._pos_y == self._max_y {
            self._pos_y = self._pos_y - 1;
            self.scroll_up(pixels);
        }
        if mch == NEWLINE {
            return ;
        }
        proof {
            self.lemma_cell(pixels@, self._pos_x as int, self._pos_y as int);
            assert(self._font_width * self._font_height <= self.screen()) by (nonlinear_arith)
                requires
                    1 <= self._font_width <= self._width,
                    1 <= self._font_height <= self.pixel_rows(),
                    self.screen() == self.pixel_rows() * self._width,
            ;
            assert(ch * self.glyph_bytes() <= 255 * self.glyph_bytes()) by (nonlinear_arith)
                requires
                    0 <= ch <= 255,
                    self.glyph_bytes() >= 0,
            ;
        }
        let index: usize = (ch as usize) * (self._font_width * self._font_height / 8);
        let left: usize = self._pos_x * self._font_width;
        let top: usize = self._pos_y * self._font_height;
        self.draw(pixels, font, index, left, top);
        self._pos_x = self._pos_x + 1;
    }

    /// Print a string to frameBuffer: its bytes are put out one after the
    /// other.
    pub fn print_str(&mut self, pixels: &mut Vec<u32>, font: &[u8], s: &str)
        requires
            old(self).wf(old(pixels)@),
            old(self).has_font(font@),
        ensures
            final(self).wf(final(pixels)@),
            final(self).has_font(font@),
            (*final(self), final(pixels)@) == old(self).after_print(
                old(pixels)@,
                font@,
                s.spec_bytes(),
            ),
    {
        let bytes: &[u8] = s.as_bytes();
        let mut i: usize = 0;
        while i < bytes.len()
            invariant
                0 <= i <= bytes@.len(),
                bytes@ == s.spec_bytes(),
                self.wf(pixels@),
                self.has_font(font@),
                (*self, pixels@) == old(self).after_print(
                    old(pixels)@,
                    font@,
                    bytes@.take(i as int),
                ),
            decreases bytes@.len() - i,
        {
            self.output(pixels, font, bytes[i]);
            proof {
                assert(bytes@.take(i + 1).drop_last() =~= bytes@.take(i as int));
                assert(bytes@.take(i + 1).last() == bytes@[i as int]);
            }
            i = i + 1;
        }
        assert(bytes@.take(i as int) =~= bytes@);
    }
}

} // verus!
