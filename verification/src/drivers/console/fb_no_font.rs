//! A console for a text-mode frame buffer: a grid of cells, each a
//! character and a colour, `_width` cells to the row.

use vstd::prelude::*;
use vstd::string::StringSliceAdditionalSpecFns;

verus! {

/// Colour of the text of the console: white on black.
pub const DEFAULT_COLOR: u8 = 0x0f;

/// The line feed.
pub const LINE_FEED: u8 = 0x0a;

/// The state of the console: the size of the grid, the cursor and the
/// address of the frame buffer. `_pos_x` counts the rows and `_pos_y` the
/// cells of the row.
#[derive(Debug, Clone, Copy)]
pub struct FrameBufferNoFont {
    pub _width: usize,
    pub _height: usize,
    pub _pos_x: usize,
    pub _pos_y: usize,
    pub _buffer: usize,
}

/// One cell of the text-mode frame buffer. Its view is the character and
/// the colour.
#[derive(Debug, Clone, Copy)]
pub struct CharByte {
    _char: u8,
    _color: u8,
}

impl View for CharByte {
    type V = (u8, u8);

    closed spec fn view(&self) -> (u8, u8) {
        (self._char, self._color)
    }
}

impl CharByte {
    /// The cell for `ch` in the colour of the console.
    pub fn default(ch: u8) -> (r: Self)
        ensures
            r@ == (ch, DEFAULT_COLOR),
    {
        Self { _char: ch, _color: 0x0f }
    }

    /// The cell for `ch` in `color`.
    pub fn set(ch: u8, color: u8) -> (r: Self)
        ensures
            r@ == (ch, color),
    {
        Self { _char: ch, _color: color }
    }

    /// Change the colour of the cell; the character stays.
    pub fn set_color(&mut self, color: u8)
        ensures
            final(self)@ == (old(self)@.0, color),
    {
        self._color = color;
    }

    /// The character and the colour of the cell, as the frame buffer holds
    /// them.
    pub fn to_bytes(&self) -> (r: (u8, u8))
        ensures
            r == self@,
    {
        (self._char, self._color)
    }
}

/// The characters and colours of `cells`.
pub open spec fn cell_views(cells: Seq<CharByte>) -> Seq<(u8, u8)> {
    cells.map_values(|c: CharByte| c@)
}

impl FrameBufferNoFont {
    /// Number of cells of the grid.
    pub open spec fn grid(&self) -> int {
        self._width * self._height
    }

    /// The console with its cursor at cell `y` of row `x`.
    pub open spec fn at(&self, x: int, y: int) -> FrameBufferNoFont {
        FrameBufferNoFont { _pos_x: x as usize, _pos_y: y as usize, ..*self }
    }

    /// Whether `ch` moves the cursor to the start of the next row before
    /// anything is written: a line feed does, and so does any byte where
    /// the row counter has reached the width.
    pub open spec fn wraps(&self, ch: u8) -> bool {
        ch == LINE_FEED || self._pos_x == self._width
    }

    /// Row of the cursor once `ch` has moved it or not.
    pub open spec fn row_for(&self, ch: u8) -> int {
        if self.wraps(ch) {
            self._pos_x + 1
        } else {
            self._pos_x as int
        }
    }

    /// Cell of the row of the cursor once `ch` has moved it or not.
    pub open spec fn column_for(&self, ch: u8) -> int {
        if self.wraps(ch) {
            0
        } else {
            self._pos_y as int
        }
    }

    /// `ch` can be put out: the cursor does not leave the range of its
    /// counters, and a character is written to a cell of the grid.
    pub open spec fn can_output(&self, ch: u8) -> bool {
        &&& self.row_for(ch) <= usize::MAX
        &&& ch != LINE_FEED ==> self.row_for(ch) * self._width + self.column_for(ch) < self.grid()
    }

    /// The console and the cells after `ch` has been put out. A line feed
    /// moves the cursor to the start of the next row. Any other byte is
    /// written, in the colour of the console, to the cell of the cursor,
    /// which then moves one cell on.
    pub open spec fn after_output(&self, cells: Seq<(u8, u8)>, ch: u8) -> (
        FrameBufferNoFont,
        Seq<(u8, u8)>,
    ) {
        let x: int = self.row_for(ch);
        let y: int = self.column_for(ch);
        if ch == LINE_FEED {
            (self.at(x, y), cells)
        } else {
            (self.at(x, y + 1), cells.update(x * self._width + y, (ch, DEFAULT_COLOR)))
        }
    }

    /// The bytes of `text` can be put out one after the other.
    pub open spec fn can_print(&self, cells: Seq<(u8, u8)>, text: Seq<u8>) -> bool
        decreases text.len(),
    {
        text.len() == 0 || (self.can_print(cells, text.drop_last()) && self.after_print(
            cells,
            text.drop_last(),
        ).0.can_output(text.last()))
    }

    /// The console and the cells after the bytes of `text` have been put
    /// out one after the other.
    pub open spec fn after_print(&self, cells: Seq<(u8, u8)>, text: Seq<u8>) -> (
        FrameBufferNoFont,
        Seq<(u8, u8)>,
    )
        decreases text.len(),
    {
        if text.len() == 0 {
            (*self, cells)
        } else {
            let before: (FrameBufferNoFont, Seq<(u8, u8)>) = self.after_print(
                cells,
                text.drop_last(),
            );
            before.0.after_output(before.1, text.last())
        }
    }

    /// Whether `ch` can be put out into a frame buffer of `cell_count`
    /// cells: the grid then lies in the cells, and `ch` can be put out.
    pub fn accepts(&self, cell_count: usize, ch: u8) -> (r: bool)
        ensures
            r == (self.grid() <= cell_count && self.can_output(ch)),
    {
        let grid: usize = match self._width.checked_mul(self._height) {
            None => { return false; },
            Some(grid) => grid,
        };
        if grid > cell_count {
            return false;
        }
        let wraps: bool = ch == LINE_FEED || self._pos_x == self._width;
        let row: usize = if wraps {
            match self._pos_x.checked_add(1) {
                None => { return false; },
                Some(row) => row,
            }
        } else {
            self._pos_x
        };
        if ch == LINE_FEED {
            return true;
        }
        let column: usize = if wraps {
            0
        } else {
            self._pos_y
        };
        match row.checked_mul(self._width) {
            None => false,
            Some(start) => match start.checked_add(column) {
                None => false,
                Some(pos) => pos < grid,
            },
        }
    }

    /// Clear frame buffer: every cell of the grid becomes the character 0
    /// in the colour of the console.
    pub fn clear(&mut self, cells: &mut Vec<CharByte>)
        requires
            old(self).grid() <= old(cells)@.len(),
        ensures
            *final(self) == *old(self),
            final(cells)@.len() == old(cells)@.len(),
            forall|k: int|
                0 <= k < final(cells)@.len() ==> #[trigger] final(cells)@[k]@ == (if k
                    < old(self).grid() {
                    (0u8, DEFAULT_COLOR)
                } else {
                    old(cells)@[k]@
                }),
    {
        let total: usize = cells.len();
        proof {
            assert(self._width * self._height >= 0) by (nonlinear_arith);
        }
        let buffer_size: usize = self._width * self._height;
        let mut i: usize = 0;
        while i < buffer_size
            invariant
                0 <= i <= buffer_size <= cells@.len(),
                cells@.len() == old(cells)@.len(),
                forall|k: int|
                    0 <= k < cells@.len() ==> #[trigger] cells@[k]@ == (if k < i {
                        (0u8, DEFAULT_COLOR)
                    } else {
                        old(cells)@[k]@
                    }),
            decreases buffer_size - i,
        {
            cells.set(i, CharByte::default(0));
            i = i + 1;
        }
    }

    /// Print a character to frame buffer.
    pub fn output(&mut self, cells: &mut Vec<CharByte>, ch: u8)
        requires
            old(self).grid() <= old(cells)@.len(),
            old(self).can_output(ch),
        ensures
            final(cells)@.len() == old(cells)@.len(),
            (*final(self), cell_views(final(cells)@)) == old(self).after_output(
                cell_views(old(cells)@),
                ch,
            ),
    {
        let total: usize = cells.len();
        if ch == LINE_FEED || self._pos_x == self._width {
            self._pos_x = self._pos_x + 1;
            self._pos_y = 0;
        }
        if ch == LINE_FEED {
            return ;
        }
        proof {
            assert(self._pos_x * self._width >= 0) by (nonlinear_arith);
        }
        let pos: usize = self._pos_x * self._width + self._pos_y;
        cells.set(pos, CharByte::default(ch));
        self._pos_y = self._pos_y + 1;
        assert(cell_views(cells@) =~= cell_views(old(cells)@).update(
            pos as int,
            (ch, DEFAULT_COLOR),
        ));
    }

    /// Print a string to frame buffer.
    pub fn print_str(&mut self, cells: &mut Vec<CharByte>, s: &str)
        requires
            old(self).grid() <= old(cells)@.len(),
            old(self).can_print(cell_views(old(cells)@), s.spec_bytes()),
        ensures
            final(cells)@.len() == old(cells)@.len(),
            (*final(self), cell_views(final(cells)@)) == old(self).after_print(
                cell_views(old(cells)@),
                s.spec_bytes(),
            ),
    {
        let bytes: &[u8] = s.as_bytes();
        let mut i: usize = 0;
        while i < bytes.len()
            invariant
                0 <= i <= bytes@.len(),
                bytes@ == s.spec_bytes(),
                cells@.len() == old(cells)@.len(),
                self.grid() <= cells@.len(),
                old(self).can_print(cell_views(old(cells)@), bytes@),
                (*self, cell_views(cells@)) == old(self).after_print(
                    cell_views(old(cells)@),
                    bytes@.take(i as int),
                ),
            decreases bytes@.len() - i,
        {
            proof {
                assert(bytes@.take(i + 1).drop_last() =~= bytes@.take(i as int));
                assert(bytes@.take(i + 1).last() == bytes@[i as int]);
                lemma_can_print_prefix(old(self), cell_views(old(cells)@), bytes@, i + 1);
            }
            self.output(cells, bytes[i]);
            i = i + 1;
        }
        assert(bytes@.take(i as int) =~= bytes@);
    }
}

/// Where a text can be printed, each of its beginnings can, and printing
/// leaves the size of the grid as it is.
pub proof fn lemma_can_print_prefix(
    console: &FrameBufferNoFont,
    cells: Seq<(u8, u8)>,
    text: Seq<u8>,
    n: int,
)
    requires
        console.can_print(cells, text),
        0 <= n <= text.len(),
    ensures
        console.can_print(cells, text.take(n)),
        console.after_print(cells, text.take(n)).0.grid() == console.grid(),
    decreases text.len() - n,
{
    if n == text.len() {
        assert(text.take(n) =~= text);
    } else {
        lemma_can_print_prefix(console, cells, text, n + 1);
        assert(text.take(n + 1).drop_last() =~= text.take(n));
    }
    lemma_print_keeps_grid(console, cells, text.take(n));
}

/// Printing leaves the size of the grid as it is.
pub proof fn lemma_print_keeps_grid(
    console: &FrameBufferNoFont,
    cells: Seq<(u8, u8)>,
    text: Seq<u8>,
)
    ensures
        console.after_print(cells, text).0._width == console._width,
        console.after_print(cells, text).0._height == console._height,
    decreases text.len(),
{
    if text.len() > 0 {
        lemma_print_keeps_grid(console, cells, text.drop_last());
    }
}

} // verus!
