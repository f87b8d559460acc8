use micro_os::asms::msr::{msr_halves, msr_value, MSR_EFER, MSR_SFMASK, MSR_STAR};
use micro_os::drivers::console::console::{is_console_mode, next_tag_offset, MultibootInfo};
use micro_os::drivers::console::fb::FrameBuffer;
use micro_os::drivers::console::fb_no_font::{CharByte, FrameBufferNoFont};
use micro_os::syscall::syscall::syscall_init;

const INK: u32 = 0xffff_ffff;

/// A screen of two rows of two cells, each 8 pixels wide and 2 high.
fn small_console() -> (FrameBuffer, Vec<u32>, Vec<u8>) {
    let console = FrameBuffer {
        _width: 16,
        _font_width: 8,
        _font_height: 2,
        _pos_x: 0,
        _pos_y: 0,
        _max_x: 2,
        _max_y: 2,
        _buffer: 0xb8000,
    };
    let pixels = vec![7u32; 64 + 3];
    let mut font = vec![0u8; 512];
    // 'A': the two leftmost pixels of its first row, the rightmost of its second.
    font[0x41 * 2] = 0b1100_0000;
    font[0x41 * 2 + 1] = 0b0000_0001;
    // 'B': every pixel.
    font[0x42 * 2] = 0xff;
    font[0x42 * 2 + 1] = 0xff;
    // The byte 0x80: one pixel.
    font[0x80 * 2] = 0b0001_0000;
    (console, pixels, font)
}

fn row_of(pixels: &[u32], row: usize) -> Vec<u32> {
    pixels[row * 16..row * 16 + 16].to_vec()
}

#[test]
fn output_draws_the_character_at_the_cursor() {
    let (mut console, mut pixels, font) = small_console();
    console.output(&mut pixels, &font, b'A');
    assert_eq!((console._pos_x, console._pos_y), (1, 0));
    assert_eq!(row_of(&pixels, 0), vec![INK, INK, 0, 0, 0, 0, 0, 0, 7, 7, 7, 7, 7, 7, 7, 7]);
    assert_eq!(row_of(&pixels, 1), vec![0, 0, 0, 0, 0, 0, 0, INK, 7, 7, 7, 7, 7, 7, 7, 7]);
    assert_eq!(row_of(&pixels, 2), vec![7; 16]);
    console.output(&mut pixels, &font, b'B');
    assert_eq!((console._pos_x, console._pos_y), (2, 0));
    let i = INK;
    assert_eq!(row_of(&pixels, 0), vec![i, i, 0, 0, 0, 0, 0, 0, i, i, i, i, i, i, i, i]);
    assert_eq!(row_of(&pixels, 1), vec![0, 0, 0, 0, 0, 0, 0, i, i, i, i, i, i, i, i, i]);
    assert_eq!(row_of(&pixels, 2), vec![7; 16]);
    assert_eq!(&pixels[64..], &[7, 7, 7]);
}

#[test]
fn output_wraps_at_the_end_of_the_row() {
    let (mut console, mut pixels, font) = small_console();
    console.output(&mut pixels, &font, b'B');
    console.output(&mut pixels, &font, b'B');
    console.output(&mut pixels, &font, b'A');
    assert_eq!((console._pos_x, console._pos_y), (1, 1));
    assert_eq!(row_of(&pixels, 0), vec![INK; 16]);
    assert_eq!(row_of(&pixels, 2), vec![INK, INK, 0, 0, 0, 0, 0, 0, 7, 7, 7, 7, 7, 7, 7, 7]);
    assert_eq!(row_of(&pixels, 3), vec![0, 0, 0, 0, 0, 0, 0, INK, 7, 7, 7, 7, 7, 7, 7, 7]);
}

#[test]
fn a_line_feed_moves_to_the_next_row_and_draws_nothing() {
    let (mut console, mut pixels, font) = small_console();
    console.output(&mut pixels, &font, b'A');
    let before = pixels.clone();
    console.output(&mut pixels, &font, b'\n');
    assert_eq!((console._pos_x, console._pos_y), (0, 1));
    assert_eq!(pixels, before);
}

#[test]
fn output_scrolls_below_the_last_row() {
    let (mut console, mut pixels, font) = small_console();
    console.print_str(&mut pixels, &font, "\nBB");
    assert_eq!((console._pos_x, console._pos_y), (2, 1));
    assert_eq!(row_of(&pixels, 0), vec![7; 16]);
    assert_eq!(row_of(&pixels, 2), vec![INK; 16]);
    console.output(&mut pixels, &font, b'A');
    // The second row of text is the first now, and the character stands in a blank row.
    assert_eq!((console._pos_x, console._pos_y), (1, 1));
    assert_eq!(row_of(&pixels, 0), vec![INK; 16]);
    assert_eq!(row_of(&pixels, 1), vec![INK; 16]);
    assert_eq!(row_of(&pixels, 2), vec![INK, INK, 0, 0, 0, 0, 0, 0, 0, 0, 0, 0, 0, 0, 0, 0]);
    assert_eq!(row_of(&pixels, 3), vec![0, 0, 0, 0, 0, 0, 0, INK, 0, 0, 0, 0, 0, 0, 0, 0]);
    assert_eq!(&pixels[64..], &[7, 7, 7]);
}

#[test]
fn a_line_feed_in_the_last_row_scrolls() {
    let (mut console, mut pixels, font) = small_console();
    console.print_str(&mut pixels, &font, "A\nB\n");
    assert_eq!((console._pos_x, console._pos_y), (0, 1));
    let i = INK;
    assert_eq!(row_of(&pixels, 0), vec![i, i, i, i, i, i, i, i, 7, 7, 7, 7, 7, 7, 7, 7]);
    assert_eq!(row_of(&pixels, 1), vec![i, i, i, i, i, i, i, i, 7, 7, 7, 7, 7, 7, 7, 7]);
    assert_eq!(row_of(&pixels, 2), vec![0; 16]);
    assert_eq!(row_of(&pixels, 3), vec![0; 16]);
}

#[test]
fn the_byte_zero_changes_nothing() {
    let (mut console, mut pixels, font) = small_console();
    let before = pixels.clone();
    console.output(&mut pixels, &font, 0);
    assert_eq!((console._pos_x, console._pos_y), (0, 0));
    assert_eq!(pixels, before);
}

#[test]
fn a_byte_from_128_on_is_drawn_from_the_font() {
    let (mut console, mut pixels, font) = small_console();
    console.output(&mut pixels, &font, 0x80);
    assert_eq!((console._pos_x, console._pos_y), (1, 0));
    assert_eq!(row_of(&pixels, 0), vec![0, 0, 0, INK, 0, 0, 0, 0, 7, 7, 7, 7, 7, 7, 7, 7]);
}

#[test]
fn pixels_behind_the_eighth_of_a_cell_are_blank() {
    let mut console = FrameBuffer {
        _width: 12,
        _font_width: 12,
        _font_height: 1,
        _pos_x: 0,
        _pos_y: 0,
        _max_x: 1,
        _max_y: 2,
        _buffer: 0,
    };
    let mut pixels = vec![5u32; 24];
    let mut font = vec![0u8; 256];
    font[0x42] = 0xff;
    console.output(&mut pixels, &font, b'B');
    assert_eq!(&pixels[..12], &[INK, INK, INK, INK, INK, INK, INK, INK, 0, 0, 0, 0]);
    assert_eq!(&pixels[12..], &[5; 12]);
}

#[test]
fn scroll_up_moves_the_rows_and_blanks_the_last() {
    let (mut console, mut pixels, _font) = small_console();
    for (k, pixel) in pixels.iter_mut().enumerate() {
        *pixel = k as u32;
    }
    console.scroll_up(&mut pixels);
    for k in 0..32 {
        assert_eq!(pixels[k], k as u32 + 32);
    }
    for k in 32..64 {
        assert_eq!(pixels[k], 0);
    }
    assert_eq!(&pixels[64..], &[64, 65, 66]);
    assert_eq!((console._pos_x, console._pos_y), (0, 0));
}

#[test]
fn clean_blanks_the_cells() {
    let mut console = FrameBuffer {
        _width: 10,
        _font_width: 4,
        _font_height: 2,
        _pos_x: 1,
        _pos_y: 1,
        _max_x: 2,
        _max_y: 2,
        _buffer: 0,
    };
    let mut pixels = vec![9u32; 40];
    console.clean(&mut pixels);
    // Two cells of four pixels, two rows of two pixel rows: 32 pixels.
    assert_eq!(&pixels[..32], &[0; 32]);
    assert_eq!(&pixels[32..], &[9; 8]);
    assert_eq!((console._pos_x, console._pos_y), (1, 1));
}

#[test]
fn set_base_changes_the_address_only() {
    let (mut console, _pixels, _font) = small_console();
    console.set_base(0xfd00_0000);
    assert_eq!(console._buffer, 0xfd00_0000);
    assert_eq!(console._width, 16);
    assert_eq!((console._pos_x, console._pos_y), (0, 0));
}

#[test]
fn cells_hold_a_character_and_a_colour() {
    assert_eq!(CharByte::default(b'x').to_bytes(), (b'x', 0x0f));
    assert_eq!(CharByte::set(b'y', 0x1e).to_bytes(), (b'y', 0x1e));
    let mut cell = CharByte::default(b'z');
    cell.set_color(0x4f);
    assert_eq!(cell.to_bytes(), (b'z', 0x4f));
}

fn text_console() -> (FrameBufferNoFont, Vec<CharByte>) {
    let console =
        FrameBufferNoFont { _width: 4, _height: 3, _pos_x: 0, _pos_y: 0, _buffer: 0xb8000 };
    (console, vec![CharByte::set(b'#', 0x70); 14])
}

fn text_of(cells: &[CharByte]) -> Vec<u8> {
    cells.iter().map(|c| c.to_bytes().0).collect()
}

#[test]
fn text_console_writes_cells_in_a_row() {
    let (mut console, mut cells) = text_console();
    console.output(&mut cells, b'a');
    console.output(&mut cells, b'b');
    assert_eq!((console._pos_x, console._pos_y), (0, 2));
    assert_eq!(text_of(&cells), b"ab############".to_vec());
    assert_eq!(cells[0].to_bytes(), (b'a', 0x0f));
    assert_eq!(cells[2].to_bytes(), (b'#', 0x70));
}

#[test]
fn text_console_line_feed_starts_the_next_row() {
    let (mut console, mut cells) = text_console();
    console.print_str(&mut cells, "ab\ncd\ne");
    assert_eq!((console._pos_x, console._pos_y), (2, 1));
    assert_eq!(text_of(&cells), b"ab##cd##e#####".to_vec());
}

#[test]
fn text_console_clear_blanks_the_grid() {
    let (mut console, mut cells) = text_console();
    console.output(&mut cells, b'a');
    console.clear(&mut cells);
    for cell in &cells[..12] {
        assert_eq!(cell.to_bytes(), (0, 0x0f));
    }
    assert_eq!(cells[12].to_bytes(), (b'#', 0x70));
    assert_eq!((console._pos_x, console._pos_y), (0, 1));
}

#[test]
fn text_console_accepts_what_fits_the_grid() {
    let (mut console, cells) = text_console();
    assert!(console.accepts(cells.len(), b'a'));
    assert!(console.accepts(12, b'a'));
    assert!(!console.accepts(11, b'a'));
    console._pos_x = 2;
    console._pos_y = 3;
    assert!(console.accepts(cells.len(), b'a'));
    console._pos_y = 4;
    assert!(!console.accepts(cells.len(), b'a'));
    assert!(console.accepts(cells.len(), b'\n'));
    console._pos_x = usize::MAX;
    assert!(!console.accepts(cells.len(), b'\n'));
}

#[test]
fn text_console_wraps_where_the_row_counter_meets_the_width() {
    let (mut console, mut cells) = text_console();
    console._pos_x = 4;
    console._pos_y = 2;
    assert!(!console.accepts(cells.len(), b'a'));
    console._width = 2;
    console._height = 6;
    console._pos_x = 2;
    console._pos_y = 1;
    assert!(console.accepts(cells.len(), b'a'));
    console.output(&mut cells, b'a');
    assert_eq!((console._pos_x, console._pos_y), (3, 1));
    assert_eq!(cells[6].to_bytes(), (b'a', 0x0f));
}

#[test]
fn the_console_takes_one_frame_buffer_mode() {
    assert!(is_console_mode(32, 800, 600, 3200));
    assert!(!is_console_mode(24, 800, 600, 3200));
    assert!(!is_console_mode(32, 1024, 600, 3200));
    assert!(!is_console_mode(32, 800, 768, 3200));
    assert!(!is_console_mode(32, 800, 600, 4096));
}

#[test]
fn tags_start_at_multiples_of_eight() {
    assert_eq!(next_tag_offset(0), 0);
    assert_eq!(next_tag_offset(1), 8);
    assert_eq!(next_tag_offset(8), 8);
    assert_eq!(next_tag_offset(9), 16);
    assert_eq!(next_tag_offset(u32::MAX), 0x1_0000_0000);
    let header = MultibootInfo { total_size: 24, pad: 0 };
    assert_eq!(next_tag_offset(header.total_size), 24);
}

#[test]
fn register_values_split_into_halves() {
    assert_eq!(msr_value(0x89ab_cdef, 0x0123_4567), 0x0123_4567_89ab_cdef);
    assert_eq!(msr_halves(0x0123_4567_89ab_cdef), (0x89ab_cdef, 0x0123_4567));
    assert_eq!(msr_halves(u64::MAX), (u32::MAX, u32::MAX));
    assert_eq!(msr_value(0, 0), 0);
}

#[test]
fn syscall_setup_writes_three_registers() {
    let writes = syscall_init(0x500);
    assert_eq!(writes[0], (MSR_EFER, 0x501));
    assert_eq!(writes[1], (MSR_STAR, 0x0010_0008_0000_0000));
    assert_eq!(writes[2], (MSR_SFMASK, 0x200));
    assert_eq!(syscall_init(0x1)[0], (0xC000_0080, 0x1));
}
