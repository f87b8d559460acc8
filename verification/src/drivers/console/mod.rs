//! The console: text drawn into a frame buffer.

pub mod console;
pub mod fb;
pub mod fb_no_font;
