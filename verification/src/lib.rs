//! Boot-time memory management core of a small 64-bit kernel: typed
//! addresses, the page-table-entry codec, a physical frame allocator and a
//! four-level page-table manager, together with the descriptor-table
//! encoders and the console that the boot path needs.

pub mod asms;
pub mod drivers;
pub mod locks;
pub mod mm;
pub mod syscall;
pub mod utils;
