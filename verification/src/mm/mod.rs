//! Memory management: addresses, page-table entries, frames and tables.

pub mod layout;
pub mod page_table;
pub mod page_table_entry;
pub mod page_table_proofs;
pub mod phys_mem;
pub mod phys_page;
