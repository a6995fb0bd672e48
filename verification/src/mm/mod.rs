//! Memory management: Sv39 addresses, page-table entries, page tables and the
//! physical frames they live in.
pub mod address;
pub mod page_table;
pub mod user_buffer;
pub mod memory_set;
