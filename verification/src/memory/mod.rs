//! Physical frames, address spaces and the per-process heap.

pub mod address;
pub mod frame;
pub mod page_table;
pub mod user_heap;
