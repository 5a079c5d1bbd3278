pub mod address;
pub mod phys;
pub mod frame;
pub mod page_table;
pub mod memory_set;
