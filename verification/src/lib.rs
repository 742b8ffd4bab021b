//! CoreOS kernel logic: the decisions and data structures of a small AMD64
//! kernel and its UEFI loader, with their behaviour stated and proved.
mod ps2_table;
pub mod ps2;
pub mod boot;
pub mod pmm;
pub mod pmm_test;
pub mod heap;
pub mod validate;

pub mod proc;
pub mod fs;
pub mod paging;
pub mod kernel_tables;
pub mod hw;
pub mod editor;
pub mod elf;
pub mod console;
pub mod fmt;
pub mod bench;
pub mod descriptors;
pub mod selftest;
pub mod loader;
pub mod assets;
pub mod gfx;
