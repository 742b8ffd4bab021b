//! Process subsystem: process and thread records, per-process file descriptors,
//! pipes, virtual-memory regions, signals and the round-robin task table.
pub mod state;
pub mod table;
pub mod fd;
pub mod pipe;
pub mod fd_file;
pub mod vm;
pub mod task;
pub mod process;
pub mod signal;
pub mod fd_io;
pub mod exec;
