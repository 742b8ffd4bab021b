//! Device-facing logic: keyboard input buffering and the terminal line discipline.
pub mod kbd_buffer;
pub mod tty;
pub mod pci;
pub mod pit;
pub mod rtc;
pub mod keyboard;
