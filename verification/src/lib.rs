//! Guest-side logic of an ARM64 Android userland runtime.
pub mod num;
pub mod le;
pub mod backend;
pub mod text;
pub mod outside;
pub mod linux;
pub mod emulator;
pub mod tool;
pub mod android;
pub mod memory;
pub mod cli;
pub mod elf;
