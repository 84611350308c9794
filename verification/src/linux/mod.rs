//! Linux personality of the guest.
pub mod entry;
pub mod errno;
pub mod file_system;
pub mod init_fun;
pub mod module;
pub mod pipe;
pub mod resolved;
pub mod stdio;
pub mod symbol;
pub mod thread;
pub mod syscalls;
