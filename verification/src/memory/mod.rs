//! Guest memory: the stack, the loader, and trap stubs.
pub mod finish;
pub mod load;
pub mod loader;
pub mod patch;
pub mod region;
pub mod relocate;
pub mod segments;
pub mod stack;
pub mod svc_memory;
pub mod tls;
