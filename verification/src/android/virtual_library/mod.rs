//! Libraries that the runtime stands in for.
pub mod dlfcn;
pub mod ld64;
pub mod lib_android;
pub mod libc;
pub mod phdr;
