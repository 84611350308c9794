//! System calls of the guest. Arguments come in `X0` and up, and the result goes to
//! `X0`.
pub mod threads;
pub mod open;
pub mod files;
pub mod paths;
pub mod memory;
pub mod time;
pub mod process;
pub mod exit;
