//! The Android side of the guest.
pub mod sdk;
pub mod virtual_library;
