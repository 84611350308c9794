//! Functions of the C library that the runtime takes over.
pub mod sleep;
pub mod system_properties;
