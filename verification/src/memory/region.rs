//! Mapped parts of a module.
use vstd::prelude::*;

verus! {

/// A run of guest memory that a segment of a module takes.
#[derive(Clone, Copy, Debug, PartialEq, Eq, Structural)]
pub struct ModuleMemRegion {
    pub virtual_address: u64,
    pub begin: u64,
    pub end: u64,
    pub perms: u32,
    pub offset: i64,
}

impl ModuleMemRegion {
    pub fn new(virtual_address: u64, begin: u64, end: u64, perms: u32, offset: i64) -> (r:
        ModuleMemRegion)
        ensures
            r == (ModuleMemRegion { virtual_address, begin, end, perms, offset }),
    {
        ModuleMemRegion { virtual_address, begin, end, perms, offset }
    }
}

/// A mapped range that the runtime keeps a record of.
#[derive(Clone, Copy, Debug, PartialEq, Eq, Structural)]
pub struct MemoryMap {
    pub base: u64,
    pub size: u64,
    pub prot: u32,
}

} // verus!
