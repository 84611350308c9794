//! Rounding to boundaries, and segment flags.
use vstd::prelude::*;
use crate::backend::{PERM_EXEC, PERM_NONE, PERM_READ, PERM_WRITE};

verus! {

/// The largest multiple of `align` that is not above `n`.
pub open spec fn floor_to(n: int, align: int) -> int {
    n - n % align
}

/// The smallest multiple of `align` that is not below `n`.
pub open spec fn ceil_to(n: int, align: int) -> int {
    floor_to(n + align - 1, align)
}

pub proof fn lemma_floor(n: int, align: int)
    requires
        align > 0,
    ensures
        floor_to(n, align) % align == 0,
        floor_to(n, align) <= n < floor_to(n, align) + align,
        n >= 0 ==> floor_to(n, align) >= 0,
        (n / align) * align == floor_to(n, align),
{
    vstd::arithmetic::div_mod::lemma_fundamental_div_mod(n, align);
    vstd::arithmetic::div_mod::lemma_mod_bound(n, align);
    vstd::arithmetic::mul::lemma_mul_is_commutative(n / align, align);
    vstd::arithmetic::div_mod::lemma_mod_multiples_basic(n / align, align);
    if n >= 0 {
        vstd::arithmetic::div_mod::lemma_div_pos_is_pos(n, align);
        vstd::arithmetic::mul::lemma_mul_nonnegative(n / align, align);
    }
}

/// A rounded-up number is a multiple, not below the number and less than one step
/// above it.
pub proof fn law_ceil_is_the_next_multiple(n: int, align: int)
    requires
        align > 0,
    ensures
        ceil_to(n, align) % align == 0,
        n <= ceil_to(n, align) < n + align,
{
    lemma_floor(n + align - 1, align);
}

/// A range rounded out to boundaries, with what a loader keeps of a segment there.
#[derive(Clone, Copy, Debug, PartialEq, Eq, Structural)]
pub struct Alignment {
    pub address: u64,
    pub size: u64,
    pub begin: u64,
    pub data_size: u64,
}

/// The range `[addr, addr + size)` rounded out to multiples of `align`.
pub open spec fn aligned(addr: int, size: int, align: int) -> (int, int) {
    (floor_to(addr, align), ceil_to(addr + size, align) - floor_to(addr, align))
}

/// Rounding the range out stays inside the address space.
pub open spec fn can_align(addr: int, size: int, align: int) -> bool {
    0 < align && addr + size + align - 1 <= u64::MAX
}

/// Round the range `[addr, addr + size)` out to multiples of `align`.
pub fn align_addr(addr: u64, size: u64, align: u64) -> (r: Alignment)
    requires
        can_align(addr as int, size as int, align as int),
    ensures
        (r.address as int, r.size as int) == aligned(addr as int, size as int, align as int),
        r.begin == 0,
        r.data_size == 0,
{
    proof {
        lemma_floor(addr as int, align as int);
        lemma_floor(addr + size + align - 1, align as int);
    }
    let address: u64 = addr - addr % align;
    let end: u64 = addr + size + (align - 1);
    let right: u64 = end - end % align;
    Alignment { address, size: right - address, begin: 0, data_size: 0 }
}

/// A size rounded up to a multiple of sixteen.
pub open spec fn stack_size(n: int) -> int {
    ceil_to(n, 16)
}

/// Round a size up to a multiple of sixteen, which keeps the stack pointer aligned.
pub fn align_size(n: u64) -> (r: u64)
    requires
        n + 15 <= u64::MAX,
    ensures
        r == stack_size(n as int),
{
    let end: u64 = n + 15;
    end - end % 16
}

/// The protection that segment flags ask for: flag 4 is read, 2 is write, 1 is execute.
pub open spec fn protection_of(flags: u32) -> u32 {
    (if flags & 4 != 0 {
        PERM_READ
    } else {
        PERM_NONE
    }) | (if flags & 2 != 0 {
        PERM_WRITE
    } else {
        PERM_NONE
    }) | (if flags & 1 != 0 {
        PERM_EXEC
    } else {
        PERM_NONE
    })
}

pub fn get_segment_protection(flags: u32) -> (r: u32)
    ensures
        r == protection_of(flags),
{
    let read: u32 = if flags & 4 != 0 {
        PERM_READ
    } else {
        PERM_NONE
    };
    let write: u32 = if flags & 2 != 0 {
        PERM_WRITE
    } else {
        PERM_NONE
    };
    let exec: u32 = if flags & 1 != 0 {
        PERM_EXEC
    } else {
        PERM_NONE
    };
    read | write | exec
}

/// A range that was rounded out begins and ends at boundaries, holds the whole range, and is
/// less than one step larger at either end.
pub proof fn law_rounded_range(addr: int, size: int, align: int)
    requires
        align > 0,
        size >= 0,
    ensures
        ({
            let (at, len) = aligned(addr, size, align);
            &&& at % align == 0
            &&& (at + len) % align == 0
            &&& at <= addr < at + align
            &&& addr + size <= at + len < addr + size + align
        }),
{
    lemma_floor(addr, align);
    law_ceil_is_the_next_multiple(addr + size, align);
}

} // verus!
