//! Two's-complement reinterpretation of guest register values.
use vstd::prelude::*;

verus! {

/// One past the largest 64-bit address.
pub open spec fn address_limit() -> int {
    0x1_0000_0000_0000_0000
}

/// The 64-bit pattern of a signed value.
pub open spec fn bits_of_i64(v: i64) -> u64 {
    if v >= 0 {
        v as u64
    } else {
        (v + 0x1_0000_0000_0000_0000) as u64
    }
}

/// The signed value of a 64-bit pattern.
pub open spec fn i64_of_bits(v: u64) -> i64 {
    if v < 0x8000_0000_0000_0000 {
        v as i64
    } else {
        (v - 0x1_0000_0000_0000_0000) as i64
    }
}

/// The low 32 bits of a 64-bit pattern.
pub open spec fn low32(v: u64) -> u32 {
    (v % 0x1_0000_0000) as u32
}

/// The signed value of a 32-bit pattern.
pub open spec fn i32_of_bits(v: u32) -> i32 {
    if v < 0x8000_0000 {
        v as i32
    } else {
        (v - 0x1_0000_0000) as i32
    }
}

/// The 32-bit pattern of a signed value.
pub open spec fn bits_of_i32(v: i32) -> u32 {
    if v >= 0 {
        v as u32
    } else {
        (v + 0x1_0000_0000) as u32
    }
}

/// The 64-bit pattern of a sign-extended 32-bit value.
pub open spec fn sign_extend(v: i32) -> u64 {
    bits_of_i64(v as i64)
}

/// The smaller of two numbers.
pub open spec fn min_int(a: int, b: int) -> int {
    if a <= b {
        a
    } else {
        b
    }
}

/// The larger of two numbers.
pub open spec fn max_int(a: int, b: int) -> int {
    if a >= b {
        a
    } else {
        b
    }
}

pub fn to_bits_i64(v: i64) -> (r: u64)
    ensures
        r == bits_of_i64(v),
{
    if v >= 0 {
        v as u64
    } else {
        (v as i128 + 0x1_0000_0000_0000_0000i128) as u64
    }
}

pub fn from_bits_i64(v: u64) -> (r: i64)
    ensures
        r == i64_of_bits(v),
{
    if v < 0x8000_0000_0000_0000 {
        v as i64
    } else {
        (v as i128 - 0x1_0000_0000_0000_0000i128) as i64
    }
}

pub fn to_low32(v: u64) -> (r: u32)
    ensures
        r == low32(v),
{
    (v % 0x1_0000_0000) as u32
}

pub fn from_bits_i32(v: u32) -> (r: i32)
    ensures
        r == i32_of_bits(v),
{
    if v < 0x8000_0000 {
        v as i32
    } else {
        (v as i64 - 0x1_0000_0000i64) as i32
    }
}

pub fn to_bits_i32(v: i32) -> (r: u32)
    ensures
        r == bits_of_i32(v),
{
    if v >= 0 {
        v as u32
    } else {
        (v as i64 + 0x1_0000_0000i64) as u32
    }
}

pub fn min_u64(a: u64, b: u64) -> (r: u64)
    ensures
        r == min_int(a as int, b as int),
{
    if a <= b {
        a
    } else {
        b
    }
}

pub fn max_u64(a: u64, b: u64) -> (r: u64)
    ensures
        r == max_int(a as int, b as int),
{
    if a >= b {
        a
    } else {
        b
    }
}

/// Reading a value back from its bit pattern gives the value.
pub proof fn law_signed_bits_round_trip(v: i64, w: i32, b: u64)
    ensures
        i64_of_bits(bits_of_i64(v)) == v,
        bits_of_i64(i64_of_bits(b)) == b,
        i32_of_bits(bits_of_i32(w)) == w,
        i32_of_bits(low32(sign_extend(w))) == w,
{
}

} // verus!
