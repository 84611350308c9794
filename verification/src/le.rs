//! Little-endian encoding of integers.
use vstd::prelude::*;
use crate::num::{bits_of_i32, to_bits_i32};

verus! {

/// The two bytes of `x`, least significant first.
pub open spec fn le16(x: u16) -> Seq<u8> {
    seq![(x % 256) as u8, (x / 256) as u8]
}

/// The four bytes of `x`, least significant first.
pub open spec fn le32(x: u32) -> Seq<u8> {
    seq![
        (x % 256) as u8,
        ((x / 0x100) % 256) as u8,
        ((x / 0x1_0000) % 256) as u8,
        (x / 0x100_0000) as u8,
    ]
}

/// The eight bytes of `x`, least significant first.
pub open spec fn le64(x: u64) -> Seq<u8> {
    seq![
        (x % 256) as u8,
        ((x / 0x100) % 256) as u8,
        ((x / 0x1_0000) % 256) as u8,
        ((x / 0x100_0000) % 256) as u8,
        ((x / 0x1_0000_0000) % 256) as u8,
        ((x / 0x100_0000_0000) % 256) as u8,
        ((x / 0x1_0000_0000_0000) % 256) as u8,
        (x / 0x100_0000_0000_0000) as u8,
    ]
}

/// The four bytes of a signed value, least significant first.
pub open spec fn le_i32(x: i32) -> Seq<u8> {
    le32(bits_of_i32(x))
}

/// The number whose little-endian bytes are the first four of `s`.
pub open spec fn un_le32(s: Seq<u8>) -> u32 {
    (s[0] + 0x100 * s[1] + 0x1_0000 * s[2] + 0x100_0000 * s[3]) as u32
}

/// `n` zero bytes.
pub open spec fn zeros(n: nat) -> Seq<u8> {
    Seq::new(n, |i: int| 0u8)
}

/// `n` zero bytes.
pub fn put_zeros(n: usize) -> (v: Vec<u8>)
    ensures
        v@ == zeros(n as nat),
{
    let mut v: Vec<u8> = Vec::new();
    let mut i: usize = 0;
    while i < n
        invariant
            i <= n,
            v@ == zeros(i as nat),
        decreases n - i,
    {
        v.push(0);
        i = i + 1;
        assert(v@ =~= zeros(i as nat));
    }
    assert(v@ =~= zeros(n as nat));
    v
}

/// The number whose little-endian bytes are the first eight of `s`.
pub open spec fn un_le64(s: Seq<u8>) -> u64 {
    (s[0] + 0x100 * s[1] + 0x1_0000 * s[2] + 0x100_0000 * s[3] + 0x1_0000_0000 * s[4]
        + 0x100_0000_0000 * s[5] + 0x1_0000_0000_0000 * s[6] + 0x100_0000_0000_0000 * s[7]) as u64
}

pub fn put_le16(x: u16) -> (v: Vec<u8>)
    ensures
        v@ == le16(x),
{
    let mut v: Vec<u8> = Vec::new();
    v.push((x % 256) as u8);
    v.push((x / 256) as u8);
    assert(v@ =~= le16(x));
    v
}

pub fn put_le32(x: u32) -> (v: Vec<u8>)
    ensures
        v@ == le32(x),
{
    let mut v: Vec<u8> = Vec::new();
    v.push((x % 256) as u8);
    v.push(((x / 0x100) % 256) as u8);
    v.push(((x / 0x1_0000) % 256) as u8);
    v.push((x / 0x100_0000) as u8);
    assert(v@ =~= le32(x));
    v
}

pub fn put_le64(x: u64) -> (v: Vec<u8>)
    ensures
        v@ == le64(x),
{
    let mut v: Vec<u8> = Vec::new();
    v.push((x % 256) as u8);
    v.push(((x / 0x100) % 256) as u8);
    v.push(((x / 0x1_0000) % 256) as u8);
    v.push(((x / 0x100_0000) % 256) as u8);
    v.push(((x / 0x1_0000_0000) % 256) as u8);
    v.push(((x / 0x100_0000_0000) % 256) as u8);
    v.push(((x / 0x1_0000_0000_0000) % 256) as u8);
    v.push((x / 0x100_0000_0000_0000) as u8);
    assert(v@ =~= le64(x));
    v
}

pub fn put_le_i32(x: i32) -> (v: Vec<u8>)
    ensures
        v@ == le_i32(x),
{
    put_le32(to_bits_i32(x))
}

pub fn get_le32(s: &[u8]) -> (x: u32)
    requires
        s@.len() >= 4,
    ensures
        x == un_le32(s@),
{
    s[0] as u32 + 0x100 * s[1] as u32 + 0x1_0000 * s[2] as u32 + 0x100_0000 * s[3] as u32
}

pub fn get_le64(s: &[u8]) -> (x: u64)
    requires
        s@.len() >= 8,
    ensures
        x == un_le64(s@),
{
    s[0] as u64 + 0x100 * s[1] as u64 + 0x1_0000 * s[2] as u64 + 0x100_0000 * s[3] as u64
        + 0x1_0000_0000 * s[4] as u64 + 0x100_0000_0000 * s[5] as u64 + 0x1_0000_0000_0000
        * s[6] as u64 + 0x100_0000_0000_0000 * s[7] as u64
}

/// Decoding the bytes of a 32-bit number gives the number back.
pub proof fn law_le32_round_trip(x: u32)
    ensures
        le32(x).len() == 4,
        un_le32(le32(x)) == x,
{
    let q1 = x / 0x100;
    assert(x / 0x1_0000 == q1 / 0x100);
    assert(x / 0x100_0000 == (q1 / 0x100) / 0x100);
}

/// Decoding the bytes of a 64-bit number gives the number back.
pub proof fn law_le64_round_trip(x: u64)
    ensures
        le64(x).len() == 8,
        un_le64(le64(x)) == x,
{
    let q1 = x / 0x100;
    let q2 = q1 / 0x100;
    let q3 = q2 / 0x100;
    let q4 = q3 / 0x100;
    let q5 = q4 / 0x100;
    let q6 = q5 / 0x100;
    let q7 = q6 / 0x100;
    assert(x / 0x1_0000 == q2);
    assert(x / 0x100_0000 == q3);
    assert(x / 0x1_0000_0000 == q4);
    assert(x / 0x100_0000_0000 == q5);
    assert(x / 0x1_0000_0000_0000 == q6);
    assert(x / 0x100_0000_0000_0000 == q7);
}

/// The least significant byte comes first: what stands at a position is what is left of the
/// number after as many bytes were taken off.
pub proof fn law_byte_order(x: u32, y: u64)
    ensures
        le32(x)[0] == x % 256,
        le32(x)[3] == x / 0x100_0000,
        le64(y)[0] == y % 256,
        le64(y)[4] == (y / 0x1_0000_0000) % 256,
        le64(y)[7] == y / 0x100_0000_0000_0000,
        le64(x as u64) == le32(x) + zeros(4),
{
    assert(le64(x as u64) =~= le32(x) + zeros(4));
}

} // verus!
