//! The system image that the runtime targets.
use vstd::prelude::*;
use crate::text::join2;

verus! {

/// Guest Android API level, also what `ro.build.version.sdk` says.
pub const ANDROID_SDK: u32 = 36;

/// Guest hardware capabilities: FP, ASIMD, AES, PMULL, SHA1, SHA2 and CRC32. The
/// processor core runs no LSE atomics (bit 8) and does not read `MIDR_EL1` (bit 11),
/// so those stay clear.
pub const GUEST_HWCAP: u64 = 0xfb;

/// Default host directory of the system root (`system/lib64`, `system/bin`, ...).
pub const DEFAULT_SDK_ROOT: &'static str = "./android/sdk36";

/// The system root: what the environment names, else the default.
pub fn default_sdk_root(base_path: Option<String>) -> (r: String)
    ensures
        r@ == match base_path {
            Some(p) => p@,
            None => DEFAULT_SDK_ROOT@,
        },
{
    match base_path {
        Some(p) => p,
        None => DEFAULT_SDK_ROOT.to_owned(),
    }
}

/// The root that a possibly empty base path stands for.
pub open spec fn root_of(base_path: Seq<char>) -> Seq<char> {
    if base_path.len() == 0 {
        DEFAULT_SDK_ROOT@
    } else {
        base_path
    }
}

fn root(base_path: &str) -> (r: &str)
    ensures
        r@ == root_of(base_path@),
{
    if base_path.unicode_len() == 0 {
        DEFAULT_SDK_ROOT
    } else {
        base_path
    }
}

pub fn lib64_dir(base_path: &str) -> (r: String)
    ensures
        r@ == root_of(base_path@) + "/system/lib64"@,
{
    join2(root(base_path), "/system/lib64")
}

pub fn bin_dir(base_path: &str) -> (r: String)
    ensures
        r@ == root_of(base_path@) + "/system/bin"@,
{
    join2(root(base_path), "/system/bin")
}

/// The guest is told of FP, ASIMD, AES, PMULL, SHA1, SHA2 and CRC32, and never of
/// atomics or of the CPU identification registers.
pub proof fn law_hwcap_bits(bit: u64)
    requires
        bit < 64,
    ensures
        (GUEST_HWCAP >> bit) & 1 == 1 <==> (bit == 0 || bit == 1 || 3 <= bit <= 7),
        (GUEST_HWCAP >> 8u64) & 1 == 0,
        (GUEST_HWCAP >> 11u64) & 1 == 0,
{
    assert(bit < 64 ==> ((0xfbu64 >> bit) & 1 == 1 <==> (bit == 0 || bit == 1 || 3 <= bit <= 7)))
        by (bit_vector);
    assert((0xfbu64 >> 8u64) & 1 == 0) by (bit_vector);
    assert((0xfbu64 >> 11u64) & 1 == 0) by (bit_vector);
}

/// Without a base path the system is looked for in `./android/sdk36`, with one there.
pub proof fn law_system_root(base_path: Seq<char>)
    ensures
        base_path.len() == 0 ==> root_of(base_path) == "./android/sdk36"@,
        base_path.len() > 0 ==> root_of(base_path) == base_path,
{
}

} // verus!
