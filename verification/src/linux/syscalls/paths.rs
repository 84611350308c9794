//! System calls on paths and terminals, and on what the system says of itself.
use vstd::prelude::*;
use vstd::utf8::{encode_utf8, is_ascii_chars, is_ascii_chars_encode_utf8};
use crate::backend::{Backend, Machine, RegisterARM64};
use crate::emulator::state::{refuse, AndroidEmulator};
use crate::le::{le16, le64, le_i32, put_le16, put_le64, put_le_i32, put_zeros, zeros};
use crate::linux::errno::Errno;
use crate::linux::syscalls::files::{fd_of, refused};
use crate::linux::syscalls::open::AT_FDCWD;
use crate::memory::stack::{c_bytes, c_string_bytes, lemma_text_stands, text_stands};
use crate::num::{i32_of_bits, low32, from_bits_i32, min_int, to_low32};
use crate::text::{begins_with, contains, has_part, join2, starts_with, str_eq};

verus! {

/// The path at the address in a register.
pub open spec fn path_in(m: Machine, r: RegisterARM64) -> Seq<char> {
    m.c_text(m.reg(r) as int)->0
}

/// There is a path at the address in a register.
pub open spec fn has_path(m: Machine, r: RegisterARM64) -> bool {
    m.c_text(m.reg(r) as int) is Some
}

/// Rename the file at `X1` to the path at `X3`. Only relative new names are
/// understood, and no file can get one.
pub fn syscall_renameat(backend: &mut Backend, emulator: &mut AndroidEmulator)
    requires
        has_path(old(backend)@, RegisterARM64::X1),
        has_path(old(backend)@, RegisterARM64::X3),
        path_in(old(backend)@, RegisterARM64::X3).len() > 0,
        !begins_with(path_in(old(backend)@, RegisterARM64::X3), "/"@),
    ensures
        refused(
            old(backend)@,
            *old(emulator),
            final(backend)@,
            *final(emulator),
            Errno::EROFS,
        ),
{
    refuse(backend, emulator, Errno::EROFS);
}

/// What making a directory comes to.
pub open spec fn mkdirat_done(
    m: Machine,
    e: AndroidEmulator,
    m2: Machine,
    e2: AndroidEmulator,
) -> bool {
    let path = path_in(m, RegisterARM64::X1);
    refused(
        m,
        e,
        m2,
        e2,
        if !begins_with(path, "/"@) {
            Errno::ENOENT
        } else if fd_of(m) != AT_FDCWD {
            Errno::EBADF
        } else if path == "/sdcard/Android/"@ || path == "/sdcard/Android"@ {
            Errno::EEXIST
        } else {
            Errno::EACCES
        },
    )
}

/// Make the directory at `X1`, which no guest may.
pub fn syscall_mkdirat(backend: &mut Backend, emulator: &mut AndroidEmulator)
    requires
        has_path(old(backend)@, RegisterARM64::X1),
    ensures
        mkdirat_done(old(backend)@, *old(emulator), final(backend)@, *final(emulator)),
{
    let fd: i32 = backend.reg_read_i32(RegisterARM64::X0);
    let path = backend.mem_read_c_string(backend.reg_read(RegisterARM64::X1)).unwrap();
    if !starts_with(path.as_str(), "/") {
        refuse(backend, emulator, Errno::ENOENT);
        return ;
    }
    if fd != AT_FDCWD {
        refuse(backend, emulator, Errno::EBADF);
        return ;
    }
    if str_eq(path.as_str(), "/sdcard/Android/") || str_eq(path.as_str(), "/sdcard/Android") {
        refuse(backend, emulator, Errno::EEXIST);
        return ;
    }
    refuse(backend, emulator, Errno::EACCES);
}

/// Paths that can always be reached.
pub open spec fn always_there(path: Seq<char>) -> bool {
    ||| path == "/dev/null"@
    ||| path == "/dev/urandom"@
    ||| path == "/dev/zero"@
    ||| path == "/proc/self/maps"@
    ||| path == "/proc/meminfo"@
    ||| path == "/proc/cpuinfo"@
    ||| path == "/proc/stat"@
    ||| path == "/proc/self/exe"@
    ||| path == "/data/data/com.tencent.mobileqq"@
}

/// Paths that are never there, whatever the host has.
pub open spec fn never_there(path: Seq<char>) -> bool {
    ||| begins_with(path, "/vendor"@)
    ||| has_part(path, "/su"@)
    ||| begins_with(path, "/proc/rk_"@)
    ||| begins_with(path, "/proc/device-tree"@)
    ||| begins_with(path, "/proc/mpp_service"@)
    ||| begins_with(path, "/sys/bus/platform/drivers/hisi-lpc"@)
    ||| path == "/hmdocker"@
    ||| path == "/dev/__properties__"@
}

/// Whether a path can be reached; `on_host` says whether the host has something where
/// an absolute path leads.
pub open spec fn reachable(path: Seq<char>, on_host: bool) -> bool {
    is_ascii_chars(path) && (always_there(path) || (!never_there(path) && begins_with(path, "/"@)
        && on_host))
}

/// What asking whether a path can be reached comes to.
pub open spec fn faccessat_done(
    m: Machine,
    e: AndroidEmulator,
    on_host: bool,
    m2: Machine,
    e2: AndroidEmulator,
) -> bool {
    if reachable(path_in(m, RegisterARM64::X1), on_host) {
        m2 == m.ret(0) && e2 == e
    } else {
        refused(m, e, m2, e2, Errno::ENOENT)
    }
}

/// Whether the path at `X1` can be reached.
pub fn syscall_faccessat(backend: &mut Backend, emulator: &mut AndroidEmulator, on_host: bool)
    requires
        has_path(old(backend)@, RegisterARM64::X1),
    ensures
        faccessat_done(
            old(backend)@,
            *old(emulator),
            on_host,
            final(backend)@,
            *final(emulator),
        ),
{
    let path = backend.mem_read_c_string(backend.reg_read(RegisterARM64::X1)).unwrap();
    let path = path.as_str();
    if !path.is_ascii() {
        refuse(backend, emulator, Errno::ENOENT);
        return ;
    }
    if is_always_there(path) {
        backend.reg_write_i64(RegisterARM64::X0, 0);
        return ;
    }
    if is_never_there(path) {
        refuse(backend, emulator, Errno::ENOENT);
        return ;
    }
    if starts_with(path, "/") && on_host {
        backend.reg_write_i64(RegisterARM64::X0, 0);
        return ;
    }
    refuse(backend, emulator, Errno::ENOENT);
}

fn is_always_there(path: &str) -> (r: bool)
    ensures
        r == always_there(path@),
{
    str_eq(path, "/dev/null") || str_eq(path, "/dev/urandom") || str_eq(path, "/dev/zero")
        || str_eq(path, "/proc/self/maps") || str_eq(path, "/proc/meminfo")
        || str_eq(path, "/proc/cpuinfo") || str_eq(path, "/proc/stat")
        || str_eq(path, "/proc/self/exe") || str_eq(path, "/data/data/com.tencent.mobileqq")
}

fn is_never_there(path: &str) -> (r: bool)
    ensures
        r == never_there(path@),
{
    starts_with(path, "/vendor") || contains(path, "/su") || starts_with(path, "/proc/rk_")
        || starts_with(path, "/proc/device-tree") || starts_with(path, "/proc/mpp_service")
        || starts_with(path, "/sys/bus/platform/drivers/hisi-lpc") || str_eq(path, "/hmdocker")
        || str_eq(path, "/dev/__properties__")
}

/// The path of the program, as the guest sees it.
pub open spec fn program_path(e: AndroidEmulator) -> Seq<char> {
    match e.exec_path {
        Some(p) => p@,
        None => "/system/bin/"@ + e.proc_name@,
    }
}

/// What reading a link comes to.
pub open spec fn readlinkat_done(
    m: Machine,
    e: AndroidEmulator,
    m2: Machine,
    e2: AndroidEmulator,
) -> bool {
    let bytes = encode_utf8(program_path(e));
    let n = min_int(bytes.len() as int, m.reg(RegisterARM64::X3) as int);
    let at = m.reg(RegisterARM64::X2) as int;
    if !begins_with(path_in(m, RegisterARM64::X1), "/proc/self/exe"@) {
        refused(m, e, m2, e2, Errno::ENOENT)
    } else if !m.mapped(at, n) {
        refused(m, e, m2, e2, Errno::EFAULT)
    } else {
        &&& m2 == m.write(at, bytes.take(n)).ret(i32_of_bits(low32(n as u64)) as int)
        &&& e2 == e
    }
}

/// Where the link at `X1` leads, stored at `X2` in at most `X3` bytes. Only the link
/// to the program itself is there.
pub fn syscall_readlinkat(backend: &mut Backend, emulator: &mut AndroidEmulator)
    requires
        has_path(old(backend)@, RegisterARM64::X1),
    ensures
        readlinkat_done(old(backend)@, *old(emulator), final(backend)@, *final(emulator)),
{
    let path = backend.mem_read_c_string(backend.reg_read(RegisterARM64::X1)).unwrap();
    let buf: u64 = backend.reg_read(RegisterARM64::X2);
    let room: u64 = backend.reg_read(RegisterARM64::X3);
    if !starts_with(path.as_str(), "/proc/self/exe") {
        refuse(backend, emulator, Errno::ENOENT);
        return ;
    }
    let target = match &emulator.exec_path {
        Some(p) => p.as_str().to_owned(),
        None => join2("/system/bin/", emulator.proc_name.as_str()),
    };
    let bytes = target.as_str().as_bytes();
    let len: usize = bytes.len();
    let n: usize = if (len as u64) < room {
        len
    } else {
        room as usize
    };
    let part = vstd::slice::slice_subrange(bytes, 0, n);
    assert(part@ =~= encode_utf8(program_path(*old(emulator))).take(n as int));
    if backend.mem_write(buf, part).is_err() {
        refuse(backend, emulator, Errno::EFAULT);
        return ;
    }
    backend.reg_write_i64(RegisterARM64::X0, from_bits_i32(to_low32(n as u64)) as i64);
}

/// The directory that every guest works in.
pub const WORKING_DIRECTORY: &'static str = "/data/local/tmp";

/// What asking for the working directory comes to.
pub open spec fn getcwd_done(
    m: Machine,
    e: AndroidEmulator,
    m2: Machine,
    e2: AndroidEmulator,
) -> bool {
    let buf = m.reg(RegisterARM64::X0);
    let cwd = c_bytes(WORKING_DIRECTORY@);
    if m.reg(RegisterARM64::X1) < cwd.len() {
        refused(m, e, m2, e2, Errno::ERANGE)
    } else if !m.mapped(buf as int, cwd.len() as int) {
        refused(m, e, m2, e2, Errno::EFAULT)
    } else {
        m2 == m.write(buf as int, cwd).set_reg(RegisterARM64::X0, buf) && e2 == e
    }
}

/// Store the working directory at `X0`, in at most `X1` bytes.
pub fn syscall_getcwd(backend: &mut Backend, emulator: &mut AndroidEmulator)
    ensures
        getcwd_done(old(backend)@, *old(emulator), final(backend)@, *final(emulator)),
{
    let buf: u64 = backend.reg_read(RegisterARM64::X0);
    let size: u64 = backend.reg_read(RegisterARM64::X1);
    let cwd = c_string_bytes(WORKING_DIRECTORY);
    if size < cwd.len() as u64 {
        refuse(backend, emulator, Errno::ERANGE);
        return ;
    }
    if backend.mem_write(buf, cwd.as_slice()).is_err() {
        refuse(backend, emulator, Errno::EFAULT);
        return ;
    }
    backend.reg_write(RegisterARM64::X0, buf);
}

/// What the guest is told of the file system that holds a path: an ext4 of one
/// gigabyte in blocks of a page, half of it free.
pub open spec fn statfs_bytes() -> Seq<u8> {
    le64(0xEF53) + le64(4096) + le64(262144) + le64(131072) + le64(131072) + zeros(24) + le64(255)
        + le64(4096) + zeros(40)
}

/// The machine after the guest was told of a file system.
pub open spec fn statfs_told(m: Machine) -> Machine {
    (if m.reg(RegisterARM64::X1) != 0 {
        m.try_write(m.reg(RegisterARM64::X1) as int, statfs_bytes())
    } else {
        m
    }).ret(0)
}

/// Describe the file system of the path at `X0`, at `X1`.
pub fn syscall_statfs(backend: &mut Backend, emulator: &AndroidEmulator)
    requires
        has_path(old(backend)@, RegisterARM64::X0),
    ensures
        final(backend)@ == statfs_told(old(backend)@),
{
    let buf: u64 = backend.reg_read(RegisterARM64::X1);
    if buf != 0 {
        let mut st = put_le64(0xEF53);
        st.extend_from_slice(put_le64(4096).as_slice());
        st.extend_from_slice(put_le64(262144).as_slice());
        st.extend_from_slice(put_le64(131072).as_slice());
        st.extend_from_slice(put_le64(131072).as_slice());
        st.extend_from_slice(put_zeros(24).as_slice());
        st.extend_from_slice(put_le64(255).as_slice());
        st.extend_from_slice(put_le64(4096).as_slice());
        st.extend_from_slice(put_zeros(40).as_slice());
        backend.mem_try_write(buf, st.as_slice());
    }
    backend.reg_write_i64(RegisterARM64::X0, 0);
}

/// A name of the system: its bytes, and zeros up to 65 bytes.
pub open spec fn name_field(s: Seq<char>) -> Seq<u8> {
    encode_utf8(s) + zeros((65 - encode_utf8(s).len()) as nat)
}

/// The names of the system.
pub open spec fn uname_bytes() -> Seq<u8> {
    name_field("Linux"@) + name_field("localhost"@) + name_field("6.6.0-android16-0"@)
        + name_field("#1 SMP PREEMPT"@) + name_field("aarch64"@) + name_field("localdomain"@)
}

fn put_name_field(data: &mut Vec<u8>, s: &str)
    requires
        encode_utf8(s@).len() <= 65,
    ensures
        final(data)@ == old(data)@ + name_field(s@),
{
    let bytes = s.as_bytes();
    data.extend_from_slice(bytes);
    let pad: usize = 65 - bytes.len();
    data.extend_from_slice(put_zeros(pad).as_slice());
    assert(data@ =~= old(data)@ + name_field(s@));
}

proof fn lemma_name_lengths()
    ensures
        encode_utf8("Linux"@).len() == 5,
        encode_utf8("localhost"@).len() == 9,
        encode_utf8("6.6.0-android16-0"@).len() == 17,
        encode_utf8("#1 SMP PREEMPT"@).len() == 14,
        encode_utf8("aarch64"@).len() == 7,
        encode_utf8("localdomain"@).len() == 11,
{
    reveal_strlit("Linux");
    reveal_strlit("localhost");
    reveal_strlit("6.6.0-android16-0");
    reveal_strlit("#1 SMP PREEMPT");
    reveal_strlit("aarch64");
    reveal_strlit("localdomain");
    is_ascii_chars_encode_utf8("Linux"@);
    is_ascii_chars_encode_utf8("localhost"@);
    is_ascii_chars_encode_utf8("6.6.0-android16-0"@);
    is_ascii_chars_encode_utf8("#1 SMP PREEMPT"@);
    is_ascii_chars_encode_utf8("aarch64"@);
    is_ascii_chars_encode_utf8("localdomain"@);
}

/// What asking for the names of the system comes to.
pub open spec fn uname_done(
    m: Machine,
    e: AndroidEmulator,
    m2: Machine,
    e2: AndroidEmulator,
) -> bool {
    let at = m.reg(RegisterARM64::X0) as int;
    if m.mapped(at, 390) {
        m2 == m.write(at, uname_bytes()).ret(0) && e2 == e
    } else {
        refused(m, e, m2, e2, Errno::EFAULT)
    }
}

/// Store the names of the system at `X0`.
pub fn syscall_uname(backend: &mut Backend, emulator: &mut AndroidEmulator)
    ensures
        uname_done(old(backend)@, *old(emulator), final(backend)@, *final(emulator)),
{
    let buf: u64 = backend.reg_read(RegisterARM64::X0);
    proof {
        lemma_name_lengths();
    }
    let mut data: Vec<u8> = Vec::new();
    put_name_field(&mut data, "Linux");
    put_name_field(&mut data, "localhost");
    put_name_field(&mut data, "6.6.0-android16-0");
    put_name_field(&mut data, "#1 SMP PREEMPT");
    put_name_field(&mut data, "aarch64");
    put_name_field(&mut data, "localdomain");
    assert(data@ =~= uname_bytes());
    if backend.mem_write(buf, data.as_slice()).is_err() {
        refuse(backend, emulator, Errno::EFAULT);
        return ;
    }
    backend.reg_write_i64(RegisterARM64::X0, 0);
}

pub const TCGETS: u32 = 0x5401;

pub const TIOCGPGRP: u32 = 0x540F;

pub const TIOCGWINSZ: u32 = 0x5413;

/// What a terminal answers to a request: its settings, its size of 24 lines of 80
/// columns, or the process group in front.
pub open spec fn terminal_reply(cmd: u32) -> Option<Seq<u8>> {
    if cmd == TCGETS {
        Some(zeros(64))
    } else if cmd == TIOCGWINSZ {
        Some(le16(24) + le16(80) + zeros(4))
    } else if cmd == TIOCGPGRP {
        Some(le_i32(2667))
    } else {
        None
    }
}

/// What a request of a file comes to.
pub open spec fn ioctl_done(
    m: Machine,
    e: AndroidEmulator,
    m2: Machine,
    e2: AndroidEmulator,
) -> bool {
    let arg = m.reg(RegisterARM64::X2);
    match terminal_reply(m.reg_u32(RegisterARM64::X1)) {
        Some(data) if 0 <= fd_of(m) <= 2 => {
            &&& m2 == (if arg != 0 {
                m.try_write(arg as int, data)
            } else {
                m
            }).ret(0)
            &&& e2 == e
        },
        _ => refused(m, e, m2, e2, Errno::ENOTTY),
    }
}

/// Request `X1` of the file `X0`. The three standard files answer as a terminal does;
/// no other file answers.
pub fn syscall_ioctl(backend: &mut Backend, emulator: &mut AndroidEmulator)
    ensures
        ioctl_done(old(backend)@, *old(emulator), final(backend)@, *final(emulator)),
{
    let fd: i32 = backend.reg_read_i32(RegisterARM64::X0);
    let cmd: u32 = backend.reg_read_u32(RegisterARM64::X1);
    let arg: u64 = backend.reg_read(RegisterARM64::X2);
    if fd >= 0 && fd <= 2 {
        let reply: Option<Vec<u8>> = if cmd == TCGETS {
            Some(put_zeros(64))
        } else if cmd == TIOCGWINSZ {
            let mut ws = put_le16(24);
            ws.extend_from_slice(put_le16(80).as_slice());
            ws.extend_from_slice(put_zeros(4).as_slice());
            assert(ws@ =~= le16(24) + le16(80) + zeros(4));
            Some(ws)
        } else if cmd == TIOCGPGRP {
            Some(put_le_i32(2667))
        } else {
            None
        };
        if let Some(data) = reply {
            if arg != 0 {
                backend.mem_try_write(arg, data.as_slice());
            }
            backend.reg_write_i64(RegisterARM64::X0, 0);
            return ;
        }
    }
    refuse(backend, emulator, Errno::ENOTTY);
}

/// Make the descriptor `X1` another name for `X0`: accepted, with no effect.
pub fn syscall_dup3(backend: &mut Backend, emulator: &AndroidEmulator)
    ensures
        final(backend)@ == old(backend)@.ret(old(backend)@.reg_i32(RegisterARM64::X1) as int),
{
    let fd: i32 = backend.reg_read_i32(RegisterARM64::X1);
    backend.reg_write_i64(RegisterARM64::X0, fd as i64);
}

/// Which paths can be reached, whatever the host has: the devices and process files that the
/// runtime makes up always, and never what lies in `/vendor` or below a few other places, has
/// `/su` in it, or is the property area. Every other path from the root is reached exactly
/// where the host has it, and a path that does not begin at the root, never.
#[verifier::rlimit(40)]
pub proof fn law_reachable_paths(path: Seq<char>, on_host: bool)
    requires
        is_ascii_chars(path),
    ensures
        path == "/dev/null"@ || path == "/dev/urandom"@ || path == "/dev/zero"@ || path
            == "/proc/self/maps"@ || path == "/proc/meminfo"@ || path == "/proc/cpuinfo"@ || path
            == "/proc/stat"@ || path == "/proc/self/exe"@ || path
            == "/data/data/com.tencent.mobileqq"@ ==> reachable(path, on_host),
        path == "/hmdocker"@ || path == "/dev/__properties__"@ ==> !reachable(path, on_host),
        path.len() >= 7 && path.take(7) == "/vendor"@ ==> !reachable(path, on_host),
        path.len() >= 9 && path.take(9) == "/proc/rk_"@ ==> !reachable(path, on_host),
        path.len() == 0 || path[0] != '/' ==> !reachable(path, on_host),
        !on_host && reachable(path, on_host) ==> always_there(path),
{
    reveal_strlit("/dev/null");
    reveal_strlit("/dev/urandom");
    reveal_strlit("/dev/zero");
    reveal_strlit("/proc/self/maps");
    reveal_strlit("/proc/meminfo");
    reveal_strlit("/proc/cpuinfo");
    reveal_strlit("/proc/stat");
    reveal_strlit("/proc/self/exe");
    reveal_strlit("/data/data/com.tencent.mobileqq");
    reveal_strlit("/hmdocker");
    reveal_strlit("/dev/__properties__");
    reveal_strlit("/vendor");
    reveal_strlit("/proc/rk_");
    reveal_strlit("/");
    assert("/hmdocker"@[1] == 'h' && "/dev/null"@[1] == 'd' && "/dev/zero"@[1] == 'd');
    if path.len() >= 7 && path.take(7) == "/vendor"@ {
        assert(path[1] == path.take(7)[1] && path.take(7)[1] == 'v');
    }
    if path.len() >= 9 && path.take(9) == "/proc/rk_"@ {
        assert(path[6] == path.take(9)[6] && path.take(9)[6] == 'r');
        assert(path[1] == path.take(9)[1] && path.take(9)[1] == 'p');
    }
    if path.len() > 0 && begins_with(path, "/"@) {
        assert(path[0] == path.take(1)[0]);
    }
}

/// What a terminal answers: 24 lines of 80 columns to request 0x5413, the process group 2667
/// to request 0x540f, 64 zero bytes to request 0x5401, and nothing to any other.
pub proof fn law_terminal_replies(cmd: u32)
    ensures
        cmd == 0x5413 ==> terminal_reply(cmd) == Some(seq![24u8, 0, 80, 0, 0, 0, 0, 0]),
        cmd == 0x540f ==> terminal_reply(cmd) == Some(seq![0x6bu8, 0x0a, 0, 0]),
        cmd == 0x5401 ==> terminal_reply(cmd) == Some(Seq::new(64, |i: int| 0u8)),
        cmd != 0x5413 && cmd != 0x540f && cmd != 0x5401 ==> terminal_reply(cmd) is None,
{
    assert(le16(24) + le16(80) + zeros(4) =~= seq![24u8, 0, 80, 0, 0, 0, 0, 0]);
    assert(le_i32(2667) =~= seq![0x6bu8, 0x0a, 0, 0]);
}

/// No directory is ever made. A path that does not begin at the root is answered with minus
/// two; one from the root under an open directory with minus nine; one of the shared storage's
/// own directory with minus 17, and all others with minus 13. Where a path can be reached the
/// answer is zero, and else minus two.
pub proof fn law_path_answers(
    b: Backend,
    e: AndroidEmulator,
    on_host: bool,
    m2: Machine,
    e2: AndroidEmulator,
)
    ensures
        ({
            let path = b@.c_text(b@.reg(RegisterARM64::X1) as int)->0;
            let x0 = m2.reg_i64(RegisterARM64::X0);
            mkdirat_done(b@, e, m2, e2) ==> {
                &&& path.len() == 0 || path[0] != '/' ==> x0 == -2
                &&& path.len() > 0 && path[0] == '/' ==> {
                    &&& b@.reg_i32(RegisterARM64::X0) != -100 ==> x0 == -9
                    &&& b@.reg_i32(RegisterARM64::X0) == -100 ==> (x0 == -17 && (path
                        == "/sdcard/Android/"@ || path == "/sdcard/Android"@) || x0 == -13 && path
                        != "/sdcard/Android/"@ && path != "/sdcard/Android"@)
                }
                &&& e2 == e
            }
        }),
        faccessat_done(b@, e, on_host, m2, e2) ==> {
            let path = b@.c_text(b@.reg(RegisterARM64::X1) as int)->0;
            &&& reachable(path, on_host) ==> m2.reg_i64(RegisterARM64::X0) == 0 && m2.mem == b@.mem
            &&& !reachable(path, on_host) ==> m2.reg_i64(RegisterARM64::X0) == -2
            &&& e2 == e
        },
{
    b.reg_slots();
    crate::emulator::state::law_refusal(b, e, Errno::ENOENT);
    crate::emulator::state::law_refusal(b, e, Errno::EBADF);
    crate::emulator::state::law_refusal(b, e, Errno::EEXIST);
    crate::emulator::state::law_refusal(b, e, Errno::EACCES);
    reveal_strlit("/");
    let path = b@.c_text(b@.reg(RegisterARM64::X1) as int)->0;
    if path.len() > 0 {
        assert(path.take(1)[0] == path[0]);
        if path[0] == '/' {
            assert(path.take(1) =~= "/"@);
        }
    }
}

/// The link of a process to its program gives the program's path: the one that was set, or
/// the process name below `/system/bin`. The guest gets as many bytes as it has room for, with
/// their number, at the address in its third register. Every other link is answered with
/// minus two.
pub proof fn law_program_link(b: Backend, e: AndroidEmulator, m2: Machine, e2: AndroidEmulator)
    requires
        readlinkat_done(b@, e, m2, e2),
        b@.reg(RegisterARM64::X3) < 0x8000_0000,
    ensures
        ({
            let path = b@.c_text(b@.reg(RegisterARM64::X1) as int)->0;
            let room = b@.reg(RegisterARM64::X3);
            let at = b@.reg(RegisterARM64::X2) as int;
            let target = encode_utf8(
                match e.exec_path {
                    Some(p) => p@,
                    None => "/system/bin/"@ + e.proc_name@,
                },
            );
            let n: int = if target.len() < room {
                target.len() as int
            } else {
                room as int
            };
            &&& e2 == e
            &&& !(path.len() >= 14 && path.take(14) == "/proc/self/exe"@) ==> m2.reg_i64(
                RegisterARM64::X0,
            ) == -2
            &&& path.len() >= 14 && path.take(14) == "/proc/self/exe"@ ==> {
                &&& b@.mapped(at, n) ==> m2.reg_i64(RegisterARM64::X0) == n && m2.read(at, n as nat)
                    == target.take(n)
                &&& !b@.mapped(at, n) ==> m2.reg_i64(RegisterARM64::X0) == -14
            }
        }),
{
    b.reg_slots();
    crate::emulator::state::law_refusal(b, e, Errno::ENOENT);
    crate::emulator::state::law_refusal(b, e, Errno::EFAULT);
    reveal_strlit("/proc/self/exe");
    let m = b@;
    let bytes = encode_utf8(program_path(e));
    let n = min_int(bytes.len() as int, m.reg(RegisterARM64::X3) as int);
    let at = m.reg(RegisterARM64::X2) as int;
    if begins_with(path_in(m, RegisterARM64::X1), "/proc/self/exe"@) && m.mapped(at, n) {
        crate::backend::law_write_then_read(m, at, bytes.take(n), at);
        assert(m2.read(at, n as nat) =~= m.write(at, bytes.take(n)).read(at, n as nat));
    }
}

/// Every guest works in `/data/local/tmp`: with sixteen bytes or more it gets that text with a
/// zero after it, and its own pointer back. With less room it is answered with minus 34.
pub proof fn law_working_directory(b: Backend, e: AndroidEmulator, m2: Machine, e2: AndroidEmulator)
    requires
        getcwd_done(b@, e, m2, e2),
    ensures
        ({
            let at = b@.reg(RegisterARM64::X0);
            let room = b@.reg(RegisterARM64::X1);
            &&& e2 == e
            &&& room < 16 ==> m2.reg_i64(RegisterARM64::X0) == -34
            &&& room >= 16 && !b@.mapped(at as int, 16) ==> m2.reg_i64(RegisterARM64::X0) == -14
            &&& room >= 16 && b@.mapped(at as int, 16) ==> m2.reg(RegisterARM64::X0) == at
                && text_stands(m2, at as int, "/data/local/tmp"@)
        }),
{
    b.reg_slots();
    crate::emulator::state::law_refusal(b, e, Errno::ERANGE);
    crate::emulator::state::law_refusal(b, e, Errno::EFAULT);
    reveal_strlit("/data/local/tmp");
    assert(is_ascii_chars("/data/local/tmp"@));
    is_ascii_chars_encode_utf8("/data/local/tmp"@);
    let m = b@;
    let at = m.reg(RegisterARM64::X0) as int;
    let cwd = c_bytes("/data/local/tmp"@);
    assert(cwd.len() == 16);
    if m.reg(RegisterARM64::X1) >= 16 && m.mapped(at, 16) {
        crate::backend::law_write_then_read(m, at, cwd, at);
        assert(m2.read(at, 16) =~= m.write(at, cwd).read(at, 16));
        lemma_text_stands(m2, at, "/data/local/tmp"@);
    }
}

/// The names of the system stand 65 bytes apart: the system, the host, the release, the
/// version, the machine and the domain, each with a zero after it.
pub proof fn law_system_names(b: Backend, e: AndroidEmulator, m2: Machine, e2: AndroidEmulator)
    requires
        uname_done(b@, e, m2, e2),
    ensures
        ({
            let at = b@.reg(RegisterARM64::X0) as int;
            &&& e2 == e
            &&& !b@.mapped(at, 390) ==> m2.reg_i64(RegisterARM64::X0) == -14
            &&& b@.mapped(at, 390) ==> {
                &&& m2.reg_i64(RegisterARM64::X0) == 0
                &&& text_stands(m2, at, "Linux"@)
                &&& text_stands(m2, at + 65, "localhost"@)
                &&& text_stands(m2, at + 130, "6.6.0-android16-0"@)
                &&& text_stands(m2, at + 195, "#1 SMP PREEMPT"@)
                &&& text_stands(m2, at + 260, "aarch64"@)
                &&& text_stands(m2, at + 325, "localdomain"@)
            }
        }),
{
    b.reg_slots();
    crate::emulator::state::law_refusal(b, e, Errno::EFAULT);
    let m = b@;
    let at = m.reg(RegisterARM64::X0) as int;
    if m.mapped(at, 390) {
        lemma_name_lengths();
        let data = uname_bytes();
        assert(data.len() == 390);
        crate::backend::law_write_then_read(m, at, data, at);
        assert(m2.read(at, 390) =~= m.write(at, data).read(at, 390));
        lemma_field_stands(m2, at, data, 0, "Linux"@);
        lemma_field_stands(m2, at, data, 65, "localhost"@);
        lemma_field_stands(m2, at, data, 130, "6.6.0-android16-0"@);
        lemma_field_stands(m2, at, data, 195, "#1 SMP PREEMPT"@);
        lemma_field_stands(m2, at, data, 260, "aarch64"@);
        lemma_field_stands(m2, at, data, 325, "localdomain"@);
    }
}

proof fn lemma_field_stands(m: Machine, at: int, data: Seq<u8>, off: int, name: Seq<char>)
    requires
        m.read(at, data.len()) == data,
        0 <= off,
        off + 65 <= data.len(),
        encode_utf8(name).len() < 65,
        data.subrange(off, off + 65) =~= name_field(name),
    ensures
        text_stands(m, at + off, name),
{
    let text = c_bytes(name);
    let field = name_field(name);
    assert(m.read(at + off, text.len()) =~= text) by {
        assert forall|i: int| 0 <= i < text.len() implies #[trigger] m.read(at + off, text.len())[i]
            == text[i] by {
            assert(m.read(at, data.len())[off + i] == data[off + i]);
            assert(data.subrange(off, off + 65)[i] == field[i]);
            assert(field[i] == text[i]);
        }
    }
    lemma_text_stands(m, at + off, name);
}

/// The file system that a guest sees: its kind, blocks of a page, their number, half of them
/// free and free to the guest, and names of at most 255 bytes.
pub proof fn law_file_system_data(b: Backend)
    requires
        b@.reg(RegisterARM64::X1) != 0,
        b@.mapped(b@.reg(RegisterARM64::X1) as int, 120),
    ensures
        ({
            let after = statfs_told(b@);
            let at = b@.reg(RegisterARM64::X1) as int;
            &&& after.reg_i64(RegisterARM64::X0) == 0
            &&& after.read_u64(at) == Some(0xef53u64)
            &&& after.read_u64(at + 8) == Some(4096u64)
            &&& after.read_u64(at + 16) == Some(262144u64)
            &&& after.read_u64(at + 24) == Some(131072u64)
            &&& after.read_u64(at + 32) == Some(131072u64)
            &&& after.read_u64(at + 64) == Some(255u64)
            &&& after.read_u64(at + 72) == Some(4096u64)
        }),
{
    b.reg_slots();
    let m = b@;
    let at = m.reg(RegisterARM64::X1) as int;
    let data = statfs_bytes();
    assert(data.len() == 120);
    let w = m.write(at, data);
    let after = statfs_told(m);
    assert(after == w.ret(0));
    lemma_kept_word(m, at, data, 0, 0xef53);
    lemma_kept_word(m, at, data, 8, 4096);
    lemma_kept_word(m, at, data, 16, 262144);
    lemma_kept_word(m, at, data, 24, 131072);
    lemma_kept_word(m, at, data, 32, 131072);
    lemma_kept_word(m, at, data, 64, 255);
    lemma_kept_word(m, at, data, 72, 4096);
}

proof fn lemma_kept_word(m: Machine, at: int, data: Seq<u8>, off: int, v: u64)
    requires
        m.mapped(at, data.len() as int),
        0 <= off,
        off + 8 <= data.len(),
        data.subrange(off, off + 8) =~= le64(v),
    ensures
        m.write(at, data).ret(0).read_u64(at + off) == Some(v),
{
    crate::le::law_le64_round_trip(v);
    crate::backend::lemma_word_inside(m, at, data, off);
    let w = m.write(at, data);
    assert(w.ret(0).read_u64(at + off) == w.read_u64(at + off));
}

/// Only the three standard files answer requests, and only those of a terminal: the answer
/// goes to the address in the third register. Every other request is answered with minus 25.
pub proof fn law_terminal(b: Backend, e: AndroidEmulator, m2: Machine, e2: AndroidEmulator)
    requires
        ioctl_done(b@, e, m2, e2),
    ensures
        ({
            let fd = b@.reg_i32(RegisterARM64::X0);
            let cmd = b@.reg_u32(RegisterARM64::X1);
            let at = b@.reg(RegisterARM64::X2) as int;
            let known = cmd == 0x5401 || cmd == 0x540f || cmd == 0x5413;
            &&& e2 == e
            &&& !known || fd < 0 || fd > 2 ==> m2.reg_i64(RegisterARM64::X0) == -25
            &&& known && 0 <= fd <= 2 ==> m2.reg_i64(RegisterARM64::X0) == 0
            &&& cmd == 0x5413 && 0 <= fd <= 2 && at != 0 && b@.mapped(at, 8) ==> m2.mem[at] == 24
                && m2.mem[at + 1] == 0 && m2.mem[at + 2] == 80 && m2.mem[at + 3] == 0
            &&& cmd == 0x540f && 0 <= fd <= 2 && at != 0 && b@.mapped(at, 4) ==> m2.mem[at] + 256
                * m2.mem[at + 1] == 2667
        }),
{
    b.reg_slots();
    crate::emulator::state::law_refusal(b, e, Errno::ENOTTY);
    let m = b@;
    let cmd = m.reg_u32(RegisterARM64::X1);
    let at = m.reg(RegisterARM64::X2) as int;
    law_terminal_replies(cmd);
    if 0 <= fd_of(m) <= 2 && at != 0 {
        if cmd == 0x5413 && m.mapped(at, 8) {
            let data = seq![24u8, 0, 80, 0, 0, 0, 0, 0];
            assert(m.mem.dom().contains(at + 0) && m.mem.dom().contains(at + 1));
            assert(m.mem.dom().contains(at + 2) && m.mem.dom().contains(at + 3));
            assert(m2 == m.write(at, data).ret(0));
        } else if cmd == 0x540f && m.mapped(at, 4) {
            let data = seq![0x6bu8, 0x0a, 0, 0];
            assert(m.mem.dom().contains(at + 0) && m.mem.dom().contains(at + 1));
            assert(m2 == m.write(at, data).ret(0));
        }
    }
}

} // verus!
