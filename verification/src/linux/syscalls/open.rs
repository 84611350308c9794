//! Opening files.
use vstd::prelude::*;
use vstd::utf8::{encode_utf8, is_ascii_chars, is_ascii_chars_encode_utf8};
use crate::backend::{Backend, Machine, RegisterARM64};
use crate::emulator::state::{refuse, AndroidEmulator};
use crate::linux::errno::{errno_number, Errno};
use crate::linux::file_system::{
    inserted, lowest_free, ByteArrayFileIO, DeviceIO, DeviceKind, DynamicIO, FileIO, FileSystem,
    LinuxFileIO, O_KNOWN, SYSTEM_FILE,
};
use crate::outside::{
    buffer_bytes, buffer_freeze, buffer_new, buffer_write_str, bytes_slice,
};
use crate::text::{
    begins_with, chars_of, digit_text, finishes_with, hex_digit, join2, join3, starts_with, str_eq,
};

verus! {

/// The descriptor that stands for the current directory.
pub const AT_FDCWD: i32 = -100;

pub const STAT_TOTAL: &'static str = "cpu 9160 11352 15848 9160 11352 1584 80 0 0 0";

pub const STAT_EACH: &'static str = " 1145 1419 1981 1145 1419 198 10 0 0 0";

/// The line of one processor in the load statistics.
pub open spec fn stat_line(i: int) -> Seq<char> {
    "cpu"@ + seq![hex_digit(i)] + STAT_EACH@
}

/// The load statistics of the first `n` processors.
pub open spec fn stat_bytes(n: int) -> Seq<u8>
    decreases n,
{
    if n <= 0 {
        encode_utf8(STAT_TOTAL@)
    } else {
        stat_bytes(n - 1) + encode_utf8(stat_line(n - 1))
    }
}

proof fn lemma_stat_line(i: int)
    requires
        0 <= i < 8,
    ensures
        encode_utf8(stat_line(i)).len() == 42,
{
    reveal_strlit("cpu");
    reveal_strlit(" 1145 1419 1981 1145 1419 198 10 0 0 0");
    let line = stat_line(i);
    assert(is_ascii_chars(line)) by {
        assert forall|j: int| 0 <= j < line.len() implies (0 <= #[trigger] line[j] < 128) by {
        }
    }
    is_ascii_chars_encode_utf8(line);
}

/// The contents of the load statistics of eight processors.
pub fn proc_stat() -> (r: Vec<u8>)
    ensures
        r@ == stat_bytes(8),
{
    proof {
        reveal_strlit("cpu 9160 11352 15848 9160 11352 1584 80 0 0 0");
        assert(is_ascii_chars(STAT_TOTAL@));
        is_ascii_chars_encode_utf8(STAT_TOTAL@);
    }
    let mut buf = buffer_new();
    buffer_write_str(&mut buf, STAT_TOTAL);
    assert(buffer_bytes(buf) =~= stat_bytes(0));
    let mut i: u64 = 0;
    while i < 8
        invariant
            i <= 8,
            buffer_bytes(buf) == stat_bytes(i as int),
            buffer_bytes(buf).len() == 45 + 42 * i,
        decreases 8 - i,
    {
        proof {
            lemma_stat_line(i as int);
        }
        let line = join3("cpu", digit_text(i), STAT_EACH);
        buffer_write_str(&mut buf, line.as_str());
        i = i + 1;
    }
    let frozen = buffer_freeze(buf);
    let mut r: Vec<u8> = Vec::new();
    r.extend_from_slice(bytes_slice(&frozen));
    assert(r@ =~= stat_bytes(8));
    r
}

/// A path without the slashes it begins with.
pub open spec fn without_slashes(path: Seq<char>) -> Seq<char>
    decreases path.len(),
{
    if path.len() > 0 && path[0] == '/' {
        without_slashes(path.skip(1))
    } else {
        path
    }
}

/// A guest path under a host directory.
pub open spec fn under_base(base: Seq<char>, path: Seq<char>) -> Seq<char> {
    if base.len() == 0 {
        without_slashes(path)
    } else if finishes_with(base, "/"@) {
        base + without_slashes(path)
    } else {
        base + "/"@ + without_slashes(path)
    }
}

fn strip_slashes(path: &str) -> (r: String)
    ensures
        r@ == without_slashes(path@),
{
    let chars = chars_of(path);
    let n: usize = chars.len();
    let mut i: usize = 0;
    assert(chars@.skip(0) =~= chars@);
    while i < n && chars[i] == '/'
        invariant
            i <= n,
            n == chars@.len(),
            chars@ == path@,
            without_slashes(path@) == without_slashes(chars@.skip(i as int)),
        decreases n - i,
    {
        assert(chars@.skip(i as int).skip(1) =~= chars@.skip(i + 1));
        i = i + 1;
    }
    let rest = path.substring_char(i, n);
    assert(path@.subrange(i as int, n as int) =~= chars@.skip(i as int));
    rest.to_owned()
}

/// Where a guest path is to be found on the host.
pub fn host_path(base: &str, path: &str) -> (r: String)
    ensures
        r@ == under_base(base@, path@),
{
    let rest = strip_slashes(path);
    if base.unicode_len() == 0 {
        return rest;
    }
    if crate::text::ends_with(base, "/") {
        return join2(base, rest.as_str());
    }
    join3(base, "/", rest.as_str())
}

/// What opening a path comes down to.
pub enum OpenPlan {
    /// The call is refused with this error number.
    Refuse(i32),
    Device(DeviceKind),
    /// The load statistics.
    Stat,
    /// What the resolver found.
    Found(FileIO),
    /// A file that is always empty.
    Null,
    /// The file at this place on the host.
    Host(Seq<char>),
}

/// The plan for a path. `from_libc` says whether the C library asks, `found` is what a
/// resolver found for the path, and `on_host` whether the host has a file where the
/// guest's path leads.
pub open spec fn open_plan(
    path: Seq<char>,
    from_libc: bool,
    found: Option<FileIO>,
    base: Seq<char>,
    on_host: bool,
) -> OpenPlan {
    if path == "/dev/__properties__"@ {
        OpenPlan::Refuse(errno_number(Errno::EPERM))
    } else if path == "/dev/urandom"@ {
        OpenPlan::Device(DeviceKind::URandom)
    } else if path == "/proc/meminfo"@ {
        OpenPlan::Device(DeviceKind::Meminfo)
    } else if path == "/proc/cpuinfo"@ {
        OpenPlan::Device(DeviceKind::Cpuinfo)
    } else if path == "/proc/sys/kernel/random/boot_id"@ {
        OpenPlan::Device(DeviceKind::RandomBootId)
    } else if path == "/proc/stat"@ {
        if from_libc {
            OpenPlan::Stat
        } else {
            OpenPlan::Refuse(errno_number(Errno::EPERM))
        }
    } else if found is Some {
        match found->0 {
            FileIO::Error(errno) => OpenPlan::Refuse(errno),
            file => OpenPlan::Found(file),
        }
    } else if path == "/proc/self/maps"@ {
        OpenPlan::Device(DeviceKind::Maps)
    } else if path == "/dev/null"@ {
        OpenPlan::Null
    } else if begins_with(path, "/"@) && on_host {
        OpenPlan::Host(under_base(base, path))
    } else {
        OpenPlan::Refuse(errno_number(Errno::ENOENT))
    }
}

/// `file` is what the plan opens.
pub open spec fn opened_as(plan: OpenPlan, file: FileIO, path: Seq<char>, flags: u32) -> bool {
    match plan {
        OpenPlan::Refuse(_) => false,
        OpenPlan::Device(kind) => {
            &&& file matches FileIO::Dynamic(DynamicIO::Device(d))
            &&& d.kind == kind
            &&& d.path@ == path
            &&& d.oflags == flags
            &&& d.mode == SYSTEM_FILE
        },
        OpenPlan::Stat => is_bytes_file(file, stat_bytes(8), path, flags),
        OpenPlan::Found(f) => file == f,
        OpenPlan::Null => is_bytes_file(file, Seq::empty(), path, flags),
        OpenPlan::Host(host) => {
            &&& file matches FileIO::File(f)
            &&& f.host_path@ == host
            &&& f.path@ == path
            &&& f.oflags == flags
            &&& f.uid == 0
            &&& f.mode == SYSTEM_FILE
        },
    }
}

/// A made-up file with these bytes.
pub open spec fn is_bytes_file(file: FileIO, bytes: Seq<u8>, path: Seq<char>, flags: u32) -> bool {
    &&& file matches FileIO::Bytes(f)
    &&& f.bytes@ == bytes
    &&& f.path@ == path
    &&& f.uid == 0
    &&& f.oflags == flags
    &&& f.mode == SYSTEM_FILE
}

/// The error number of a plan; zero where a file is opened.
pub open spec fn plan_errno(plan: OpenPlan) -> int {
    match plan {
        OpenPlan::Refuse(n) => n as int,
        _ => 0,
    }
}

/// The file system after a plan was carried out, and the descriptor and error number
/// that came of it.
pub open spec fn plan_done(
    fs: FileSystem,
    fs2: FileSystem,
    plan: OpenPlan,
    path: Seq<char>,
    flags: u32,
    fd: int,
    errno: int,
) -> bool {
    match plan {
        OpenPlan::Refuse(n) => fd == -n && errno == n && fs2 == fs,
        _ => {
            &&& fd == lowest_free(fs.slots@, 0)
            &&& errno == 0
            &&& fs2.file(fd) matches Some(file)
            &&& opened_as(plan, file, path, flags)
            &&& fs2.slots@ == inserted(fs.slots@, file)
            &&& fs2 == (FileSystem { slots: fs2.slots, ..fs })
        },
    }
}

fn device(kind: DeviceKind, path: &str, flags: u32) -> (f: FileIO)
    ensures
        opened_as(OpenPlan::Device(kind), f, path@, flags),
{
    FileIO::Dynamic(
        DynamicIO::Device(
            DeviceIO { kind, path: path.to_owned(), oflags: flags, mode: SYSTEM_FILE },
        ),
    )
}

fn bytes_file(bytes: Vec<u8>, path: &str, flags: u32) -> (f: FileIO)
    ensures
        is_bytes_file(f, bytes@, path@, flags),
{
    FileIO::Bytes(
        ByteArrayFileIO { bytes, path: path.to_owned(), uid: 0, oflags: flags, mode: SYSTEM_FILE },
    )
}

/// Open a path: give a descriptor and zero, or a negated error number and that number.
pub fn open(
    file_system: &mut FileSystem,
    path: &str,
    flags: u32,
    from_libc: bool,
    found: Option<FileIO>,
    base_path: &str,
    on_host: bool,
) -> (r: (i32, i32))
    requires
        old(file_system).wf(),
        old(file_system).slots@.len() < i32::MAX,
        found matches Some(f) ==> {
            &&& !(f is LocalSocket)
            &&& f matches FileIO::Error(n) ==> n > i32::MIN
            &&& f matches FileIO::Dynamic(DynamicIO::Pipe(p)) ==> p.pipe < old(file_system).pipes.pipes@.len()
        },
    ensures
        plan_done(
            *old(file_system),
            *final(file_system),
            open_plan(path@, from_libc, found, base_path@, on_host),
            path@,
            flags,
            r.0 as int,
            r.1 as int,
        ),
        final(file_system).wf(),
{
    if str_eq(path, "/dev/__properties__") {
        let errno: i32 = Errno::EPERM.as_i32();
        return (-errno, errno);
    }
    if str_eq(path, "/dev/urandom") {
        let fd: i32 = file_system.insert_file(device(DeviceKind::URandom, path, flags));
        return (fd, 0);
    }
    if str_eq(path, "/proc/meminfo") {
        let fd: i32 = file_system.insert_file(device(DeviceKind::Meminfo, path, flags));
        return (fd, 0);
    }
    if str_eq(path, "/proc/cpuinfo") {
        let fd: i32 = file_system.insert_file(device(DeviceKind::Cpuinfo, path, flags));
        return (fd, 0);
    }
    if str_eq(path, "/proc/sys/kernel/random/boot_id") {
        let fd: i32 = file_system.insert_file(device(DeviceKind::RandomBootId, path, flags));
        return (fd, 0);
    }
    if str_eq(path, "/proc/stat") {
        if from_libc {
            let fd: i32 = file_system.insert_file(bytes_file(proc_stat(), path, flags));
            return (fd, 0);
        }
        let errno: i32 = Errno::EPERM.as_i32();
        return (-errno, errno);
    }
    if let Some(file) = found {
        if let FileIO::Error(errno) = file {
            return (-errno, errno);
        }
        let fd: i32 = file_system.insert_file(file);
        return (fd, 0);
    }
    if str_eq(path, "/proc/self/maps") {
        let fd: i32 = file_system.insert_file(device(DeviceKind::Maps, path, flags));
        return (fd, 0);
    }
    if str_eq(path, "/dev/null") {
        let empty = bytes_file(Vec::new(), path, flags);
        let fd: i32 = file_system.insert_file(empty);
        return (fd, 0);
    }
    if starts_with(path, "/") && on_host {
        let file = FileIO::File(
            LinuxFileIO {
                host_path: host_path(base_path, path),
                path: path.to_owned(),
                oflags: flags,
                uid: 0,
                mode: SYSTEM_FILE,
            },
        );
        let fd: i32 = file_system.insert_file(file);
        return (fd, 0);
    }
    let errno: i32 = Errno::ENOENT.as_i32();
    (-errno, errno)
}

/// What a call to open a file does.
pub open spec fn openat_done(
    m: Machine,
    e: AndroidEmulator,
    found: Option<FileIO>,
    on_host: bool,
    m2: Machine,
    e2: AndroidEmulator,
) -> bool {
    let path = m.c_text(m.reg(RegisterARM64::X1) as int)->0;
    if path == "/data/misc/zoneinfo/current/tzdata"@ {
        m2 == e.refusal(m, Errno::ENOMEM) && e2 == e
    } else if path == "/dev/pmsg0"@ {
        m2 == e.refusal(m, Errno::EPERM) && e2 == e
    } else {
        let plan = open_plan(path, e.caller(m) == "libc.so"@, found, e.base_path@, on_host);
        let fd = m2.reg_i64(RegisterARM64::X0);
        &&& plan_done(
            e.file_system,
            e2.file_system,
            plan,
            path,
            m.reg_u32(RegisterARM64::X2) & O_KNOWN,
            fd as int,
            plan_errno(plan),
        )
        &&& m2 == e.errno_told(m.ret(fd as int), plan_errno(plan))
        &&& e2 == (AndroidEmulator { file_system: e2.file_system, ..e })
    }
}

/// Open the file whose path is at `X1`, with the flags in `X2`. `found` is what a
/// resolver found for it, and `on_host` whether the host has a file there.
pub fn syscall_openat(
    backend: &mut Backend,
    emulator: &mut AndroidEmulator,
    found: Option<FileIO>,
    on_host: bool,
)
    requires
        old(emulator).wf(),
        old(emulator).file_system.slots@.len() < i32::MAX,
        ({
            let m = old(backend)@;
            &&& m.c_text(m.reg(RegisterARM64::X1) as int) is Some
            &&& !begins_with(m.c_text(m.reg(RegisterARM64::X1) as int)->0, "/"@)
                ==> m.reg_i32(RegisterARM64::X0) == AT_FDCWD
        }),
        found matches Some(f) ==> {
            &&& !(f is LocalSocket)
            &&& f matches FileIO::Error(n) ==> n > i32::MIN
            &&& f matches FileIO::Dynamic(DynamicIO::Pipe(p)) ==> p.pipe < old(emulator).file_system.pipes.pipes@.len()
        },
    ensures
        final(emulator).wf(),
        openat_done(
            old(backend)@,
            *old(emulator),
            found,
            on_host,
            final(backend)@,
            *final(emulator),
        ),
{
    let path = backend.mem_read_c_string(backend.reg_read(RegisterARM64::X1)).unwrap();
    let flags: u32 = backend.reg_read_u32(RegisterARM64::X2) & O_KNOWN;
    if str_eq(path.as_str(), "/data/misc/zoneinfo/current/tzdata") {
        refuse(backend, emulator, Errno::ENOMEM);
        return ;
    }
    if str_eq(path.as_str(), "/dev/pmsg0") {
        refuse(backend, emulator, Errno::EPERM);
        return ;
    }
    let from_libc = emulator.called_from_libc(backend);
    let (fd, errno) = open(
        &mut emulator.file_system,
        path.as_str(),
        flags,
        from_libc,
        found,
        emulator.base_path.as_str(),
        on_host,
    );
    proof {
        backend.reg_slots();
    }
    backend.reg_write_i64(RegisterARM64::X0, fd as i64);
    emulator.set_errno(backend, errno);
}

/// The device of this kind stands behind a descriptor, under the path and the flags that it
/// was opened with.
pub open spec fn device_behind(
    fs: FileSystem,
    fd: int,
    kind: DeviceKind,
    path: Seq<char>,
    flags: u32,
) -> bool {
    0 <= fd < fs.slots@.len() && match fs.slots@[fd] {
        Some(FileIO::Dynamic(DynamicIO::Device(d))) => d.kind == kind && d.path@ == path && d.oflags
            == flags && d.mode == 0o100644,
        _ => false,
    }
}

/// A made-up file with these bytes stands behind a descriptor.
pub open spec fn bytes_behind(fs: FileSystem, fd: int, bytes: Seq<u8>) -> bool {
    0 <= fd < fs.slots@.len() && match fs.slots@[fd] {
        Some(FileIO::Bytes(f)) => f.bytes@ == bytes,
        _ => false,
    }
}

/// The paths that opening treats on their own are all different.
proof fn lemma_paths_differ()
    ensures
        "/dev/__properties__"@.len() == 19,
        "/dev/urandom"@.len() == 12,
        "/proc/meminfo"@.len() == 13,
        "/proc/cpuinfo"@.len() == 13,
        "/proc/meminfo"@[6] == 'm',
        "/proc/cpuinfo"@[6] == 'c',
        "/proc/sys/kernel/random/boot_id"@.len() == 31,
        "/proc/stat"@.len() == 10,
        "/proc/stat"@[1] == 'p',
        "/proc/self/maps"@.len() == 15,
        "/dev/null"@.len() == 9,
        "/data/misc/zoneinfo/current/tzdata"@.len() == 34,
        "/dev/pmsg0"@.len() == 10,
        "/dev/pmsg0"@[1] == 'd',
{
    reveal_strlit("/dev/__properties__");
    reveal_strlit("/dev/urandom");
    reveal_strlit("/proc/meminfo");
    reveal_strlit("/proc/cpuinfo");
    reveal_strlit("/proc/sys/kernel/random/boot_id");
    reveal_strlit("/proc/stat");
    reveal_strlit("/proc/self/maps");
    reveal_strlit("/dev/null");
    reveal_strlit("/data/misc/zoneinfo/current/tzdata");
    reveal_strlit("/dev/pmsg0");
}

/// What stands behind a descriptor after a path was opened, for each path that has a meaning
/// of its own. `/proc/cpuinfo` is the processor description, `/proc/meminfo` the memory
/// statistics, `/dev/urandom` the source of chance and
/// `/proc/sys/kernel/random/boot_id` the boot id, whatever a resolver found. The memory map
/// at `/proc/self/maps` and the empty file at `/dev/null` give way to what a resolver found.
/// The load statistics at `/proc/stat` are for the C library only; others are refused with
/// 1, as everyone is at `/dev/__properties__`.
pub proof fn law_special_paths(
    fs: FileSystem,
    fs2: FileSystem,
    path: Seq<char>,
    from_libc: bool,
    found: Option<FileIO>,
    base: Seq<char>,
    on_host: bool,
    flags: u32,
    fd: int,
    errno: int,
)
    requires
        plan_done(
            fs,
            fs2,
            open_plan(path, from_libc, found, base, on_host),
            path,
            flags,
            fd,
            errno,
        ),
    ensures
        path == "/dev/urandom"@ ==> errno == 0 && device_behind(
            fs2,
            fd,
            DeviceKind::URandom,
            path,
            flags,
        ),
        path == "/proc/meminfo"@ ==> errno == 0 && device_behind(
            fs2,
            fd,
            DeviceKind::Meminfo,
            path,
            flags,
        ),
        path == "/proc/cpuinfo"@ ==> errno == 0 && device_behind(
            fs2,
            fd,
            DeviceKind::Cpuinfo,
            path,
            flags,
        ),
        path == "/proc/sys/kernel/random/boot_id"@ ==> errno == 0 && device_behind(
            fs2,
            fd,
            DeviceKind::RandomBootId,
            path,
            flags,
        ),
        path == "/proc/self/maps"@ && found is None ==> errno == 0 && device_behind(
            fs2,
            fd,
            DeviceKind::Maps,
            path,
            flags,
        ),
        path == "/dev/null"@ && found is None ==> errno == 0 && bytes_behind(
            fs2,
            fd,
            Seq::empty(),
        ),
        path == "/proc/stat"@ && from_libc ==> errno == 0 && bytes_behind(fs2, fd, stat_bytes(8)),
        path == "/proc/stat"@ && !from_libc ==> errno == 1 && fd == -1 && fs2 == fs,
        path == "/dev/__properties__"@ ==> errno == 1 && fd == -1 && fs2 == fs,
{
    lemma_paths_differ();
}

/// What is opened for every other path, and for those that give way to a resolver. What a
/// resolver found stands behind the descriptor, or is the error that the call is refused
/// with. Else a path from the root that the host has is opened on the host, below the guest's
/// root directory. Else the call is refused with 2. A descriptor that is handed out was free,
/// is the lowest such, and no other descriptor changes; after a refusal none does.
#[verifier::rlimit(40)]
pub proof fn law_other_paths(
    fs: FileSystem,
    fs2: FileSystem,
    path: Seq<char>,
    from_libc: bool,
    found: Option<FileIO>,
    base: Seq<char>,
    on_host: bool,
    flags: u32,
    fd: int,
    errno: int,
    other: int,
)
    requires
        plan_done(
            fs,
            fs2,
            open_plan(path, from_libc, found, base, on_host),
            path,
            flags,
            fd,
            errno,
        ),
        path != "/dev/__properties__"@,
        path != "/dev/urandom"@,
        path != "/proc/meminfo"@,
        path != "/proc/cpuinfo"@,
        path != "/proc/sys/kernel/random/boot_id"@,
        path != "/proc/stat"@,
    ensures
        match found {
            Some(FileIO::Error(n)) => errno == n && fd == -n && fs2 == fs,
            Some(file) => errno == 0 && 0 <= fd < fs2.slots@.len() && fs2.slots@[fd] == Some(file),
            None => path != "/proc/self/maps"@ && path != "/dev/null"@ ==> if on_host && path.len()
                > 0 && path[0] == '/' {
                &&& errno == 0
                &&& 0 <= fd < fs2.slots@.len()
                &&& fs2.slots@[fd] matches Some(FileIO::File(f))
                &&& f.path@ == path
                &&& f.oflags == flags
                &&& f.mode == 0o100644
                &&& path.len() > 1 && path[1] != '/' && base.len() > 0 && base.last() != '/'
                    ==> f.host_path@ == base + path
                &&& path.len() > 1 && path[1] != '/' && base.len() > 0 && base.last() == '/'
                    ==> f.host_path@ == base.drop_last() + path
            } else {
                errno == 2 && fd == -2 && fs2 == fs
            },
        },
        !(found matches Some(FileIO::Error(_))) && errno == 0 ==> {
            &&& fd >= fs.slots@.len() || fs.slots@[fd] is None
            &&& forall|i: int| 0 <= i < fd ==> #[trigger] fs.slots@[i] is Some
            &&& 0 <= other < fs.slots@.len() && other != fd ==> other < fs2.slots@.len()
                && fs2.slots@[other] == fs.slots@[other]
            &&& fs2.pipes == fs.pipes
            &&& fs2.streams == fs.streams
        },
{
    lemma_paths_differ();
    reveal_strlit("/");
    if !(found matches Some(FileIO::Error(_))) && errno == 0 {
        if let Some(f) = fs2.file(fd) {
            crate::linux::file_system::law_insert_then_lookup(fs.slots@, f, other);
        }
    }
    if path.len() > 1 && path[0] == '/' && path[1] != '/' {
        let rest = path.skip(1);
        assert(rest[0] == path[1]);
        assert(without_slashes(rest) == rest);
        assert(without_slashes(path) == rest);
        assert("/"@ + rest =~= path);
        assert(base + "/"@ + rest =~= base + path);
        if base.len() > 0 {
            assert(finishes_with(base, "/"@) == (base.last() == '/')) by {
                assert(base.skip(base.len() - 1) =~= seq![base.last()]);
                assert("/"@ =~= seq!['/']);
                assert(seq![base.last()][0] == base.last());
                assert("/"@[0] == '/');
            }
            if base.last() == '/' {
                assert(base + rest =~= base.drop_last() + path);
            }
        }
    }
    assert(begins_with(path, "/"@) == (path.len() > 0 && path[0] == '/')) by {
        if path.len() > 0 {
            assert(path.take(1) =~= seq![path[0]]);
            assert("/"@ =~= seq!['/']);
            assert(seq![path[0]][0] == path[0]);
            assert("/"@[0] == '/');
        }
    }
}

/// A call to open a file reads its path at `X1` and its flags in `X2`, and gives the guest
/// the descriptor, or a negative error number. The same paths lead to the same files as for
/// [`open`]; two more are refused: the time zone data with 12, and the crash log with 1.
pub proof fn law_openat(
    b: Backend,
    e: AndroidEmulator,
    found: Option<FileIO>,
    on_host: bool,
    m2: Machine,
    e2: AndroidEmulator,
)
    requires
        openat_done(b@, e, found, on_host, m2, e2),
    ensures
        ({
            let m = b@;
            let path = m.c_text(m.reg(RegisterARM64::X1) as int)->0;
            let flags = (m.reg(RegisterARM64::X2) % 0x1_0000_0000) as u32 & O_KNOWN;
            let fd = m2.reg_i64(RegisterARM64::X0) as int;
            let fs = e.file_system;
            let fs2 = e2.file_system;
            &&& path == "/data/misc/zoneinfo/current/tzdata"@ ==> fd == -12 && e2 == e
            &&& path == "/dev/pmsg0"@ ==> fd == -1 && e2 == e
            &&& path == "/dev/urandom"@ ==> device_behind(
                fs2,
                fd,
                DeviceKind::URandom,
                path,
                flags,
            )
            &&& path == "/proc/meminfo"@ ==> device_behind(
                fs2,
                fd,
                DeviceKind::Meminfo,
                path,
                flags,
            )
            &&& path == "/proc/cpuinfo"@ ==> device_behind(
                fs2,
                fd,
                DeviceKind::Cpuinfo,
                path,
                flags,
            )
            &&& path == "/proc/sys/kernel/random/boot_id"@ ==> device_behind(
                fs2,
                fd,
                DeviceKind::RandomBootId,
                path,
                flags,
            )
            &&& path == "/proc/self/maps"@ && found is None ==> device_behind(
                fs2,
                fd,
                DeviceKind::Maps,
                path,
                flags,
            )
            &&& path == "/dev/__properties__"@ ==> fd == -1 && fs2 == fs
        }),
{
    lemma_paths_differ();
    crate::emulator::state::law_refusal(b, e, Errno::ENOMEM);
    crate::emulator::state::law_refusal(b, e, Errno::EPERM);
}

/// A guest path stays below the directory that it is looked for in: what comes out begins with
/// the directory, and goes on, after one slash, with the path without the slashes in front.
pub proof fn law_host_paths(base: Seq<char>, path: Seq<char>)
    ensures
        ({
            let r = under_base(base, path);
            let rest = without_slashes(path);
            let k = path.len() - rest.len();
            &&& rest.len() == 0 || rest[0] != '/'
            &&& 0 <= k <= path.len()
            &&& rest == path.skip(k)
            &&& forall|i: int| 0 <= i < k ==> #[trigger] path[i] == '/'
            &&& r.len() >= base.len() && r.take(base.len() as int) == base
            &&& base.len() == 0 ==> r == rest
            &&& base.len() > 0 && base.last() == '/' ==> r == base + rest
            &&& base.len() > 0 && base.last() != '/' ==> r == base.push('/') + rest
        }),
    decreases path.len(),
{
    lemma_without_slashes(path);
    reveal_strlit("/");
    let rest = without_slashes(path);
    let r = under_base(base, path);
    assert(r.take(base.len() as int) =~= base);
    if base.len() > 0 {
        let tail = base.skip(base.len() - 1);
        assert(tail.len() == 1 && tail[0] == base.last());
        if base.last() == '/' {
            assert(tail =~= "/"@);
        } else {
            assert(tail[0] != "/"@[0]);
            assert(base + "/"@ =~= base.push('/'));
        }
    }
}

proof fn lemma_without_slashes(path: Seq<char>)
    ensures
        ({
            let rest = without_slashes(path);
            let k = path.len() - rest.len();
            &&& rest.len() == 0 || rest[0] != '/'
            &&& 0 <= k <= path.len()
            &&& rest == path.skip(k)
            &&& forall|i: int| 0 <= i < k ==> #[trigger] path[i] == '/'
        }),
    decreases path.len(),
{
    if path.len() > 0 && path[0] == '/' {
        let inner = path.skip(1);
        lemma_without_slashes(inner);
        let rest = without_slashes(path);
        let k = path.len() - rest.len();
        assert(rest =~= path.skip(k)) by {
            assert(inner.skip(k - 1) =~= path.skip(k));
        }
        assert forall|i: int| 0 <= i < k implies #[trigger] path[i] == '/' by {
            if i > 0 {
                assert(inner[i - 1] == path[i]);
            }
        }
    } else {
        assert(path.skip(0) =~= path);
    }
}

/// The load statistics are one line for all processors and one for each of eight, numbered
/// from zero in their order.
pub proof fn law_load_statistics(i: int)
    requires
        0 <= i < 8,
    ensures
        stat_bytes(8).len() == 381,
        stat_bytes(8).subrange(0, 45) == encode_utf8(
            "cpu 9160 11352 15848 9160 11352 1584 80 0 0 0"@,
        ),
        stat_bytes(8).subrange(45 + 42 * i, 87 + 42 * i) == encode_utf8(
            "cpu"@ + seq![(48 + i) as char] + " 1145 1419 1981 1145 1419 198 10 0 0 0"@,
        ),
{
    lemma_stat_part(0, 8);
    lemma_stat_part(i, 8);
    crate::text::law_hex_digits(i);
}

proof fn lemma_stat_part(i: int, n: int)
    requires
        0 <= i < 8,
        0 <= n <= 8,
    ensures
        stat_bytes(n).len() == 45 + 42 * n,
        stat_bytes(n).subrange(0, 45) == encode_utf8(STAT_TOTAL@),
        i < n ==> stat_bytes(n).subrange(45 + 42 * i, 87 + 42 * i) == encode_utf8(stat_line(i)),
    decreases n,
{
    reveal_strlit("cpu 9160 11352 15848 9160 11352 1584 80 0 0 0");
    assert(is_ascii_chars(STAT_TOTAL@));
    is_ascii_chars_encode_utf8(STAT_TOTAL@);
    if n > 0 {
        lemma_stat_part(i, n - 1);
        lemma_stat_line(n - 1);
        let before = stat_bytes(n - 1);
        let all = stat_bytes(n);
        assert(all.subrange(0, 45) =~= before.subrange(0, 45));
        if i < n - 1 {
            assert(all.subrange(45 + 42 * i, 87 + 42 * i) =~= before.subrange(
                45 + 42 * i,
                87 + 42 * i,
            ));
        } else if i == n - 1 {
            assert(all.subrange(45 + 42 * i, 87 + 42 * i) =~= encode_utf8(stat_line(i)));
        }
    } else {
        assert(stat_bytes(0).subrange(0, 45) =~= encode_utf8(STAT_TOTAL@));
    }
}

} // verus!
