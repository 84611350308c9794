//! System calls on open files. Where a driver outside the runtime keeps a file, its
//! answer comes as an argument.
use vstd::prelude::*;
use crate::backend::{Backend, Machine, RegisterARM64};
use crate::emulator::state::{refuse, AndroidEmulator};
use crate::le::{le_i32, put_le_i32};
use crate::linux::errno::Errno;
use crate::linux::file_system::{
    inserted, is_driven, lemma_written_view, lowest_free, mode_of, oflags_of, write_result, written,
    DynamicIO, FileIO, FileSystem, FsView, SeekResult, O_RDONLY, O_WRONLY, S_IRGRP, S_IROTH,
    S_IRUSR, S_IWGRP, S_IWOTH, S_IWUSR,
};
use crate::linux::pipe::{Pipe, PipeIO};
use crate::linux::stdio::stream_seek;
use crate::linux::syscalls::open::AT_FDCWD;
use crate::linux::syscalls::threads::word_or_zero;
use crate::num::{from_bits_i32, i32_of_bits, low32, min_int, sign_extend, to_bits_i64, to_low32};
use crate::text::{begins_with, starts_with};

verus! {

/// The descriptor in `X0`.
pub open spec fn fd_of(m: Machine) -> i32 {
    m.reg_i32(RegisterARM64::X0)
}

/// The file behind the descriptor in `X0`.
pub open spec fn file_of(m: Machine, e: AndroidEmulator) -> Option<FileIO> {
    e.file_system.file(fd_of(m) as int)
}

/// Someone may write to the file.
pub open spec fn may_write(file: FileIO) -> bool {
    mode_of(file) & S_IWUSR != 0 || mode_of(file) & S_IWOTH != 0 || mode_of(file) & S_IWGRP != 0
}

/// Someone may read from the file.
pub open spec fn may_read(file: FileIO) -> bool {
    mode_of(file) & S_IRUSR != 0 || mode_of(file) & S_IROTH != 0 || mode_of(file) & S_IRGRP != 0
}

/// The C library may write to and read from all files.
pub open spec fn from_libc(m: Machine, e: AndroidEmulator) -> bool {
    e.caller(m) == "libc.so"@
}

/// The call is refused and nothing else happens.
pub open spec fn refused(
    m: Machine,
    e: AndroidEmulator,
    m2: Machine,
    e2: AndroidEmulator,
    errno: Errno,
) -> bool {
    m2 == e.refusal(m, errno) && e2 == e
}

/// Why a write is refused before anything is written, if it is.
pub open spec fn write_refusal(m: Machine, e: AndroidEmulator) -> Option<Errno> {
    match file_of(m, e) {
        None => Some(Errno::EBADF),
        Some(FileIO::Error(_)) => Some(Errno::EBADF),
        Some(file) => if !may_write(file) && !from_libc(m, e) {
            Some(Errno::EACCES)
        } else {
            None
        },
    }
}

/// What a write does. Where a driver keeps the file, `driver` is its answer.
pub open spec fn write_done(
    m: Machine,
    e: AndroidEmulator,
    driver: i32,
    m2: Machine,
    e2: AndroidEmulator,
) -> bool {
    match write_refusal(m, e) {
        Some(errno) => refused(m, e, m2, e2, errno),
        None => {
            let file = file_of(m, e)->0;
            let data = m.read(
                m.reg(RegisterARM64::X1) as int,
                sign_extend(m.reg_i32(RegisterARM64::X2)) as nat,
            );
            let n = write_result(file, data, driver);
            &&& written(e.file_system, e2.file_system, file, data)
            &&& if n == -1 {
                m2 == e.refusal(m, Errno::EACCES)
            } else {
                m2 == m.set_reg(RegisterARM64::X0, sign_extend(n))
            }
            &&& e2 == (AndroidEmulator { file_system: e2.file_system, ..e })
        },
    }
}

/// Write `X2` bytes at `X1` to the file `X0`.
pub fn syscall_write(backend: &mut Backend, emulator: &mut AndroidEmulator, driver: i32)
    requires
        old(emulator).wf(),
        !(file_of(old(backend)@, *old(emulator)) matches Some(FileIO::Direction(_))),
        write_refusal(old(backend)@, *old(emulator)) is None ==> old(backend)@.mapped(
            old(backend)@.reg(RegisterARM64::X1) as int,
            sign_extend(old(backend)@.reg_i32(RegisterARM64::X2)) as int,
        ),
    ensures
        final(emulator).wf(),
        write_done(old(backend)@, *old(emulator), driver, final(backend)@, *final(emulator)),
{
    let fd: i32 = backend.reg_read_i32(RegisterARM64::X0);
    let buf: u64 = backend.reg_read(RegisterARM64::X1);
    let count: u64 = to_bits_i64(backend.reg_read_i32(RegisterARM64::X2) as i64);
    let libc = emulator.called_from_libc(backend);
    let refusal = match emulator.file_system.get_file(fd) {
        None => Some(Errno::EBADF),
        Some(FileIO::Error(_)) => Some(Errno::EBADF),
        Some(file) => {
            let mode: u32 = file.st_mode();
            if !(mode & S_IWUSR != 0 || mode & S_IWOTH != 0 || mode & S_IWGRP != 0) && !libc {
                Some(Errno::EACCES)
            } else {
                None
            }
        },
    };
    if let Some(errno) = refusal {
        refuse(backend, emulator, errno);
        return ;
    }
    let data = backend.mem_read_as_vec(buf, count).unwrap();
    let n: i32 = emulator.file_system.write_file(fd, data.as_slice(), driver);
    if n == -1 {
        refuse(backend, emulator, Errno::EACCES);
        return ;
    }
    backend.reg_write_i64(RegisterARM64::X0, n as i64);
}

/// What a driver has to store before a write goes on, if the file is a driver's.
pub fn write_request(backend: &Backend, emulator: &AndroidEmulator) -> (r: Option<(i32, Vec<u8>)>)
    requires
        emulator.wf(),
    ensures
        match r {
            Some((fd, data)) => {
                &&& fd == fd_of(backend@)
                &&& write_refusal(backend@, *emulator) is None
                &&& is_driven(file_of(backend@, *emulator)->0)
                &&& data@ == backend@.read(
                    backend@.reg(RegisterARM64::X1) as int,
                    sign_extend(backend@.reg_i32(RegisterARM64::X2)) as nat,
                )
            },
            None => {
                ||| write_refusal(backend@, *emulator) is Some
                ||| !is_driven(file_of(backend@, *emulator)->0)
                ||| !backend@.mapped(
                    backend@.reg(RegisterARM64::X1) as int,
                    sign_extend(backend@.reg_i32(RegisterARM64::X2)) as int,
                )
            },
        },
{
    let fd: i32 = backend.reg_read_i32(RegisterARM64::X0);
    let libc = emulator.called_from_libc(backend);
    match emulator.file_system.get_file(fd) {
        None => {
            return None;
        },
        Some(FileIO::Error(_)) => {
            return None;
        },
        Some(file) => {
            let mode: u32 = file.st_mode();
            if !(mode & S_IWUSR != 0 || mode & S_IWOTH != 0 || mode & S_IWGRP != 0) && !libc {
                return None;
            }
            if !file.driven() {
                return None;
            }
        },
    }
    let buf: u64 = backend.reg_read(RegisterARM64::X1);
    let count: u64 = to_bits_i64(backend.reg_read_i32(RegisterARM64::X2) as i64);
    match backend.mem_read_as_vec(buf, count) {
        Ok(data) => Some((fd, data)),
        Err(_) => None,
    }
}

/// Why a read is refused, if it is.
pub open spec fn read_refusal(m: Machine, e: AndroidEmulator) -> Option<Errno> {
    match file_of(m, e) {
        None => Some(Errno::EBADF),
        Some(FileIO::Error(_)) => Some(Errno::EBADF),
        Some(file) => if !may_read(file) && !from_libc(m, e) {
            Some(Errno::EACCES)
        } else {
            None
        },
    }
}

/// What a driver has to read before a read goes on, if the file is a driver's: the
/// descriptor and the most bytes.
pub fn read_request(backend: &Backend, emulator: &AndroidEmulator) -> (r: Option<(i32, u64)>)
    requires
        emulator.wf(),
    ensures
        match r {
            Some((fd, count)) => {
                &&& fd == fd_of(backend@)
                &&& count == sign_extend(backend@.reg_i32(RegisterARM64::X2))
                &&& read_refusal(backend@, *emulator) is None
                &&& is_driven(file_of(backend@, *emulator)->0)
            },
            None => read_refusal(backend@, *emulator) is Some || !is_driven(
                file_of(backend@, *emulator)->0,
            ),
        },
{
    let fd: i32 = backend.reg_read_i32(RegisterARM64::X0);
    let count: u64 = to_bits_i64(backend.reg_read_i32(RegisterARM64::X2) as i64);
    let libc = emulator.called_from_libc(backend);
    match emulator.file_system.get_file(fd) {
        None => None,
        Some(FileIO::Error(_)) => None,
        Some(file) => {
            let mode: u32 = file.st_mode();
            if !(mode & S_IRUSR != 0 || mode & S_IROTH != 0 || mode & S_IRGRP != 0) && !libc {
                return None;
            }
            if file.driven() {
                Some((fd, count))
            } else {
                None
            }
        },
    }
}

/// The bytes that a read of at most `count` from an open file gives: from a pipe's
/// reading end what is unread, from a driver's file what the driver read.
pub open spec fn read_bytes(fs: FileSystem, file: FileIO, count: int, driver: Seq<u8>) -> Seq<u8> {
    match file {
        FileIO::Dynamic(DynamicIO::Pipe(p)) => if p.writer {
            Seq::empty()
        } else {
            let unread = fs.pipes.pipes@[p.pipe as int].unread();
            unread.take(min_int(count, unread.len() as int))
        },
        _ => if is_driven(file) {
            driver.take(min_int(count, driver.len() as int))
        } else {
            Seq::empty()
        },
    }
}

/// The pipes after that read.
pub open spec fn pipes_after_read(fs: FileSystem, file: FileIO, n: int) -> Seq<Pipe> {
    match file {
        FileIO::Dynamic(DynamicIO::Pipe(p)) => if p.writer {
            fs.pipes.pipes@
        } else {
            fs.pipes.pipes@.update(
                p.pipe as int,
                fs.pipes.pipes@[p.pipe as int].advanced(n),
            )
        },
        _ => fs.pipes.pipes@,
    }
}

/// What a read does. Where a driver keeps the file, `driver` is what it read.
pub open spec fn read_done(
    m: Machine,
    e: AndroidEmulator,
    driver: Seq<u8>,
    m2: Machine,
    e2: AndroidEmulator,
) -> bool {
    match read_refusal(m, e) {
        Some(errno) => refused(m, e, m2, e2, errno),
        None => {
            let file = file_of(m, e)->0;
            let data = read_bytes(
                e.file_system,
                file,
                sign_extend(m.reg_i32(RegisterARM64::X2)) as int,
                driver,
            );
            &&& m2 == m.try_write(m.reg(RegisterARM64::X1) as int, data).set_reg(
                RegisterARM64::X0,
                data.len() as u64,
            )
            &&& e2.file_system.pipes.pipes@ == pipes_after_read(
                e.file_system,
                file,
                data.len() as int,
            )
            &&& e2 == (AndroidEmulator {
                file_system: FileSystem { pipes: e2.file_system.pipes, ..e.file_system },
                ..e
            })
        },
    }
}

/// Read at most `X2` bytes from the file `X0` to `X1`.
pub fn syscall_read(backend: &mut Backend, emulator: &mut AndroidEmulator, driver: &[u8])
    requires
        old(emulator).wf(),
        file_of(old(backend)@, *old(emulator)) matches Some(FileIO::Direction(_)) ==> read_refusal(
            old(backend)@,
            *old(emulator),
        ) is Some,
    ensures
        final(emulator).wf(),
        read_done(old(backend)@, *old(emulator), driver@, final(backend)@, *final(emulator)),
{
    let fd: i32 = backend.reg_read_i32(RegisterARM64::X0);
    let buf: u64 = backend.reg_read(RegisterARM64::X1);
    let count: u64 = to_bits_i64(backend.reg_read_i32(RegisterARM64::X2) as i64);
    let libc = emulator.called_from_libc(backend);
    let refusal = match emulator.file_system.get_file(fd) {
        None => Some(Errno::EBADF),
        Some(FileIO::Error(_)) => Some(Errno::EBADF),
        Some(file) => {
            let mode: u32 = file.st_mode();
            if !(mode & S_IRUSR != 0 || mode & S_IROTH != 0 || mode & S_IRGRP != 0) && !libc {
                Some(Errno::EACCES)
            } else {
                None
            }
        },
    };
    if let Some(errno) = refusal {
        refuse(backend, emulator, errno);
        return ;
    }
    let n: u64 = emulator.file_system.read_file(fd, backend, buf, count, driver);
    proof {
        let data = read_bytes(
            old(emulator).file_system,
            file_of(old(backend)@, *old(emulator))->0,
            count as int,
            driver@,
        );
        assert(data.len() == n);
        if data.len() == 0 {
            assert(old(backend)@.write(buf as int, data) =~= old(backend)@);
        }
    }
    backend.reg_write(RegisterARM64::X0, n);
}

/// How far a gathered write has come: the file system, the bytes accepted, and why it
/// stopped, if it did.
#[verifier::ext_equal]
pub struct WritevRun {
    pub v: FsView,
    pub total: int,
    pub stopped: Option<Errno>,
}

/// The bytes of part `i` of a gathered write: at most a megabyte, and none where they
/// cannot be read.
pub open spec fn iov_bytes(m: Machine, iov: int, i: int) -> Seq<u8> {
    let base = word_or_zero(m, iov + 16 * i);
    let len = iov_len(m, iov, i);
    if m.mapped(base as int, len) {
        m.read(base as int, len as nat)
    } else {
        Seq::empty()
    }
}

/// The length of part `i`.
pub open spec fn iov_len(m: Machine, iov: int, i: int) -> int {
    min_int(word_or_zero(m, iov + 16 * i + 8) as int, 0x10_0000)
}

/// The first `n` parts of a gathered write. `drivers` holds what a driver answered to
/// each part.
pub open spec fn writev_run(
    m: Machine,
    v: FsView,
    fd: int,
    iov: int,
    drivers: Seq<i32>,
    n: int,
) -> WritevRun
    decreases n,
{
    if n <= 0 {
        WritevRun { v, total: 0, stopped: None }
    } else {
        let before = writev_run(m, v, fd, iov, drivers, n - 1);
        if before.stopped is Some || iov_len(m, iov, n - 1) == 0 {
            before
        } else {
            let data = iov_bytes(m, iov, n - 1);
            match crate::linux::file_system::file_at(before.v.slots, fd) {
                None => WritevRun { stopped: Some(Errno::EBADF), ..before },
                Some(FileIO::Direction(_)) => WritevRun {
                    stopped: Some(Errno::EBADF),
                    ..before
                },
                Some(FileIO::Error(_)) => WritevRun { stopped: Some(Errno::EBADF), ..before },
                Some(file) => {
                    let count = write_result(file, data, drivers[n - 1]);
                    let after = before.v.append(file, data);
                    if count < 0 {
                        WritevRun { v: after, stopped: Some(Errno::EACCES), ..before }
                    } else {
                        WritevRun { v: after, total: before.total + count, ..before }
                    }
                },
            }
        }
    }
}

proof fn lemma_writev_stuck(
    m: Machine,
    v: FsView,
    fd: int,
    iov: int,
    drivers: Seq<i32>,
    n: int,
    total: int,
)
    requires
        0 <= n <= total,
        writev_run(m, v, fd, iov, drivers, n).stopped is Some,
    ensures
        writev_run(m, v, fd, iov, drivers, total) == writev_run(m, v, fd, iov, drivers, n),
    decreases total - n,
{
    if n < total {
        lemma_writev_stuck(m, v, fd, iov, drivers, n + 1, total);
    }
}

fn read_word(backend: &Backend, addr: u64) -> (r: u64)
    ensures
        r == word_or_zero(backend@, addr as int),
{
    match backend.mem_read_u64(addr) {
        Ok(v) => v,
        Err(_) => 0,
    }
}

/// What a driver has to store as part `i` of a gathered write, if the file is a driver's
/// and the part is not empty. Its answer goes to [`syscall_writev`]; after an answer
/// below zero nothing more is stored.
pub fn writev_request(backend: &Backend, emulator: &AndroidEmulator, i: usize) -> (r: Option<
    (i32, Vec<u8>),
>)
    requires
        backend@.reg(RegisterARM64::X1) + 16 * i + 8 <= u64::MAX,
    ensures
        ({
            let m = backend@;
            let iov = m.reg(RegisterARM64::X1) as int;
            match r {
                Some((fd, data)) => {
                    &&& fd == fd_of(m)
                    &&& file_of(m, *emulator) matches Some(file) && is_driven(file)
                    &&& iov_len(m, iov, i as int) != 0
                    &&& data@ == iov_bytes(m, iov, i as int)
                },
                None => {
                    ||| file_of(m, *emulator) is None
                    ||| !is_driven(file_of(m, *emulator)->0)
                    ||| iov_len(m, iov, i as int) == 0
                },
            }
        }),
{
    let fd: i32 = backend.reg_read_i32(RegisterARM64::X0);
    match emulator.file_system.get_file(fd) {
        None => {
            return None;
        },
        Some(file) => {
            if !file.driven() {
                return None;
            }
        },
    }
    let at: u64 = backend.reg_read(RegisterARM64::X1) + 16 * i as u64;
    let len: u64 = part_len(backend, at);
    if len == 0 {
        return None;
    }
    Some((fd, part_bytes(backend, at, len)))
}

/// The length of the part whose entry in the table stands at `at`.
fn part_len(backend: &Backend, at: u64) -> (len: u64)
    requires
        at + 8 <= u64::MAX,
    ensures
        len == min_int(word_or_zero(backend@, at + 8) as int, 0x10_0000),
{
    let wanted: u64 = read_word(backend, at + 8);
    if wanted < 0x10_0000 {
        wanted
    } else {
        0x10_0000
    }
}

/// The bytes of the part whose entry stands at `at`; none where they cannot be read.
fn part_bytes(backend: &Backend, at: u64, len: u64) -> (data: Vec<u8>)
    ensures
        ({
            let base = word_or_zero(backend@, at as int);
            data@ == if backend@.mapped(base as int, len as int) {
                backend@.read(base as int, len as nat)
            } else {
                Seq::<u8>::empty()
            }
        }),
{
    let base: u64 = read_word(backend, at);
    match backend.mem_read_as_vec(base, len) {
        Ok(d) => d,
        Err(_) => Vec::new(),
    }
}

/// What a gathered write does.
pub open spec fn writev_done(
    m: Machine,
    e: AndroidEmulator,
    drivers: Seq<i32>,
    m2: Machine,
    e2: AndroidEmulator,
) -> bool {
    let n = m.reg_i32(RegisterARM64::X2) as int;
    if n < 0 || n > 1024 {
        refused(m, e, m2, e2, Errno::EINVAL)
    } else {
        let run = writev_run(
            m,
            e.file_system@,
            fd_of(m) as int,
            m.reg(RegisterARM64::X1) as int,
            drivers,
            n,
        );
        &&& e2.file_system@ == run.v
        &&& match run.stopped {
            Some(errno) => m2 == e.refusal(m, errno),
            None => m2 == m.ret(i32_of_bits(low32(run.total as u64)) as int),
        }
        &&& e2 == (AndroidEmulator { file_system: e2.file_system, ..e })
    }
}

/// Write the `X2` parts that the table at `X1` lists to the file `X0`. `drivers` holds what
/// a driver answered to each part that [`writev_request`] gives for it.
pub fn syscall_writev(backend: &mut Backend, emulator: &mut AndroidEmulator, drivers: &[i32])
    requires
        old(emulator).wf(),
        0 < old(backend)@.reg_i32(RegisterARM64::X2) <= 1024 ==> {
            &&& old(backend)@.reg(RegisterARM64::X1) + 16 * (old(backend)@.reg_i32(
                RegisterARM64::X2,
            ) - 1) + 8 <= u64::MAX
            &&& drivers@.len() >= old(backend)@.reg_i32(RegisterARM64::X2)
        },
    ensures
        final(emulator).wf(),
        writev_done(old(backend)@, *old(emulator), drivers@, final(backend)@, *final(emulator)),
{
    let fd: i32 = backend.reg_read_i32(RegisterARM64::X0);
    let iov: u64 = backend.reg_read(RegisterARM64::X1);
    let iovcnt: i32 = backend.reg_read_i32(RegisterARM64::X2);
    if iovcnt < 0 || iovcnt > 1024 {
        refuse(backend, emulator, Errno::EINVAL);
        return ;
    }
    let n: usize = iovcnt as usize;
    let ghost v = emulator.file_system@;
    let ghost m = backend@;
    let mut total: u64 = 0;
    let mut i: usize = 0;
    while i < n
        invariant
            i <= n,
            n == iovcnt,
            n <= 1024,
            m == old(backend)@,
            backend@ == m,
            iov == m.reg(RegisterARM64::X1),
            fd == fd_of(m),
            n == m.reg_i32(RegisterARM64::X2),
            n > 0 ==> iov + 16 * (n - 1) + 8 <= u64::MAX,
            drivers@.len() >= n,
            old(emulator).wf(),
            emulator.wf(),
            v == old(emulator).file_system@,
            emulator.file_system.pipes.pipes@.len() == old(emulator).file_system.pipes.pipes@.len(),
            emulator.file_system.slots == old(emulator).file_system.slots,
            *emulator == (AndroidEmulator {
                file_system: emulator.file_system,
                ..*old(emulator)
            }),
            total <= i * 0x8000_0000,
            writev_run(m, v, fd as int, iov as int, drivers@, i as int) == (WritevRun {
                v: emulator.file_system@,
                total: total as int,
                stopped: None,
            }),
        decreases n - i,
    {
        let ghost next = writev_run(m, v, fd as int, iov as int, drivers@, i + 1);
        proof {
            if next.stopped is Some {
                lemma_writev_stuck(m, v, fd as int, iov as int, drivers@, i + 1, n as int);
            }
        }
        let at: u64 = iov + 16 * i as u64;
        let len: u64 = part_len(backend, at);
        if len != 0 {
            let data = part_bytes(backend, at, len);
            assert(data@ =~= iov_bytes(m, iov as int, i as int));
            let open = match emulator.file_system.get_file(fd) {
                None => false,
                Some(FileIO::Direction(_)) => false,
                Some(FileIO::Error(_)) => false,
                Some(_) => true,
            };
            if !open {
                refuse(backend, emulator, Errno::EBADF);
                return ;
            }
            let ghost file = emulator.file_system.file(fd as int)->0;
            let ghost before = emulator.file_system;
            let count: i32 = emulator.file_system.write_file(fd, data.as_slice(), drivers[i]);
            proof {
                assert(file matches FileIO::Dynamic(DynamicIO::Pipe(p)) ==> p.pipe
                    < before.pipes.pipes@.len());
                lemma_written_view(before, emulator.file_system, file, data@);
                lemma_written_pipes(before, emulator.file_system, file, data@);
                lemma_fs_keeps_wf(*old(emulator), *emulator);
            }
            if count < 0 {
                refuse(backend, emulator, Errno::EACCES);
                return ;
            }
            total = total + count as u64;
        }
        i = i + 1;
    }
    backend.reg_write_i64(RegisterARM64::X0, from_bits_i32(to_low32(total)) as i64);
}

/// A write makes no pipe and takes none away.
pub proof fn lemma_written_pipes(before: FileSystem, after: FileSystem, file: FileIO, data: Seq<u8>)
    requires
        written(before, after, file, data),
        file matches FileIO::Dynamic(DynamicIO::Pipe(p)) ==> p.pipe < before.pipes.pipes@.len(),
    ensures
        after.pipes.pipes@.len() == before.pipes.pipes@.len(),
{
}

/// A change to the file system that keeps its pipes keeps the process in order.
pub proof fn lemma_fs_keeps_wf(e: AndroidEmulator, e2: AndroidEmulator)
    requires
        e.wf(),
        e2.file_system.wf(),
        e2.file_system.pipes.pipes@.len() == e.file_system.pipes.pipes@.len(),
        e2.memory == e.memory,
        e2.thread_dispatcher == e.thread_dispatcher,
        e2.children == e.children,
    ensures
        e2.wf(),
{
}

/// What closing a descriptor does.
pub open spec fn close_done(
    m: Machine,
    e: AndroidEmulator,
    m2: Machine,
    e2: AndroidEmulator,
) -> bool {
    if file_of(m, e) is None {
        refused(m, e, m2, e2, Errno::EBADF)
    } else {
        &&& m2 == m.ret(0)
        &&& e2.file_system.slots@ == e.file_system.slots@.update(fd_of(m) as int, None)
        &&& e2 == (AndroidEmulator {
            file_system: FileSystem { slots: e2.file_system.slots, ..e.file_system },
            ..e
        })
    }
}

/// Close the file `X0`.
pub fn syscall_close(backend: &mut Backend, emulator: &mut AndroidEmulator)
    requires
        old(emulator).wf(),
        !(file_of(old(backend)@, *old(emulator)) matches Some(FileIO::Error(_))),
    ensures
        final(emulator).wf(),
        close_done(old(backend)@, *old(emulator), final(backend)@, *final(emulator)),
{
    let fd: i32 = backend.reg_read_i32(RegisterARM64::X0);
    if fd < 0 || emulator.file_system.get_file(fd).is_none() {
        refuse(backend, emulator, Errno::EBADF);
        return ;
    }
    emulator.file_system.remove_file(fd);
    backend.reg_write_i64(RegisterARM64::X0, 0);
}

/// Where a seek on an open file ends up.
pub open spec fn seek_of(file: FileIO, offset: i64, whence: i32, driver: SeekResult) -> SeekResult {
    match file {
        FileIO::Dynamic(DynamicIO::Stdin(_)) => stream_seek(offset, whence),
        FileIO::Dynamic(DynamicIO::Stdout(_)) => stream_seek(offset, whence),
        FileIO::Dynamic(DynamicIO::Pipe(_)) => SeekResult::UnknownError,
        _ => driver,
    }
}

/// What a seek does.
pub open spec fn lseek_done(
    m: Machine,
    e: AndroidEmulator,
    driver: SeekResult,
    m2: Machine,
    e2: AndroidEmulator,
) -> bool {
    match file_of(m, e) {
        None => refused(m, e, m2, e2, Errno::EBADF),
        Some(file) => match seek_of(
            file,
            m.reg_i64(RegisterARM64::X1),
            m.reg_i32(RegisterARM64::X2),
            driver,
        ) {
            SeekResult::Pos(p) => m2 == m.ret(p as int) && e2 == e,
            SeekResult::WhenceError => refused(m, e, m2, e2, Errno::EINVAL),
            SeekResult::OffsetError => refused(m, e, m2, e2, Errno::ENXIO),
            SeekResult::UnknownError => refused(m, e, m2, e2, Errno::ESPIPE),
        },
    }
}

/// Move in the file `X0` by `X1`, in the way that `X2` says.
pub fn syscall_lseek(backend: &mut Backend, emulator: &mut AndroidEmulator, driver: SeekResult)
    requires
        file_of(old(backend)@, *old(emulator)) matches Some(f) ==> !(f is Error) && !(f is Direction)
            && !(f is LocalSocket),
    ensures
        lseek_done(old(backend)@, *old(emulator), driver, final(backend)@, *final(emulator)),
{
    let fd: i32 = backend.reg_read_i32(RegisterARM64::X0);
    let offset: i64 = backend.reg_read_i64(RegisterARM64::X1);
    let whence: i32 = backend.reg_read_i32(RegisterARM64::X2);
    let result = match emulator.file_system.get_file(fd) {
        None => {
            refuse(backend, emulator, Errno::EBADF);
            return ;
        },
        Some(FileIO::Dynamic(DynamicIO::Stdin(f))) => f.lseek(offset, whence),
        Some(FileIO::Dynamic(DynamicIO::Stdout(f))) => f.lseek(offset, whence),
        Some(FileIO::Dynamic(DynamicIO::Pipe(f))) => f.lseek(offset, whence),
        Some(_) => driver,
    };
    match result {
        SeekResult::Pos(p) => {
            backend.reg_write_i64(RegisterARM64::X0, p);
        },
        SeekResult::WhenceError => {
            refuse(backend, emulator, Errno::EINVAL);
        },
        SeekResult::OffsetError => {
            refuse(backend, emulator, Errno::ENXIO);
        },
        SeekResult::UnknownError => {
            refuse(backend, emulator, Errno::ESPIPE);
        },
    }
}

/// What describing an open file comes to.
pub open spec fn fstat_done(
    m: Machine,
    e: AndroidEmulator,
    stat: Seq<u8>,
    m2: Machine,
    e2: AndroidEmulator,
) -> bool {
    if file_of(m, e) is None {
        refused(m, e, m2, e2, Errno::EBADF)
    } else {
        m2 == m.try_write(m.reg(RegisterARM64::X1) as int, stat) && e2 == e
    }
}

/// Describe the file `X0` at `X1`. `stat` is the description.
pub fn syscall_fstat(backend: &mut Backend, emulator: &mut AndroidEmulator, stat: &[u8])
    requires
        file_of(old(backend)@, *old(emulator)) matches Some(f) ==> !(f is Error) && !(
        f is LocalSocket),
    ensures
        fstat_done(old(backend)@, *old(emulator), stat@, final(backend)@, *final(emulator)),
{
    let fd: i32 = backend.reg_read_i32(RegisterARM64::X0);
    let pointer: u64 = backend.reg_read(RegisterARM64::X1);
    if emulator.file_system.get_file(fd).is_some() {
        backend.mem_try_write(pointer, stat);
    } else {
        refuse(backend, emulator, Errno::EBADF);
    }
}

/// What a resolver says of a path that is to be described.
pub enum StatReply {
    /// There is no such file.
    Missing,
    /// The resolver gives this error number.
    Error(i32),
    /// The file's description.
    Stat(Vec<u8>),
}

/// What describing a file by its path comes to.
pub open spec fn fstatat_done(
    m: Machine,
    e: AndroidEmulator,
    reply: StatReply,
    m2: Machine,
    e2: AndroidEmulator,
) -> bool {
    let path = m.c_text(m.reg(RegisterARM64::X1) as int)->0;
    if !begins_with(path, "/"@) {
        refused(m, e, m2, e2, Errno::ENOENT)
    } else if fd_of(m) != AT_FDCWD {
        refused(m, e, m2, e2, Errno::EBADF)
    } else {
        match reply {
            StatReply::Missing => refused(m, e, m2, e2, Errno::ENOENT),
            StatReply::Error(errno) => {
                m2 == e.errno_told(m.ret(AT_FDCWD as int), errno as int) && e2 == e
            },
            StatReply::Stat(stat) => {
                m2 == m.try_write(m.reg(RegisterARM64::X2) as int, stat@) && e2 == e
            },
        }
    }
}

/// Describe the file whose path is at `X1`, at `X2`.
pub fn syscall_fstatat(backend: &mut Backend, emulator: &mut AndroidEmulator, reply: StatReply)
    requires
        old(backend)@.c_text(old(backend)@.reg(RegisterARM64::X1) as int) is Some,
    ensures
        fstatat_done(old(backend)@, *old(emulator), reply, final(backend)@, *final(emulator)),
{
    let fd: i32 = backend.reg_read_i32(RegisterARM64::X0);
    let path = backend.mem_read_c_string(backend.reg_read(RegisterARM64::X1)).unwrap();
    let pointer: u64 = backend.reg_read(RegisterARM64::X2);
    if !starts_with(path.as_str(), "/") {
        refuse(backend, emulator, Errno::ENOENT);
        return ;
    }
    if fd != AT_FDCWD {
        refuse(backend, emulator, Errno::EBADF);
        return ;
    }
    match reply {
        StatReply::Missing => {
            refuse(backend, emulator, Errno::ENOENT);
        },
        StatReply::Error(errno) => {
            backend.reg_write_i64(RegisterARM64::X0, fd as i64);
            emulator.set_errno(backend, errno);
        },
        StatReply::Stat(stat) => {
            backend.mem_try_write(pointer, stat.as_slice());
        },
    }
}

/// What listing a directory comes to.
pub open spec fn getdents64_done(
    m: Machine,
    e: AndroidEmulator,
    entries: Seq<u8>,
    n: i32,
    m2: Machine,
    e2: AndroidEmulator,
) -> bool {
    if file_of(m, e) is None {
        refused(m, e, m2, e2, Errno::EBADF)
    } else {
        &&& m2 == m.try_write(m.reg(RegisterARM64::X1) as int, entries).set_reg(
            RegisterARM64::X0,
            sign_extend(n),
        )
        &&& e2 == e
    }
}

/// List the directory `X0` at `X1`. `entries` is the part that fits in `X2` bytes, and
/// `n` what the call returns.
pub fn syscall_getdents64(
    backend: &mut Backend,
    emulator: &mut AndroidEmulator,
    entries: &[u8],
    n: i32,
)
    requires
        file_of(old(backend)@, *old(emulator)) matches Some(f) ==> f is Direction,
    ensures
        getdents64_done(
            old(backend)@,
            *old(emulator),
            entries@,
            n,
            final(backend)@,
            *final(emulator),
        ),
{
    let fd: i32 = backend.reg_read_i32(RegisterARM64::X0);
    let dirp: u64 = backend.reg_read(RegisterARM64::X1);
    if emulator.file_system.get_file(fd).is_some() {
        backend.mem_try_write(dirp, entries);
        backend.reg_write_i64(RegisterARM64::X0, n as i64);
    } else {
        refuse(backend, emulator, Errno::EBADF);
    }
}

/// The only protocol family that there is.
pub const PF_LOCAL: u32 = 1;

/// What making a socket comes to.
pub open spec fn socket_done(
    m: Machine,
    e: AndroidEmulator,
    m2: Machine,
    e2: AndroidEmulator,
) -> bool {
    if m.reg_u32(RegisterARM64::X0) == PF_LOCAL {
        &&& m2 == m.ret(lowest_free(e.file_system.slots@, 0))
        &&& e2.file_system.slots@ == inserted(e.file_system.slots@, FileIO::LocalSocket)
        &&& e2 == (AndroidEmulator {
            file_system: FileSystem { slots: e2.file_system.slots, ..e.file_system },
            ..e
        })
    } else {
        refused(m, e, m2, e2, Errno::EAFNOSUPPORT)
    }
}

/// Make a socket of family `X0`.
pub fn syscall_socket(backend: &mut Backend, emulator: &mut AndroidEmulator)
    requires
        old(emulator).wf(),
        old(emulator).file_system.slots@.len() < i32::MAX,
    ensures
        final(emulator).wf(),
        socket_done(old(backend)@, *old(emulator), final(backend)@, *final(emulator)),
{
    if backend.reg_read_u32(RegisterARM64::X0) == PF_LOCAL {
        let fd: i32 = emulator.file_system.insert_file(FileIO::LocalSocket);
        backend.reg_write_i64(RegisterARM64::X0, fd as i64);
        return ;
    }
    refuse(backend, emulator, Errno::EAFNOSUPPORT);
}

/// What connecting a socket comes to.
pub open spec fn connect_done(
    m: Machine,
    e: AndroidEmulator,
    reply: i32,
    m2: Machine,
    e2: AndroidEmulator,
) -> bool {
    if from_libc(m, e) {
        refused(m, e, m2, e2, Errno::EACCES)
    } else {
        match file_of(m, e) {
            None => refused(m, e, m2, e2, Errno::EBADF),
            Some(FileIO::LocalSocket) => m2 == m.ret(reply as int) && e2 == e,
            Some(_) => refused(m, e, m2, e2, Errno::ENOTSOCK),
        }
    }
}

/// Connect the socket `X0`; `reply` is what the socket's driver answered. The C
/// library may not connect.
pub fn syscall_connect(backend: &mut Backend, emulator: &mut AndroidEmulator, reply: i32)
    requires
        old(emulator).wf(),
    ensures
        final(emulator).wf(),
        connect_done(old(backend)@, *old(emulator), reply, final(backend)@, *final(emulator)),
{
    let fd: i32 = backend.reg_read_i32(RegisterARM64::X0);
    if emulator.called_from_libc(backend) {
        refuse(backend, emulator, Errno::EACCES);
        return ;
    }
    let errno = match emulator.file_system.get_file(fd) {
        None => Errno::EBADF,
        Some(FileIO::LocalSocket) => {
            backend.reg_write_i64(RegisterARM64::X0, reply as i64);
            return ;
        },
        Some(_) => Errno::ENOTSOCK,
    };
    refuse(backend, emulator, errno);
}

/// What making a pipe does.
pub open spec fn pipe2_done(
    m: Machine,
    e: AndroidEmulator,
    m2: Machine,
    e2: AndroidEmulator,
) -> bool {
    let fs = e.file_system;
    let fs2 = e2.file_system;
    let at = m.reg(RegisterARM64::X0) as int;
    let rfd = lowest_free(fs.slots@, 0);
    let reader = fs2.file(rfd);
    let wfd = lowest_free(inserted(fs.slots@, reader->0), 0);
    let writer = fs2.file(wfd);
    &&& m2 == m.try_write(at, le_i32(rfd as i32)).try_write(at + 4, le_i32(wfd as i32)).ret(0)
    &&& rfd != wfd
    &&& reader matches Some(FileIO::Dynamic(DynamicIO::Pipe(p))) && !p.writer && p.pipe
        == fs.pipes.pipes@.len() && p.path@ == "pipe:[r]"@ && p.oflags == O_RDONLY
    &&& writer matches Some(FileIO::Dynamic(DynamicIO::Pipe(p))) && p.writer && p.pipe
        == fs.pipes.pipes@.len() && p.path@ == "pipe:[w]"@ && p.oflags == O_WRONLY
    &&& fs2.slots@ == inserted(inserted(fs.slots@, reader->0), writer->0)
    &&& fs2.pipes.pipes@.len() == fs.pipes.pipes@.len() + 1
    &&& fs2.pipes.pipes@.drop_last() == fs.pipes.pipes@
    &&& fs2.pipes.pipes@.last().buf@ == Seq::<u8>::empty()
    &&& fs2.pipes.pipes@.last().read_pos == 0
    &&& e2 == (AndroidEmulator {
        file_system: FileSystem { slots: fs2.slots, pipes: fs2.pipes, ..fs },
        ..e
    })
}

/// Make a pipe and store its reading and its writing descriptor at `X0`.
pub fn syscall_pipe2(backend: &mut Backend, emulator: &mut AndroidEmulator)
    requires
        old(emulator).wf(),
        old(emulator).file_system.slots@.len() + 1 < i32::MAX,
        old(backend)@.reg(RegisterARM64::X0) + 4 <= u64::MAX,
    ensures
        final(emulator).wf(),
        pipe2_done(old(backend)@, *old(emulator), final(backend)@, *final(emulator)),
{
    let pipefd: u64 = backend.reg_read(RegisterARM64::X0);
    let (reader, writer) = PipeIO::pair(&mut emulator.file_system.pipes);
    proof {
        lemma_more_pipes(old(emulator).file_system, emulator.file_system);
    }
    let ghost slots = emulator.file_system.slots@;
    let rfd: i32 = emulator.file_system.insert_file(FileIO::Dynamic(DynamicIO::Pipe(reader)));
    let ghost with_reader = emulator.file_system.slots@;
    let wfd: i32 = emulator.file_system.insert_file(FileIO::Dynamic(DynamicIO::Pipe(writer)));
    proof {
        crate::linux::file_system::law_insert_then_lookup(
            with_reader,
            FileIO::Dynamic(DynamicIO::Pipe(writer)),
            rfd as int,
        );
        lemma_more_pipes_keep_wf(*old(emulator), *emulator);
    }
    let r = put_le_i32(rfd);
    backend.mem_try_write(pipefd, r.as_slice());
    let w = put_le_i32(wfd);
    backend.mem_try_write(pipefd + 4, w.as_slice());
    backend.reg_write_i64(RegisterARM64::X0, 0);
}

/// The table stays in order when there are more pipes.
proof fn lemma_more_pipes(fs: FileSystem, fs2: FileSystem)
    requires
        fs.wf(),
        fs2.slots == fs.slots,
        fs2.pipes.pipes@.len() >= fs.pipes.pipes@.len(),
    ensures
        fs2.wf(),
{
    let n = fs2.pipes.pipes@.len() as int;
    assert forall|i: int| 0 <= i < fs2.slots@.len() implies (#[trigger] fs2.slots@[i] matches Some(
        FileIO::Dynamic(DynamicIO::Pipe(p)),
    ) ==> p.pipe < n) by {
        assert(fs.slots@[i] matches Some(FileIO::Dynamic(DynamicIO::Pipe(p))) ==> p.pipe
            < fs.pipes.pipes@.len());
    }
}

/// The process stays in order when there are more pipes.
proof fn lemma_more_pipes_keep_wf(e: AndroidEmulator, e2: AndroidEmulator)
    requires
        e.wf(),
        e2.file_system.wf(),
        e2.file_system.pipes.pipes@.len() >= e.file_system.pipes.pipes@.len(),
        e2.memory == e.memory,
        e2.thread_dispatcher == e.thread_dispatcher,
        e2.children == e.children,
    ensures
        e2.wf(),
{
    let d = e.thread_dispatcher;
    let old_pipes = e.file_system.pipes.pipes@.len() as int;
    let pipes = e2.file_system.pipes.pipes@.len() as int;
    let children = e.children.children@.len() as int;
    assert forall|i: int| 0 <= i < d.tasks@.len() implies (#[trigger] d.tasks@[i]).base.wf(
        pipes,
        children,
    ) by {
        let b = d.tasks@[i].base;
        assert(b.wf(old_pipes, children));
        if let Some(crate::linux::thread::Waiter::Poll(w)) = b.waiter {
            assert forall|j: int| 0 <= j < w.watches@.len() implies (
            #[trigger] w.watches@[j]).wf(pipes) by {
                assert(w.watches@[j].wf(old_pipes));
            }
        }
    }
}

pub const F_DUPFD: i32 = 0;

pub const F_GETFL: i32 = 3;

pub const F_DUPFD_CLOEXEC: i32 = 1030;

/// What controlling a file comes to.
pub open spec fn fcntl_done(
    m: Machine,
    e: AndroidEmulator,
    m2: Machine,
    e2: AndroidEmulator,
) -> bool {
    let cmd = m.reg_i32(RegisterARM64::X1);
    match file_of(m, e) {
        None => refused(m, e, m2, e2, Errno::EBADF),
        Some(file) => if cmd == F_GETFL {
            if file is Error {
                refused(m, e, m2, e2, Errno::EBADF)
            } else {
                m2 == m.set_reg(RegisterARM64::X0, oflags_of(file) as u64) && e2 == e
            }
        } else if cmd == F_DUPFD || cmd == F_DUPFD_CLOEXEC {
            refused(m, e, m2, e2, Errno::ENOSYS)
        } else {
            m2 == m.ret(0) && e2 == e
        },
    }
}

/// Control the file `X0` by command `X1`. Flags can be asked for; descriptors cannot
/// be duplicated; all else is accepted and has no effect.
pub fn syscall_nr3264_fcntl(backend: &mut Backend, emulator: &mut AndroidEmulator)
    ensures
        fcntl_done(old(backend)@, *old(emulator), final(backend)@, *final(emulator)),
{
    let fd: i32 = backend.reg_read_i32(RegisterARM64::X0);
    let cmd: i32 = backend.reg_read_i32(RegisterARM64::X1);
    let (broken, flags) = match emulator.file_system.get_file(fd) {
        None => {
            refuse(backend, emulator, Errno::EBADF);
            return ;
        },
        Some(FileIO::Error(_)) => (true, 0),
        Some(file) => (false, file.oflags()),
    };
    if cmd == F_GETFL {
        if broken {
            refuse(backend, emulator, Errno::EBADF);
            return ;
        }
        backend.reg_write(RegisterARM64::X0, flags as u64);
    } else if cmd == F_DUPFD || cmd == F_DUPFD_CLOEXEC {
        refuse(backend, emulator, Errno::ENOSYS);
    } else {
        backend.reg_write_i64(RegisterARM64::X0, 0);
    }
}

/// What a guest writes to one end of a new pipe is what it reads from the other: the
/// read gives the bytes, and takes them out.
pub proof fn law_pipe_read_gives_back_the_write(
    before: FileSystem,
    after: FileSystem,
    w: PipeIO,
    r: PipeIO,
    data: Seq<u8>,
    count: int,
)
    requires
        w.writer,
        !r.writer,
        r.pipe == w.pipe,
        w.pipe < before.pipes.pipes@.len(),
        before.pipes.pipes@[w.pipe as int].unread() == Seq::<u8>::empty(),
        before.pipes.pipes@[w.pipe as int].read_pos
            <= before.pipes.pipes@[w.pipe as int].buf@.len(),
        written(before, after, FileIO::Dynamic(DynamicIO::Pipe(w)), data),
        data.len() <= count,
        before.pipes.pipes@[w.pipe as int].buf@.len() + data.len() <= usize::MAX,
    ensures
        read_bytes(after, FileIO::Dynamic(DynamicIO::Pipe(r)), count, Seq::empty()) == data,
        pipes_after_read(
            after,
            FileIO::Dynamic(DynamicIO::Pipe(r)),
            data.len() as int,
        )[w.pipe as int].unread() == Seq::<u8>::empty(),
{
    let p = before.pipes.pipes@[w.pipe as int];
    let q = after.pipes.pipes@[w.pipe as int];
    crate::linux::pipe::law_pipe_is_a_queue(p, data, q, data.len() as int);
    assert(q.unread() =~= data);
    assert(q.unread().take(data.len() as int) =~= data);
    assert(q.advanced(data.len() as int).unread() =~= Seq::<u8>::empty());
}

/// The file that descriptor `fd` leads to in a table.
pub open spec fn behind(fs: FileSystem, fd: int) -> Option<FileIO> {
    if 0 <= fd < fs.slots@.len() {
        fs.slots@[fd]
    } else {
        None
    }
}

/// What the mode of each kind of file lets be done. Standard input can be read, and standard
/// output and error can be written; both ends of a pipe can be read and written.
proof fn lemma_modes(file: FileIO)
    ensures
        file matches FileIO::Dynamic(DynamicIO::Stdin(_)) ==> !may_write(file) && may_read(file),
        file matches FileIO::Dynamic(DynamicIO::Stdout(_)) ==> may_write(file) && !may_read(file),
        file matches FileIO::Dynamic(DynamicIO::Pipe(_)) ==> may_write(file) && may_read(file),
{
    assert((0o020000u32 | 0o400 | 0o040 | 0o004) & 0o400 != 0) by (bit_vector);
    assert((0o020000u32 | 0o400 | 0o040 | 0o004) & 0o200 == 0 && (0o020000u32 | 0o400 | 0o040 | 0o004)
        & 0o002 == 0 && (0o020000u32 | 0o400 | 0o040 | 0o004) & 0o020 == 0) by (bit_vector);
    assert((0o020000u32 | 0o200 | 0o020 | 0o002) & 0o200 != 0) by (bit_vector);
    assert((0o020000u32 | 0o200 | 0o020 | 0o002) & 0o400 == 0 && (0o020000u32 | 0o200 | 0o020 | 0o002)
        & 0o004 == 0 && (0o020000u32 | 0o200 | 0o020 | 0o002) & 0o040 == 0) by (bit_vector);
    assert((0o020000u32 | 0o400 | 0o200) & 0o400 != 0 && (0o020000u32 | 0o400 | 0o200) & 0o200 != 0)
        by (bit_vector);
}

/// What a write of the `X2` bytes at `X1` comes to. On standard output or error those bytes
/// go to the end of that stream, and the other stream stays. On the writing end of a pipe
/// they go to the end of that pipe, and no other pipe changes. The result is their number.
/// A descriptor that leads nowhere is refused with 9; standard input and the reading end of a
/// pipe are refused with 13, and nothing is written. A file that a driver keeps and that may
/// be written to gives the driver's answer. No descriptor changes.
pub proof fn law_write(
    b: Backend,
    e: AndroidEmulator,
    driver: i32,
    m2: Machine,
    e2: AndroidEmulator,
    other: int,
)
    requires
        write_done(b@, e, driver, m2, e2),
        e.file_system.wf(),
        0 <= b@.reg_i32(RegisterARM64::X2),
        0 <= other < e.file_system.pipes.pipes@.len(),
    ensures
        ({
            let m = b@;
            let n = m.reg_i32(RegisterARM64::X2);
            let data = m.read(m.reg(RegisterARM64::X1) as int, n as nat);
            let fs = e.file_system;
            let fs2 = e2.file_system;
            &&& fs2.slots == fs.slots
            &&& e2.memory == e.memory
            &&& e2.thread_dispatcher == e.thread_dispatcher
            &&& match behind(fs, m.reg_i32(RegisterARM64::X0) as int) {
                None => m2.reg_i64(RegisterARM64::X0) == -9 && e2 == e,
                Some(FileIO::Error(_)) => m2.reg_i64(RegisterARM64::X0) == -9 && e2 == e,
                Some(FileIO::Dynamic(DynamicIO::Stdin(_))) => {
                    &&& m2.reg_i64(RegisterARM64::X0) == -13
                    &&& e2 == e
                },
                Some(FileIO::Dynamic(DynamicIO::Stdout(f))) => {
                    &&& m2.reg_i64(RegisterARM64::X0) == n
                    &&& f.err ==> fs2.streams.err@ == fs.streams.err@ + data
                        && fs2.streams.out@ == fs.streams.out@
                    &&& !f.err ==> fs2.streams.out@ == fs.streams.out@ + data
                        && fs2.streams.err@ == fs.streams.err@
                    &&& fs2.pipes == fs.pipes
                },
                Some(FileIO::Dynamic(DynamicIO::Pipe(p))) => {
                    &&& fs2.streams == fs.streams
                    &&& fs2.pipes.pipes@.len() == fs.pipes.pipes@.len()
                    &&& other != p.pipe || !p.writer ==> fs2.pipes.pipes@[other]
                        == fs.pipes.pipes@[other]
                    &&& p.writer ==> {
                        &&& m2.reg_i64(RegisterARM64::X0) == n
                        &&& fs2.pipes.pipes@[p.pipe as int].buf@
                            == fs.pipes.pipes@[p.pipe as int].buf@ + data
                        &&& fs2.pipes.pipes@[p.pipe as int].read_pos
                            == fs.pipes.pipes@[p.pipe as int].read_pos
                    }
                    &&& !p.writer ==> m2.reg_i64(RegisterARM64::X0) == -13
                },
                Some(FileIO::Bytes(f)) => f.mode & 0o222 == 0o222 && driver != -1 ==> m2.reg_i64(
                    RegisterARM64::X0,
                ) == driver && e2 == e,
                Some(FileIO::File(f)) => f.mode & 0o222 == 0o222 && driver != -1 ==> m2.reg_i64(
                    RegisterARM64::X0,
                ) == driver && e2 == e,
                _ => true,
            }
        }),
{
    b.reg_slots();
    let m = b@;
    crate::emulator::state::law_refusal(b, e, Errno::EBADF);
    crate::emulator::state::law_refusal(b, e, Errno::EACCES);
    if let Some(file) = behind(e.file_system, m.reg_i32(RegisterARM64::X0) as int) {
        lemma_modes(file);
        let mode = mode_of(file);
        assert(mode & 0o222 == 0o222 ==> mode & 0o200 != 0) by (bit_vector);
        if let FileIO::Dynamic(DynamicIO::Pipe(p)) = file {
            assert(e.file_system.slots@[m.reg_i32(RegisterARM64::X0) as int] matches Some(
                FileIO::Dynamic(DynamicIO::Pipe(q)),
            ) && q.pipe < e.file_system.pipes.pipes@.len());
        }
    }
}

/// What a read of at most `X2` bytes to `X1` comes to. The reading end of a pipe gives the
/// oldest bytes that were not read yet, as many as are there and asked for. They are stored
/// at `X1` where that is mapped, count as read from then on, and their number is the result.
/// A file that a driver keeps and that may be read gives what the driver read, up to the
/// number asked for. Standard input gives nothing, at once. A descriptor that leads nowhere
/// is refused with 9.
#[verifier::rlimit(40)]
pub proof fn law_read(
    b: Backend,
    e: AndroidEmulator,
    driver: Seq<u8>,
    m2: Machine,
    e2: AndroidEmulator,
    other: int,
)
    requires
        read_done(b@, e, driver, m2, e2),
        e.file_system.wf(),
        0 <= b@.reg_i32(RegisterARM64::X2),
        0 <= other < e.file_system.pipes.pipes@.len(),
    ensures
        ({
            let m = b@;
            let count = m.reg_i32(RegisterARM64::X2) as int;
            let at = m.reg(RegisterARM64::X1) as int;
            let fs = e.file_system;
            let fs2 = e2.file_system;
            let n = m2.reg_i64(RegisterARM64::X0) as int;
            &&& fs2.slots == fs.slots
            &&& fs2.streams == fs.streams
            &&& match behind(fs, m.reg_i32(RegisterARM64::X0) as int) {
                None => n == -9 && e2 == e,
                Some(FileIO::Dynamic(DynamicIO::Stdin(_))) => n == 0 && m2.mem == m.mem,
                Some(FileIO::Dynamic(DynamicIO::Pipe(p))) => {
                    let q = fs.pipes.pipes@[p.pipe as int];
                    let q2 = fs2.pipes.pipes@[p.pipe as int];
                    let left = q.buf@.len() - q.read_pos;
                    &&& other != p.pipe ==> fs2.pipes.pipes@[other] == fs.pipes.pipes@[other]
                    &&& p.writer ==> n == 0 && q2 == q
                    &&& !p.writer && q.read_pos <= q.buf@.len() ==> {
                        &&& n == if count <= left {
                            count
                        } else {
                            left
                        }
                        &&& q2.buf == q.buf
                        &&& q2.read_pos == q.read_pos + n
                        &&& m.mapped(at, n) ==> m2.read(at, n as nat) == q.buf@.subrange(
                            q.read_pos as int,
                            q.read_pos + n,
                        )
                    }
                },
                Some(FileIO::Bytes(f)) => f.mode & 0o444 == 0o444 ==> {
                    &&& n == if count <= driver.len() {
                        count
                    } else {
                        driver.len() as int
                    }
                    &&& m.mapped(at, n) ==> m2.read(at, n as nat) == driver.take(n)
                },
                Some(FileIO::File(f)) => f.mode & 0o444 == 0o444 ==> {
                    &&& n == if count <= driver.len() {
                        count
                    } else {
                        driver.len() as int
                    }
                    &&& m.mapped(at, n) ==> m2.read(at, n as nat) == driver.take(n)
                },
                Some(FileIO::Dynamic(DynamicIO::Device(f))) => f.mode & 0o444 == 0o444 ==> {
                    &&& n == if count <= driver.len() {
                        count
                    } else {
                        driver.len() as int
                    }
                    &&& m.mapped(at, n) ==> m2.read(at, n as nat) == driver.take(n)
                },
                _ => true,
            }
        }),
{
    b.reg_slots();
    let m = b@;
    crate::emulator::state::law_refusal(b, e, Errno::EBADF);
    crate::emulator::state::law_refusal(b, e, Errno::EACCES);
    let at = m.reg(RegisterARM64::X1) as int;
    let count = m.reg_i32(RegisterARM64::X2) as int;
    if let Some(file) = behind(e.file_system, m.reg_i32(RegisterARM64::X0) as int) {
        lemma_modes(file);
        let mode = mode_of(file);
        assert(mode & 0o444 == 0o444 ==> mode & 0o400 != 0) by (bit_vector);
        let data = read_bytes(e.file_system, file, count, driver);
        if read_refusal(m, e) is None {
            if let FileIO::Dynamic(DynamicIO::Pipe(p)) = file {
                assert(e.file_system.slots@[m.reg_i32(RegisterARM64::X0) as int] matches Some(
                    FileIO::Dynamic(DynamicIO::Pipe(q)),
                ) && q.pipe < e.file_system.pipes.pipes@.len());
                let q = e.file_system.pipes.pipes@[p.pipe as int];
                assert(q.buf.len() == q.buf@.len());
                if !p.writer && q.read_pos <= q.buf@.len() {
                    assert(data =~= q.buf@.subrange(
                        q.read_pos as int,
                        q.read_pos + data.len(),
                    ));
                }
            }
            if m.mapped(at, data.len() as int) {
                crate::backend::law_write_then_read(m, at, data, at);
                let w = m.write(at, data);
                assert(m2.mem == w.mem);
                assert(m2.read(at, data.len()) =~= w.read(at, data.len()));
            }
            if data.len() == 0 {
                assert(m.write(at, data).mem =~= m.mem);
            }
        }
    }
}

/// The bytes of the first `n` parts of a gathered write, one after the other. The table at
/// `iov` has two words for each part: where it is, and how long.
pub open spec fn gathered(m: Machine, iov: int, n: int) -> Seq<u8>
    decreases n,
{
    if n <= 0 {
        Seq::empty()
    } else {
        gathered(m, iov, n - 1) + m.read(
            m.read_u64(iov + 16 * (n - 1))->0 as int,
            m.read_u64(iov + 16 * (n - 1) + 8)->0 as nat,
        )
    }
}

#[verifier::rlimit(40)]
proof fn lemma_gathered(
    m: Machine,
    v: FsView,
    fd: int,
    iov: int,
    drivers: Seq<i32>,
    n: int,
    err: bool,
)
    requires
        0 <= n <= 1024,
        forall|i: int|
            0 <= i < n ==> {
                &&& (#[trigger] m.read_u64(iov + 16 * i)) is Some
                &&& m.read_u64(iov + 16 * i + 8) is Some
                &&& m.read_u64(iov + 16 * i + 8)->0 <= 0x10_0000
                &&& m.mapped(
                    m.read_u64(iov + 16 * i)->0 as int,
                    m.read_u64(iov + 16 * i + 8)->0 as int,
                )
            },
        crate::linux::file_system::file_at(v.slots, fd) matches Some(
            FileIO::Dynamic(DynamicIO::Stdout(f)),
        ) && f.err == err,
    ensures
        ({
            let run = writev_run(m, v, fd, iov, drivers, n);
            &&& run.stopped is None
            &&& run.total == gathered(m, iov, n).len()
            &&& run.total <= n * 0x10_0000
            &&& run.v == if err {
                FsView { err: v.err + gathered(m, iov, n), ..v }
            } else {
                FsView { out: v.out + gathered(m, iov, n), ..v }
            }
        }),
    decreases n,
{
    let end = writev_run(m, v, fd, iov, drivers, n).v;
    let want = if err {
        FsView { err: v.err + gathered(m, iov, n), ..v }
    } else {
        FsView { out: v.out + gathered(m, iov, n), ..v }
    };
    if n > 0 {
        lemma_gathered(m, v, fd, iov, drivers, n - 1, err);
        assert(m.read_u64(iov + 16 * (n - 1)) is Some);
        let part = m.read(
            m.read_u64(iov + 16 * (n - 1))->0 as int,
            m.read_u64(iov + 16 * (n - 1) + 8)->0 as nat,
        );
        if iov_len(m, iov, n - 1) == 0 {
            assert(gathered(m, iov, n) =~= gathered(m, iov, n - 1));
        } else {
            assert(iov_bytes(m, iov, n - 1) == part);
            if err {
                assert((v.err + gathered(m, iov, n - 1)) + part =~= v.err + gathered(m, iov, n));
            } else {
                assert((v.out + gathered(m, iov, n - 1)) + part =~= v.out + gathered(m, iov, n));
            }
        }
    } else {
        assert(v.err + gathered(m, iov, n) =~= v.err);
        assert(v.out + gathered(m, iov, n) =~= v.out);
    }
    assert(end =~= want);
}

/// A gathered write to standard output or error puts all its parts at the end of that stream,
/// in the order of the table, and gives the number of bytes in all. The other stream, the
/// pipes and the descriptors stay. More than 1024 parts, or fewer than none, are refused with
/// 22.
#[verifier::rlimit(40)]
pub proof fn law_gathered_write(
    b: Backend,
    e: AndroidEmulator,
    drivers: Seq<i32>,
    m2: Machine,
    e2: AndroidEmulator,
)
    requires
        writev_done(b@, e, drivers, m2, e2),
    ensures
        ({
            let m = b@;
            let n = m.reg_i32(RegisterARM64::X2) as int;
            let iov = m.reg(RegisterARM64::X1) as int;
            let v = e.file_system@;
            let v2 = e2.file_system@;
            let readable = forall|i: int|
                0 <= i < n ==> {
                    &&& (#[trigger] m.read_u64(iov + 16 * i)) is Some
                    &&& m.read_u64(iov + 16 * i + 8) is Some
                    &&& m.read_u64(iov + 16 * i + 8)->0 <= 0x10_0000
                    &&& m.mapped(
                        m.read_u64(iov + 16 * i)->0 as int,
                        m.read_u64(iov + 16 * i + 8)->0 as int,
                    )
                };
            &&& n < 0 || n > 1024 ==> m2.reg_i64(RegisterARM64::X0) == -22 && e2 == e
            &&& 0 <= n <= 1024 && readable ==> match behind(
                e.file_system,
                m.reg_i32(RegisterARM64::X0) as int,
            ) {
                Some(FileIO::Dynamic(DynamicIO::Stdout(f))) => {
                    &&& m2.reg_i64(RegisterARM64::X0) == gathered(m, iov, n).len()
                    &&& f.err ==> v2.err == v.err + gathered(m, iov, n) && v2.out == v.out
                    &&& !f.err ==> v2.out == v.out + gathered(m, iov, n) && v2.err == v.err
                    &&& v2.pipes == v.pipes
                    &&& v2.slots == v.slots
                },
                _ => true,
            }
        }),
{
    b.reg_slots();
    let m = b@;
    let n = m.reg_i32(RegisterARM64::X2) as int;
    let iov = m.reg(RegisterARM64::X1) as int;
    let fd = m.reg_i32(RegisterARM64::X0) as int;
    crate::emulator::state::law_refusal(b, e, Errno::EINVAL);
    let readable = forall|i: int|
        0 <= i < n ==> {
            &&& (#[trigger] m.read_u64(iov + 16 * i)) is Some
            &&& m.read_u64(iov + 16 * i + 8) is Some
            &&& m.read_u64(iov + 16 * i + 8)->0 <= 0x10_0000
            &&& m.mapped(
                m.read_u64(iov + 16 * i)->0 as int,
                m.read_u64(iov + 16 * i + 8)->0 as int,
            )
        };
    if 0 <= n <= 1024 && readable {
        if let Some(FileIO::Dynamic(DynamicIO::Stdout(f))) = behind(e.file_system, fd) {
            lemma_gathered(m, e.file_system@, fd, iov, drivers, n, f.err);
        }
    }
}

/// A descriptor that was closed leads nowhere, every other leads where it led, and no file's
/// bytes change. Closing a descriptor that leads nowhere is refused with 9.
pub proof fn law_close(
    b: Backend,
    e: AndroidEmulator,
    m2: Machine,
    e2: AndroidEmulator,
    other: int,
)
    requires
        close_done(b@, e, m2, e2),
    ensures
        ({
            let fd = b@.reg_i32(RegisterARM64::X0) as int;
            if behind(e.file_system, fd) is None {
                m2.reg_i64(RegisterARM64::X0) == -9 && e2 == e
            } else {
                &&& m2.reg_i64(RegisterARM64::X0) == 0
                &&& behind(e2.file_system, fd) is None
                &&& other != fd ==> behind(e2.file_system, other) == behind(e.file_system, other)
                &&& e2.file_system.pipes == e.file_system.pipes
                &&& e2.file_system.streams == e.file_system.streams
                &&& m2.mem == b@.mem
            }
        }),
{
    b.reg_slots();
    crate::emulator::state::law_refusal(b, e, Errno::EBADF);
}

/// Where a seek ends up. On a standard stream it is the offset, or the start for a negative
/// one, for the ways 0, 1 and 2, and every other way is refused with 22. A pipe refuses with
/// 29 and a descriptor that leads nowhere with 9. All else is the driver's answer: a
/// position, or a refusal with 22, 6 or 29.
pub proof fn law_seek(
    b: Backend,
    e: AndroidEmulator,
    driver: SeekResult,
    m2: Machine,
    e2: AndroidEmulator,
)
    requires
        lseek_done(b@, e, driver, m2, e2),
    ensures
        e2 == e,
        ({
            let m = b@;
            let offset = m.reg_i64(RegisterARM64::X1);
            let whence = m.reg_i32(RegisterARM64::X2);
            let n = m2.reg_i64(RegisterARM64::X0);
            let stream = if 0 <= whence <= 2 {
                n == if offset > 0 {
                    offset
                } else {
                    0
                }
            } else {
                n == -22
            };
            match behind(e.file_system, m.reg_i32(RegisterARM64::X0) as int) {
                None => n == -9,
                Some(FileIO::Dynamic(DynamicIO::Stdin(_))) => stream,
                Some(FileIO::Dynamic(DynamicIO::Stdout(_))) => stream,
                Some(FileIO::Dynamic(DynamicIO::Pipe(_))) => n == -29,
                Some(_) => match driver {
                    SeekResult::Pos(p) => n == p,
                    SeekResult::WhenceError => n == -22,
                    SeekResult::OffsetError => n == -6,
                    SeekResult::UnknownError => n == -29,
                },
            }
        }),
{
    b.reg_slots();
    crate::emulator::state::law_refusal(b, e, Errno::EBADF);
    crate::emulator::state::law_refusal(b, e, Errno::EINVAL);
    crate::emulator::state::law_refusal(b, e, Errno::ENXIO);
    crate::emulator::state::law_refusal(b, e, Errno::ESPIPE);
}

/// A new pipe has two descriptors that were free: the one stored at `X0` reads, the one in
/// the half word after it writes. Both are ends of one pipe, which is empty; the pipes and
/// descriptors that there were stay as they were.
#[verifier::rlimit(40)]
pub proof fn law_new_pipe(
    m: Machine,
    e: AndroidEmulator,
    m2: Machine,
    e2: AndroidEmulator,
    other: int,
)
    requires
        pipe2_done(m, e, m2, e2),
        m.regs.len() == 35,
        m.mapped(m.reg(RegisterARM64::X0) as int, 8),
        e.file_system.slots@.len() + 1 < i32::MAX,
    ensures
        ({
            let at = m.reg(RegisterARM64::X0) as int;
            let fs = e.file_system;
            let fs2 = e2.file_system;
            let rfd = m2.read_u32(at)->0 as int;
            let wfd = m2.read_u32(at + 4)->0 as int;
            let fresh = fs.pipes.pipes@.len();
            &&& m2.reg(RegisterARM64::X0) == 0
            &&& m2.read_u32(at) is Some
            &&& m2.read_u32(at + 4) is Some
            &&& rfd != wfd
            &&& behind(fs, rfd) is None
            &&& behind(fs, wfd) is None
            &&& behind(fs2, rfd) matches Some(FileIO::Dynamic(DynamicIO::Pipe(p))) && !p.writer
                && p.pipe == fresh
            &&& behind(fs2, wfd) matches Some(FileIO::Dynamic(DynamicIO::Pipe(p))) && p.writer
                && p.pipe == fresh
            &&& other != rfd && other != wfd ==> behind(fs2, other) == behind(fs, other)
            &&& fs2.pipes.pipes@.len() == fresh + 1
            &&& fs2.pipes.pipes@[fresh as int].buf@.len() == 0
            &&& fs2.pipes.pipes@[fresh as int].read_pos == 0
            &&& 0 <= other < fresh ==> fs2.pipes.pipes@[other] == fs.pipes.pipes@[other]
        }),
{
    let at = m.reg(RegisterARM64::X0) as int;
    let fs = e.file_system;
    let fs2 = e2.file_system;
    let rfd = lowest_free(fs.slots@, 0);
    let reader = fs2.file(rfd);
    let mid = inserted(fs.slots@, reader->0);
    let wfd = lowest_free(mid, 0);
    let writer = fs2.file(wfd);
    crate::linux::file_system::law_insert_then_lookup(fs.slots@, reader->0, other);
    crate::linux::file_system::law_insert_then_lookup(fs.slots@, reader->0, wfd);
    crate::linux::file_system::law_insert_then_lookup(mid, writer->0, other);
    crate::linux::file_system::lemma_lowest_free(fs.slots@, 0);
    crate::linux::file_system::lemma_lowest_free(mid, 0);
    let rb = le_i32(rfd as i32);
    let wb = le_i32(wfd as i32);
    let first = m.write(at, rb);
    let second = first.write(at + 4, wb);
    crate::le::law_le32_round_trip(rfd as u32);
    crate::le::law_le32_round_trip(wfd as u32);
    assert(m.mapped(at, 4));
    assert(first.mem.dom() =~= m.mem.dom());
    assert(first.mapped(at + 4, 4));
    crate::backend::lemma_half_inside(m, at, rb, 0);
    crate::backend::lemma_half_inside(first, at + 4, wb, 0);
    crate::backend::lemma_half_apart(first, at + 4, wb, at);
    assert(rb.subrange(0, 4) =~= rb);
    assert(wb.subrange(0, 4) =~= wb);
    assert(m2.mem == second.mem);
    assert(second.mem.dom() =~= m.mem.dom());
    assert(m2.read(at, 4) =~= second.read(at, 4));
    assert(m2.read(at + 4, 4) =~= second.read(at + 4, 4));
    assert(m2.mapped(at, 4) && m2.mapped(at + 4, 4));
    assert(second.mapped(at, 4) && second.mapped(at + 4, 4));
    if 0 <= other < fs.pipes.pipes@.len() {
        assert(fs2.pipes.pipes@.drop_last()[other] == fs.pipes.pipes@[other]);
    }
}

/// The description of an open file goes to the address in the second register, and that of a
/// path to the address in the third; a listing goes to the second, and its length is returned.
/// A descriptor that leads nowhere is refused with nine. A path that does not begin at the
/// root, or leads nowhere, is refused with two, and one under an open directory with nine.
#[verifier::rlimit(40)]
pub proof fn law_descriptions(
    b: Backend,
    e: AndroidEmulator,
    data: Seq<u8>,
    reply: StatReply,
    n: i32,
    m2: Machine,
    e2: AndroidEmulator,
)
    ensures
        ({
            let fd = b@.reg_i32(RegisterARM64::X0) as int;
            let x1 = b@.reg(RegisterARM64::X1) as int;
            let there = behind(e.file_system, fd) is Some;
            &&& fstat_done(b@, e, data, m2, e2) ==> {
                &&& e2 == e
                &&& !there ==> m2.reg_i64(RegisterARM64::X0) == -9
                &&& there ==> m2.regs == b@.regs && (b@.mapped(x1, data.len() as int) ==> m2.read(
                    x1,
                    data.len(),
                ) == data)
            }
            &&& getdents64_done(b@, e, data, n, m2, e2) ==> {
                &&& e2 == e
                &&& !there ==> m2.reg_i64(RegisterARM64::X0) == -9
                &&& there ==> m2.reg_i64(RegisterARM64::X0) == n && (b@.mapped(
                    x1,
                    data.len() as int,
                ) ==> m2.read(x1, data.len()) == data)
            }
        }),
        fstatat_done(b@, e, reply, m2, e2) ==> {
            let path = b@.c_text(b@.reg(RegisterARM64::X1) as int)->0;
            let dir = b@.reg_i32(RegisterARM64::X0);
            let x2 = b@.reg(RegisterARM64::X2) as int;
            let rooted = path.len() > 0 && path[0] == '/';
            &&& e2 == e
            &&& !rooted ==> m2.reg_i64(RegisterARM64::X0) == -2
            &&& rooted && dir != -100 ==> m2.reg_i64(RegisterARM64::X0) == -9
            &&& rooted && dir == -100 && reply is Missing ==> m2.reg_i64(RegisterARM64::X0) == -2
            &&& reply matches StatReply::Stat(stat) ==> rooted && dir == -100 && b@.mapped(
                x2,
                stat@.len() as int,
            ) ==> m2.read(x2, stat@.len()) == stat@
        },
{
    b.reg_slots();
    crate::emulator::state::law_refusal(b, e, Errno::EBADF);
    crate::emulator::state::law_refusal(b, e, Errno::ENOENT);
    reveal_strlit("/");
    let m = b@;
    let x1 = m.reg(RegisterARM64::X1) as int;
    let x2 = m.reg(RegisterARM64::X2) as int;
    let path = m.c_text(x1)->0;
    if path.len() > 0 {
        assert(path.take(1)[0] == path[0]);
        if path[0] == '/' {
            assert(path.take(1) =~= "/"@);
        }
    }
    if m.mapped(x1, data.len() as int) {
        crate::backend::law_write_then_read(m, x1, data, x1);
        let w = m.write(x1, data);
        let after = w.set_reg(RegisterARM64::X0, sign_extend(n));
        assert(after.read(x1, data.len()) =~= w.read(x1, data.len()));
    }
    if let StatReply::Stat(stat) = reply {
        if m.mapped(x2, stat@.len() as int) {
            crate::backend::law_write_then_read(m, x2, stat@, x2);
        }
    }
}

/// A local socket gets the lowest free descriptor, and leads to a socket from then on; a
/// socket of any other family is refused with 97. Connecting is for sockets alone: another
/// file is refused with 88, a descriptor that leads nowhere with nine, and the C library with
/// 13 whatever it asks for.
pub proof fn law_sockets(
    b: Backend,
    e: AndroidEmulator,
    reply: i32,
    m2: Machine,
    e2: AndroidEmulator,
    other: int,
)
    requires
        e.file_system.slots@.len() < i32::MAX,
    ensures
        socket_done(b@, e, m2, e2) ==> {
            let fd = m2.reg_i64(RegisterARM64::X0) as int;
            &&& b@.reg_u32(RegisterARM64::X0) == 1 ==> {
                &&& fd >= 0
                &&& behind(e.file_system, fd) is None
                &&& behind(e2.file_system, fd) == Some(FileIO::LocalSocket)
                &&& 0 <= other < fd ==> behind(e.file_system, other) is Some
                &&& other != fd ==> behind(e2.file_system, other) == behind(e.file_system, other)
            }
            &&& b@.reg_u32(RegisterARM64::X0) != 1 ==> fd == -97 && e2 == e
        },
        connect_done(b@, e, reply, m2, e2) ==> {
            let file = behind(e.file_system, b@.reg_i32(RegisterARM64::X0) as int);
            let x0 = m2.reg_i64(RegisterARM64::X0);
            &&& e2 == e
            &&& e.caller(b@) == "libc.so"@ ==> x0 == -13
            &&& e.caller(b@) != "libc.so"@ && file is None ==> x0 == -9
            &&& e.caller(b@) != "libc.so"@ && file == Some(FileIO::LocalSocket) ==> x0 == reply
            &&& e.caller(b@) != "libc.so"@ && file is Some && file != Some(FileIO::LocalSocket)
                ==> x0 == -88
        },
{
    b.reg_slots();
    crate::emulator::state::law_refusal(b, e, Errno::EAFNOSUPPORT);
    crate::emulator::state::law_refusal(b, e, Errno::EACCES);
    crate::emulator::state::law_refusal(b, e, Errno::EBADF);
    crate::emulator::state::law_refusal(b, e, Errno::ENOTSOCK);
    let slots = e.file_system.slots@;
    crate::linux::file_system::law_insert_then_lookup(slots, FileIO::LocalSocket, other);
    crate::linux::file_system::lemma_lowest_free(slots, 0);
}

/// Command three gives a file's flags. The commands that would duplicate a descriptor, zero
/// and 1030, are refused with 38, every other is accepted, and a descriptor that leads nowhere
/// is refused with nine. Nothing but the result changes.
pub proof fn law_file_control(b: Backend, e: AndroidEmulator, m2: Machine, e2: AndroidEmulator)
    requires
        fcntl_done(b@, e, m2, e2),
    ensures
        ({
            let file = behind(e.file_system, b@.reg_i32(RegisterARM64::X0) as int);
            let cmd = b@.reg_i32(RegisterARM64::X1);
            let x0 = m2.reg_i64(RegisterARM64::X0);
            &&& e2 == e
            &&& file is None ==> x0 == -9
            &&& file matches Some(f) ==> {
                &&& cmd == 0 || cmd == 1030 ==> x0 == -38
                &&& cmd == 3 && f is Error ==> x0 == -9
                &&& cmd == 3 && !(f is Error) ==> m2.reg(RegisterARM64::X0) == oflags_of(f)
                    && m2.mem == b@.mem
                &&& cmd != 0 && cmd != 1030 && cmd != 3 ==> x0 == 0 && m2.mem == b@.mem
            }
        }),
{
    b.reg_slots();
    crate::emulator::state::law_refusal(b, e, Errno::EBADF);
    crate::emulator::state::law_refusal(b, e, Errno::ENOSYS);
}

/// A gathered write to a descriptor that leads nowhere is refused with nine as soon as it has a
/// part with bytes, and nothing is written. So it is for a directory and for a file at fault.
/// To standard input it is refused with 13.
pub proof fn law_refused_gathered_write(
    b: Backend,
    e: AndroidEmulator,
    drivers: Seq<i32>,
    m2: Machine,
    e2: AndroidEmulator,
    i: int,
)
    requires
        writev_done(b@, e, drivers, m2, e2),
        0 <= i < b@.reg_i32(RegisterARM64::X2) <= 1024,
        iov_len(b@, b@.reg(RegisterARM64::X1) as int, i) > 0,
    ensures
        ({
            let file = behind(e.file_system, b@.reg_i32(RegisterARM64::X0) as int);
            let x0 = m2.reg_i64(RegisterARM64::X0);
            &&& file is None ==> x0 == -9 && e2.file_system@ == e.file_system@
            &&& file matches Some(f) ==> f is Direction || f is Error ==> x0 == -9
                && e2.file_system@ == e.file_system@
            &&& file matches Some(FileIO::Dynamic(DynamicIO::Stdin(_))) ==> x0 == -13
                && e2.file_system@ == e.file_system@
        }),
{
    b.reg_slots();
    crate::emulator::state::law_refusal(b, e, Errno::EBADF);
    crate::emulator::state::law_refusal(b, e, Errno::EACCES);
    lemma_writev_refused(
        b@,
        e.file_system@,
        b@.reg_i32(RegisterARM64::X0) as int,
        b@.reg(RegisterARM64::X1) as int,
        drivers,
        i,
        b@.reg_i32(RegisterARM64::X2) as int,
    );
}

proof fn lemma_writev_refused(
    m: Machine,
    v: FsView,
    fd: int,
    iov: int,
    drivers: Seq<i32>,
    i: int,
    n: int,
)
    requires
        0 <= i,
        iov_len(m, iov, i) > 0,
    ensures
        ({
            let run = writev_run(m, v, fd, iov, drivers, n);
            let file = crate::linux::file_system::file_at(v.slots, fd);
            let lost = match file {
                None => true,
                Some(FileIO::Direction(_)) => true,
                Some(FileIO::Error(_)) => true,
                _ => false,
            };
            let input = file matches Some(FileIO::Dynamic(DynamicIO::Stdin(_)));
            &&& lost || input ==> run.v == v
            &&& lost ==> (run.stopped is None || run.stopped == Some(Errno::EBADF))
            &&& input ==> (run.stopped is None || run.stopped == Some(Errno::EACCES))
            &&& (lost || input) && i < n ==> run.stopped is Some
        }),
    decreases n,
{
    if n > 0 {
        lemma_writev_refused(m, v, fd, iov, drivers, i, n - 1);
    }
}

} // verus!
