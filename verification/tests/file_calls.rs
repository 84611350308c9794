//! System calls on files.
use rnidbg::backend::{Backend, RegisterARM64, PERM_READ_WRITE};
use rnidbg::emulator::dispatcher::ThreadDispatcher;
use rnidbg::emulator::state::AndroidEmulator;
use rnidbg::linux::file_system::{
    ByteArrayFileIO, Direction, DynamicIO, FileIO, FileSystem, LinuxFileIO, SeekResult, SYSTEM_FILE,
};
use rnidbg::linux::pipe::{PipeIO, PipeTable};
use rnidbg::linux::stdio::{HostStreams, StdinIO, StdoutIO};
use rnidbg::linux::syscalls::files::{
    read_request, syscall_close, syscall_connect, syscall_fstat, syscall_fstatat,
    syscall_getdents64, syscall_lseek, syscall_nr3264_fcntl, syscall_pipe2, syscall_read,
    syscall_socket, syscall_write, syscall_writev, write_request, writev_request, StatReply,
};
use rnidbg::linux::syscalls::open::{host_path, open, proc_stat, syscall_openat};
use rnidbg::linux::thread::ChildTable;
use rnidbg::memory::loader::{AndroidElfLoader, GuestLayout};
use rnidbg::memory::svc_memory::SvcMemory;

const DATA: u64 = 0x10_0000;

/// The guest's error number.
fn errno(b: &Backend, e: &AndroidEmulator) -> i32 {
    b.mem_read_u32(e.errno).unwrap() as i32
}

fn guest() -> (Backend, AndroidEmulator) {
    let mut b = Backend::new();
    b.mem_map(DATA, 0x4000, PERM_READ_WRITE).unwrap();
    let layout = GuestLayout { stack_base: 0x7000_0000, stack_pages: 64, mmap_base: 0x4000_0000 };
    let (memory, errno) = AndroidElfLoader::new(&mut b, layout, 100, "app").unwrap();
    let mut fs = FileSystem::new();
    fs.insert_file(FileIO::Dynamic(DynamicIO::Stdin(StdinIO::new())));
    fs.insert_file(FileIO::Dynamic(DynamicIO::Stdout(StdoutIO::stdout())));
    fs.insert_file(FileIO::Dynamic(DynamicIO::Stdout(StdoutIO::stderr())));
    let e = AndroidEmulator {
        brk: 0,
        heap_base: 0x9000_0000,
        pid: 2667,
        ppid: 2427,
        errno,
        exit_status: None,
        exec_path: None,
        proc_name: "app".to_string(),
        base_path: "/img".to_string(),
        next_task_id: 3,
        file_system: fs,
        memory,
        thread_dispatcher: ThreadDispatcher::new(),
        svc_memory: SvcMemory::new(0x2000_0000, 0x1000),
        children: ChildTable { children: vec![] },
        stop: None,
        clock_start: None,
    };
    (b, e)
}

/// Let the next call come from the C library.
fn from_libc(b: &mut Backend, e: &mut AndroidEmulator) {
    e.memory.load_virtual_module("libc.so".to_string(), &vec![("f".to_string(), 0x3000_0010)]);
    b.reg_write(RegisterARM64::LR, 0x3000_0020);
}

fn call(b: &mut Backend, args: &[u64]) {
    let regs = [
        RegisterARM64::X0,
        RegisterARM64::X1,
        RegisterARM64::X2,
        RegisterARM64::X3,
    ];
    for (i, a) in args.iter().enumerate() {
        b.reg_write(regs[i], *a);
    }
}

fn result(b: &Backend) -> i64 {
    b.reg_read_i64(RegisterARM64::X0)
}

fn bytes_file(mode: u32) -> FileIO {
    FileIO::Bytes(ByteArrayFileIO {
        bytes: vec![],
        path: "/x".to_string(),
        uid: 0,
        oflags: 2,
        mode,
    })
}

#[test]
fn descriptors_are_the_lowest_free() {
    let mut fs = FileSystem::new();
    assert_eq!(fs.insert_file(FileIO::LocalSocket), 0);
    assert_eq!(fs.insert_file(FileIO::LocalSocket), 1);
    assert_eq!(fs.insert_file(FileIO::LocalSocket), 2);
    assert!(fs.remove_file(1).is_some());
    assert!(fs.get_file(1).is_none());
    assert!(fs.get_file(2).is_some());
    assert!(fs.get_file(-1).is_none());
    assert!(fs.remove_file(1).is_none());
    assert_eq!(fs.insert_file(FileIO::Error(5)), 1);
    assert!(matches!(fs.get_file(1), Some(FileIO::Error(5))));
}

#[test]
fn writes_to_the_standard_files_reach_the_host() {
    let (mut b, mut e) = guest();
    b.mem_write(DATA, b"hello").unwrap();
    call(&mut b, &[1, DATA, 5]);
    syscall_write(&mut b, &mut e, 0);
    assert_eq!(result(&b), 5);
    call(&mut b, &[2, DATA, 2]);
    syscall_write(&mut b, &mut e, 0);
    assert_eq!(result(&b), 2);
    assert_eq!(e.file_system.streams.out, b"hello");
    assert_eq!(e.file_system.streams.err, b"he");
    assert_eq!(errno(&b, &e), 0);
}

#[test]
fn a_write_is_refused_where_nobody_may_write() {
    let (mut b, mut e) = guest();
    call(&mut b, &[0, DATA, 1]);
    syscall_write(&mut b, &mut e, 0);
    assert_eq!((result(&b), errno(&b, &e)), (-13, 13));
    call(&mut b, &[9, DATA, 1]);
    syscall_write(&mut b, &mut e, 0);
    assert_eq!((result(&b), errno(&b, &e)), (-9, 9));
    let fd = e.file_system.insert_file(FileIO::Error(2));
    call(&mut b, &[fd as u64, DATA, 1]);
    syscall_write(&mut b, &mut e, 0);
    assert_eq!(result(&b), -9);
}

#[test]
fn the_c_library_may_try_to_write_everywhere() {
    let (mut b, mut e) = guest();
    let fd = e.file_system.insert_file(bytes_file(0o100444));
    call(&mut b, &[fd as u64, DATA, 3]);
    syscall_write(&mut b, &mut e, 3);
    assert_eq!(result(&b), -13);
    from_libc(&mut b, &mut e);
    call(&mut b, &[fd as u64, DATA, 3]);
    assert_eq!(write_request(&b, &e), Some((fd, vec![0, 0, 0])));
    syscall_write(&mut b, &mut e, 3);
    assert_eq!(result(&b), 3);
    call(&mut b, &[0, DATA, 3]);
    syscall_write(&mut b, &mut e, 0);
    assert_eq!((result(&b), errno(&b, &e)), (-13, 13));
}

#[test]
fn drivers_answer_for_their_files() {
    let (mut b, mut e) = guest();
    let fd = e.file_system.insert_file(bytes_file(SYSTEM_FILE));
    b.mem_write(DATA, b"xyz").unwrap();
    call(&mut b, &[fd as u64, DATA, 3]);
    assert_eq!(write_request(&b, &e), Some((fd, b"xyz".to_vec())));
    syscall_write(&mut b, &mut e, 2);
    assert_eq!(result(&b), 2);
    call(&mut b, &[fd as u64, DATA, 3]);
    syscall_write(&mut b, &mut e, -1);
    assert_eq!(result(&b), -13);
    call(&mut b, &[fd as u64, DATA + 0x100, 4]);
    assert_eq!(read_request(&b, &e), Some((fd, 4)));
    syscall_read(&mut b, &mut e, b"abcdef");
    assert_eq!(result(&b), 4);
    assert_eq!(b.mem_read_as_vec(DATA + 0x100, 5).unwrap(), b"abcd\0");
    call(&mut b, &[1, DATA, 3]);
    assert_eq!(write_request(&b, &e), None);
    assert_eq!(read_request(&b, &e), None);
}

#[test]
fn standard_input_is_at_its_end() {
    let (mut b, mut e) = guest();
    call(&mut b, &[0, DATA, 16]);
    syscall_read(&mut b, &mut e, &[]);
    assert_eq!(result(&b), 0);
    call(&mut b, &[1, DATA, 16]);
    syscall_read(&mut b, &mut e, &[]);
    assert_eq!((result(&b), errno(&b, &e)), (-13, 13));
    call(&mut b, &[77, DATA, 16]);
    syscall_read(&mut b, &mut e, &[]);
    assert_eq!(result(&b), -9);
}

#[test]
fn a_pipe_gives_back_what_was_written() {
    let (mut b, mut e) = guest();
    call(&mut b, &[DATA]);
    syscall_pipe2(&mut b, &mut e);
    assert_eq!(result(&b), 0);
    let r = b.mem_read_u32(DATA).unwrap() as u64;
    let w = b.mem_read_u32(DATA + 4).unwrap() as u64;
    assert_eq!((r, w), (3, 4));
    b.mem_write(DATA + 0x100, b"queue").unwrap();
    call(&mut b, &[w, DATA + 0x100, 5]);
    syscall_write(&mut b, &mut e, 0);
    assert_eq!(result(&b), 5);
    call(&mut b, &[r, DATA + 0x200, 3]);
    syscall_read(&mut b, &mut e, &[]);
    assert_eq!(result(&b), 3);
    assert_eq!(b.mem_read_as_vec(DATA + 0x200, 4).unwrap(), b"que\0");
    call(&mut b, &[r, DATA + 0x200, 9]);
    syscall_read(&mut b, &mut e, &[]);
    assert_eq!(result(&b), 2);
    assert_eq!(b.mem_read_as_vec(DATA + 0x200, 4).unwrap(), b"uee\0");
    call(&mut b, &[r, DATA + 0x200, 9]);
    syscall_read(&mut b, &mut e, &[]);
    assert_eq!(result(&b), 0);
    call(&mut b, &[r, DATA + 0x100, 1]);
    syscall_write(&mut b, &mut e, 0);
    assert_eq!(result(&b), -13);
}

#[test]
fn pipe_ends_describe_themselves() {
    let mut t = PipeTable::new();
    let (r, w) = PipeIO::pair(&mut t);
    assert_eq!((r.path(), w.path()), ("pipe:[r]", "pipe:[w]"));
    assert_eq!((r.oflags(), w.oflags()), (0, 1));
    assert_eq!((r.pipe_reader_bufs(), w.pipe_reader_bufs()), (Some(0), None));
    assert_eq!(w.write(&mut t, b"abc"), 3);
    assert_eq!(r.write(&mut t, b"abc"), -1);
    assert_eq!(r.len(&t), 3);
    assert_eq!(w.to_vec(&t), b"abc");
    assert_eq!(r.st_mode(), 0o020600);
    assert_eq!(r.uid(), 0);
    assert!(matches!(r.lseek(0, 0), SeekResult::UnknownError));
    let mut b = Backend::new();
    b.mem_map(DATA, 0x1000, PERM_READ_WRITE).unwrap();
    assert_eq!(w.read(&mut t, &mut b, DATA, 3), 0);
    assert_eq!(r.pread(&mut t, &mut b, DATA, 2, 100), 2);
    assert_eq!(b.mem_read_as_vec(DATA, 2).unwrap(), b"ab");
    assert_eq!(r.read(&mut t, &mut b, DATA, 2), 1);
}

#[test]
fn standard_files_describe_themselves() {
    let i = StdinIO::new();
    assert_eq!((i.path(), i.oflags(), i.st_mode()), ("stdin", 0, 0o020444));
    assert_eq!((i.read(9), i.pread(9, 1), i.write(b"x"), i.uid(), i.len()), (0, 0, -1, 0, 0));
    assert!(i.to_vec().is_empty());
    assert!(matches!(i.lseek(-5, 0), SeekResult::Pos(0)));
    assert!(matches!(i.lseek(7, 2), SeekResult::Pos(7)));
    assert!(matches!(i.lseek(7, 3), SeekResult::WhenceError));
    let mut s = HostStreams::new();
    let o = StdoutIO::stdout();
    let x = StdoutIO::stderr();
    assert_eq!((o.path(), x.path()), ("stdout", "stderr"));
    assert_eq!((o.oflags(), o.st_mode()), (1, 0o020222));
    assert_eq!(o.write(&mut s, b"one"), 3);
    assert_eq!(x.write(&mut s, b"no"), 2);
    assert_eq!((s.out, s.err), (b"one".to_vec(), b"no".to_vec()));
    assert_eq!((o.read(1), o.pread(1, 1), o.uid(), o.len()), (0, 0, 0, 0));
    assert!(o.to_vec().is_empty());
    assert!(matches!(o.lseek(3, 1), SeekResult::Pos(3)));
}

#[test]
fn gathered_writes_go_in_order() {
    let (mut b, mut e) = guest();
    b.mem_write(DATA + 0x100, b"ab").unwrap();
    b.mem_write(DATA + 0x200, b"cde").unwrap();
    b.mem_write_u64(DATA, DATA + 0x100).unwrap();
    b.mem_write_u64(DATA + 8, 2).unwrap();
    b.mem_write_u64(DATA + 16, 0).unwrap();
    b.mem_write_u64(DATA + 24, 0).unwrap();
    b.mem_write_u64(DATA + 32, DATA + 0x200).unwrap();
    b.mem_write_u64(DATA + 40, 3).unwrap();
    call(&mut b, &[1, DATA, 3]);
    syscall_writev(&mut b, &mut e, &[0, 0, 0]);
    assert_eq!(result(&b), 5);
    assert_eq!(e.file_system.streams.out, b"abcde");
}

#[test]
fn gathered_writes_stop_at_a_fault() {
    let (mut b, mut e) = guest();
    call(&mut b, &[1, DATA, u64::MAX]);
    syscall_writev(&mut b, &mut e, &[]);
    assert_eq!(result(&b), -22);
    call(&mut b, &[1, DATA, 1025]);
    syscall_writev(&mut b, &mut e, &[]);
    assert_eq!(result(&b), -22);
    b.mem_write_u64(DATA, DATA + 0x100).unwrap();
    b.mem_write_u64(DATA + 8, 2).unwrap();
    call(&mut b, &[50, DATA, 1]);
    syscall_writev(&mut b, &mut e, &[0]);
    assert_eq!(result(&b), -9);
    call(&mut b, &[0, DATA, 1]);
    syscall_writev(&mut b, &mut e, &[0]);
    assert_eq!(result(&b), -13);
    call(&mut b, &[50, DATA, 0]);
    syscall_writev(&mut b, &mut e, &[]);
    assert_eq!(result(&b), 0);
    let fd = e.file_system.insert_file(FileIO::LocalSocket);
    call(&mut b, &[fd as u64, DATA, 1]);
    syscall_writev(&mut b, &mut e, &[2]);
    assert_eq!(result(&b), 2);
}

#[test]
fn a_driver_gets_the_parts_of_a_gathered_write() {
    let (mut b, mut e) = guest();
    b.mem_write(DATA + 0x100, b"abc").unwrap();
    for (i, (base, len)) in [(DATA + 0x100, 3), (DATA, 0), (DATA + 0x101, 2), (0x6000_0000, 4)]
        .iter()
        .enumerate()
    {
        b.mem_write_u64(DATA + 16 * i as u64, *base).unwrap();
        b.mem_write_u64(DATA + 16 * i as u64 + 8, *len).unwrap();
    }
    call(&mut b, &[1, DATA, 4]);
    assert_eq!(writev_request(&b, &e, 0), None);
    let fd = e.file_system.insert_file(FileIO::LocalSocket);
    call(&mut b, &[fd as u64, DATA, 4]);
    assert_eq!(writev_request(&b, &e, 0), Some((fd, b"abc".to_vec())));
    assert_eq!(writev_request(&b, &e, 1), None);
    assert_eq!(writev_request(&b, &e, 2), Some((fd, b"bc".to_vec())));
    assert_eq!(writev_request(&b, &e, 3), Some((fd, vec![])));
    syscall_writev(&mut b, &mut e, &[3, 0, 2, 0]);
    assert_eq!(result(&b), 5);
    b.mem_write_u64(DATA + 8, u64::MAX).unwrap();
    b.mem_map(0x4000_0000, 0x20_0000, PERM_READ_WRITE).unwrap();
    b.mem_write_u64(DATA, 0x4000_0000).unwrap();
    call(&mut b, &[fd as u64, DATA, 1]);
    assert_eq!(writev_request(&b, &e, 0).unwrap().1.len(), 0x10_0000);
    call(&mut b, &[50, DATA, 1]);
    assert_eq!(writev_request(&b, &e, 0), None);
}

#[test]
fn a_closed_file_is_gone() {
    let (mut b, mut e) = guest();
    call(&mut b, &[1]);
    syscall_close(&mut b, &mut e);
    assert_eq!(result(&b), 0);
    call(&mut b, &[1]);
    syscall_close(&mut b, &mut e);
    assert_eq!((result(&b), errno(&b, &e)), (-9, 9));
    call(&mut b, &[u64::MAX]);
    syscall_close(&mut b, &mut e);
    assert_eq!(result(&b), -9);
}

#[test]
fn seeks_answer_with_their_place_or_fault() {
    let (mut b, mut e) = guest();
    call(&mut b, &[0, 5, 0]);
    syscall_lseek(&mut b, &mut e, SeekResult::OffsetError);
    assert_eq!(result(&b), 5);
    call(&mut b, &[0, 5, 9]);
    syscall_lseek(&mut b, &mut e, SeekResult::OffsetError);
    assert_eq!(result(&b), -22);
    let fd = e.file_system.insert_file(bytes_file(SYSTEM_FILE)) as u64;
    call(&mut b, &[fd, 5, 0]);
    syscall_lseek(&mut b, &mut e, SeekResult::Pos(42));
    assert_eq!(result(&b), 42);
    call(&mut b, &[fd, 5, 0]);
    syscall_lseek(&mut b, &mut e, SeekResult::OffsetError);
    assert_eq!(result(&b), -6);
    call(&mut b, &[DATA]);
    syscall_pipe2(&mut b, &mut e);
    call(&mut b, &[4, 0, 0]);
    syscall_lseek(&mut b, &mut e, SeekResult::Pos(1));
    assert_eq!((result(&b), errno(&b, &e)), (-29, 29));
    call(&mut b, &[99, 0, 0]);
    syscall_lseek(&mut b, &mut e, SeekResult::Pos(1));
    assert_eq!(result(&b), -9);
}

#[test]
fn descriptions_are_stored() {
    let (mut b, mut e) = guest();
    call(&mut b, &[1, DATA]);
    syscall_fstat(&mut b, &mut e, &[7, 8]);
    assert_eq!(b.reg_read(RegisterARM64::X0), 1);
    assert_eq!(b.mem_read_as_vec(DATA, 2).unwrap(), vec![7, 8]);
    call(&mut b, &[9, DATA]);
    syscall_fstat(&mut b, &mut e, &[1]);
    assert_eq!(result(&b), -9);
}

#[test]
fn paths_are_described_by_the_resolver() {
    let (mut b, mut e) = guest();
    b.mem_write(DATA, b"/etc/x\0").unwrap();
    b.mem_write(DATA + 0x80, b"etc\0").unwrap();
    let here = (-100i64) as u64;
    call(&mut b, &[here, DATA, DATA + 0x100]);
    syscall_fstatat(&mut b, &mut e, StatReply::Stat(vec![3, 4]));
    assert_eq!(b.reg_read_i32(RegisterARM64::X0), -100);
    assert_eq!(b.mem_read_as_vec(DATA + 0x100, 2).unwrap(), vec![3, 4]);
    call(&mut b, &[here, DATA, DATA + 0x100]);
    syscall_fstatat(&mut b, &mut e, StatReply::Missing);
    assert_eq!(result(&b), -2);
    call(&mut b, &[here, DATA, DATA + 0x100]);
    syscall_fstatat(&mut b, &mut e, StatReply::Error(13));
    assert_eq!((result(&b), errno(&b, &e)), (-100, 13));
    call(&mut b, &[3, DATA, DATA + 0x100]);
    syscall_fstatat(&mut b, &mut e, StatReply::Missing);
    assert_eq!(result(&b), -9);
    call(&mut b, &[here, DATA + 0x80, DATA + 0x100]);
    syscall_fstatat(&mut b, &mut e, StatReply::Missing);
    assert_eq!(result(&b), -2);
}

#[test]
fn directories_are_listed() {
    let (mut b, mut e) = guest();
    let fd = e.file_system.insert_file(FileIO::Direction(Direction {
        path: "/d".to_string(),
        mode: 0o040755,
    }));
    call(&mut b, &[fd as u64, DATA, 64]);
    syscall_getdents64(&mut b, &mut e, &[1, 2, 3], 3);
    assert_eq!(result(&b), 3);
    assert_eq!(b.mem_read_as_vec(DATA, 3).unwrap(), vec![1, 2, 3]);
    call(&mut b, &[44, DATA, 64]);
    syscall_getdents64(&mut b, &mut e, &[], 0);
    assert_eq!(result(&b), -9);
}

#[test]
fn only_local_sockets_are_made() {
    let (mut b, mut e) = guest();
    call(&mut b, &[1, 1, 0]);
    syscall_socket(&mut b, &mut e);
    assert_eq!(result(&b), 3);
    call(&mut b, &[3, DATA, 16]);
    syscall_connect(&mut b, &mut e, -111);
    assert_eq!(result(&b), -111);
    call(&mut b, &[2, 1, 0]);
    syscall_socket(&mut b, &mut e);
    assert_eq!((result(&b), errno(&b, &e)), (-97, 97));
    call(&mut b, &[1, DATA, 16]);
    syscall_connect(&mut b, &mut e, 0);
    assert_eq!(result(&b), -88);
    call(&mut b, &[30, DATA, 16]);
    syscall_connect(&mut b, &mut e, 0);
    assert_eq!(result(&b), -9);
    from_libc(&mut b, &mut e);
    call(&mut b, &[3, DATA, 16]);
    syscall_connect(&mut b, &mut e, 0);
    assert_eq!(result(&b), -13);
}

#[test]
fn control_gives_flags_and_duplicates_nothing() {
    let (mut b, mut e) = guest();
    call(&mut b, &[1, 3, 0]);
    syscall_nr3264_fcntl(&mut b, &mut e);
    assert_eq!(result(&b), 1);
    call(&mut b, &[1, 2, 1]);
    syscall_nr3264_fcntl(&mut b, &mut e);
    assert_eq!(result(&b), 0);
    call(&mut b, &[1, 0, 0]);
    syscall_nr3264_fcntl(&mut b, &mut e);
    assert_eq!((result(&b), errno(&b, &e)), (-38, 38));
    call(&mut b, &[1, 1030, 0]);
    syscall_nr3264_fcntl(&mut b, &mut e);
    assert_eq!(result(&b), -38);
    call(&mut b, &[60, 3, 0]);
    syscall_nr3264_fcntl(&mut b, &mut e);
    assert_eq!(result(&b), -9);
    let fd = e.file_system.insert_file(FileIO::Error(1)) as u64;
    call(&mut b, &[fd, 3, 0]);
    syscall_nr3264_fcntl(&mut b, &mut e);
    assert_eq!(result(&b), -9);
    call(&mut b, &[fd, 1, 0]);
    syscall_nr3264_fcntl(&mut b, &mut e);
    assert_eq!(result(&b), 0);
}

#[test]
fn special_paths_open_as_devices() {
    let mut fs = FileSystem::new();
    assert_eq!(open(&mut fs, "/dev/__properties__", 0, true, None, "/img", true), (-1, 1));
    assert_eq!(open(&mut fs, "/dev/urandom", 0, false, None, "/img", false), (0, 0));
    assert_eq!(open(&mut fs, "/proc/meminfo", 0, false, None, "/img", false), (1, 0));
    assert_eq!(open(&mut fs, "/proc/cpuinfo", 0, false, None, "/img", false), (2, 0));
    assert_eq!(
        open(&mut fs, "/proc/sys/kernel/random/boot_id", 0, false, None, "/img", false),
        (3, 0)
    );
    assert_eq!(open(&mut fs, "/proc/self/maps", 0, false, None, "/img", false), (4, 0));
    assert_eq!(open(&mut fs, "/dev/null", 0, false, None, "/img", false), (5, 0));
    assert!(matches!(fs.get_file(5), Some(FileIO::Bytes(f)) if f.bytes.is_empty()));
    assert_eq!(open(&mut fs, "/proc/stat", 0, false, None, "/img", true), (-1, 1));
    assert_eq!(open(&mut fs, "/proc/stat", 0, true, None, "/img", true), (6, 0));
    assert!(matches!(fs.get_file(6), Some(FileIO::Bytes(f)) if f.bytes == proc_stat()));
}

#[test]
fn the_load_statistics_count_eight_processors() {
    let text = String::from_utf8(proc_stat()).unwrap();
    let mut want = "cpu 9160 11352 15848 9160 11352 1584 80 0 0 0".to_string();
    for i in 0..8 {
        want += &format!("cpu{} 1145 1419 1981 1145 1419 198 10 0 0 0", i);
    }
    assert_eq!(text, want);
}

#[test]
fn other_paths_open_from_resolver_or_host() {
    let mut fs = FileSystem::new();
    assert_eq!(
        open(&mut fs, "/a", 0, false, Some(bytes_file(SYSTEM_FILE)), "/img", true),
        (0, 0)
    );
    assert_eq!(open(&mut fs, "/a", 0, false, Some(FileIO::Error(13)), "/img", true), (-13, 13));
    assert_eq!(open(&mut fs, "/lib/x", 2, false, None, "/img", true), (1, 0));
    match fs.get_file(1) {
        Some(FileIO::File(LinuxFileIO { host_path, path, oflags, .. })) => {
            assert_eq!((host_path.as_str(), path.as_str(), *oflags), ("/img/lib/x", "/lib/x", 2));
        }
        _ => panic!("no host file"),
    }
    assert_eq!(open(&mut fs, "/lib/x", 2, false, None, "/img", false), (-2, 2));
    assert_eq!(open(&mut fs, "lib/x", 2, false, None, "/img", true), (-2, 2));
    assert_eq!(host_path("/img", "//a/b"), "/img/a/b");
    assert_eq!(host_path("/img/", "/a"), "/img/a");
    assert_eq!(host_path("", "/a"), "a");
}

#[test]
fn opening_by_call_sets_result_and_error() {
    let (mut b, mut e) = guest();
    b.mem_write(DATA, b"/dev/urandom\0").unwrap();
    call(&mut b, &[(-100i64) as u64, DATA, 0, 0]);
    syscall_openat(&mut b, &mut e, None, false);
    assert_eq!((result(&b), errno(&b, &e)), (3, 0));
    b.mem_write(DATA, b"/none\0").unwrap();
    call(&mut b, &[(-100i64) as u64, DATA, 0, 0]);
    syscall_openat(&mut b, &mut e, None, false);
    assert_eq!((result(&b), errno(&b, &e)), (-2, 2));
    b.mem_write(DATA, b"/dev/pmsg0\0").unwrap();
    call(&mut b, &[(-100i64) as u64, DATA, 0, 0]);
    syscall_openat(&mut b, &mut e, None, true);
    assert_eq!((result(&b), errno(&b, &e)), (-1, 1));
    b.mem_write(DATA, b"/data/misc/zoneinfo/current/tzdata\0").unwrap();
    call(&mut b, &[(-100i64) as u64, DATA, 0, 0]);
    syscall_openat(&mut b, &mut e, None, true);
    assert_eq!((result(&b), errno(&b, &e)), (-12, 12));
}
