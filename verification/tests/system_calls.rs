//! System calls on paths, memory, time and the process.
use rnidbg::backend::{Backend, RegisterARM64, PERM_READ, PERM_READ_WRITE};
use rnidbg::emulator::dispatcher::ThreadDispatcher;
use rnidbg::emulator::state::AndroidEmulator;
use rnidbg::linux::errno::Errno;
use rnidbg::linux::file_system::FileSystem;
use rnidbg::linux::syscalls::memory::{
    mmap_request, munmap_request, syscall_brk, syscall_madvise, syscall_mmap, syscall_mprotect,
    syscall_munmap, MmapReply, MmapRequest,
};
use rnidbg::linux::syscalls::paths::{
    syscall_dup3, syscall_faccessat, syscall_getcwd, syscall_ioctl, syscall_mkdirat,
    syscall_readlinkat, syscall_renameat, syscall_statfs, syscall_uname,
};
use rnidbg::linux::syscalls::process::{
    syscall_enosys, syscall_geteuid, syscall_getpid, syscall_getppid, syscall_getrandom,
    syscall_gettid, syscall_getuid, syscall_kill, syscall_membarrier, syscall_nanosleep,
    syscall_prctl, syscall_rseq, syscall_rt_sigaction, syscall_rt_sigtimedwait,
    syscall_rt_tgsigqueueinfo, syscall_sched_getaffinity, syscall_sched_setaffinity,
    syscall_sched_yield, syscall_set_robust_list, syscall_sigaltstack, syscall_statx,
    syscall_wait4, tell_random,
};
use rnidbg::linux::syscalls::time::{
    kind_of_clock, syscall_clock_gettime, syscall_gettimeofday, tell_clock, tell_day, ClockKind,
};
use rnidbg::linux::thread::ChildTable;
use rnidbg::memory::loader::{AndroidElfLoader, GuestLayout};
use rnidbg::memory::region::MemoryMap;
use rnidbg::memory::svc_memory::SvcMemory;

const DATA: u64 = 0x10_0000;

/// The guest's error number.
fn errno(b: &Backend, e: &AndroidEmulator) -> i32 {
    b.mem_read_u32(e.errno).unwrap() as i32
}

fn guest() -> (Backend, AndroidEmulator) {
    let mut b = Backend::new();
    b.mem_map(DATA, 0x4000, PERM_READ_WRITE).unwrap();
    let layout = GuestLayout { stack_base: 0x7000_0000, stack_pages: 64, mmap_base: 0x4000_0000 };
    let (memory, errno) = AndroidElfLoader::new(&mut b, layout, 100, "app").unwrap();
    let e = AndroidEmulator {
        brk: 0,
        heap_base: 0x9000_0000,
        pid: 2667,
        ppid: 2427,
        errno,
        exit_status: None,
        exec_path: None,
        proc_name: "app".to_string(),
        base_path: "/img".to_string(),
        next_task_id: 3,
        file_system: FileSystem::new(),
        memory,
        thread_dispatcher: ThreadDispatcher::new(),
        svc_memory: SvcMemory::new(0x2000_0000, 0x1000),
        children: ChildTable { children: vec![] },
        stop: None,
        clock_start: None,
    };
    (b, e)
}

fn call(b: &mut Backend, args: &[u64]) {
    let regs = [
        RegisterARM64::X0,
        RegisterARM64::X1,
        RegisterARM64::X2,
        RegisterARM64::X3,
        RegisterARM64::X4,
        RegisterARM64::X5,
    ];
    for (i, a) in args.iter().enumerate() {
        b.reg_write(regs[i], *a);
    }
}

fn result(b: &Backend) -> i64 {
    b.reg_read_i64(RegisterARM64::X0)
}

fn put_text(b: &mut Backend, at: u64, s: &str) {
    let mut v = s.as_bytes().to_vec();
    v.push(0);
    b.mem_write(at, &v).unwrap();
}

#[test]
fn a_refusal_without_room_for_its_number_changes_no_memory() {
    let (mut b, mut e) = guest();
    let page = b.mem_read_as_vec(DATA, 0x4000).unwrap();
    e.errno = 0x6000_0000;
    syscall_statx(&mut b, &mut e);
    assert_eq!(result(&b), -38);
    e.errno = DATA + 0x3ffe;
    syscall_statx(&mut b, &mut e);
    assert_eq!(b.mem_read_as_vec(DATA, 0x4000).unwrap(), page);
    e.errno = DATA + 0x10;
    syscall_statx(&mut b, &mut e);
    assert_eq!(b.mem_read_u32(DATA + 0x10), Ok(38));
}

#[test]
fn unknown_calls_are_not_there() {
    let (mut b, mut e) = guest();
    b.reg_write(RegisterARM64::X5, 9);
    syscall_enosys(&mut b, &mut e, 9999);
    assert_eq!((result(&b), errno(&b, &e)), (-38, 38));
    assert_eq!(b.reg_read(RegisterARM64::X5), 9);
    b.mem_write_u32(e.errno, 0).unwrap();
    syscall_statx(&mut b, &mut e);
    assert_eq!((result(&b), errno(&b, &e)), (-38, 38));
}

#[test]
fn error_numbers_are_those_of_the_kernel() {
    let all = [
        (Errno::OK, 0),
        (Errno::EPERM, 1),
        (Errno::ENOENT, 2),
        (Errno::ENXIO, 6),
        (Errno::EBADF, 9),
        (Errno::ECHILD, 10),
        (Errno::EAGAIN, 11),
        (Errno::ENOMEM, 12),
        (Errno::EACCES, 13),
        (Errno::EFAULT, 14),
        (Errno::EEXIST, 17),
        (Errno::EINVAL, 22),
        (Errno::ENOTTY, 25),
        (Errno::ESPIPE, 29),
        (Errno::EROFS, 30),
        (Errno::ERANGE, 34),
        (Errno::ENOSYS, 38),
        (Errno::ENOTSOCK, 88),
        (Errno::EAFNOSUPPORT, 97),
        (Errno::ETIMEDOUT, 110),
    ];
    for (e, n) in all {
        assert_eq!(e.as_i32(), n);
    }
}

#[test]
fn identity_calls_give_fixed_numbers() {
    let (mut b, e) = guest();
    syscall_geteuid(&mut b, &e);
    assert_eq!(result(&b), 10261);
    syscall_getuid(&mut b, &e);
    assert_eq!(result(&b), 10261);
    syscall_getpid(&mut b, &e);
    assert_eq!(result(&b), 2667);
    syscall_getppid(&mut b, &e);
    assert_eq!(result(&b), 2427);
    syscall_gettid(&mut b, &e);
    assert_eq!(result(&b), 2667);
}

#[test]
fn calls_without_effect_give_zero() {
    let (mut b, e) = guest();
    let calls: [fn(&mut Backend, &AndroidEmulator); 8] = [
        syscall_prctl,
        syscall_kill,
        syscall_rt_tgsigqueueinfo,
        syscall_sched_yield,
        syscall_sched_setaffinity,
        syscall_set_robust_list,
        syscall_rseq,
        syscall_membarrier,
    ];
    for f in calls {
        b.reg_write(RegisterARM64::X0, 55);
        f(&mut b, &e);
        assert_eq!(result(&b), 0);
    }
}

#[test]
fn signal_calls_tell_of_nothing_set() {
    let (mut b, mut e) = guest();
    b.mem_write(DATA, &[0xff; 64]).unwrap();
    call(&mut b, &[0, DATA]);
    syscall_sigaltstack(&mut b, &e);
    assert_eq!(result(&b), 0);
    assert_eq!(b.mem_read_as_vec(DATA, 25).unwrap(), [vec![0; 24], vec![0xff]].concat());
    b.mem_write(DATA, &[0xff; 64]).unwrap();
    call(&mut b, &[0, 0, DATA]);
    syscall_rt_sigaction(&mut b, &e);
    assert_eq!(result(&b), 0);
    assert_eq!(b.mem_read_as_vec(DATA, 33).unwrap(), [vec![0; 32], vec![0xff]].concat());
    b.mem_write(DATA, &[0xff; 64]).unwrap();
    call(&mut b, &[0, DATA]);
    syscall_rt_sigtimedwait(&mut b, &e);
    assert_eq!(result(&b), 2);
    assert_eq!(b.mem_read_u32(DATA), Ok(2));
    assert_eq!(b.mem_read_u32(DATA + 4), Ok(u32::MAX));
    assert_eq!(b.mem_read_u32(DATA + 8), Ok(0));
    call(&mut b, &[1, 0]);
    syscall_rt_sigtimedwait(&mut b, &e);
    assert_eq!(result(&b), 2);
    syscall_wait4(&mut b, &mut e);
    assert_eq!((result(&b), errno(&b, &e)), (-10, 10));
}

#[test]
fn sleeps_are_over_at_once() {
    let (mut b, e) = guest();
    b.mem_write(DATA, &[0xff; 20]).unwrap();
    call(&mut b, &[0, DATA]);
    syscall_nanosleep(&mut b, &e);
    assert_eq!(result(&b), 0);
    assert_eq!(b.mem_read_as_vec(DATA, 17).unwrap(), [vec![0; 16], vec![0xff]].concat());
}

#[test]
fn threads_run_on_the_first_processor() {
    let (mut b, e) = guest();
    b.mem_write(DATA, &[0xff; 200]).unwrap();
    call(&mut b, &[0, 16, DATA]);
    syscall_sched_getaffinity(&mut b, &e);
    assert_eq!(result(&b), 8);
    assert_eq!(b.mem_read_u64(DATA), Ok(1));
    assert_eq!(b.mem_read_u64(DATA + 8), Ok(0));
    assert_eq!(b.mem_read_as_vec(DATA + 16, 1).unwrap(), vec![0xff]);
    call(&mut b, &[0, 1000, DATA]);
    syscall_sched_getaffinity(&mut b, &e);
    assert_eq!(b.mem_read_as_vec(DATA + 127, 2).unwrap(), vec![0, 0xff]);
    call(&mut b, &[0, 3, 0]);
    syscall_sched_getaffinity(&mut b, &e);
    assert_eq!(result(&b), 3);
    call(&mut b, &[0, 0, DATA]);
    syscall_sched_getaffinity(&mut b, &e);
    assert_eq!(result(&b), 0);
}

#[test]
fn random_bytes_are_stored() {
    let (mut b, mut e) = guest();
    call(&mut b, &[DATA, 4]);
    tell_random(&mut b, &mut e, &[9, 8, 7, 6]);
    assert_eq!(result(&b), 4);
    assert_eq!(b.mem_read_as_vec(DATA, 4).unwrap(), vec![9, 8, 7, 6]);
    call(&mut b, &[0x5000_0000, 4]);
    tell_random(&mut b, &mut e, &[9, 8, 7, 6]);
    assert_eq!((result(&b), errno(&b, &e)), (-14, 14));
    call(&mut b, &[DATA, 0x1000]);
    syscall_getrandom(&mut b, &mut e);
    assert_eq!(result(&b), 0x1000);
    let data = b.mem_read_as_vec(DATA, 0x1000).unwrap();
    assert!(data.iter().any(|x| *x != data[0]));
    call(&mut b, &[DATA, 0x20000]);
    syscall_getrandom(&mut b, &mut e);
    assert_eq!(result(&b), -14);
    b.mem_map(0x5000_0000, 0x20000, PERM_READ_WRITE).unwrap();
    call(&mut b, &[0x5000_0000, 0x20000]);
    syscall_getrandom(&mut b, &mut e);
    assert_eq!(result(&b), 0x10000);
}

#[test]
fn the_heap_grows_and_shrinks_back() {
    let (mut b, mut e) = guest();
    call(&mut b, &[0]);
    syscall_brk(&mut b, &mut e);
    assert_eq!((b.reg_read(RegisterARM64::X0), e.brk), (0x9000_0000, 0x9000_0000));
    call(&mut b, &[0x9000_2000]);
    syscall_brk(&mut b, &mut e);
    assert_eq!((b.reg_read(RegisterARM64::X0), e.brk), (0x9000_2000, 0x9000_2000));
    b.mem_write(0x9000_1fff, &[1]).unwrap();
    call(&mut b, &[0x9000_2000]);
    syscall_brk(&mut b, &mut e);
    assert_eq!(b.mem_read_as_vec(0x9000_1fff, 1).unwrap(), vec![1]);
    call(&mut b, &[0x9000_0000]);
    syscall_brk(&mut b, &mut e);
    assert_eq!(e.brk, 0x9000_0000);
    assert!(!b.is_mapped(0x9000_0000, 1));
    call(&mut b, &[0x9000_0004]);
    syscall_brk(&mut b, &mut e);
    assert_eq!((result(&b), errno(&b, &e), e.brk), (-22, 22, 0x9000_0000));
}

#[test]
fn mapping_calls_ask_and_answer() {
    let (mut b, mut e) = guest();
    call(&mut b, &[0x1000, 0xffff_fffe, 3, 0x22, u64::MAX, 0x7_ffff]);
    assert_eq!(
        mmap_request(&b),
        MmapRequest {
            start: 0x1000,
            length: u64::MAX - 1,
            prot: 3,
            flags: 0x22,
            fd: -1,
            offset: 0x7fff_f000,
        }
    );
    b.reg_write(RegisterARM64::X5, 0x8_0000);
    assert_eq!(mmap_request(&b).offset, -0x8000_0000);
    syscall_mmap(&mut b, &mut e, MmapReply::Mapped(0x4000_1000));
    assert_eq!(result(&b), 0x4000_1000);
    syscall_mmap(&mut b, &mut e, MmapReply::Refused(Errno::ENOMEM));
    assert_eq!((result(&b), errno(&b, &e)), (-12, 12));
    syscall_mmap(&mut b, &mut e, MmapReply::Failed);
    assert_eq!((result(&b), errno(&b, &e)), (-11, 11));
    call(&mut b, &[0x5000, 0x1000]);
    assert_eq!(munmap_request(&b), (0x5000, 0x1000));
    syscall_munmap(&mut b, &mut e, true);
    assert_eq!(result(&b), 0);
    syscall_munmap(&mut b, &mut e, false);
    assert_eq!((result(&b), errno(&b, &e)), (-22, 22));
}

#[test]
fn protection_is_changed_by_pages() {
    let (mut b, mut e) = guest();
    call(&mut b, &[DATA + 0x10, 0x1000, PERM_READ as u64]);
    syscall_mprotect(&mut b, &mut e);
    assert_eq!(result(&b), 0);
    call(&mut b, &[0x6000_0000, 0x10, 1]);
    syscall_mprotect(&mut b, &mut e);
    assert_eq!((result(&b), errno(&b, &e)), (-22, 22));
    call(&mut b, &[DATA + 0x3010, 0x1000, 1]);
    syscall_mprotect(&mut b, &mut e);
    assert_eq!(result(&b), -22);
}

#[test]
fn advice_is_for_recorded_ranges() {
    let (mut b, mut e) = guest();
    e.memory.memory_map.insert(DATA, MemoryMap { base: DATA, size: 0x4000, prot: 3 });
    call(&mut b, &[DATA, 0x1000, 9]);
    syscall_madvise(&mut b, &mut e);
    assert_eq!(result(&b), 0);
    for (addr, len, advice) in
        [(0, 0x1000, 4), (DATA + 8, 0x1000, 4), (DATA, 0x10, 9), (DATA + 0x1000, 0x1000, 9)]
    {
        call(&mut b, &[addr, len, advice]);
        syscall_madvise(&mut b, &mut e);
        assert_eq!((result(&b), errno(&b, &e)), (-22, 22));
    }
}

#[test]
fn the_time_of_day_is_told() {
    let (mut b, e) = guest();
    call(&mut b, &[DATA, DATA + 16]);
    tell_day(&mut b, 1_700_000_000, 123_456_789);
    assert_eq!(result(&b), 0);
    assert_eq!(b.mem_read_u64(DATA), Ok(1_700_000_000));
    assert_eq!(b.mem_read_u64(DATA + 8), Ok(123_456_789));
    assert_eq!(b.mem_read_u32(DATA + 16), Ok((-480i32) as u32));
    assert_eq!(b.mem_read_u32(DATA + 20), Ok(0));
    call(&mut b, &[DATA, 0]);
    syscall_gettimeofday(&mut b, &e).unwrap();
    assert_eq!(result(&b), 0);
    assert!(b.mem_read_u64(DATA).unwrap() > 1_700_000_000);
    assert!(b.mem_read_u64(DATA + 8).unwrap() < 2_000_000_000);
}

#[test]
fn clocks_show_their_reading() {
    let (mut b, mut e) = guest();
    let cases = [
        (0, Some((100, 5_999)), Some((28_900, 5))),
        (1, Some((7, 8)), Some((7, 8))),
        (3, Some((7, 8)), Some((0, 8))),
        (4, Some((7, 8)), Some((7, 8))),
        (5, Some((7, 8)), Some((7, 8))),
        (6, Some((7, 8)), Some((7, 8))),
        (7, Some((7, 8)), Some((7, 8))),
        (5, None, None),
        (2, None, None),
        (11, Some((7, 8)), None),
    ];
    for (id, reading, want) in cases {
        call(&mut b, &[id, DATA]);
        tell_clock(&mut b, &mut e, reading);
        match want {
            Some((s, n)) => {
                assert_eq!(result(&b), 0);
                assert_eq!(b.mem_read_u64(DATA), Ok(s));
                assert_eq!(b.mem_read_u64(DATA + 8), Ok(n));
            }
            None => assert_eq!((result(&b), errno(&b, &e)), (-22, 22)),
        }
    }
    assert_eq!(kind_of_clock(3), ClockKind::ThreadCpu);
}

#[test]
fn steady_clocks_never_go_back() {
    let (mut b, mut e) = guest();
    call(&mut b, &[1, DATA]);
    syscall_clock_gettime(&mut b, &mut e).unwrap();
    let start = e.clock_start;
    assert!(start.is_some());
    let first = (b.mem_read_u64(DATA).unwrap(), b.mem_read_u64(DATA + 8).unwrap());
    call(&mut b, &[4, DATA]);
    syscall_clock_gettime(&mut b, &mut e).unwrap();
    let second = (b.mem_read_u64(DATA).unwrap(), b.mem_read_u64(DATA + 8).unwrap());
    assert!(first <= second);
    assert_eq!(e.clock_start, start);
    assert!(second.1 < 1_000_000_000);
}

#[test]
fn the_wall_clock_runs_eight_hours_ahead() {
    let (mut b, mut e) = guest();
    call(&mut b, &[5, DATA]);
    syscall_clock_gettime(&mut b, &mut e).unwrap();
    let coarse = b.mem_read_u64(DATA).unwrap();
    call(&mut b, &[0, DATA]);
    syscall_clock_gettime(&mut b, &mut e).unwrap();
    let ahead = b.mem_read_u64(DATA).unwrap();
    assert!(ahead >= coarse + 28_800 && ahead < coarse + 28_860);
    assert!(b.mem_read_u64(DATA + 8).unwrap() < 1_000_000);
    call(&mut b, &[2, 0]);
    syscall_clock_gettime(&mut b, &mut e).unwrap();
    assert_eq!((result(&b), errno(&b, &e)), (-22, 22));
    assert!(e.clock_start.is_none());
}

#[test]
fn directories_cannot_be_made() {
    let (mut b, mut e) = guest();
    for (fd, path, number) in [
        (-100i64, "x", 2),
        (-100, "", 2),
        (5, "/x", 9),
        (-100, "/sdcard/Android", 17),
        (-100, "/sdcard/Android/", 17),
        (-100, "/sdcard/other", 13),
    ] {
        put_text(&mut b, DATA, path);
        call(&mut b, &[fd as u64, DATA, 0o755]);
        syscall_mkdirat(&mut b, &mut e);
        assert_eq!((result(&b), errno(&b, &e)), (-number as i64, number));
    }
    put_text(&mut b, DATA, "/a");
    put_text(&mut b, DATA + 0x80, "b");
    call(&mut b, &[0, DATA, 0, DATA + 0x80]);
    syscall_renameat(&mut b, &mut e);
    assert_eq!((result(&b), errno(&b, &e)), (-30, 30));
}

#[test]
fn access_knows_special_paths() {
    let (mut b, mut e) = guest();
    for (path, on_host, ok) in [
        ("/dev/null", false, true),
        ("/dev/urandom", false, true),
        ("/dev/zero", false, true),
        ("/proc/self/maps", false, true),
        ("/proc/meminfo", false, true),
        ("/proc/cpuinfo", false, true),
        ("/proc/stat", false, true),
        ("/proc/self/exe", false, true),
        ("/data/data/com.tencent.mobileqq", false, true),
        ("/vendor/lib", true, false),
        ("/system/xbin/su", true, false),
        ("/proc/rk_x", true, false),
        ("/proc/device-tree/a", true, false),
        ("/proc/mpp_service", true, false),
        ("/sys/bus/platform/drivers/hisi-lpc/x", true, false),
        ("/hmdocker", true, false),
        ("/dev/__properties__", true, false),
        ("/system/lib64/libc.so", true, true),
        ("/system/lib64/libc.so", false, false),
        ("relative", true, false),
        ("/caf\u{e9}", true, false),
    ] {
        put_text(&mut b, DATA, path);
        call(&mut b, &[0, DATA, 0, 0]);
        syscall_faccessat(&mut b, &mut e, on_host);
        assert_eq!(result(&b), if ok { 0 } else { -2 }, "{}", path);
    }
}

#[test]
fn the_program_link_is_the_only_one() {
    let (mut b, mut e) = guest();
    put_text(&mut b, DATA, "/proc/self/exe");
    call(&mut b, &[0, DATA, DATA + 0x100, 100]);
    syscall_readlinkat(&mut b, &mut e);
    assert_eq!(result(&b), 15);
    assert_eq!(b.mem_read_as_vec(DATA + 0x100, 16).unwrap(), b"/system/bin/app\0");
    e.set_exec_path("/data/x".to_string());
    call(&mut b, &[0, DATA, DATA + 0x200, 5]);
    syscall_readlinkat(&mut b, &mut e);
    assert_eq!(result(&b), 5);
    assert_eq!(b.mem_read_as_vec(DATA + 0x200, 6).unwrap(), b"/data\0");
    call(&mut b, &[0, DATA, 0x6000_0000, 5]);
    syscall_readlinkat(&mut b, &mut e);
    assert_eq!((result(&b), errno(&b, &e)), (-14, 14));
    put_text(&mut b, DATA, "/proc/self/fd/1");
    call(&mut b, &[0, DATA, DATA + 0x200, 5]);
    syscall_readlinkat(&mut b, &mut e);
    assert_eq!((result(&b), errno(&b, &e)), (-2, 2));
}

#[test]
fn the_working_directory_needs_its_room() {
    let (mut b, mut e) = guest();
    call(&mut b, &[DATA, 16]);
    syscall_getcwd(&mut b, &mut e);
    assert_eq!(b.reg_read(RegisterARM64::X0), DATA);
    assert_eq!(b.mem_read_c_string(DATA).unwrap(), "/data/local/tmp");
    call(&mut b, &[DATA, 15]);
    syscall_getcwd(&mut b, &mut e);
    assert_eq!((result(&b), errno(&b, &e)), (-34, 34));
    call(&mut b, &[0x6000_0000, 16]);
    syscall_getcwd(&mut b, &mut e);
    assert_eq!((result(&b), errno(&b, &e)), (-14, 14));
}

#[test]
fn the_file_system_is_described() {
    let (mut b, e) = guest();
    put_text(&mut b, DATA, "/data");
    b.mem_write(DATA + 0x100, &[0xff; 128]).unwrap();
    call(&mut b, &[DATA, DATA + 0x100]);
    syscall_statfs(&mut b, &e);
    assert_eq!(result(&b), 0);
    let words: Vec<u64> =
        (0..15).map(|i| b.mem_read_u64(DATA + 0x100 + 8 * i).unwrap()).collect();
    assert_eq!(
        words,
        vec![0xEF53, 4096, 262144, 131072, 131072, 0, 0, 0, 255, 4096, 0, 0, 0, 0, 0]
    );
    assert_eq!(b.mem_read_u64(DATA + 0x178), Ok(u64::MAX));
}

#[test]
fn the_system_names_itself() {
    let (mut b, mut e) = guest();
    call(&mut b, &[DATA]);
    syscall_uname(&mut b, &mut e);
    assert_eq!(result(&b), 0);
    let names =
        ["Linux", "localhost", "6.6.0-android16-0", "#1 SMP PREEMPT", "aarch64", "localdomain"];
    for (i, name) in names.iter().enumerate() {
        assert_eq!(b.mem_read_c_string(DATA + 65 * i as u64).unwrap(), *name);
    }
    call(&mut b, &[DATA + 0x4000 - 389]);
    syscall_uname(&mut b, &mut e);
    assert_eq!((result(&b), errno(&b, &e)), (-14, 14));
}

#[test]
fn standard_files_are_terminals() {
    let (mut b, mut e) = guest();
    call(&mut b, &[1, 0x5413, DATA]);
    syscall_ioctl(&mut b, &mut e);
    assert_eq!(result(&b), 0);
    assert_eq!(b.mem_read_u64(DATA), Ok(0x0050_0018));
    call(&mut b, &[2, 0x540f, DATA]);
    syscall_ioctl(&mut b, &mut e);
    assert_eq!(b.mem_read_u32(DATA), Ok(2667));
    b.mem_write(DATA, &[1; 65]).unwrap();
    call(&mut b, &[0, 0x5401, DATA]);
    syscall_ioctl(&mut b, &mut e);
    assert_eq!(b.mem_read_as_vec(DATA, 65).unwrap(), [vec![0; 64], vec![1]].concat());
    call(&mut b, &[3, 0x5401, DATA]);
    syscall_ioctl(&mut b, &mut e);
    assert_eq!((result(&b), errno(&b, &e)), (-25, 25));
    call(&mut b, &[1, 0x1234, DATA]);
    syscall_ioctl(&mut b, &mut e);
    assert_eq!(result(&b), -25);
}

#[test]
fn duplicates_are_accepted() {
    let (mut b, e) = guest();
    call(&mut b, &[1, 7]);
    syscall_dup3(&mut b, &e);
    assert_eq!(result(&b), 7);
    call(&mut b, &[7, 7]);
    syscall_dup3(&mut b, &e);
    assert_eq!(result(&b), 7);
}
