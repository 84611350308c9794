//! Threads, their waits and their ends.
use rnidbg::backend::{Backend, RegisterARM64, PERM_READ_WRITE};
use rnidbg::elf::{ElfSymbol, SymbolEntry, SymbolTable};
use rnidbg::emulator::base_task::{
    apply_snap, capture_snap, BaseTask, EmulateRequest, FunctionCall, MemoryBlock, TaskStatus,
    Teardown,
};
use rnidbg::emulator::dispatcher::{AbstractTask, TaskKind, ThreadDispatcher, ThreadStart};
use rnidbg::emulator::state::AndroidEmulator;
use rnidbg::linux::file_system::{ByteArrayFileIO, DynamicIO, FileIO, FileSystem, SYSTEM_FILE};
use rnidbg::linux::module::LinuxModule;
use rnidbg::linux::pipe::{pipe_deliver, pipe_unread, PipeIO, PipeTable};
use rnidbg::linux::stdio::{StdinIO, StdoutIO};
use rnidbg::linux::syscalls::exit::{
    flush_one_file, flush_sglue_chain, syscall_exit, syscall_exit_group,
};
use rnidbg::linux::syscalls::process::syscall_gettid;
use rnidbg::linux::syscalls::threads::{
    futex_at, syscall_clone, syscall_fork, syscall_futex, syscall_rt_sigprocmask,
    syscall_set_tid_address,
};
use rnidbg::linux::thread::{
    clock_seconds, unlock_stale_futex, Child, ChildExitWaiter, ChildTable, ClockError,
    FutexIndefinitelyWaiter, FutexNanoSleepWaiter, PipeReadWaiter, PollWaiter, PollWatch, Waiter,
};
use rnidbg::memory::loader::{AndroidElfLoader, GuestLayout};
use rnidbg::memory::svc_memory::SvcMemory;

const DATA: u64 = 0x10_0000;

fn start() -> ThreadStart {
    ThreadStart { fn_ptr: 1, arg: 2, child_tid: 0, tls: 3, child_stack: 4 }
}

fn task(kind: TaskKind, id: u32) -> AbstractTask {
    let mut t = AbstractTask::new_thread(id, start());
    t.kind = kind;
    t
}

/// The guest's error number.
fn errno(b: &Backend, e: &AndroidEmulator) -> i32 {
    b.mem_read_u32(e.errno).unwrap() as i32
}

fn guest() -> (Backend, AndroidEmulator) {
    let mut b = Backend::new();
    b.mem_map(DATA, 0x4000, PERM_READ_WRITE).unwrap();
    let layout = GuestLayout { stack_base: 0x7000_0000, stack_pages: 64, mmap_base: 0x4000_0000 };
    let (memory, errno) = AndroidElfLoader::new(&mut b, layout, 100, "app").unwrap();
    let mut fs = FileSystem::new();
    fs.insert_file(FileIO::Dynamic(DynamicIO::Stdin(StdinIO::new())));
    fs.insert_file(FileIO::Dynamic(DynamicIO::Stdout(StdoutIO::stdout())));
    fs.insert_file(FileIO::Dynamic(DynamicIO::Stdout(StdoutIO::stderr())));
    let mut d = ThreadDispatcher::new();
    d.add_thread(task(TaskKind::Function64, 1));
    d.running = Some(0);
    d.context = Some(0);
    let e = AndroidEmulator {
        brk: 0,
        heap_base: 0x9000_0000,
        pid: 2667,
        ppid: 2427,
        errno,
        exit_status: None,
        exec_path: None,
        proc_name: "app".to_string(),
        base_path: "/img".to_string(),
        next_task_id: 3000,
        file_system: fs,
        memory,
        thread_dispatcher: d,
        svc_memory: SvcMemory::new(0x2000_0000, 0x1000),
        children: ChildTable { children: vec![] },
        stop: None,
        clock_start: None,
    };
    (b, e)
}

fn call(b: &mut Backend, args: &[u64]) {
    let regs = [
        RegisterARM64::X0,
        RegisterARM64::X1,
        RegisterARM64::X2,
        RegisterARM64::X3,
        RegisterARM64::X4,
        RegisterARM64::X5,
        RegisterARM64::X6,
    ];
    for (i, a) in args.iter().enumerate() {
        b.reg_write(regs[i], *a);
    }
}

fn result(b: &Backend) -> i64 {
    b.reg_read_i64(RegisterARM64::X0)
}

#[test]
fn a_lone_thread_never_parks() {
    let (mut b, mut e) = guest();
    b.mem_write_u32(DATA, 7).unwrap();
    call(&mut b, &[DATA, 0x80, 7, 0]);
    syscall_futex(&mut b, &mut e).unwrap();
    assert_eq!((result(&b), errno(&b, &e)), (-11, 11));
    assert!(e.stop.is_none());
}

#[test]
fn a_changed_word_is_not_waited_for() {
    let (mut b, mut e) = guest();
    e.thread_dispatcher.add_thread(task(TaskKind::MarshmallowThread, 2));
    b.mem_write_u32(DATA, 8).unwrap();
    call(&mut b, &[DATA, 0, 7, 0]);
    syscall_futex(&mut b, &mut e).unwrap();
    assert_eq!(result(&b), -11);
    call(&mut b, &[0x6000_0000, 0, 7, 0]);
    syscall_futex(&mut b, &mut e).unwrap();
    assert_eq!(result(&b), -11);
}

#[test]
fn a_futex_wait_parks_and_a_wake_frees_it() {
    let (mut b, mut e) = guest();
    e.thread_dispatcher.add_thread(task(TaskKind::MarshmallowThread, 2));
    b.mem_write_u32(DATA, 7).unwrap();
    call(&mut b, &[DATA, 9, 7, 0]);
    syscall_futex(&mut b, &mut e).unwrap();
    assert_eq!(e.stop, Some(TaskStatus::S));
    assert!(matches!(
        &e.thread_dispatcher.tasks[0].base.waiter,
        Some(Waiter::FutexIndefinite(w)) if w.uaddr == DATA && w.val == 7 && !w.woken_up
    ));
    call(&mut b, &[DATA + 4, 1, 9]);
    syscall_futex(&mut b, &mut e).unwrap();
    assert_eq!(result(&b), 0);
    call(&mut b, &[DATA, 10, 9]);
    syscall_futex(&mut b, &mut e).unwrap();
    assert_eq!(result(&b), 1);
    let AndroidEmulator { thread_dispatcher, file_system, children, .. } = &mut e;
    let t = &mut thread_dispatcher.tasks[0].base;
    assert_eq!(t.can_dispatch(&b, &file_system.pipes, children), Ok(true));
    t.continue_run(&mut b, &mut file_system.pipes, children, 0);
    assert_eq!(result(&b), 0);
    assert!(t.waiter.is_none());
}

#[test]
fn a_timed_wait_ends_by_the_clock() {
    let (mut b, mut e) = guest();
    e.thread_dispatcher.add_thread(task(TaskKind::MarshmallowThread, 2));
    b.mem_write_u32(DATA, 7).unwrap();
    b.mem_write_u64(DATA + 16, 2).unwrap();
    b.mem_write_u64(DATA + 24, 5_000_000).unwrap();
    call(&mut b, &[DATA, 0, 7, DATA + 16]);
    assert_eq!(futex_at(&mut b, &mut e, Some(100)), Ok(()));
    assert!(matches!(
        &e.thread_dispatcher.tasks[0].base.waiter,
        Some(Waiter::FutexNanoSleep(w)) if w.wait_millis == 2005 && w.start_time == 100
    ));
    let AndroidEmulator { thread_dispatcher, file_system, children, .. } = &mut e;
    let t = &mut thread_dispatcher.tasks[0].base;
    let pipes = &file_system.pipes;
    assert_eq!(t.can_dispatch_at(&b, pipes, children, Some(2104)), Ok(false));
    assert_eq!(t.can_dispatch_at(&b, pipes, children, Some(2105)), Ok(true));
    assert_eq!(t.can_dispatch_at(&b, pipes, children, Some(99)), Err(ClockError));
    assert_eq!(t.can_dispatch_at(&b, pipes, children, None), Err(ClockError));
    t.continue_run(&mut b, &mut file_system.pipes, children, 0);
    assert_eq!(result(&b), -110);
}

#[test]
fn a_timed_wait_needs_the_clock() {
    let (mut b, mut e) = guest();
    e.thread_dispatcher.add_thread(task(TaskKind::MarshmallowThread, 2));
    b.mem_write_u32(DATA, 7).unwrap();
    call(&mut b, &[DATA, 0, 7, DATA + 16]);
    assert_eq!(futex_at(&mut b, &mut e, None), Err(ClockError));
    call(&mut b, &[DATA, 0, 7, DATA + 16]);
    assert_eq!(syscall_futex(&mut b, &mut e), Ok(()));
    let now = clock_seconds().unwrap();
    assert!(now > 1_700_000_000);
    let w = FutexNanoSleepWaiter::new(DATA, 7, 0).unwrap();
    assert!(w.start_time >= now);
    assert_eq!(w.can_dispatch(&b), Ok(true));
}

#[test]
fn futex_flags_and_bit_sets_do_not_count() {
    let mut ends = vec![];
    for (op, bits) in [(0u64, 0u64), (0x80, 1), (9, 0xffff_ffff), (0x89, 5), (0x189, 7)] {
        let (mut b, mut e) = guest();
        e.thread_dispatcher.add_thread(task(TaskKind::MarshmallowThread, 2));
        b.mem_write_u32(DATA, 7).unwrap();
        b.reg_write(RegisterARM64::X5, bits);
        call(&mut b, &[DATA, op, 7, 0]);
        syscall_futex(&mut b, &mut e).unwrap();
        let parked = e.thread_dispatcher.tasks[0].base.waiter.is_some();
        let wake = if op & 0x7f == 0 { 1 } else { 10 };
        call(&mut b, &[DATA, wake | (op & 0x80), 1]);
        syscall_futex(&mut b, &mut e).unwrap();
        ends.push((parked, result(&b), errno(&b, &e), e.stop));
    }
    assert!(ends.iter().all(|end| *end == (true, 1, 0, Some(TaskStatus::S))));
}

#[test]
fn a_new_thread_has_run_nothing() {
    let start = task(TaskKind::MarshmallowThread, 2).start;
    let t = AbstractTask::new_thread(9, start);
    assert_eq!((t.id, t.base.get_task_status()), (9, TaskStatus::Z));
    assert!(t.base.stack.is_empty() && t.base.bag.is_empty());
    assert!(t.base.destroy_listener.is_none() && t.base.waiter.is_none());
}

#[test]
fn other_futex_commands_do_nothing() {
    let (mut b, mut e) = guest();
    for op in [3, 4, 5, 6, 0x83] {
        call(&mut b, &[DATA, op, 1, 0]);
        syscall_futex(&mut b, &mut e).unwrap();
        assert_eq!(result(&b), 0);
    }
}

#[test]
fn wakes_reach_the_first_waiters_only() {
    let mut d = ThreadDispatcher::new();
    for id in 0..4 {
        let mut t = task(TaskKind::MarshmallowThread, id);
        let at = if id == 1 { DATA + 4 } else { DATA };
        t.base.set_waiter(Waiter::FutexIndefinite(FutexIndefinitelyWaiter::new(at, 1)));
        d.add_thread(t);
    }
    assert_eq!(d.task_counts(), 4);
    assert_eq!(d.wake_futex(DATA, 2), 2);
    let woken: Vec<bool> = d
        .tasks
        .iter()
        .map(|t| matches!(&t.base.waiter, Some(Waiter::FutexIndefinite(w)) if w.woken_up))
        .collect();
    assert_eq!(woken, vec![true, false, true, false]);
    assert_eq!(d.wake_futex(DATA, 0), 0);
    assert_eq!(d.wake_futex(DATA, u32::MAX), 3);
}

#[test]
fn a_deadlock_release_unlocks_the_word() {
    let mut b = Backend::new();
    b.mem_map(DATA, 0x1000, PERM_READ_WRITE).unwrap();
    b.mem_write_u32(DATA, 2).unwrap();
    b.mem_write_u32(DATA + 4, 99).unwrap();
    let mut w = FutexIndefinitelyWaiter::new(DATA, 2);
    assert!(!w.can_dispatch(&b));
    assert!(w.release_for_deadlock(&mut b));
    assert!(w.can_dispatch(&b));
    assert_eq!((b.mem_read_u32(DATA), b.mem_read_u32(DATA + 4)), (Ok(0), Ok(0)));
    b.mem_write_u32(DATA, 8).unwrap();
    b.mem_write_u32(DATA + 4, 99).unwrap();
    unlock_stale_futex(&mut b, DATA, 9);
    assert_eq!(b.mem_read_u32(DATA), Ok(8));
    let mut s = FutexNanoSleepWaiter::started_at(DATA, 8, 1000, 5);
    assert_eq!(s.can_dispatch_at(&b, Some(6)), Ok(false));
    assert!(s.release_for_deadlock(&mut b));
    assert_eq!((b.mem_read_u32(DATA), b.mem_read_u32(DATA + 4)), (Ok(0), Ok(99)));
    s.on_continue_run(&mut b);
    assert_eq!(result(&b), 0);
    let mut s = FutexNanoSleepWaiter::started_at(DATA, 8, 1000, 5);
    assert!(!s.wake_up(DATA + 4));
    assert!(s.wake_up(DATA));
    assert_eq!(s.can_dispatch_at(&b, None), Ok(true));
}

#[test]
fn a_wait_without_a_wake_says_so() {
    let mut b = Backend::new();
    let mut w = FutexIndefinitelyWaiter::new(DATA, 2);
    assert!(w.can_dispatch(&b));
    w.on_continue_run(&mut b);
    assert_eq!(result(&b), -11);
    assert!(!w.wake_up(1));
    assert!(w.wake_up(DATA));
    w.on_continue_run(&mut b);
    assert_eq!(result(&b), 0);
}

#[test]
fn pipe_waits_give_way_once() {
    let mut b = Backend::new();
    b.mem_map(DATA, 0x1000, PERM_READ_WRITE).unwrap();
    let mut t = PipeTable::new();
    let (_, w) = PipeIO::pair(&mut t);
    let mut wait = PipeReadWaiter::new(0, DATA, 4);
    assert!(!wait.can_dispatch(&t));
    assert!(wait.can_dispatch(&t));
    wait.on_continue_run(&mut t, &mut b);
    assert_eq!(result(&b), 0);
    w.write(&mut t, b"abcdef");
    assert_eq!(pipe_unread(&t, 0), 6);
    let mut wait = PipeReadWaiter::new(0, DATA, 4);
    assert!(wait.can_dispatch(&t));
    wait.on_continue_run(&mut t, &mut b);
    assert_eq!(result(&b), 4);
    assert_eq!(b.mem_read_as_vec(DATA, 5).unwrap(), b"abcd\0");
    assert_eq!(pipe_deliver(&mut t, 0, &mut b, DATA, 9), 2);
    assert_eq!(b.mem_read_as_vec(DATA, 2).unwrap(), b"ef");
    assert_eq!(pipe_unread(&t, 0), 0);
}

#[test]
fn polls_answer_for_each_watch() {
    let mut b = Backend::new();
    b.mem_map(DATA, 0x1000, PERM_READ_WRITE).unwrap();
    b.mem_write(DATA, &[0xff; 16]).unwrap();
    let mut t = PipeTable::new();
    PipeIO::pair(&mut t);
    let (_, w) = PipeIO::pair(&mut t);
    let watches = || {
        vec![
            PollWatch::new(1, DATA, Some(0)),
            PollWatch::new(1, DATA + 2, Some(1)),
            PollWatch::new(4, DATA + 4, Some(1)),
            PollWatch::new(1, DATA + 6, None),
        ]
    };
    let mut p = PollWaiter::new(watches());
    assert!(!p.can_dispatch(&t));
    assert!(p.can_dispatch(&t));
    w.write(&mut t, b"x");
    let mut p = PollWaiter::new(watches());
    assert!(p.can_dispatch(&t));
    p.on_continue_run(&t, &mut b);
    assert_eq!(result(&b), 1);
    assert_eq!(b.mem_read_as_vec(DATA, 10).unwrap(), vec![0, 0, 1, 0, 0, 0, 0, 0, 0xff, 0xff]);
}

#[test]
fn a_child_is_waited_for() {
    let mut b = Backend::new();
    b.mem_map(DATA, 0x1000, PERM_READ_WRITE).unwrap();
    let mut t = ChildTable { children: vec![Child { alive: true, status: 0x1_02 }] };
    let w = ChildExitWaiter::new(55, DATA, 0);
    assert!(w.alive(&t));
    assert!(!w.can_dispatch(&t));
    t.children[0].alive = false;
    assert!(w.can_dispatch(&t));
    w.on_continue_run(&t, &mut b);
    assert_eq!(result(&b), 55);
    assert_eq!(b.mem_read_u32(DATA), Ok(0x0200));
    t.children[0].status = -1;
    w.on_continue_run(&t, &mut b);
    assert_eq!(b.mem_read_u32(DATA), Ok(0xff00));
}

#[test]
fn a_new_thread_is_queued() {
    let (mut b, mut e) = guest();
    b.mem_write_u64(DATA + 0x100, 0x1111).unwrap();
    b.mem_write_u64(DATA + 0x108, 0x2222).unwrap();
    call(&mut b, &[0, DATA + 0x100, DATA, 0x77, DATA + 8, 0, 0]);
    syscall_clone(&mut b, &mut e);
    assert_eq!(result(&b), 3000);
    assert_eq!(e.next_task_id, 3001);
    assert_eq!(b.mem_read_u32(DATA), Ok(3000));
    assert_eq!(b.mem_read_u32(DATA + 8), Ok(3000));
    let t = &e.thread_dispatcher.tasks[1];
    assert_eq!((t.kind, t.id), (TaskKind::MarshmallowThread, 3000));
    assert_eq!((t.start.fn_ptr, t.start.arg, t.start.tls), (0x1111, 0x2222, 0x77));
    assert_eq!((t.start.child_tid, t.start.child_stack), (DATA + 8, DATA + 0x100));
}

#[test]
fn a_clone_with_a_function_in_a_register_is_a_thread() {
    let (mut b, mut e) = guest();
    b.mem_write_u64(DATA + 0x100, 0x1111).unwrap();
    b.mem_write_u64(DATA + 0x108, 0x2222).unwrap();
    call(&mut b, &[0x0010_0000, DATA + 0x100, DATA, 0x77, 0, 0x1111, 0x2222]);
    syscall_clone(&mut b, &mut e);
    assert_eq!(result(&b), 3000);
    assert_eq!(b.mem_read_u32(DATA), Ok(3000));
    assert_eq!(e.thread_dispatcher.tasks[1].start.fn_ptr, 0x1111);
    call(&mut b, &[0x0010_0000, DATA + 0x200, 0, 0x77, 0, 0x1111, 0]);
    syscall_clone(&mut b, &mut e);
    assert_eq!((result(&b), errno(&b, &e)), (-22, 22));
    assert_eq!(e.thread_dispatcher.task_counts(), 2);
}

#[test]
fn a_fork_only_pretends() {
    let (mut b, mut e) = guest();
    call(&mut b, &[0, 0, 0]);
    syscall_clone(&mut b, &mut e);
    assert_eq!(result(&b), 3667);
    call(&mut b, &[0, DATA + 0x300, 1, 0, 0, 0, 0]);
    syscall_clone(&mut b, &mut e);
    assert_eq!(result(&b), 3667);
    e.pid = u32::MAX;
    syscall_fork(&mut b, &e);
    assert_eq!(result(&b), -1);
    assert_eq!(e.thread_dispatcher.task_counts(), 1);
}

#[test]
fn signal_masks_are_kept_per_thread() {
    let (mut b, mut e) = guest();
    e.thread_dispatcher.add_thread(task(TaskKind::MarshmallowThread, 2));
    e.thread_dispatcher.context = Some(1);
    b.mem_write_u64(DATA, 0b0110).unwrap();
    b.mem_write_u64(DATA + 8, 0xff).unwrap();
    call(&mut b, &[0, DATA, DATA + 8]);
    syscall_rt_sigprocmask(&mut b, &mut e);
    assert_eq!(result(&b), 0);
    assert_eq!(b.mem_read_u64(DATA + 8), Ok(0xff));
    assert_eq!(e.thread_dispatcher.tasks[1].signals.mask, Some(0b0110));
    assert_eq!(e.thread_dispatcher.tasks[1].signals.pending, Some(0));
    b.mem_write_u64(DATA, 0b1001).unwrap();
    call(&mut b, &[0, DATA, DATA + 8]);
    syscall_rt_sigprocmask(&mut b, &mut e);
    assert_eq!(b.mem_read_u64(DATA + 8), Ok(0b0110));
    assert_eq!(e.thread_dispatcher.tasks[1].signals.mask, Some(0b1111));
    b.mem_write_u64(DATA, 0b0011).unwrap();
    call(&mut b, &[1, DATA, 0]);
    syscall_rt_sigprocmask(&mut b, &mut e);
    assert_eq!(e.thread_dispatcher.tasks[1].signals.mask, Some(0b1100));
    call(&mut b, &[2, DATA, 0]);
    syscall_rt_sigprocmask(&mut b, &mut e);
    assert_eq!(e.thread_dispatcher.tasks[1].signals.mask, Some(0b0011));
    call(&mut b, &[3, DATA, 0]);
    syscall_rt_sigprocmask(&mut b, &mut e);
    assert_eq!((result(&b), errno(&b, &e)), (-22, 22));
    call(&mut b, &[3, 0, DATA + 8]);
    syscall_rt_sigprocmask(&mut b, &mut e);
    assert_eq!((result(&b), b.mem_read_u64(DATA + 8)), (0, Ok(0b0011)));
}

#[test]
fn the_main_task_has_no_mask() {
    let (mut b, mut e) = guest();
    b.mem_write_u64(DATA + 8, 0xff).unwrap();
    call(&mut b, &[0, DATA, DATA + 8]);
    syscall_rt_sigprocmask(&mut b, &mut e);
    assert_eq!((result(&b), b.mem_read_u64(DATA + 8)), (0, Ok(0)));
    assert_eq!(e.thread_dispatcher.tasks[0].signals.mask, None);
}

#[test]
fn threads_know_their_ids() {
    let (mut b, mut e) = guest();
    e.thread_dispatcher.add_thread(task(TaskKind::MarshmallowThread, 42));
    e.thread_dispatcher.context = Some(1);
    syscall_gettid(&mut b, &e);
    assert_eq!(result(&b), 42);
    call(&mut b, &[DATA + 0x20]);
    syscall_set_tid_address(&mut b, &mut e);
    assert_eq!(result(&b), 42);
    assert_eq!(e.thread_dispatcher.tasks[1].start.child_tid, DATA + 0x20);
    e.thread_dispatcher.context = None;
    call(&mut b, &[DATA + 0x40]);
    syscall_set_tid_address(&mut b, &mut e);
    assert_eq!(result(&b), 2667);
    assert_eq!(e.thread_dispatcher.tasks[1].start.child_tid, DATA + 0x20);
}

#[test]
fn a_thread_that_exits_wakes_its_joiners() {
    let (mut b, mut e) = guest();
    let mut t = task(TaskKind::MarshmallowThread, 42);
    t.start.child_tid = DATA;
    e.thread_dispatcher.add_thread(t);
    e.thread_dispatcher.context = Some(1);
    b.mem_write_u32(DATA, 42).unwrap();
    e.thread_dispatcher.tasks[0]
        .base
        .set_waiter(Waiter::FutexIndefinite(FutexIndefinitelyWaiter::new(DATA, 42)));
    call(&mut b, &[7]);
    assert_eq!(syscall_exit(&mut b, &mut e), None);
    assert_eq!(b.mem_read_u32(DATA), Ok(0));
    assert_eq!(e.thread_dispatcher.tasks[1].exit_status, Some(7));
    assert_eq!(e.stop, Some(TaskStatus::X));
    assert!(matches!(
        &e.thread_dispatcher.tasks[0].base.waiter,
        Some(Waiter::FutexIndefinite(w)) if w.woken_up
    ));
    assert_eq!(e.exit_status, None);
}

/// Put a stream record with `n` bytes waiting.
fn put_stream(b: &mut Backend, fp: u64, flags: u32, fd: i32, buf: u64, n: u64) {
    b.mem_write_u64(fp, buf + n).unwrap();
    b.mem_write_u32(fp + 16, flags).unwrap();
    b.mem_write_i32(fp + 20, fd).unwrap();
    b.mem_write_u64(fp + 24, buf).unwrap();
}

#[test]
fn streams_are_written_out_once() {
    let (mut b, mut e) = guest();
    b.mem_write(DATA + 0x1000, b"pending").unwrap();
    put_stream(&mut b, DATA, 8, 1, DATA + 0x1000, 7);
    flush_one_file(&mut b, &mut e.file_system, DATA);
    assert_eq!(e.file_system.streams.out, b"pending");
    assert_eq!(b.mem_read_u64(DATA), Ok(DATA + 0x1000));
    flush_one_file(&mut b, &mut e.file_system, DATA);
    assert_eq!(e.file_system.streams.out, b"pending");
}

#[test]
fn streams_with_nothing_to_write_stay() {
    let (mut b, mut e) = guest();
    for (flags, n) in [(0u32, 7u64), (0x8008, 7), (0x10, 7), (8, 0), (8, 0x10_0001)] {
        put_stream(&mut b, DATA, flags, 1, DATA + 0x1000, n);
        flush_one_file(&mut b, &mut e.file_system, DATA);
        assert_eq!(b.mem_read_u64(DATA), Ok(DATA + 0x1000 + n));
    }
    flush_one_file(&mut b, &mut e.file_system, 0x6000_0000);
    flush_one_file(&mut b, &mut e.file_system, u64::MAX - 3);
    assert!(e.file_system.streams.out.is_empty());
}

#[test]
fn streams_of_drivers_are_handed_on() {
    let (mut b, mut e) = guest();
    let fd = e.file_system.insert_file(FileIO::Bytes(ByteArrayFileIO {
        bytes: vec![],
        path: "/x".to_string(),
        uid: 0,
        oflags: 1,
        mode: SYSTEM_FILE,
    }));
    b.mem_write(DATA + 0x1000, b"ab").unwrap();
    put_stream(&mut b, DATA, 8, fd, DATA + 0x1000, 2);
    flush_one_file(&mut b, &mut e.file_system, DATA);
    assert_eq!(e.file_system.driver_writes.len(), 1);
    assert_eq!(e.file_system.driver_writes[0].fd, fd);
    assert_eq!(e.file_system.driver_writes[0].data, b"ab");
}

#[test]
fn chains_of_streams_are_walked() {
    let (mut b, mut e) = guest();
    b.mem_write(DATA + 0x1000, b"abc").unwrap();
    let row = DATA + 0x400;
    put_stream(&mut b, row, 8, 1, DATA + 0x1000, 1);
    put_stream(&mut b, row + 152, 8, 2, DATA + 0x1001, 1);
    put_stream(&mut b, row + 0x200, 8, 1, DATA + 0x1002, 1);
    b.mem_write_u64(DATA, DATA + 0x40).unwrap();
    b.mem_write_u32(DATA + 8, 2).unwrap();
    b.mem_write_u64(DATA + 16, row).unwrap();
    b.mem_write_u64(DATA + 0x40, DATA + 0x40).unwrap();
    b.mem_write_u32(DATA + 0x48, 1).unwrap();
    b.mem_write_u64(DATA + 0x50, row + 0x200).unwrap();
    flush_sglue_chain(&mut b, &mut e.file_system, DATA);
    assert_eq!(e.file_system.streams.out, b"ac");
    assert_eq!(e.file_system.streams.err, b"b");
    flush_sglue_chain(&mut b, &mut e.file_system, 0);
    flush_sglue_chain(&mut b, &mut e.file_system, 0x6000_0000);
}

#[test]
fn the_process_ends_with_its_streams_written() {
    let (mut b, mut e) = guest();
    let entry = |name: &str, value: u64| SymbolEntry {
        name: name.to_string(),
        symbol: ElfSymbol { value, size: 8, info: 0, section: 1 },
    };
    let mut libc = LinuxModule::create_virtual_module(
        "libc.so".to_string(),
        &vec![("x".to_string(), DATA)],
    );
    libc.dynsym =
        Some(SymbolTable { entries: vec![entry("stdout", 0x10), entry("stderr", 0x300)] });
    assert_eq!(libc.base, DATA);
    e.memory.add_module("libc.so".to_string(), libc);
    b.mem_write_u64(DATA + 0x10, DATA + 0x100).unwrap();
    b.mem_write(DATA + 0x1000, b"outerr").unwrap();
    put_stream(&mut b, DATA + 0x100, 8, 1, DATA + 0x1000, 3);
    b.mem_map(0x5000, 0x1000, PERM_READ_WRITE).unwrap();
    b.mem_write(0x5000, b"low").unwrap();
    put_stream(&mut b, DATA + 0x300, 8, 2, 0x5000, 3);
    call(&mut b, &[3]);
    assert_eq!(syscall_exit(&mut b, &mut e), Some(3));
    assert_eq!(e.last_exit_status(), Some(3));
    assert_eq!(e.file_system.streams.out, b"out");
    assert_eq!(e.file_system.streams.err, b"low");
    call(&mut b, &[0xffff_ffff]);
    assert_eq!(syscall_exit_group(&mut b, &mut e), -1);
    assert_eq!(e.exit_status, Some(-1));
    assert_eq!(e.file_system.streams.out, b"out");
}

#[test]
fn saved_registers_come_back() {
    let mut b = Backend::new();
    let mut t = BaseTask::new();
    assert!(!t.is_context_saved());
    b.reg_write(RegisterARM64::X19, 19);
    b.reg_write(RegisterARM64::PC, 0x1000);
    b.reg_write(RegisterARM64::SP, 0x2000);
    t.save_context(&b);
    assert!(t.is_context_saved());
    b.reg_write(RegisterARM64::X19, 0);
    b.reg_write(RegisterARM64::PC, 0);
    t.restore_context(&mut b);
    assert_eq!(b.reg_read(RegisterARM64::X19), 19);
    assert_eq!(b.reg_read(RegisterARM64::PC), 0x1000);
    let s = capture_snap(&b);
    let mut c = Backend::new();
    apply_snap(&mut c, &s);
    assert_eq!(c.reg_read(RegisterARM64::SP), 0x2000);
    assert_eq!(c.reg_read(RegisterARM64::X19), 19);
}

#[test]
fn a_stop_in_a_trap_goes_on_at_the_caller() {
    let mut b = Backend::new();
    b.mem_map(DATA, 0x1000, PERM_READ_WRITE).unwrap();
    b.mem_write_u32(DATA, 0xd400_0001 | (5 << 5)).unwrap();
    b.reg_write(RegisterARM64::PC, DATA + 4);
    b.reg_write(RegisterARM64::LR, 0x4444);
    let mut t = BaseTask::new();
    t.save_context(&b);
    let mut pipes = PipeTable::new();
    let children = ChildTable { children: vec![] };
    let r = t.continue_run(&mut b, &mut pipes, &children, 0x99);
    assert_eq!(r, EmulateRequest { pc: 0x4444, until: 0x99, clear_code: true });
    assert_eq!(b.reg_read(RegisterARM64::PC), 0x4444);
    let r = t.continue_run(&mut b, &mut pipes, &children, 0x99);
    assert_eq!(r.pc, DATA + 4);
    b.mem_write_u32(DATA, 0xd503_201f).unwrap();
    t.save_context(&b);
    let r = t.continue_run(&mut b, &mut pipes, &children, 0);
    assert_eq!(r.pc, DATA + 4);
}

#[test]
fn an_inner_run_goes_on_after_its_trap() {
    let mut b = Backend::new();
    b.reg_write(RegisterARM64::PC, 0x8000);
    let mut t = BaseTask::new();
    t.pop_context(&mut b, 4);
    assert_eq!(b.reg_read(RegisterARM64::PC), 0x8004);
    assert!(t.context.is_some() && t.snap.is_some() && t.skip_svc_epilogue);
}

#[test]
fn tasks_keep_a_stack_of_calls() {
    let mut b = Backend::new();
    let mut t = BaseTask::new();
    assert_eq!(t.get_task_status(), TaskStatus::Z);
    t.set_task_status(TaskStatus::R);
    assert_eq!(t.get_task_status(), TaskStatus::R);
    t.push_function(FunctionCall { function: 10, return_address: 100 });
    t.push_function(FunctionCall { function: 20, return_address: 200 });
    b.reg_write(RegisterARM64::LR, 200);
    assert_eq!(t.pop_function(&b, 200), None);
    assert_eq!(t.pop_function(&b, 100), None);
    let popped = t.pop_function(&b, 300);
    assert_eq!(popped, Some(FunctionCall { function: 20, return_address: 200 }));
    assert_eq!(t.pop_function(&b, 300), None);
    assert_eq!(t.stack.len(), 1);
}

#[test]
fn tasks_own_their_stacks() {
    let mut t = BaseTask::new();
    assert!(t.needs_stack());
    let block = MemoryBlock { addr: 0x10000, size: 0x80000 };
    let top = t.allocate_stack(block);
    assert_eq!(top, 0x90000);
    assert!(!t.needs_stack());
    assert_eq!(t.allocate_stack(MemoryBlock { addr: 0, size: 0 }), 0x90000);
    t.set_destroy_listener(4);
    assert_eq!(
        t.destroy(),
        Teardown { free: Some(block), release_context: false, notify: Some(4) }
    );
    assert!(t.get_waiter().is_none());
    t.set_waiter(Waiter::Unknown);
    assert!(t.get_waiter().is_some());
}
