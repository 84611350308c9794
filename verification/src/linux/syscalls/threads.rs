//! System calls on threads: futexes, new threads, signal masks.
use std::time::SystemTime;
use vstd::prelude::*;
use crate::backend::{
    law_pages_hold_their_bytes, lemma_half_apart, lemma_half_inside, Backend, Machine,
    RegisterARM64,
};
use crate::emulator::base_task::{BaseTask, TaskStatus};
use crate::emulator::dispatcher::{
    is_new_thread, woken_count, woken_tasks, AbstractTask, SignalOps, TaskKind, ThreadDispatcher,
    ThreadStart,
};
use crate::emulator::state::{refuse, AndroidEmulator};
use crate::le::{le32, le64, put_le64};
use crate::linux::errno::{errno_number, Errno};
use crate::linux::thread::{
    clock_seconds, clock_showed, epoch_secs, ClockError, FutexIndefinitelyWaiter, FutexNanoSleepWaiter, Waiter,
};
use crate::num::{
    bits_of_i64, from_bits_i32, from_bits_i64, i32_of_bits, i64_of_bits, low32, to_bits_i64,
};

verus! {

pub const FUTEX_WAIT: i32 = 0;

pub const FUTEX_WAKE: i32 = 1;

pub const FUTEX_WAIT_BITSET: i32 = 9;

pub const FUTEX_WAKE_BITSET: i32 = 10;

/// The operation that a futex call asks for, without its flags.
pub open spec fn futex_cmd(m: Machine) -> i32 {
    m.reg_i32(RegisterARM64::X1) & 0x7f
}

pub open spec fn is_wait(cmd: i32) -> bool {
    cmd == FUTEX_WAIT || cmd == FUTEX_WAIT_BITSET
}

pub open spec fn is_wake(cmd: i32) -> bool {
    cmd == FUTEX_WAKE || cmd == FUTEX_WAKE_BITSET
}

/// The word holds the value that the caller expects.
pub open spec fn word_matches(m: Machine) -> bool {
    m.read_u32(m.reg(RegisterARM64::X0) as int) == Some(m.reg_u32(RegisterARM64::X2))
}

/// Division that rounds towards zero.
pub open spec fn quotient(a: int, b: int) -> int {
    if a >= 0 {
        a / b
    } else {
        -((-a) / b)
    }
}

/// The time limit of a wait: whole seconds and nanoseconds, in milliseconds.
pub open spec fn wait_millis(sec: i64, nsec: i64) -> int {
    sec * 1000 + quotient(nsec as int, 1000000)
}

/// The seconds of the time limit at `addr`.
pub open spec fn limit_sec(m: Machine, addr: int) -> i64 {
    i64_of_bits(m.read_u64(addr)->0)
}

/// The nanoseconds of the time limit at `addr`.
pub open spec fn limit_nsec(m: Machine, addr: int) -> i64 {
    i64_of_bits(m.read_u64(addr + 8)->0)
}

/// What a futex call needs: a readable time limit that fits in 64 bits, and a running
/// task that can wait.
pub open spec fn futex_ready(m: Machine, e: AndroidEmulator) -> bool {
    let timeout = m.reg(RegisterARM64::X3);
    is_wait(futex_cmd(m)) && word_matches(m) ==> {
        &&& timeout != 0 ==> m.mapped(timeout as int, 16)
        &&& e.thread_dispatcher.tasks@.len() > 1 ==> {
            &&& e.thread_dispatcher.running matches Some(i) && i
                < e.thread_dispatcher.tasks@.len() && e.thread_dispatcher.tasks@[i as int].kind
                != TaskKind::Other
            &&& timeout != 0 ==> i64::MIN <= limit_sec(m, timeout as int) * 1000 <= i64::MAX
                && i64::MIN <= wait_millis(
                limit_sec(m, timeout as int),
                limit_nsec(m, timeout as int),
            ) <= i64::MAX
        }
    }
}

/// What a task waits for after a futex call that parks it; nothing where the clock
/// cannot be read.
pub open spec fn futex_waiter(m: Machine, now: Option<u64>) -> Option<Waiter> {
    let uaddr = m.reg(RegisterARM64::X0);
    let val = m.reg_u32(RegisterARM64::X2);
    let timeout = m.reg(RegisterARM64::X3);
    if timeout == 0 {
        Some(
            Waiter::FutexIndefinite(FutexIndefinitelyWaiter { uaddr, val, woken_up: false }),
        )
    } else {
        match now {
            Some(start_time) => Some(
                Waiter::FutexNanoSleep(
                    FutexNanoSleepWaiter {
                        uaddr,
                        val,
                        woken_up: false,
                        wait_millis: bits_of_i64(
                            wait_millis(
                                limit_sec(m, timeout as int),
                                limit_nsec(m, timeout as int),
                            ) as i64,
                        ),
                        start_time,
                    },
                ),
            ),
            None => None,
        }
    }
}

/// What a futex call does, with the clock at `now`.
pub open spec fn futex_done(
    m: Machine,
    e: AndroidEmulator,
    now: Option<u64>,
    m2: Machine,
    e2: AndroidEmulator,
    r: Result<(), ClockError>,
) -> bool {
    let cmd = futex_cmd(m);
    let d = e.thread_dispatcher;
    let d2 = e2.thread_dispatcher;
    if is_wait(cmd) {
        if !word_matches(m) || d.tasks@.len() <= 1 {
            &&& r is Ok
            &&& m2 == e.refusal(m, Errno::EAGAIN)
            &&& e2 == e
        } else {
            let i = d.running->0 as int;
            match futex_waiter(m, now) {
                Some(w) => {
                    &&& r is Ok
                    &&& m2 == m
                    &&& d2.tasks@ == d.tasks@.update(
                        i,
                        AbstractTask {
                            base: BaseTask { waiter: Some(w), ..d.tasks@[i].base },
                            ..d.tasks@[i]
                        },
                    )
                    &&& d2 == (ThreadDispatcher { tasks: d2.tasks, ..d })
                    &&& e2 == (AndroidEmulator {
                        thread_dispatcher: d2,
                        stop: Some(TaskStatus::S),
                        ..e
                    })
                },
                None => r is Err && m2 == m && e2 == e,
            }
        }
    } else if is_wake(cmd) {
        let uaddr = m.reg(RegisterARM64::X0);
        let max = m.reg_u32(RegisterARM64::X2);
        &&& r is Ok
        &&& m2 == m.ret(
            i32_of_bits(woken_count(d.tasks@, uaddr, max, d.tasks@.len() as int) as u32) as int,
        )
        &&& d2.tasks@ == woken_tasks(d.tasks@, uaddr, max)
        &&& d2 == (ThreadDispatcher { tasks: d2.tasks, ..d })
        &&& e2 == (AndroidEmulator { thread_dispatcher: d2, ..e })
    } else {
        r is Ok && m2 == m.ret(0) && e2 == e
    }
}

fn limit_millis(sec: i64, nsec: i64) -> (r: i64)
    requires
        i64::MIN <= sec * 1000 <= i64::MAX,
        i64::MIN <= wait_millis(sec, nsec) <= i64::MAX,
    ensures
        r == wait_millis(sec, nsec),
{
    let wide: i128 = nsec as i128;
    let part: i128 = if wide >= 0 {
        wide / 1000000
    } else {
        -((-wide) / 1000000)
    };
    (sec as i128 * 1000 + part) as i64
}

/// A futex call, with the clock at `now`. A wait parks the running task, unless the
/// word holds something else than expected or there is no other task; a wake-up wakes
/// tasks and gives their number. Waits and wake-ups with a bit set are treated alike.
/// Other operations do nothing and succeed.
pub fn futex_at(backend: &mut Backend, emulator: &mut AndroidEmulator, now: Option<u64>) -> (r:
    Result<(), ClockError>)
    requires
        futex_ready(old(backend)@, *old(emulator)),
    ensures
        futex_done(
            old(backend)@,
            *old(emulator),
            now,
            final(backend)@,
            *final(emulator),
            r,
        ),
        old(emulator).wf() ==> final(emulator).wf(),
{
    let uaddr: u64 = backend.reg_read(RegisterARM64::X0);
    let op: i32 = backend.reg_read_i32(RegisterARM64::X1);
    let val: u32 = backend.reg_read_u32(RegisterARM64::X2);
    let timeout: u64 = backend.reg_read(RegisterARM64::X3);
    let cmd: i32 = op & 0x7f;
    if cmd == FUTEX_WAIT || cmd == FUTEX_WAIT_BITSET {
        match backend.mem_read_u32(uaddr) {
            Ok(word) => {
                if word != val {
                    refuse(backend, emulator, Errno::EAGAIN);
                    return Ok(());
                }
            },
            Err(_) => {
                refuse(backend, emulator, Errno::EAGAIN);
                return Ok(());
            },
        }
        if emulator.thread_dispatcher.task_counts() <= 1 {
            refuse(backend, emulator, Errno::EAGAIN);
            return Ok(());
        }
        let waiter = if timeout == 0 {
            Waiter::FutexIndefinite(FutexIndefinitelyWaiter::new(uaddr, val))
        } else {
            proof {
                law_pages_hold_their_bytes(*backend, timeout + 15);
            }
            let sec: i64 = from_bits_i64(backend.mem_read_u64(timeout).unwrap());
            let nsec: i64 = from_bits_i64(backend.mem_read_u64(timeout + 8).unwrap());
            let millis: i64 = limit_millis(sec, nsec);
            let start: u64 = match now {
                Some(t) => t,
                None => {
                    return Err(ClockError);
                },
            };
            Waiter::FutexNanoSleep(
                FutexNanoSleepWaiter::started_at(uaddr, val, to_bits_i64(millis), start),
            )
        };
        let i: usize = emulator.thread_dispatcher.running.unwrap();
        let ghost w = waiter;
        emulator.thread_dispatcher.tasks[i].base.set_waiter(waiter);
        emulator.emu_stop(TaskStatus::S);
        proof {
            let d = old(emulator).thread_dispatcher;
            let d2 = emulator.thread_dispatcher;
            assert(d2.tasks@ =~= d.tasks@.update(
                i as int,
                AbstractTask {
                    base: BaseTask { waiter: Some(w), ..d.tasks@[i as int].base },
                    ..d.tasks@[i as int]
                },
            ));
            if old(emulator).wf() {
                let pipes = emulator.file_system.pipes.pipes@.len() as int;
                let children = emulator.children.children@.len() as int;
                assert forall|j: int| 0 <= j < d2.tasks@.len() implies (
                #[trigger] d2.tasks@[j]).base.wf(pipes, children) by {
                    assert(d.tasks@[j].base.wf(pipes, children));
                }
            }
        }
        return Ok(());
    } else if cmd == FUTEX_WAKE || cmd == FUTEX_WAKE_BITSET {
        let count: u32 = emulator.thread_dispatcher.wake_futex(uaddr, val);
        backend.reg_write_i64(RegisterARM64::X0, from_bits_i32(count) as i64);
        return Ok(());
    }
    backend.reg_write_i64(RegisterARM64::X0, 0);
    Ok(())
}

/// A futex call.
pub fn syscall_futex(backend: &mut Backend, emulator: &mut AndroidEmulator) -> (r: Result<
    (),
    ClockError,
>)
    requires
        futex_ready(old(backend)@, *old(emulator)),
    ensures
        exists|t: SystemTime|
            clock_showed(t) && futex_done(
                old(backend)@,
                *old(emulator),
                #[trigger] epoch_secs(t),
                final(backend)@,
                *final(emulator),
                r,
            ),
        old(emulator).wf() ==> final(emulator).wf(),
{
    let now = clock_seconds();
    futex_at(backend, emulator, now)
}

/// The flag of a futex that only one process uses.
pub const FUTEX_PRIVATE_FLAG: i32 = 0x80;

/// What a futex operation comes to: its flags do not count, and a form with a bit set is
/// the form without.
pub open spec fn futex_form(op: i32) -> i32 {
    let cmd = op & 0x7f;
    if cmd == FUTEX_WAIT_BITSET {
        FUTEX_WAIT
    } else if cmd == FUTEX_WAKE_BITSET {
        FUTEX_WAKE
    } else {
        cmd
    }
}

/// A futex call does the same for every operation that comes to the same, whatever its
/// bit set in `X5` is: the same result, the same error number, the same wait and the same
/// wake-ups. The private flag is among what does not count.
pub proof fn law_futex_forms(
    m: Machine,
    e: AndroidEmulator,
    now: Option<u64>,
    m2: Machine,
    e2: AndroidEmulator,
    r: Result<(), ClockError>,
    op: u64,
    bits: u64,
)
    requires
        m.regs.len() == 35,
        futex_form(m.reg_i32(RegisterARM64::X1)) == futex_form(i32_of_bits(low32(op))),
    ensures
        ({
            let like = m.set_reg(RegisterARM64::X1, op).set_reg(RegisterARM64::X5, bits);
            let like2 = m2.set_reg(RegisterARM64::X1, op).set_reg(RegisterARM64::X5, bits);
            &&& futex_ready(m, e) == futex_ready(like, e)
            &&& futex_done(m, e, now, m2, e2, r) ==> futex_done(like, e, now, like2, e2, r)
        }),
        futex_form(i32_of_bits(low32(op)) | FUTEX_PRIVATE_FLAG) == futex_form(
            i32_of_bits(low32(op)),
        ),
{
    let x1 = RegisterARM64::X1;
    let x5 = RegisterARM64::X5;
    let like = m.set_reg(x1, op).set_reg(x5, bits);
    let like2 = m2.set_reg(x1, op).set_reg(x5, bits);
    let number: i32 = i32_of_bits(low32(op));
    assert((number | 0x80) & 0x7f == number & 0x7f) by (bit_vector);
    assert(like.reg_i32(x1) == number);
    assert(like.mem == m.mem);
    assert(like.reg(RegisterARM64::X0) == m.reg(RegisterARM64::X0));
    assert(like.reg(RegisterARM64::X2) == m.reg(RegisterARM64::X2));
    assert(like.reg(RegisterARM64::X3) == m.reg(RegisterARM64::X3));
    assert(is_wait(futex_cmd(m)) == is_wait(futex_cmd(like)));
    assert(is_wake(futex_cmd(m)) == is_wake(futex_cmd(like)));
    assert(word_matches(m) == word_matches(like)) by {
        assert(m.read(m.reg(RegisterARM64::X0) as int, 4) =~= like.read(
            m.reg(RegisterARM64::X0) as int,
            4,
        ));
    }
    let timeout = m.reg(RegisterARM64::X3) as int;
    assert(m.mapped(timeout, 16) == like.mapped(timeout, 16));
    assert(m.read(timeout, 8) =~= like.read(timeout, 8));
    assert(m.read(timeout + 8, 8) =~= like.read(timeout + 8, 8));
    assert(futex_waiter(m, now) == futex_waiter(like, now));
    assert forall|v: int| m2 == #[trigger] m.ret(v) implies like2 == like.ret(v) by {
        assert(like2.regs =~= like.ret(v).regs);
    }
    if m2 == e.refusal(m, Errno::EAGAIN) {
        let v = -errno_number(Errno::EAGAIN);
        assert(m.ret(v).mem == m.mem);
        assert(like.ret(v).mem == m.mem);
        assert(m.ret(v).mapped(e.errno as int, 4) ==> like.ret(v).mapped(e.errno as int, 4));
        assert(like.ret(v).mapped(e.errno as int, 4) ==> m.ret(v).mapped(e.errno as int, 4));
        assert(like2.mem =~= e.refusal(like, Errno::EAGAIN).mem);
        assert(like2.regs =~= e.refusal(like, Errno::EAGAIN).regs);
    }
}

/// The flag that asks for the new thread's id in the parent's memory.
pub const CLONE_PARENT_SETTID: u32 = 0x0010_0000;

/// The id after this one.
pub open spec fn next_id(id: u32) -> u32 {
    if id == u32::MAX {
        0
    } else {
        (id + 1) as u32
    }
}

fn take_task_id(emulator: &mut AndroidEmulator) -> (id: u32)
    ensures
        id == old(emulator).next_task_id,
        *final(emulator) == (AndroidEmulator { next_task_id: next_id(id), ..*old(emulator) }),
{
    let id: u32 = emulator.next_task_id;
    emulator.next_task_id = if id == u32::MAX {
        0
    } else {
        id + 1
    };
    id
}

/// The process has one more thread, which was not run yet.
pub open spec fn thread_added(
    e: AndroidEmulator,
    e2: AndroidEmulator,
    id: u32,
    start: ThreadStart,
) -> bool {
    let d = e.thread_dispatcher;
    let d2 = e2.thread_dispatcher;
    &&& d2.tasks@.len() == d.tasks@.len() + 1
    &&& d2.tasks@.drop_last() == d.tasks@
    &&& is_new_thread(d2.tasks@.last(), id, start)
    &&& d2 == (ThreadDispatcher { tasks: d2.tasks, ..d })
    &&& e2 == (AndroidEmulator { thread_dispatcher: d2, next_task_id: next_id(id), ..e })
}

fn add_new_thread(emulator: &mut AndroidEmulator, id: u32, start: ThreadStart)
    ensures
        ({
            let d = old(emulator).thread_dispatcher;
            let d2 = final(emulator).thread_dispatcher;
            &&& d2.tasks@.len() == d.tasks@.len() + 1
            &&& d2.tasks@.drop_last() == d.tasks@
            &&& is_new_thread(d2.tasks@.last(), id, start)
            &&& d2 == (ThreadDispatcher { tasks: d2.tasks, ..d })
            &&& *final(emulator) == (AndroidEmulator { thread_dispatcher: d2, ..*old(emulator) })
        }),
        old(emulator).wf() ==> final(emulator).wf(),
{
    let task = AbstractTask::new_thread(id, start);
    emulator.thread_dispatcher.add_thread(task);
    proof {
        let d = old(emulator).thread_dispatcher;
        let d2 = emulator.thread_dispatcher;
        assert(d2.tasks@.drop_last() =~= d.tasks@);
        if old(emulator).wf() {
            let pipes = emulator.file_system.pipes.pipes@.len() as int;
            let children = emulator.children.children@.len() as int;
            assert forall|j: int| 0 <= j < d2.tasks@.len() implies (
            #[trigger] d2.tasks@[j]).base.wf(pipes, children) by {
                if j < d.tasks@.len() {
                    assert(d.tasks@[j].base.wf(pipes, children));
                }
            }
        }
    }
}

/// How the new thread starts, by the arguments of the call.
pub open spec fn clone_start(m: Machine, fn_ptr: u64, arg: u64) -> ThreadStart {
    ThreadStart {
        fn_ptr,
        arg,
        child_tid: m.reg(RegisterARM64::X4),
        tls: m.reg(RegisterARM64::X3),
        child_stack: m.reg(RegisterARM64::X1),
    }
}

pub open spec fn wants_parent_tid(m: Machine) -> bool {
    m.reg_u32(RegisterARM64::X0) & CLONE_PARENT_SETTID != 0
}

/// Where a new thread's id has to be stored can be written.
pub open spec fn bionic_clone_ready(m: Machine) -> bool {
    let parent_tid = m.reg(RegisterARM64::X2);
    let child_tid = m.reg(RegisterARM64::X4);
    &&& wants_parent_tid(m) && parent_tid != 0 ==> m.mapped(parent_tid as int, 4)
    &&& !(wants_parent_tid(m) && parent_tid == 0) && child_tid != 0 ==> m.mapped(
        child_tid as int,
        4,
    )
}

/// What a call that starts a thread does.
pub open spec fn bionic_clone_done(
    m: Machine,
    e: AndroidEmulator,
    m2: Machine,
    e2: AndroidEmulator,
) -> bool {
    let id = e.next_task_id;
    let parent_tid = m.reg(RegisterARM64::X2);
    let child_tid = m.reg(RegisterARM64::X4);
    if wants_parent_tid(m) && parent_tid == 0 {
        &&& m2 == e.refusal(m, Errno::EINVAL)
        &&& e2 == (AndroidEmulator { next_task_id: next_id(id), ..e })
    } else {
        let told_parent = if wants_parent_tid(m) {
            m.write(parent_tid as int, le32(id))
        } else {
            m
        };
        let told_child = if child_tid != 0 {
            told_parent.write(child_tid as int, le32(id))
        } else {
            told_parent
        };
        &&& m2 == told_child.ret(i32_of_bits(id) as int)
        &&& thread_added(
            e,
            e2,
            id,
            clone_start(m, m.reg(RegisterARM64::X5), m.reg(RegisterARM64::X6)),
        )
    }
}

/// Start a thread: `X0` holds flags, `X1` the stack, `X2` and `X4` where its id goes,
/// `X3` its TLS, `X5` and `X6` the function and its argument.
pub fn syscall_bionic_clone(backend: &mut Backend, emulator: &mut AndroidEmulator)
    requires
        bionic_clone_ready(old(backend)@),
    ensures
        bionic_clone_done(old(backend)@, *old(emulator), final(backend)@, *final(emulator)),
        old(emulator).wf() ==> final(emulator).wf(),
{
    let flag: u32 = backend.reg_read_u32(RegisterARM64::X0);
    let child_stack: u64 = backend.reg_read(RegisterARM64::X1);
    let parent_tid: u64 = backend.reg_read(RegisterARM64::X2);
    let tls: u64 = backend.reg_read(RegisterARM64::X3);
    let child_tid: u64 = backend.reg_read(RegisterARM64::X4);
    let fn_ptr: u64 = backend.reg_read(RegisterARM64::X5);
    let arg: u64 = backend.reg_read(RegisterARM64::X6);
    let thread_id: u32 = take_task_id(emulator);
    if flag & CLONE_PARENT_SETTID != 0 {
        if parent_tid == 0 {
            refuse(backend, emulator, Errno::EINVAL);
            return ;
        }
        backend.mem_write_u32(parent_tid, thread_id).unwrap();
    }
    add_new_thread(
        emulator,
        thread_id,
        ThreadStart { fn_ptr, arg, child_tid, tls, child_stack },
    );
    if child_tid != 0 {
        backend.mem_write_u32(child_tid, thread_id).unwrap();
    }
    backend.reg_write_i64(RegisterARM64::X0, from_bits_i32(thread_id) as i64);
}

/// What a call that starts a thread at `fn_ptr` does.
pub open spec fn pthread_clone_done(
    m: Machine,
    e: AndroidEmulator,
    fn_ptr: u64,
    arg: u64,
    m2: Machine,
    e2: AndroidEmulator,
) -> bool {
    let id = e.next_task_id;
    let parent_tid = m.reg(RegisterARM64::X2);
    let child_tid = m.reg(RegisterARM64::X4);
    let told_parent = if parent_tid != 0 {
        m.try_write(parent_tid as int, le32(id))
    } else {
        m
    };
    let told_child = if child_tid != 0 {
        told_parent.try_write(child_tid as int, le32(id))
    } else {
        told_parent
    };
    &&& m2 == told_child.ret(i32_of_bits(id) as int)
    &&& thread_added(e, e2, id, clone_start(m, fn_ptr, arg))
}

/// Start a thread whose function and argument the caller left on the new stack.
pub fn syscall_pthread_clone(
    backend: &mut Backend,
    emulator: &mut AndroidEmulator,
    fn_ptr: u64,
    arg: u64,
)
    ensures
        pthread_clone_done(
            old(backend)@,
            *old(emulator),
            fn_ptr,
            arg,
            final(backend)@,
            *final(emulator),
        ),
        old(emulator).wf() ==> final(emulator).wf(),
{
    let child_tid: u64 = backend.reg_read(RegisterARM64::X4);
    let thread_id: u32 = take_task_id(emulator);
    let parent_tid: u64 = backend.reg_read(RegisterARM64::X2);
    let tls: u64 = backend.reg_read(RegisterARM64::X3);
    let child_stack: u64 = backend.reg_read(RegisterARM64::X1);
    if parent_tid != 0 {
        let _ = backend.mem_write_u32(parent_tid, thread_id);
    }
    add_new_thread(
        emulator,
        thread_id,
        ThreadStart { fn_ptr, arg, child_tid, tls, child_stack },
    );
    if child_tid != 0 {
        let _ = backend.mem_write_u32(child_tid, thread_id);
    }
    backend.reg_write_i64(RegisterARM64::X0, from_bits_i32(thread_id) as i64);
}

/// The process id that a fork pretends to have made.
pub open spec fn forked_pid(pid: u32) -> i32 {
    i32_of_bits(
        if pid + 1000 > u32::MAX {
            u32::MAX
        } else {
            (pid + 1000) as u32
        },
    )
}

/// A fork: the parent goes on, and the child vanishes at once.
pub fn syscall_fork(backend: &mut Backend, emulator: &AndroidEmulator)
    ensures
        final(backend)@ == old(backend)@.ret(forked_pid(emulator.pid) as int),
{
    let child: u32 = if emulator.pid > u32::MAX - 1000 {
        u32::MAX
    } else {
        emulator.pid + 1000
    };
    backend.reg_write_i64(RegisterARM64::X0, from_bits_i32(child) as i64);
}

/// What a clone call comes down to.
pub enum CloneChoice {
    Fork,
    /// A thread as the registers say.
    Bionic,
    /// A thread with a function and an argument from its stack.
    Pthread(u64, u64),
}

/// The word at an address; zero where it cannot be read.
pub open spec fn word_or_zero(m: Machine, addr: int) -> u64 {
    match m.read_u64(addr) {
        Some(v) => v,
        None => 0,
    }
}

/// Without a stack and a place for the id it is a fork. Else the function comes from
/// the top of the new stack, or from the registers where the stack has none or the
/// same.
pub open spec fn clone_choice(m: Machine) -> CloneChoice {
    let child_stack = m.reg(RegisterARM64::X1);
    let fnc = m.reg(RegisterARM64::X5);
    let arg = m.reg(RegisterARM64::X6);
    let stack_fn = word_or_zero(m, child_stack as int);
    let stack_arg = word_or_zero(m, child_stack + 8);
    if child_stack == 0 && m.reg_u32(RegisterARM64::X2) == 0 {
        CloneChoice::Fork
    } else if child_stack != 0 && stack_fn == fnc && stack_arg == arg && fnc != 0 {
        CloneChoice::Bionic
    } else if child_stack != 0 && stack_fn != 0 {
        CloneChoice::Pthread(stack_fn, stack_arg)
    } else if fnc != 0 {
        CloneChoice::Bionic
    } else {
        CloneChoice::Fork
    }
}

fn read_or_zero(backend: &Backend, addr: u64) -> (r: u64)
    ensures
        r == word_or_zero(backend@, addr as int),
{
    match backend.mem_read_u64(addr) {
        Ok(v) => v,
        Err(_) => 0,
    }
}

/// What a clone call does.
pub open spec fn clone_done(
    m: Machine,
    e: AndroidEmulator,
    m2: Machine,
    e2: AndroidEmulator,
) -> bool {
    match clone_choice(m) {
        CloneChoice::Fork => m2 == m.ret(forked_pid(e.pid) as int) && e2 == e,
        CloneChoice::Bionic => bionic_clone_done(m, e, m2, e2),
        CloneChoice::Pthread(fn_ptr, arg) => pthread_clone_done(m, e, fn_ptr, arg, m2, e2),
    }
}

pub fn syscall_clone(backend: &mut Backend, emulator: &mut AndroidEmulator)
    requires
        old(backend)@.reg(RegisterARM64::X1) + 8 <= u64::MAX,
        clone_choice(old(backend)@) is Bionic ==> bionic_clone_ready(old(backend)@),
    ensures
        clone_done(old(backend)@, *old(emulator), final(backend)@, *final(emulator)),
        old(emulator).wf() ==> final(emulator).wf(),
{
    let child_stack: u64 = backend.reg_read(RegisterARM64::X1);
    let parent_tid: u32 = backend.reg_read_u32(RegisterARM64::X2);
    if child_stack == 0 && parent_tid == 0 {
        syscall_fork(backend, emulator);
        return ;
    }
    let fnc: u64 = backend.reg_read(RegisterARM64::X5);
    let arg: u64 = backend.reg_read(RegisterARM64::X6);
    if child_stack != 0 {
        let stack_fn: u64 = read_or_zero(backend, child_stack);
        let stack_arg: u64 = read_or_zero(backend, child_stack + 8);
        if stack_fn == fnc && stack_arg == arg && fnc != 0 {
            syscall_bionic_clone(backend, emulator);
            return ;
        }
        if stack_fn != 0 {
            syscall_pthread_clone(backend, emulator, stack_fn, stack_arg);
            return ;
        }
    }
    if fnc != 0 {
        syscall_bionic_clone(backend, emulator);
        return ;
    }
    syscall_fork(backend, emulator);
}

/// The current task is a guest thread.
pub open spec fn in_thread(d: ThreadDispatcher) -> bool {
    d.context matches Some(i) && d.tasks@[i as int].kind == TaskKind::MarshmallowThread
}

/// `d2` is `d` with the current task replaced by `t`.
pub open spec fn context_replaced(d: ThreadDispatcher, d2: ThreadDispatcher, t: AbstractTask) -> bool {
    &&& d2.tasks@ == d.tasks@.update(d.context->0 as int, t)
    &&& d2 == (ThreadDispatcher { tasks: d2.tasks, ..d })
}

/// What remembering where a thread's id is kept comes to.
pub open spec fn tid_address_done(
    m: Machine,
    e: AndroidEmulator,
    m2: Machine,
    e2: AndroidEmulator,
) -> bool {
    let d = e.thread_dispatcher;
    let d2 = e2.thread_dispatcher;
    let t = d.tasks@[d.context->0 as int];
    &&& m2 == m.set_reg(RegisterARM64::X0, e.current_id() as u64)
    &&& e2 == (AndroidEmulator { thread_dispatcher: d2, ..e })
    &&& if in_thread(d) {
        context_replaced(
            d,
            d2,
            AbstractTask {
                start: ThreadStart { child_tid: m.reg(RegisterARM64::X0), ..t.start },
                ..t
            },
        )
    } else {
        d2 == d
    }
}

/// Remember where the current thread's id is kept, and give the thread's id.
pub fn syscall_set_tid_address(backend: &mut Backend, emulator: &mut AndroidEmulator)
    requires
        old(emulator).thread_dispatcher.context matches Some(i) ==> i < old(emulator).thread_dispatcher.tasks@.len(),
    ensures
        tid_address_done(old(backend)@, *old(emulator), final(backend)@, *final(emulator)),
        old(emulator).wf() ==> final(emulator).wf(),
{
    let tidptr: u64 = backend.reg_read(RegisterARM64::X0);
    if let Some(i) = emulator.thread_dispatcher.context {
        if emulator.thread_dispatcher.tasks[i].kind == TaskKind::MarshmallowThread {
            emulator.thread_dispatcher.tasks[i].start.child_tid = tidptr;
            proof {
                lemma_tasks_keep_wf(*old(emulator), *emulator, i as int);
                let d = old(emulator).thread_dispatcher;
                let t = d.tasks@[i as int];
                assert(emulator.thread_dispatcher.tasks@ =~= d.tasks@.update(
                    i as int,
                    AbstractTask {
                        start: ThreadStart { child_tid: tidptr, ..t.start },
                        ..t
                    },
                ));
            }
        }
    }
    let id: u32 = emulator.get_current_pid();
    backend.reg_write(RegisterARM64::X0, id as u64);
}

/// Changing a task's data but not what it waits for keeps the process in order.
pub proof fn lemma_tasks_keep_wf(e: AndroidEmulator, e2: AndroidEmulator, i: int)
    requires
        0 <= i < e.thread_dispatcher.tasks@.len(),
        e2.thread_dispatcher.tasks@.len() == e.thread_dispatcher.tasks@.len(),
        forall|j: int|
            0 <= j < e.thread_dispatcher.tasks@.len() && j != i
                ==> #[trigger] e2.thread_dispatcher.tasks@[j] == e.thread_dispatcher.tasks@[j],
        e2.thread_dispatcher.tasks@[i].base == e.thread_dispatcher.tasks@[i].base,
        e2.thread_dispatcher.running == e.thread_dispatcher.running,
        e2.thread_dispatcher.context == e.thread_dispatcher.context,
        e2.file_system == e.file_system,
        e2.children == e.children,
        e2.memory == e.memory,
    ensures
        e.wf() ==> e2.wf(),
{
    if e.wf() {
        let pipes = e.file_system.pipes.pipes@.len() as int;
        let children = e.children.children@.len() as int;
        assert forall|j: int| 0 <= j < e2.thread_dispatcher.tasks@.len() implies (
        #[trigger] e2.thread_dispatcher.tasks@[j]).base.wf(pipes, children) by {
            assert(e.thread_dispatcher.tasks@[j].base.wf(pipes, children));
        }
    }
}

/// The signal state after a mask call with a new mask, if the call is one of the three
/// that there are: block more, unblock some, or set.
pub open spec fn signals_after(s: SignalOps, how: i32, mask: u64) -> Option<SignalOps> {
    if how == 0 {
        Some(
            match s.mask {
                None => SignalOps { mask: Some(mask), pending: Some(0) },
                Some(old) => SignalOps { mask: Some(old | mask), ..s },
            },
        )
    } else if how == 1 {
        Some(
            match s.mask {
                None => s,
                Some(old) => SignalOps { mask: Some(old & !mask), ..s },
            },
        )
    } else if how == 2 {
        Some(SignalOps { mask: Some(mask), pending: Some(0) })
    } else {
        None
    }
}

/// The machine after the current mask was handed out, where the thread has one.
pub open spec fn mask_told(m: Machine, s: SignalOps) -> Machine {
    let oldset = m.reg(RegisterARM64::X2);
    match s.mask {
        Some(mask) if oldset != 0 => m.write(oldset as int, le64(mask)),
        _ => m,
    }
}

/// What a mask call comes to.
pub open spec fn sigprocmask_done(
    m: Machine,
    e: AndroidEmulator,
    m2: Machine,
    e2: AndroidEmulator,
) -> bool {
    let d = e.thread_dispatcher;
    let d2 = e2.thread_dispatcher;
    let t = d.tasks@[d.context->0 as int];
    let set = m.reg(RegisterARM64::X1);
    let oldset = m.reg(RegisterARM64::X2);
    let how = m.reg_i32(RegisterARM64::X0);
    if !in_thread(d) {
        &&& m2 == (if oldset != 0 {
            m.try_write(oldset as int, le64(0))
        } else {
            m
        }).ret(0)
        &&& e2 == e
    } else {
        let told = mask_told(m, t.signals);
        if set == 0 {
            m2 == told.ret(0) && e2 == e
        } else {
            match signals_after(t.signals, how, told.read_u64(set as int)->0) {
                Some(signals) => {
                    &&& m2 == told.ret(0)
                    &&& context_replaced(d, d2, AbstractTask { signals, ..t })
                    &&& e2 == (AndroidEmulator { thread_dispatcher: d2, ..e })
                },
                None => m2 == e.refusal(told, Errno::EINVAL) && e2 == e,
            }
        }
    }
}

/// Read and change the signal mask of the current thread: `X0` says how, `X1` where
/// the new mask is, `X2` where the old one goes. A task that is no thread has no mask.
pub fn syscall_rt_sigprocmask(backend: &mut Backend, emulator: &mut AndroidEmulator)
    requires
        old(emulator).thread_dispatcher.context matches Some(i) && i < old(emulator).thread_dispatcher.tasks@.len(),
        in_thread(old(emulator).thread_dispatcher) ==> {
            let m = old(backend)@;
            let d = old(emulator).thread_dispatcher;
            let s = d.tasks@[d.context->0 as int].signals;
            &&& m.reg(RegisterARM64::X2) != 0 && s.mask is Some ==> m.mapped(
                m.reg(RegisterARM64::X2) as int,
                8,
            )
            &&& m.reg(RegisterARM64::X1) != 0 ==> m.mapped(m.reg(RegisterARM64::X1) as int, 8)
        },
    ensures
        sigprocmask_done(old(backend)@, *old(emulator), final(backend)@, *final(emulator)),
        old(emulator).wf() ==> final(emulator).wf(),
{
    let how: i32 = backend.reg_read_i32(RegisterARM64::X0);
    let set: u64 = backend.reg_read(RegisterARM64::X1);
    let oldset: u64 = backend.reg_read(RegisterARM64::X2);
    let i: usize = emulator.thread_dispatcher.context.unwrap();
    let ghost d = emulator.thread_dispatcher;
    let ghost t = d.tasks@[i as int];
    if emulator.thread_dispatcher.tasks[i].kind != TaskKind::MarshmallowThread {
        if oldset != 0 {
            let zero = put_le64(0);
            backend.mem_try_write(oldset, zero.as_slice());
        }
        backend.reg_write_i64(RegisterARM64::X0, 0);
        return ;
    }
    let signals = emulator.thread_dispatcher.tasks[i].signals;
    if oldset != 0 {
        if let Some(mask) = signals.mask {
            backend.mem_write_u64(oldset, mask).unwrap();
        }
    }
    if set == 0 {
        backend.reg_write_i64(RegisterARM64::X0, 0);
        return ;
    }
    let mask: u64 = backend.mem_read_u64(set).unwrap();
    let after = if how == 0 {
        match signals.mask {
            None => SignalOps { mask: Some(mask), pending: Some(0) },
            Some(old_mask) => SignalOps { mask: Some(old_mask | mask), pending: signals.pending },
        }
    } else if how == 1 {
        match signals.mask {
            None => signals,
            Some(old_mask) => SignalOps { mask: Some(old_mask & !mask), pending: signals.pending },
        }
    } else if how == 2 {
        SignalOps { mask: Some(mask), pending: Some(0) }
    } else {
        refuse(backend, emulator, Errno::EINVAL);
        return ;
    };
    emulator.thread_dispatcher.tasks[i].signals = after;
    proof {
        lemma_tasks_keep_wf(*old(emulator), *emulator, i as int);
        assert(emulator.thread_dispatcher.tasks@ =~= d.tasks@.update(
            i as int,
            AbstractTask { signals: after, ..t },
        ));
    }
    backend.reg_write_i64(RegisterARM64::X0, 0);
}

/// Blocking a signal and then unblocking it leaves it unblocked, and no other signal
/// is touched by the unblocking; setting a mask is what the next call hands out.
pub proof fn law_signal_mask(s: SignalOps, blocked: u64, unblocked: u64, mask: u64)
    requires
        s.mask is Some,
    ensures
        ({
            let b = signals_after(s, 0, blocked)->0;
            let u = signals_after(b, 1, unblocked)->0;
            &&& (b.mask->0) & blocked == blocked
            &&& (u.mask->0) & unblocked == 0
            &&& (u.mask->0) & !unblocked == (b.mask->0) & !unblocked
        }),
        (signals_after(s, 2, mask)->0).mask == Some(mask),
{
    let old = s.mask->0;
    let b = old | blocked;
    assert((old | blocked) & blocked == blocked) by (bit_vector);
    assert((b & !unblocked) & unblocked == 0) by (bit_vector);
    assert((b & !unblocked) & !unblocked == b & !unblocked) by (bit_vector);
}

/// The half word that was stored is read back, also after the result register was set.
proof fn lemma_id_told(m: Machine, at: int, id: u32, v: int)
    requires
        m.mapped(at, 4),
    ensures
        m.write(at, le32(id)).read_u32(at) == Some(id),
        m.write(at, le32(id)).ret(v).read_u32(at) == Some(id),
        m.write(at, le32(id)).mem.dom() == m.mem.dom(),
{
    let w = m.write(at, le32(id));
    crate::le::law_le32_round_trip(id);
    lemma_half_inside(m, at, le32(id), 0);
    assert(le32(id).subrange(0, 4) =~= le32(id));
    assert(w.mem.dom() =~= m.mem.dom());
    assert(w.ret(v).mem == w.mem);
    assert(w.ret(v).read(at, 4) =~= w.read(at, 4));
    assert(w.mapped(at, 4));
    assert(w.ret(v).mapped(at, 4));
}

/// The task `t` is a thread that has yet to run, with this id.
pub open spec fn yet_to_run(t: AbstractTask, id: u32) -> bool {
    &&& t.kind == TaskKind::MarshmallowThread
    &&& t.id == id
    &&& t.base.status == TaskStatus::Z
    &&& t.base.waiter is None
    &&& t.base.context is None
    &&& t.base.snap is None
    &&& t.exit_status is None
    &&& t.signals.mask is None
}

/// A clone call that takes its function from the registers queues one more thread. It starts
/// at the function in `X5` with the argument in `X6`, on the stack in `X1`, with the thread
/// data in `X3` and its id kept at `X4`. Its id is the next one, which the caller gets as its
/// result, at `X2` where the flag 0x100000 asks for that, and at `X4` unless that is zero.
/// The threads that there were stay as they were. The flag with an `X2` of zero is refused
/// with 22, and no thread comes of it.
#[verifier::rlimit(40)]
pub proof fn law_thread_from_registers(
    m: Machine,
    e: AndroidEmulator,
    m2: Machine,
    e2: AndroidEmulator,
)
    requires
        bionic_clone_done(m, e, m2, e2),
        bionic_clone_ready(m),
        m.regs.len() == 35,
        m.reg(RegisterARM64::X2) == m.reg(RegisterARM64::X4) || m.reg(RegisterARM64::X2) + 4
            <= m.reg(RegisterARM64::X4) || m.reg(RegisterARM64::X4) + 4 <= m.reg(RegisterARM64::X2),
    ensures
        ({
            let id = e.next_task_id;
            let tasks = e.thread_dispatcher.tasks@;
            let tasks2 = e2.thread_dispatcher.tasks@;
            let flagged = m.reg_u32(RegisterARM64::X0) & 0x10_0000 != 0;
            if flagged && m.reg(RegisterARM64::X2) == 0 {
                &&& m2.reg_i64(RegisterARM64::X0) == -22
                &&& tasks2 == tasks
            } else {
                &&& tasks2.len() == tasks.len() + 1
                &&& forall|i: int| 0 <= i < tasks.len() ==> #[trigger] tasks2[i] == tasks[i]
                &&& yet_to_run(tasks2[tasks.len() as int], id)
                &&& tasks2[tasks.len() as int].start.fn_ptr == m.reg(RegisterARM64::X5)
                &&& tasks2[tasks.len() as int].start.arg == m.reg(RegisterARM64::X6)
                &&& tasks2[tasks.len() as int].start.child_stack == m.reg(RegisterARM64::X1)
                &&& tasks2[tasks.len() as int].start.tls == m.reg(RegisterARM64::X3)
                &&& tasks2[tasks.len() as int].start.child_tid == m.reg(RegisterARM64::X4)
                &&& m2.reg_u32(RegisterARM64::X0) == id
                &&& flagged ==> m2.read_u32(m.reg(RegisterARM64::X2) as int) == Some(id)
                &&& m.reg(RegisterARM64::X4) != 0 ==> m2.read_u32(
                    m.reg(RegisterARM64::X4) as int,
                ) == Some(id)
                &&& id < u32::MAX ==> e2.next_task_id == id + 1
            }
        }),
{
    let id = e.next_task_id;
    let tasks = e.thread_dispatcher.tasks@;
    let tasks2 = e2.thread_dispatcher.tasks@;
    let parent = m.reg(RegisterARM64::X2) as int;
    let child = m.reg(RegisterARM64::X4) as int;
    let v = i32_of_bits(id) as int;
    if wants_parent_tid(m) && parent == 0 {
        let told = m.ret(-22);
        assert(e.refusal(m, Errno::EINVAL).regs == told.regs);
    } else {
        assert forall|i: int| 0 <= i < tasks.len() implies #[trigger] tasks2[i] == tasks[i] by {
            assert(tasks2.drop_last()[i] == tasks[i]);
        }
        let told = if wants_parent_tid(m) {
            m.write(parent, le32(id))
        } else {
            m
        };
        if wants_parent_tid(m) {
            lemma_id_told(m, parent, id, v);
        }
        if child != 0 {
            assert(told.mapped(child, 4));
            lemma_id_told(told, child, id, v);
            let told2 = told.write(child, le32(id));
            if wants_parent_tid(m) && parent != child {
                lemma_half_apart(told, child, le32(id), parent);
                assert(told2.ret(v).mem == told2.mem);
                assert(told2.ret(v).read(parent, 4) =~= told2.read(parent, 4));
                assert(told2.mapped(parent, 4));
                assert(told2.ret(v).mapped(parent, 4));
            }
        }
    }
}

/// A clone call that finds its function on the new stack queues one more thread that starts
/// there: at `fn_ptr` with `arg`, on the stack in `X1`, with the thread data in `X3` and its
/// id kept at `X4`. Its id is the next one, which the caller gets as its result, and which is
/// stored at `X2` and `X4` where these are mapped addresses.
pub proof fn law_thread_from_stack(
    m: Machine,
    e: AndroidEmulator,
    fn_ptr: u64,
    arg: u64,
    m2: Machine,
    e2: AndroidEmulator,
)
    requires
        pthread_clone_done(m, e, fn_ptr, arg, m2, e2),
        m.regs.len() == 35,
    ensures
        ({
            let id = e.next_task_id;
            let tasks = e.thread_dispatcher.tasks@;
            let tasks2 = e2.thread_dispatcher.tasks@;
            let parent = m.reg(RegisterARM64::X2) as int;
            let child = m.reg(RegisterARM64::X4) as int;
            &&& tasks2.len() == tasks.len() + 1
            &&& forall|i: int| 0 <= i < tasks.len() ==> #[trigger] tasks2[i] == tasks[i]
            &&& yet_to_run(tasks2[tasks.len() as int], id)
            &&& tasks2[tasks.len() as int].start.fn_ptr == fn_ptr
            &&& tasks2[tasks.len() as int].start.arg == arg
            &&& tasks2[tasks.len() as int].start.child_stack == m.reg(RegisterARM64::X1)
            &&& tasks2[tasks.len() as int].start.tls == m.reg(RegisterARM64::X3)
            &&& tasks2[tasks.len() as int].start.child_tid == m.reg(RegisterARM64::X4)
            &&& m2.reg_u32(RegisterARM64::X0) == id
            &&& child != 0 && m.mapped(child, 4) ==> m2.read_u32(child) == Some(id)
            &&& parent != 0 && m.mapped(parent, 4) && (parent == child || parent + 4 <= child
                || child + 4 <= parent) ==> m2.read_u32(parent) == Some(id)
            &&& id < u32::MAX ==> e2.next_task_id == id + 1
        }),
{
    let id = e.next_task_id;
    let tasks = e.thread_dispatcher.tasks@;
    let tasks2 = e2.thread_dispatcher.tasks@;
    let parent = m.reg(RegisterARM64::X2) as int;
    let child = m.reg(RegisterARM64::X4) as int;
    let v = i32_of_bits(id) as int;
    assert forall|i: int| 0 <= i < tasks.len() implies #[trigger] tasks2[i] == tasks[i] by {
        assert(tasks2.drop_last()[i] == tasks[i]);
    }
    lemma_ids_told(m, parent, child, id, v);
}

/// The id that was stored at one address, and then at another, is read back at both.
#[verifier::rlimit(40)]
proof fn lemma_ids_told(m: Machine, parent: int, child: int, id: u32, v: int)
    ensures
        ({
            let told = if parent != 0 {
                m.try_write(parent, le32(id))
            } else {
                m
            };
            let told2 = if child != 0 {
                told.try_write(child, le32(id))
            } else {
                told
            };
            &&& told2.regs == m.regs
            &&& child != 0 && m.mapped(child, 4) ==> told2.ret(v).read_u32(child) == Some(id)
            &&& parent != 0 && m.mapped(parent, 4) && (parent == child || parent + 4 <= child
                || child + 4 <= parent) ==> told2.ret(v).read_u32(parent) == Some(id)
        }),
{
    let told = if parent != 0 {
        m.try_write(parent, le32(id))
    } else {
        m
    };
    let told2 = if child != 0 {
        told.try_write(child, le32(id))
    } else {
        told
    };
    assert(told.mem.dom() =~= m.mem.dom());
    assert(told.mapped(child, 4) == m.mapped(child, 4));
    if parent != 0 && m.mapped(parent, 4) {
        lemma_id_told(m, parent, id, v);
    }
    if child != 0 && m.mapped(child, 4) {
        lemma_id_told(told, child, id, v);
    }
    if parent != 0 && m.mapped(parent, 4) && child != 0 && (parent + 4 <= child || child + 4
        <= parent) {
        lemma_half_apart(told, child, le32(id), parent);
        assert(told2.ret(v).mem == told2.mem);
        assert(told2.ret(v).read(parent, 4) =~= told2.read(parent, 4));
        assert(told2.ret(v).mapped(parent, 4) == told2.mapped(parent, 4));
    }
}

/// What a clone call starts. With a stack in `X1` whose first word is a function, that
/// function runs with the second word as its argument. Without one, the function in `X5`
/// runs with the argument in `X6`. Without either, or with neither a stack nor an address in
/// the low half of `X2`, it is a fork: no thread comes of it, and the caller is told a
/// process id that is 1000 above its own.
pub proof fn law_clone(m: Machine, e: AndroidEmulator, m2: Machine, e2: AndroidEmulator)
    requires
        clone_done(m, e, m2, e2),
        m.regs.len() == 35,
        m.reg(RegisterARM64::X1) + 8 <= u64::MAX,
        !(m.reg_u32(RegisterARM64::X0) & 0x10_0000 != 0 && m.reg(RegisterARM64::X2) == 0),
    ensures
        ({
            let stack = m.reg(RegisterARM64::X1) as int;
            let top = m.read_u64(stack);
            let next = m.read_u64(stack + 8);
            let tasks = e.thread_dispatcher.tasks@;
            let tasks2 = e2.thread_dispatcher.tasks@;
            let new = tasks2[tasks.len() as int].start;
            if stack == 0 && m.reg(RegisterARM64::X2) % 0x1_0000_0000 == 0 {
                &&& e2 == e
                &&& e.pid <= i32::MAX - 1000 ==> m2.reg(RegisterARM64::X0) == e.pid + 1000
            } else if stack != 0 && top is Some && top->0 != 0 {
                &&& tasks2.len() == tasks.len() + 1
                &&& new.fn_ptr == top->0
                &&& new.arg == match next {
                    Some(w) => w,
                    None => 0,
                }
                &&& new.child_stack == stack
                &&& new.tls == m.reg(RegisterARM64::X3)
                &&& new.child_tid == m.reg(RegisterARM64::X4)
            } else if m.reg(RegisterARM64::X5) != 0 {
                &&& tasks2.len() == tasks.len() + 1
                &&& new.fn_ptr == m.reg(RegisterARM64::X5)
                &&& new.arg == m.reg(RegisterARM64::X6)
                &&& new.child_stack == stack
                &&& new.tls == m.reg(RegisterARM64::X3)
                &&& new.child_tid == m.reg(RegisterARM64::X4)
            } else {
                &&& e2 == e
                &&& e.pid <= i32::MAX - 1000 ==> m2.reg(RegisterARM64::X0) == e.pid + 1000
            }
        }),
{
}

/// A task waits on the futex word at `addr`.
pub open spec fn parked_at(t: AbstractTask, addr: u64) -> bool {
    match t.base.waiter {
        Some(Waiter::FutexIndefinite(w)) => w.uaddr == addr,
        Some(Waiter::FutexNanoSleep(w)) => w.uaddr == addr,
        _ => false,
    }
}

/// A task that waits on a futex was told that it was woken.
pub open spec fn told_to_wake(t: AbstractTask) -> bool {
    match t.base.waiter {
        Some(Waiter::FutexIndefinite(w)) => w.woken_up,
        Some(Waiter::FutexNanoSleep(w)) => w.woken_up,
        _ => false,
    }
}

/// How many of the first `n` tasks wait on the futex word at `addr`.
pub open spec fn parked_count(tasks: Seq<AbstractTask>, addr: u64, n: int) -> int
    decreases n,
{
    if n <= 0 {
        0
    } else {
        parked_count(tasks, addr, n - 1) + if parked_at(tasks[n - 1], addr) {
            1int
        } else {
            0
        }
    }
}

proof fn lemma_parked_count(tasks: Seq<AbstractTask>, addr: u64, max: u32, n: int)
    requires
        0 <= n <= tasks.len(),
    ensures
        0 <= parked_count(tasks, addr, n) <= n,
        woken_count(tasks, addr, max, n) == if parked_count(tasks, addr, n) <= max {
            parked_count(tasks, addr, n)
        } else {
            max as int
        },
    decreases n,
{
    if n > 0 {
        lemma_parked_count(tasks, addr, max, n - 1);
    }
}

/// A futex wait, operation 0 or 9. Where the word at `X0` can be read and holds the low half
/// of `X2`, and there is another task, the running task is parked: it waits at `X0` for that
/// value, not yet woken, and stops as sleeping. No other task and no part of the machine
/// changes. Without a time limit in `X3` it waits for good; with one, for the seconds and
/// nanoseconds there, in milliseconds, from what the clock shows. In all other cases the wait
/// is refused with 11 and nobody is parked.
pub proof fn law_futex_wait(
    m: Machine,
    e: AndroidEmulator,
    now: Option<u64>,
    m2: Machine,
    e2: AndroidEmulator,
    r: Result<(), ClockError>,
    i: int,
)
    requires
        futex_done(m, e, now, m2, e2, r),
        futex_ready(m, e),
        m.regs.len() == 35,
        m.reg_i32(RegisterARM64::X1) & 0x7f == 0 || m.reg_i32(RegisterARM64::X1) & 0x7f == 9,
        now is Some,
        0 <= i < e.thread_dispatcher.tasks@.len(),
    ensures
        r is Ok,
        ({
            let uaddr = m.reg(RegisterARM64::X0);
            let tasks = e.thread_dispatcher.tasks@;
            let tasks2 = e2.thread_dispatcher.tasks@;
            let me = e.thread_dispatcher.running->0 as int;
            let limit = m.reg(RegisterARM64::X3) as int;
            let expected = m.read_u32(uaddr as int) == Some(
                (m.reg(RegisterARM64::X2) % 0x1_0000_0000) as u32,
            );
            if expected && tasks.len() > 1 {
                &&& m2 == m
                &&& e2.stop == Some(TaskStatus::S)
                &&& tasks2.len() == tasks.len()
                &&& i != me ==> tasks2[i] == tasks[i]
                &&& parked_at(tasks2[me], uaddr)
                &&& !told_to_wake(tasks2[me])
                &&& match tasks2[me].base.waiter {
                    Some(Waiter::FutexIndefinite(w)) => limit == 0 && w.val
                        == m.reg(RegisterARM64::X2) % 0x1_0000_0000,
                    Some(Waiter::FutexNanoSleep(w)) => {
                        let sec = i64_of_bits(m.read_u64(limit)->0);
                        let nsec = i64_of_bits(m.read_u64(limit + 8)->0);
                        &&& limit != 0
                        &&& w.val == m.reg(RegisterARM64::X2) % 0x1_0000_0000
                        &&& w.start_time == now->0
                        &&& 0 <= sec && 0 <= nsec ==> w.wait_millis == sec * 1000 + nsec as int
                            / 1_000_000
                    },
                    _ => false,
                }
            } else {
                &&& m2.reg_i64(RegisterARM64::X0) == -11
                &&& e2 == e
            }
        }),
{
    let c = m.reg_i32(RegisterARM64::X1) & 0x7f;
    assert(is_wait(c));
    if !(word_matches(m) && e.thread_dispatcher.tasks@.len() > 1) {
        let told = m.ret(-11);
        assert(e.refusal(m, Errno::EAGAIN).regs == told.regs);
    }
}

/// A futex wake-up, operation 1 or 10. It wakes as many of the tasks that wait on the word at
/// `X0` as the low half of `X2` says, or all where they are fewer, and gives their number.
/// Those that come first in the order of tasks are woken first. A task that waits elsewhere,
/// or not at all, stays as it is.
pub proof fn law_futex_wake(
    m: Machine,
    e: AndroidEmulator,
    now: Option<u64>,
    m2: Machine,
    e2: AndroidEmulator,
    r: Result<(), ClockError>,
    i: int,
)
    requires
        futex_done(m, e, now, m2, e2, r),
        m.regs.len() == 35,
        m.reg_i32(RegisterARM64::X1) & 0x7f == 1 || m.reg_i32(RegisterARM64::X1) & 0x7f == 10,
        0 <= i < e.thread_dispatcher.tasks@.len() <= i32::MAX,
    ensures
        r is Ok,
        ({
            let uaddr = m.reg(RegisterARM64::X0);
            let max = m.reg(RegisterARM64::X2) % 0x1_0000_0000;
            let tasks = e.thread_dispatcher.tasks@;
            let tasks2 = e2.thread_dispatcher.tasks@;
            let waiting = parked_count(tasks, uaddr, tasks.len() as int);
            &&& tasks2.len() == tasks.len()
            &&& m2.reg(RegisterARM64::X0) == if waiting <= max {
                waiting
            } else {
                max as int
            }
            &&& parked_at(tasks[i], uaddr) && parked_count(tasks, uaddr, i) < max ==> {
                &&& told_to_wake(tasks2[i])
                &&& parked_at(tasks2[i], uaddr)
                &&& tasks2[i].id == tasks[i].id
                &&& tasks2[i].start == tasks[i].start
            }
            &&& !(parked_at(tasks[i], uaddr) && parked_count(tasks, uaddr, i) < max) ==> tasks2[i]
                == tasks[i]
            &&& e2.stop == e.stop
            &&& m2.mem == m.mem
        }),
{
    let uaddr = m.reg(RegisterARM64::X0);
    let max = m.reg_u32(RegisterARM64::X2);
    let tasks = e.thread_dispatcher.tasks@;
    lemma_parked_count(tasks, uaddr, max, tasks.len() as int);
    lemma_parked_count(tasks, uaddr, max, i);
    assert(!is_wait(m.reg_i32(RegisterARM64::X1) & 0x7f));
}

/// A fork pretends to have made the process whose number is a thousand above that of the
/// caller.
pub proof fn law_forked_number(b: Backend, pid: u32)
    requires
        pid < 0x7fff_0000,
    ensures
        forked_pid(pid) == pid + 1000,
        b@.ret(forked_pid(pid) as int).reg_i64(RegisterARM64::X0) == pid + 1000,
{
    b.reg_slots();
}

/// What a mask call does to the current thread. The mask that it had is handed out to the
/// address in the third register. Way zero adds the signals of the new mask and no others, way
/// one takes them away and no others, way two sets the mask; every other way is refused with
/// 22. Other threads keep their masks.
#[verifier::rlimit(40)]
pub proof fn law_mask_call(
    b: Backend,
    e: AndroidEmulator,
    m2: Machine,
    e2: AndroidEmulator,
    old_mask: u64,
    other: int,
)
    requires
        sigprocmask_done(b@, e, m2, e2),
        e.thread_dispatcher.context matches Some(i) && i < e.thread_dispatcher.tasks@.len(),
        in_thread(e.thread_dispatcher),
        e.thread_dispatcher.tasks@[e.thread_dispatcher.context->0 as int].signals.mask == Some(
            old_mask,
        ),
        b@.reg(RegisterARM64::X1) != 0,
        b@.mapped(b@.reg(RegisterARM64::X1) as int, 8),
        b@.reg(RegisterARM64::X2) == 0 || b@.mapped(b@.reg(RegisterARM64::X2) as int, 8),
        b@.reg(RegisterARM64::X2) + 8 <= b@.reg(RegisterARM64::X1) || b@.reg(RegisterARM64::X1) + 8
            <= b@.reg(RegisterARM64::X2) || b@.reg(RegisterARM64::X2) == 0,
    ensures
        ({
            let i = e.thread_dispatcher.context->0 as int;
            let how = b@.reg_i32(RegisterARM64::X0);
            let new = b@.read_u64(b@.reg(RegisterARM64::X1) as int)->0;
            let out = b@.reg(RegisterARM64::X2);
            let after = e2.thread_dispatcher.tasks@[i].signals.mask;
            let x0 = m2.reg_i64(RegisterARM64::X0);
            &&& how == 0 ==> x0 == 0 && (after matches Some(v) && v & new == new && v & !new
                == old_mask & !new)
            &&& how == 1 ==> x0 == 0 && (after matches Some(v) && v & new == 0 && v & !new
                == old_mask & !new)
            &&& how == 2 ==> x0 == 0 && after == Some(new)
            &&& how < 0 || how > 2 ==> x0 == -22 && e2 == e
            &&& 0 <= how <= 2 && out != 0 ==> m2.read_u64(out as int) == Some(old_mask)
            &&& 0 <= other < e.thread_dispatcher.tasks@.len() && other != i
                ==> e2.thread_dispatcher.tasks@[other] == e.thread_dispatcher.tasks@[other]
        }),
{
    b.reg_slots();
    let m = b@;
    let d = e.thread_dispatcher;
    let t = d.tasks@[d.context->0 as int];
    let told = mask_told(m, t.signals);
    let set = m.reg(RegisterARM64::X1) as int;
    let out = m.reg(RegisterARM64::X2) as int;
    let new = m.read_u64(set)->0;
    assert((old_mask | new) & new == new && (old_mask | new) & !new == old_mask & !new)
        by (bit_vector);
    assert((old_mask & !new) & new == 0 && (old_mask & !new) & !new == old_mask & !new)
        by (bit_vector);
    if out != 0 {
        crate::backend::lemma_word_stored(m, out, old_mask);
        crate::backend::lemma_word_apart(m, out, le64(old_mask), set);
        assert(told.ret(0).read_u64(out) == told.read_u64(out));
    }
    assert(told.read_u64(set) == m.read_u64(set));
    assert(told.regs == m.regs);
    assert(e.refusal(told, Errno::EINVAL).regs == told.ret(-22).regs);
}

/// A task that is no thread has no mask: what is handed out is zero, and nothing is kept.
pub proof fn law_mask_call_outside_threads(
    b: Backend,
    e: AndroidEmulator,
    m2: Machine,
    e2: AndroidEmulator,
)
    requires
        sigprocmask_done(b@, e, m2, e2),
        !in_thread(e.thread_dispatcher),
    ensures
        e2 == e,
        m2.reg_i64(RegisterARM64::X0) == 0,
        b@.reg(RegisterARM64::X2) != 0 && b@.mapped(b@.reg(RegisterARM64::X2) as int, 8)
            ==> m2.read_u64(b@.reg(RegisterARM64::X2) as int) == Some(0u64),
{
    b.reg_slots();
    let m = b@;
    let out = m.reg(RegisterARM64::X2) as int;
    if out != 0 && m.mapped(out, 8) {
        crate::backend::lemma_word_stored(m, out, 0);
        let w = m.write(out, le64(0));
        assert(w.ret(0).read_u64(out) == w.read_u64(out));
    }
}

/// A thread that says where its id is kept gets its id, and from then on that place is the one
/// that is cleared when it exits; outside threads the answer is the process's number where no
/// task is current. No other thread changes.
pub proof fn law_id_address(
    b: Backend,
    e: AndroidEmulator,
    m2: Machine,
    e2: AndroidEmulator,
    other: int,
)
    requires
        tid_address_done(b@, e, m2, e2),
        e.thread_dispatcher.context matches Some(i) ==> i < e.thread_dispatcher.tasks@.len(),
    ensures
        ({
            let d = e.thread_dispatcher;
            let d2 = e2.thread_dispatcher;
            &&& d.context is None ==> m2.reg(RegisterARM64::X0) == e.pid && d2 == d
            &&& d.context matches Some(i) ==> m2.reg(RegisterARM64::X0) == d.tasks@[i as int].id && (
            d.tasks@[i as int].kind == TaskKind::MarshmallowThread
                ==> d2.tasks@[i as int].start.child_tid == b@.reg(RegisterARM64::X0)
                && d2.tasks@[i as int].id == d.tasks@[i as int].id
                && d2.tasks@[i as int].start.fn_ptr == d.tasks@[i as int].start.fn_ptr)
            &&& 0 <= other < d.tasks@.len() && d.context != Some(other as usize)
                ==> d2.tasks@[other] == d.tasks@[other]
            &&& m2.mem == b@.mem
        }),
{
    b.reg_slots();
    assert(e.thread_dispatcher.tasks@.len() == e.thread_dispatcher.tasks.len());
}

} // verus!
