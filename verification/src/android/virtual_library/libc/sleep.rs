//! Sleeping, which takes no time here, and signal actions.
//!
//! A sleep that entered the C library's own trap would stop the processor inside it.
//! The stub that stands in for it is a trap and a return, so a stopped guest goes on
//! in its caller.
use vstd::prelude::*;
use crate::backend::{Backend, Machine, RegisterARM64};
use crate::emulator::base_task::TaskStatus;
use crate::emulator::state::AndroidEmulator;
use crate::le::{put_zeros, zeros};
use crate::linux::syscalls::process::told;
use crate::memory::svc_memory::SvcCallResult;

verus! {

impl AndroidEmulator {
    /// The process after the current task gave way: where there are other tasks the
    /// processor stops, and the current task stays able to run.
    pub open spec fn yielded(self) -> AndroidEmulator {
        if self.thread_dispatcher.tasks@.len() > 1 {
            AndroidEmulator { stop: Some(TaskStatus::R), ..self }
        } else {
            self
        }
    }

    /// Give way to other tasks, if there are any. Says whether there are.
    pub fn yield_to_other_threads(&mut self) -> (r: bool)
        ensures
            r == (old(self).thread_dispatcher.tasks@.len() > 1),
            *final(self) == old(self).yielded(),
    {
        if self.thread_dispatcher.task_counts() > 1 {
            self.emu_stop(TaskStatus::R);
            true
        } else {
            false
        }
    }
}

/// Tell the guest that no time is left, where it wants to know.
fn zero_timespec(backend: &mut Backend, addr: u64)
    ensures
        final(backend)@ == told(old(backend)@, addr, zeros(16)),
{
    if addr != 0 {
        backend.mem_try_write(addr, put_zeros(16).as_slice());
    }
}

/// End a sleep at once: no time is left, and others may run.
pub fn sleep_and_yield(backend: &mut Backend, emulator: &mut AndroidEmulator, rem: u64) -> (r:
    SvcCallResult)
    ensures
        r == SvcCallResult::RET(0),
        final(backend)@ == told(old(backend)@, rem, zeros(16)),
        *final(emulator) == old(emulator).yielded(),
{
    zero_timespec(backend, rem);
    emulator.yield_to_other_threads();
    SvcCallResult::RET(0)
}

pub struct Usleep;

pub struct Nanosleep;

pub struct ClockNanosleep;

pub struct Sigaction;

impl Usleep {
    pub fn handle(&self, backend: &mut Backend, emulator: &mut AndroidEmulator) -> (r:
        SvcCallResult)
        ensures
            r == SvcCallResult::RET(0),
            final(backend)@ == old(backend)@,
            *final(emulator) == old(emulator).yielded(),
    {
        sleep_and_yield(backend, emulator, 0)
    }
}

impl Nanosleep {
    /// The time that is left goes to `X1`.
    pub fn handle(&self, backend: &mut Backend, emulator: &mut AndroidEmulator) -> (r:
        SvcCallResult)
        ensures
            r == SvcCallResult::RET(0),
            final(backend)@ == told(
                old(backend)@,
                old(backend)@.reg(RegisterARM64::X1),
                zeros(16),
            ),
            *final(emulator) == old(emulator).yielded(),
    {
        let rem: u64 = backend.reg_read(RegisterARM64::X1);
        sleep_and_yield(backend, emulator, rem)
    }
}

impl ClockNanosleep {
    /// The time that is left goes to `X3`.
    pub fn handle(&self, backend: &mut Backend, emulator: &mut AndroidEmulator) -> (r:
        SvcCallResult)
        ensures
            r == SvcCallResult::RET(0),
            final(backend)@ == told(
                old(backend)@,
                old(backend)@.reg(RegisterARM64::X3),
                zeros(16),
            ),
            *final(emulator) == old(emulator).yielded(),
    {
        let rem: u64 = backend.reg_read(RegisterARM64::X3);
        sleep_and_yield(backend, emulator, rem)
    }
}

impl Sigaction {
    /// Every signal has its default action, and `X2` is told so.
    pub fn handle(&self, backend: &mut Backend, emulator: &AndroidEmulator) -> (r: SvcCallResult)
        ensures
            r == SvcCallResult::RET(0),
            final(backend)@ == told(
                old(backend)@,
                old(backend)@.reg(RegisterARM64::X2),
                zeros(32),
            ),
    {
        let oldact: u64 = backend.reg_read(RegisterARM64::X2);
        if oldact != 0 {
            backend.mem_try_write(oldact, put_zeros(32).as_slice());
        }
        SvcCallResult::RET(0)
    }
}

/// A guest that sleeps is told that no time is left, where it asks for that, and goes on with
/// the others getting their turn: the processor stops with the sleeper still able to run
/// exactly where there is another task.
pub proof fn law_sleep_takes_no_time(m: Machine, rem: u64, e: AndroidEmulator)
    ensures
        ({
            let after = told(m, rem, zeros(16));
            &&& after.regs == m.regs
            &&& rem == 0 ==> after == m
            &&& rem != 0 && m.mapped(rem as int, 16) ==> {
                &&& forall|i: int| 0 <= i < 16 ==> #[trigger] after.mem[rem + i] == 0
                &&& forall|a: int|
                    m.mem.dom().contains(a) && !(rem <= a < rem + 16) ==> #[trigger] after.mem[a]
                        == m.mem[a]
            }
            &&& e.thread_dispatcher.tasks@.len() > 1 ==> e.yielded().stop == Some(TaskStatus::R)
            &&& e.thread_dispatcher.tasks@.len() <= 1 ==> e.yielded() == e
            &&& e.yielded().thread_dispatcher == e.thread_dispatcher
        }),
{
    if rem != 0 && m.mapped(rem as int, 16) {
        let after = told(m, rem, zeros(16));
        assert forall|i: int| 0 <= i < 16 implies #[trigger] after.mem[rem + i] == 0 by {
            assert(m.mem.dom().contains(rem + i));
        }
    }
}

} // verus!
