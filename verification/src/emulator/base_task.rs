//! What every guest thread is made of: its registers while it is parked, what it
//! waits for, its stack and its call records.
use std::time::SystemTime;
use hashbag::HashBag;
use vstd::multiset::Multiset;
use vstd::prelude::*;
use crate::backend::{Backend, Context, Machine, RegisterARM64, slot_of};
use crate::linux::pipe::PipeTable;
use crate::linux::thread::{
    any_ready, clock_seconds, clock_showed, epoch_secs, exit_word, futex_changed, poll_answered,
    ready_count, sleep_over, ChildTable, ClockError, Waiter,
};
use crate::le::le32;
use crate::linux::errno::{errno_number, Errno};
use crate::num::{bits_of_i64, min_int, sign_extend, to_bits_i64};
use crate::outside::{bag_contents, bag_count, bag_insert_many, bag_new, bag_remove_up_to};

verus! {

pub const THREAD_STACK_SIZE: u64 = 0x80000;

/// A thread's state in the scheduler.
#[derive(Clone, Copy, Debug, PartialEq, Eq, Structural)]
pub enum TaskStatus {
    /// Running.
    R,
    /// Sleeping.
    S,
    /// Exited.
    X,
    /// Not started yet.
    Z,
}

/// The guest's general registers, owned by the runtime.
#[derive(Clone, Copy, Debug)]
pub struct Arm64Snap {
    pub x: [u64; 31],
    pub sp: u64,
    pub pc: u64,
    pub nzcv: u64,
    pub tpidr: u64,
}

/// The register slots that a snapshot stands for.
pub open spec fn snap_regs(s: Arm64Snap) -> Seq<u64> {
    s.x@ + seq![s.sp, s.pc, s.nzcv, s.tpidr]
}

/// General register `i`; the link register is number 30, and there is none above.
pub fn gpr(i: usize) -> (r: RegisterARM64)
    ensures
        i <= 30 ==> slot_of(r) == i,
        i > 30 ==> r == RegisterARM64::XZR,
{
    match i {
        0 => RegisterARM64::X0,
        1 => RegisterARM64::X1,
        2 => RegisterARM64::X2,
        3 => RegisterARM64::X3,
        4 => RegisterARM64::X4,
        5 => RegisterARM64::X5,
        6 => RegisterARM64::X6,
        7 => RegisterARM64::X7,
        8 => RegisterARM64::X8,
        9 => RegisterARM64::X9,
        10 => RegisterARM64::X10,
        11 => RegisterARM64::X11,
        12 => RegisterARM64::X12,
        13 => RegisterARM64::X13,
        14 => RegisterARM64::X14,
        15 => RegisterARM64::X15,
        16 => RegisterARM64::X16,
        17 => RegisterARM64::X17,
        18 => RegisterARM64::X18,
        19 => RegisterARM64::X19,
        20 => RegisterARM64::X20,
        21 => RegisterARM64::X21,
        22 => RegisterARM64::X22,
        23 => RegisterARM64::X23,
        24 => RegisterARM64::X24,
        25 => RegisterARM64::X25,
        26 => RegisterARM64::X26,
        27 => RegisterARM64::X27,
        28 => RegisterARM64::X28,
        29 => RegisterARM64::X29,
        30 => RegisterARM64::LR,
        _ => RegisterARM64::XZR,
    }
}

/// Take a snapshot of the registers.
pub fn capture_snap(backend: &Backend) -> (s: Arm64Snap)
    ensures
        snap_regs(s) == backend@.regs,
{
    proof {
        backend.reg_slots();
    }
    let mut x: [u64; 31] = [0;31];
    let mut i: usize = 0;
    while i < 31
        invariant
            i <= 31,
            backend@.regs.len() == 35,
            x@.len() == 31,
            forall|j: int| 0 <= j < i ==> x@[j] == backend@.regs[j],
        decreases 31 - i,
    {
        x[i] = backend.reg_read(gpr(i));
        i = i + 1;
    }
    let s = Arm64Snap {
        x,
        sp: backend.reg_read(RegisterARM64::SP),
        pc: backend.reg_read(RegisterARM64::PC),
        nzcv: backend.reg_read(RegisterARM64::NZCV),
        tpidr: backend.reg_read(RegisterARM64::TPIDR_EL0),
    };
    assert(snap_regs(s) =~= backend@.regs);
    s
}

/// Load the registers from a snapshot.
pub fn apply_snap(backend: &mut Backend, snap: &Arm64Snap)
    ensures
        final(backend)@ == (Machine { regs: snap_regs(*snap), ..old(backend)@ }),
{
    proof {
        backend.reg_slots();
    }
    let mut i: usize = 0;
    while i < 31
        invariant
            i <= 31,
            backend@.regs.len() == 35,
            backend@.mem == old(backend)@.mem,
            backend@.prot == old(backend)@.prot,
            forall|j: int| 0 <= j < i ==> backend@.regs[j] == snap.x@[j],
        decreases 31 - i,
    {
        backend.reg_write(gpr(i), snap.x[i]);
        i = i + 1;
    }
    backend.reg_write(RegisterARM64::SP, snap.sp);
    backend.reg_write(RegisterARM64::PC, snap.pc);
    backend.reg_write(RegisterARM64::NZCV, snap.nzcv);
    backend.reg_write(RegisterARM64::TPIDR_EL0, snap.tpidr);
    assert(backend@.regs =~= snap_regs(*snap));
    assert(backend@ =~= (Machine { regs: snap_regs(*snap), ..old(backend)@ }));
}

/// A run of guest memory that a thread owns.
#[derive(Clone, Copy, Debug, PartialEq, Eq, Structural)]
pub struct MemoryBlock {
    pub addr: u64,
    pub size: u64,
}

/// A guest call that was entered and has not returned.
#[derive(Clone, Copy, Debug, PartialEq, Eq, Structural)]
pub struct FunctionCall {
    pub function: u64,
    pub return_address: i64,
}

/// Run the guest from `pc` until it reaches `until`, with no code cached from an
/// earlier slice.
#[derive(Clone, Copy, Debug, PartialEq, Eq, Structural)]
pub struct EmulateRequest {
    pub pc: u64,
    pub until: u64,
    /// The processor core has to drop the code that it compiled for the thread that ran
    /// before.
    pub clear_code: bool,
}

/// What is left to do when a thread is gone.
#[derive(Clone, Copy, Debug, PartialEq, Eq, Structural)]
pub struct Teardown {
    /// Stack memory to give back.
    pub free: Option<MemoryBlock>,
    /// Whether the saved context is to be released.
    pub release_context: bool,
    /// The listener to tell.
    pub notify: Option<usize>,
}

pub struct BaseTask {
    pub waiter: Option<Waiter>,
    pub context: Option<Context>,
    pub snap: Option<Arm64Snap>,
    pub stack_block: Option<MemoryBlock>,
    pub destroy_listener: Option<usize>,
    pub stack: Vec<FunctionCall>,
    pub bag: HashBag<u64>,
    pub status: TaskStatus,
    /// When true, the next run jumps to the link register if the instruction before
    /// the program counter is a supervisor call. Set after a stop inside such a call,
    /// so that what follows it in the wrapper is skipped. A snapshot that was planted
    /// for a fork child leaves it false, so that the child runs the wrapper's return.
    pub skip_svc_epilogue: bool,
}

/// The machine after the saved registers of a thread were loaded: the context first,
/// the snapshot over it.
pub open spec fn reloaded(m: Machine, context: Option<Context>, snap: Option<Arm64Snap>) -> Machine {
    match snap {
        Some(s) => Machine { regs: snap_regs(s), ..m },
        None => match context {
            Some(c) => Machine { regs: c.regs@, ..m },
            None => m,
        },
    }
}

/// The word is a supervisor call, with any immediate.
pub open spec fn is_svc(w: u32) -> bool {
    w & 0xffe0_001f == 0xd400_0001
}

/// The instruction before the program counter is a supervisor call, and there is a
/// link register to return to.
pub open spec fn stopped_in_svc(m: Machine) -> bool {
    &&& m.reg(RegisterARM64::LR) != 0
    &&& m.reg(RegisterARM64::PC) >= 4
    &&& match m.read_u32(m.reg(RegisterARM64::PC) - 4) {
        Some(w) => is_svc(w),
        None => false,
    }
}

/// The machine with the program counter moved past a supervisor call's wrapper.
pub open spec fn skipped(m: Machine, skip: bool) -> Machine {
    if skip && stopped_in_svc(m) {
        m.set_reg(RegisterARM64::PC, m.reg(RegisterARM64::LR))
    } else {
        m
    }
}

/// The machine after a waiter put its result in place.
pub open spec fn wait_finished(
    m: Machine,
    w: Waiter,
    pipes: PipeTable,
    children: ChildTable,
) -> Machine {
    match w {
        Waiter::FutexIndefinite(w) => m.ret(
            if w.woken_up {
                0
            } else {
                -errno_number(Errno::EAGAIN)
            },
        ),
        Waiter::FutexNanoSleep(w) => m.ret(
            if w.woken_up {
                0
            } else {
                -errno_number(Errno::ETIMEDOUT)
            },
        ),
        Waiter::PipeRead(w) => {
            let p = pipes.pipes@[w.pipe as int];
            let n = min_int(w.count as int, p.unread().len() as int);
            m.try_write(w.dst as int, p.unread().take(n)).set_reg(RegisterARM64::X0, n as u64)
        },
        Waiter::Poll(w) => poll_answered(
            m,
            w.watches@,
            pipes.pipes@,
            w.watches@.len() as int,
        ).set_reg(
            RegisterARM64::X0,
            ready_count(w.watches@, pipes.pipes@, w.watches@.len() as int) as u64,
        ),
        Waiter::ChildExit(w) => {
            let word = le32(exit_word(children.children@[w.child as int].status));
            (if w.wstatus != 0 {
                m.try_write(w.wstatus as int, word)
            } else {
                m
            }).set_reg(RegisterARM64::X0, sign_extend(w.pid))
        },
        Waiter::Unknown => m,
    }
}

/// The pipes after a waiter put its result in place: a pipe read takes its bytes.
pub open spec fn pipes_after(w: Waiter, pipes: PipeTable) -> Seq<crate::linux::pipe::Pipe> {
    match w {
        Waiter::PipeRead(w) => {
            let p = pipes.pipes@[w.pipe as int];
            let n = min_int(w.count as int, p.unread().len() as int);
            pipes.pipes@.update(w.pipe as int, p.advanced(n))
        },
        _ => pipes.pipes@,
    }
}

/// Whether a thread with this waiter can go on, or that the clock does not say.
pub open spec fn wait_over(
    w: Waiter,
    m: Machine,
    pipes: PipeTable,
    children: ChildTable,
    now: Option<u64>,
) -> Result<bool, ClockError> {
    match w {
        Waiter::FutexIndefinite(w) => Ok(w.woken_up || futex_changed(m, w.uaddr, w.val)),
        Waiter::FutexNanoSleep(w) => sleep_over(w, m, now),
        Waiter::PipeRead(w) => Ok(pipes.pipes@[w.pipe as int].unread().len() > 0 || w.yielded),
        Waiter::Poll(w) => Ok(any_ready(w.watches@, pipes.pipes@) || w.yielded),
        Waiter::ChildExit(w) => Ok(!children.children@[w.child as int].alive),
        Waiter::Unknown => Ok(true),
    }
}

/// A waiter after it was asked once: one on pipes remembers that it gave way.
pub open spec fn asked(w: Waiter, over: bool) -> Waiter {
    match w {
        Waiter::PipeRead(w) => Waiter::PipeRead(
            crate::linux::thread::PipeReadWaiter { yielded: w.yielded || !over, ..w },
        ),
        Waiter::Poll(w) => Waiter::Poll(
            crate::linux::thread::PollWaiter { yielded: w.yielded || !over, ..w },
        ),
        w => w,
    }
}

/// The guest is about to return from the newest recorded call: it returns to the call's
/// return address, and no recorded call returns to the address that is left.
pub open spec fn takes_back(stack: Seq<FunctionCall>, lr: u64, counted: nat) -> bool {
    counted == 0 && lr == bits_of_i64(stack.last().return_address)
}

/// What to clean up after a thread. A stack block that cannot be one is a sign of damaged
/// memory.
pub open spec fn teardown_of(t: BaseTask) -> Teardown {
    let broken = t.stack_block matches Some(b) && (b.addr == 0 || b.addr % 0x1000 != 0 || b.size
        == 0 || b.size > 0x100_0000);
    if broken {
        Teardown { free: None, release_context: false, notify: None }
    } else {
        Teardown {
            free: t.stack_block,
            release_context: t.context is Some,
            notify: t.destroy_listener,
        }
    }
}

impl BaseTask {
    /// What the thread waits for exists.
    pub open spec fn wf(self, pipes: int, children: int) -> bool {
        self.waiter matches Some(w) ==> w.wf(pipes, children)
    }

    pub fn new() -> (t: BaseTask)
        ensures
            t.waiter is None,
            t.context is None,
            t.snap is None,
            t.stack_block is None,
            t.destroy_listener is None,
            t.stack@.len() == 0,
            bag_contents(t.bag) == Multiset::<u64>::empty(),
            t.status == TaskStatus::Z,
            !t.skip_svc_epilogue,
    {
        BaseTask {
            waiter: None,
            context: None,
            snap: None,
            stack_block: None,
            destroy_listener: None,
            stack: Vec::new(),
            bag: bag_new(),
            status: TaskStatus::Z,
            skip_svc_epilogue: false,
        }
    }

    pub fn set_waiter(&mut self, waiter: Waiter)
        ensures
            *final(self) == (BaseTask { waiter: Some(waiter), ..*old(self) }),
    {
        self.waiter = Some(waiter);
    }

    /// The waiter, to be changed in place.
    pub fn get_waiter(&mut self) -> (r: Option<&mut Waiter>)
        ensures
            r is Some <==> old(self).waiter is Some,
            r is None ==> *final(self) == *old(self),
            r matches Some(w) ==> {
                &&& old(self).waiter == Some(*w)
                &&& *final(self) == (BaseTask { waiter: Some(*final(w)), ..*old(self) })
            },
    {
        match &mut self.waiter {
            Some(w) => Some(w),
            None => None,
        }
    }

    /// Make the machine ready to run this thread on, and say from where. What the
    /// thread waited for is answered, and it waits no more.
    pub fn continue_run(
        &mut self,
        backend: &mut Backend,
        pipes: &mut PipeTable,
        children: &ChildTable,
        until: u64,
    ) -> (r: EmulateRequest)
        requires
            old(self).wf(old(pipes).pipes@.len() as int, children.children@.len() as int),
        ensures
            ({
                let loaded = reloaded(old(backend)@, old(self).context, old(self).snap);
                let ready = skipped(loaded, old(self).skip_svc_epilogue);
                &&& r == (EmulateRequest {
                    pc: ready.reg(RegisterARM64::PC),
                    until,
                    clear_code: true,
                })
                &&& match old(self).waiter {
                    Some(w) => {
                        &&& final(backend)@ == wait_finished(ready, w, *old(pipes), *children)
                        &&& final(pipes).pipes@ == pipes_after(w, *old(pipes))
                    },
                    None => {
                        &&& final(backend)@ == ready
                        &&& final(pipes).pipes@ == old(pipes).pipes@
                    },
                }
            }),
            *final(self) == (BaseTask { waiter: None, skip_svc_epilogue: false, ..*old(self) }),
    {
        if let Some(context) = &self.context {
            backend.context_restore(context);
        }
        if let Some(snap) = &self.snap {
            apply_snap(backend, snap);
        }
        let ghost loaded = reloaded(old(backend)@, old(self).context, old(self).snap);
        assert(backend@ == loaded);
        proof {
            backend.reg_slots();
        }
        let mut pc: u64 = backend.reg_read(RegisterARM64::PC);
        let lr: u64 = backend.reg_read(RegisterARM64::LR);
        if self.skip_svc_epilogue && lr != 0 && pc >= 4 {
            if let Ok(w) = backend.mem_read_u32(pc - 4) {
                if w & 0xffe0_001f == 0xd400_0001 {
                    backend.reg_write(RegisterARM64::PC, lr);
                    pc = lr;
                }
            }
        }
        self.skip_svc_epilogue = false;
        if let Some(waiter) = &self.waiter {
            match waiter {
                Waiter::FutexIndefinite(w) => {
                    w.on_continue_run(backend);
                },
                Waiter::FutexNanoSleep(w) => {
                    w.on_continue_run(backend);
                },
                Waiter::PipeRead(w) => {
                    w.on_continue_run(pipes, backend);
                },
                Waiter::Poll(w) => {
                    w.on_continue_run(pipes, backend);
                },
                Waiter::ChildExit(w) => {
                    w.on_continue_run(children, backend);
                },
                Waiter::Unknown => {},
            }
            self.waiter = None;
        }
        EmulateRequest { pc, until, clear_code: true }
    }

    /// Whether the thread has no stack of its own yet.
    pub fn needs_stack(&self) -> (r: bool)
        ensures
            r == self.stack_block is None,
    {
        self.stack_block.is_none()
    }

    /// The top of the thread's stack. `fresh` becomes its stack where it has none.
    pub fn allocate_stack(&mut self, fresh: MemoryBlock) -> (top: u64)
        requires
            ({
                let block = match old(self).stack_block {
                    Some(b) => b,
                    None => fresh,
                };
                block.addr + THREAD_STACK_SIZE <= u64::MAX
            }),
        ensures
            ({
                let block = match old(self).stack_block {
                    Some(b) => b,
                    None => fresh,
                };
                &&& top == block.addr + THREAD_STACK_SIZE
                &&& *final(self) == (BaseTask { stack_block: Some(block), ..*old(self) })
            }),
    {
        let block = match self.stack_block {
            Some(b) => b,
            None => fresh,
        };
        self.stack_block = Some(block);
        block.addr + THREAD_STACK_SIZE
    }

    /// Whether the thread can go on at clock reading `now`.
    pub fn can_dispatch_at(
        &mut self,
        backend: &Backend,
        pipes: &PipeTable,
        children: &ChildTable,
        now: Option<u64>,
    ) -> (r: Result<bool, ClockError>)
        requires
            old(self).wf(pipes.pipes@.len() as int, children.children@.len() as int),
        ensures
            match old(self).waiter {
                Some(w) => {
                    &&& r == wait_over(w, backend@, *pipes, *children, now)
                    &&& *final(self) == (BaseTask {
                        waiter: Some(asked(w, r != Ok::<bool, ClockError>(false))),
                        ..*old(self)
                    })
                },
                None => r == Ok::<bool, ClockError>(true) && *final(self) == *old(self),
            },
    {
        match &mut self.waiter {
            Some(waiter) => match waiter {
                Waiter::FutexIndefinite(w) => Ok(w.can_dispatch(backend)),
                Waiter::FutexNanoSleep(w) => w.can_dispatch_at(backend, now),
                Waiter::PipeRead(w) => Ok(w.can_dispatch(pipes)),
                Waiter::Poll(w) => Ok(w.can_dispatch(pipes)),
                Waiter::ChildExit(w) => Ok(!w.alive(children)),
                Waiter::Unknown => Ok(true),
            },
            None => Ok(true),
        }
    }

    /// Whether the thread can go on now.
    pub fn can_dispatch(
        &mut self,
        backend: &Backend,
        pipes: &PipeTable,
        children: &ChildTable,
    ) -> (r: Result<bool, ClockError>)
        requires
            old(self).wf(pipes.pipes@.len() as int, children.children@.len() as int),
        ensures
            match old(self).waiter {
                Some(w) => {
                    &&& exists|t: SystemTime|
                        clock_showed(t) && r == wait_over(w, backend@, *pipes, *children, #[trigger] epoch_secs(t))
                    &&& *final(self) == (BaseTask {
                        waiter: Some(asked(w, r != Ok::<bool, ClockError>(false))),
                        ..*old(self)
                    })
                },
                None => r == Ok::<bool, ClockError>(true) && *final(self) == *old(self),
            },
    {
        let now = clock_seconds();
        self.can_dispatch_at(backend, pipes, children, now)
    }

    /// Put the registers aside.
    pub fn save_context(&mut self, backend: &Backend)
        ensures
            final(self).snap matches Some(s) && snap_regs(s) == backend@.regs,
            final(self).context matches Some(c) && c.regs@ == backend@.regs,
            *final(self) == (BaseTask {
                snap: final(self).snap,
                context: final(self).context,
                skip_svc_epilogue: true,
                ..*old(self)
            }),
    {
        self.snap = Some(capture_snap(backend));
        self.skip_svc_epilogue = true;
        let mut context = match self.context {
            Some(c) => c,
            None => Backend::context_alloc(),
        };
        backend.context_save(&mut context);
        self.context = Some(context);
    }

    pub fn is_context_saved(&self) -> (r: bool)
        ensures
            r == (self.snap is Some || self.context is Some),
    {
        self.snap.is_some() || self.context.is_some()
    }

    /// Load the registers that were put aside, if any were.
    pub fn restore_context(&self, backend: &mut Backend)
        ensures
            final(backend)@ == reloaded(old(backend)@, self.context, self.snap),
    {
        if let Some(context) = &self.context {
            backend.context_restore(context);
        }
        if let Some(snap) = &self.snap {
            apply_snap(backend, snap);
        }
    }

    /// What to clean up. A stack block that cannot be one (not at a page, empty, or
    /// larger than sixteen megabytes) is a sign of damaged memory: nothing is touched.
    pub fn destroy(&self) -> (r: Teardown)
        ensures
            r == teardown_of(*self),
    {
        if let Some(b) = self.stack_block {
            let addr: u64 = b.addr;
            assert(addr & 0xfff == addr % 0x1000) by (bit_vector);
            if addr == 0 || addr & 0xfff != 0 || b.size == 0 || b.size > 0x100_0000 {
                return Teardown { free: None, release_context: false, notify: None };
            }
        }
        Teardown {
            free: self.stack_block,
            release_context: self.context.is_some(),
            notify: self.destroy_listener,
        }
    }

    pub fn set_destroy_listener(&mut self, listener: usize)
        ensures
            *final(self) == (BaseTask { destroy_listener: Some(listener), ..*old(self) }),
    {
        self.destroy_listener = Some(listener);
    }

    /// After an outer context was popped: move the program counter on by `off` and
    /// put the registers aside.
    pub fn pop_context(&mut self, backend: &mut Backend, off: u64)
        requires
            old(backend)@.reg(RegisterARM64::PC) + off <= u64::MAX,
        ensures
            final(backend)@ == old(backend)@.set_reg(
                RegisterARM64::PC,
                (old(backend)@.reg(RegisterARM64::PC) + off) as u64,
            ),
            final(self).snap matches Some(s) && snap_regs(s) == final(backend)@.regs,
            final(self).context matches Some(c) && c.regs@ == final(backend)@.regs,
            *final(self) == (BaseTask {
                snap: final(self).snap,
                context: final(self).context,
                skip_svc_epilogue: true,
                ..*old(self)
            }),
    {
        let pc: u64 = backend.reg_read(RegisterARM64::PC);
        backend.reg_write(RegisterARM64::PC, pc + off);
        self.save_context(backend);
    }

    /// Record a call.
    pub fn push_function(&mut self, call: FunctionCall)
        requires
            bag_contents(old(self).bag).len() < usize::MAX,
        ensures
            final(self).stack@ == old(self).stack@.push(call),
            bag_contents(final(self).bag) == bag_contents(old(self).bag).insert(
                bits_of_i64(call.return_address),
            ),
            *final(self) == (BaseTask {
                stack: final(self).stack,
                bag: final(self).bag,
                ..*old(self)
            }),
    {
        let ghost address = bits_of_i64(call.return_address);
        let _was: usize = bag_insert_many(&mut self.bag, to_bits_i64(call.return_address), 1);
        self.stack.push(call);
        assert(bag_contents(self.bag) =~= bag_contents(old(self).bag).insert(address));
    }

    /// Take the record of the newest call back, if the guest is about to return from
    /// it. No record is given for an address that recorded calls return to.
    pub fn pop_function(&mut self, backend: &Backend, address: u64) -> (r: Option<FunctionCall>)
        requires
            bag_contents(old(self).bag).count(address) == 0 ==> old(self).stack@.len() > 0,
        ensures
            ({
                let last = old(self).stack@.last();
                let taken = takes_back(
                    old(self).stack@,
                    backend@.reg(RegisterARM64::LR),
                    bag_contents(old(self).bag).count(address),
                );
                &&& taken ==> r == Some(last) && final(self).stack@ == old(self).stack@.drop_last()
                &&& !taken ==> r is None && final(self).stack@ == old(self).stack@
            }),
            bag_contents(final(self).bag) == bag_contents(old(self).bag),
            *final(self) == (BaseTask {
                stack: final(self).stack,
                bag: final(self).bag,
                ..*old(self)
            }),
    {
        if bag_count(&self.bag, address) > 0 {
            return None;
        }
        let call = self.stack[self.stack.len() - 1];
        let lr: u64 = backend.reg_read(RegisterARM64::LR);
        if lr != to_bits_i64(call.return_address) {
            return None;
        }
        let _left: usize = bag_remove_up_to(&mut self.bag, address, 1);
        assert(bag_contents(self.bag) =~= bag_contents(old(self).bag));
        let _top = self.stack.pop();
        Some(call)
    }

    pub fn get_task_status(&self) -> (r: TaskStatus)
        ensures
            r == self.status,
    {
        self.status
    }

    pub fn set_task_status(&mut self, status: TaskStatus)
        ensures
            *final(self) == (BaseTask { status, ..*old(self) }),
    {
        self.status = status;
    }
}

/// Registers that were put aside and loaded again are as they were, whatever
/// happened to them in between.
pub proof fn law_save_then_restore(saved: Backend, later: Machine, snap: Arm64Snap, context: Context)
    requires
        snap_regs(snap) == saved@.regs,
        context.regs@ == saved@.regs,
    ensures
        reloaded(later, Some(context), Some(snap)).regs == saved@.regs,
        reloaded(later, Some(context), Some(snap)).mem == later.mem,
        reloaded(later, Some(context), None).regs == saved@.regs,
{
}

/// A snapshot that was planted without the skip mark resumes at its own program
/// counter; one that was taken inside a supervisor call resumes at the link register.
pub proof fn law_skip_only_after_a_stop(m: Machine)
    requires
        m.regs.len() == 35,
    ensures
        skipped(m, false) == m,
        stopped_in_svc(m) ==> skipped(m, true).reg(RegisterARM64::PC) == m.reg(RegisterARM64::LR),
        !stopped_in_svc(m) ==> skipped(m, true) == m,
{
}

/// A thread that waits on pipes gives way at most once.
pub proof fn law_pipe_waits_give_way_once(
    w: Waiter,
    m: Machine,
    pipes: PipeTable,
    children: ChildTable,
    now: Option<u64>,
)
    requires
        w is PipeRead || w is Poll,
    ensures
        wait_over(asked(w, false), m, pipes, children, now) == Ok::<bool, ClockError>(true),
{
}

/// What a wait returns to the guest. A wait on a word gives zero after a wake-up, minus
/// eleven where it ended for another reason, and minus 110 where a time limit was set. A pipe
/// read gives the number of its bytes, which is the smaller of what was asked for and what is
/// there, and hands over the oldest bytes; a wait for a child gives the child's number, and
/// its exit code in the second byte of the status word.
#[verifier::rlimit(40)]
pub proof fn law_finished_wait(b: Backend, w: Waiter, pipes: PipeTable, children: ChildTable)
    requires
        w.wf(pipes.pipes@.len() as int, children.children@.len() as int),
    ensures
        ({
            let m = b@;
            let after = wait_finished(m, w, pipes, children);
            let left = pipes_after(w, pipes);
            let x0 = after.reg_i64(RegisterARM64::X0);
            &&& forall|r: RegisterARM64|
                r != RegisterARM64::X0 ==> #[trigger] after.reg(r) == m.reg(r)
            &&& w matches Waiter::FutexIndefinite(f) ==> after.mem == m.mem && x0 == if f.woken_up {
                0int
            } else {
                -11
            }
            &&& w matches Waiter::FutexNanoSleep(f) ==> after.mem == m.mem && x0 == if f.woken_up {
                0int
            } else {
                -110
            }
            &&& w matches Waiter::PipeRead(f) ==> {
                let there = pipes.pipes@[f.pipe as int].unread();
                let n = after.reg(RegisterARM64::X0) as int;
                &&& n <= f.count && n <= there.len()
                &&& n == f.count || n == there.len()
                &&& m.mapped(f.dst as int, n) ==> after.read(f.dst as int, n as nat)
                    == there.take(n)
                &&& left.len() == pipes.pipes@.len()
                &&& left[f.pipe as int].unread() == there.skip(n)
                &&& forall|i: int|
                    0 <= i < left.len() && i != f.pipe ==> #[trigger] left[i] == pipes.pipes@[i]
            }
            &&& !(w is PipeRead) ==> left == pipes.pipes@
            &&& w matches Waiter::ChildExit(f) ==> {
                let status = children.children@[f.child as int].status;
                &&& x0 == f.pid
                &&& f.wstatus == 0 ==> after.mem == m.mem
                &&& f.wstatus != 0 && m.mapped(f.wstatus as int, 4) ==> {
                    &&& after.read_u32(f.wstatus as int) matches Some(word)
                    &&& word % 256 == 0
                    &&& word < 65536
                    &&& 0 <= status < 256 ==> word == status * 256
                    &&& status == -1 ==> word == 0xff00
                }
            }
        }),
{
    b.reg_slots();
    let m = b@;
    let after = wait_finished(m, w, pipes, children);
    match w {
        Waiter::PipeRead(f) => {
            let p = pipes.pipes@[f.pipe as int];
            let n = min_int(f.count as int, p.unread().len() as int);
            if m.mapped(f.dst as int, n) {
                let data = p.unread().take(n);
                crate::backend::law_write_then_read(m, f.dst as int, data, 0);
                assert(after.read(f.dst as int, n as nat) =~= m.write(f.dst as int, data).read(
                    f.dst as int,
                    n as nat,
                ));
            }
            assert(p.buf.len() == p.buf@.len());
            assert(p.advanced(n).unread() =~= p.unread().skip(n));
        },
        Waiter::ChildExit(f) => {
            let word = exit_word(children.children@[f.child as int].status);
            if f.wstatus != 0 && m.mapped(f.wstatus as int, 4) {
                crate::le::law_le32_round_trip(word);
                crate::backend::lemma_half_inside(m, f.wstatus as int, le32(word), 0);
                assert(le32(word).subrange(0, 4) =~= le32(word));
                let told = m.write(f.wstatus as int, le32(word));
                assert(after.read(f.wstatus as int, 4) =~= told.read(f.wstatus as int, 4));
                assert(after.read_u32(f.wstatus as int) == Some(word));
            }
        },
        Waiter::Poll(f) => {
            lemma_answers_keep_registers(m, f.watches@, pipes.pipes@, f.watches@.len() as int);
        },
        _ => {},
    }
}

proof fn lemma_answers_keep_registers(
    m: Machine,
    watches: Seq<crate::linux::thread::PollWatch>,
    pipes: Seq<crate::linux::pipe::Pipe>,
    n: int,
)
    ensures
        poll_answered(m, watches, pipes, n).regs == m.regs,
    decreases n,
{
    if n > 0 {
        lemma_answers_keep_registers(m, watches, pipes, n - 1);
    }
}

/// A thread goes on when what it waits for is there: its word was woken or has another value,
/// there is something in its pipe, its child is gone. Until then it stays parked, unless it
/// waits on pipes and gave way before.
pub proof fn law_parked_until(
    w: Waiter,
    m: Machine,
    pipes: PipeTable,
    children: ChildTable,
    now: Option<u64>,
)
    ensures
        ({
            let over = wait_over(w, m, pipes, children, now);
            &&& w matches Waiter::FutexIndefinite(f) ==> (over == Ok::<bool, ClockError>(false)
                <==> !f.woken_up && m.read_u32(f.uaddr as int) == Some(f.val))
            &&& w matches Waiter::PipeRead(f) ==> !f.yielded ==> (over == Ok::<bool, ClockError>(
                true,
            ) <==> pipes.pipes@[f.pipe as int].unread().len() > 0)
            &&& w matches Waiter::ChildExit(f) ==> (over == Ok::<bool, ClockError>(true)
                <==> !children.children@[f.child as int].alive)
            &&& w is FutexNanoSleep || over is Ok
        }),
{
}

/// The words that are taken for a supervisor call are exactly those that encode one, with
/// any number.
pub proof fn law_supervisor_calls(w: u32, number: u16)
    ensures
        is_svc(0xd400_0001u32 | ((number as u32) << 5u32)),
        is_svc(w) ==> w == (0xd400_0001u32 | (((w >> 5u32) & 0xffff) << 5u32)),
{
    assert((0xd400_0001u32 | ((number as u32) << 5u32)) & 0xffe0_001f == 0xd400_0001)
        by (bit_vector);
    assert(w & 0xffe0_001f == 0xd400_0001 ==> w == (0xd400_0001u32 | (((w >> 5u32) & 0xffff)
        << 5u32))) by (bit_vector);
}

/// A call that was recorded is what a return takes back, where the guest is about to return
/// to its caller; the earlier records stay.
pub proof fn law_recorded_call_comes_back(
    before: Seq<FunctionCall>,
    call: FunctionCall,
    lr: u64,
    counted: nat,
)
    ensures
        ({
            let during = before.push(call);
            &&& takes_back(during, lr, counted) <==> counted == 0 && lr == bits_of_i64(
                call.return_address,
            )
            &&& during.last() == call
            &&& during.drop_last() == before
        }),
{
    assert(before.push(call).drop_last() =~= before);
}

/// Nothing of a thread's stack is given back unless it is a stack that the runtime can have
/// made: at a page, not empty and of at most sixteen megabytes. A sound stack is given back
/// as it is, and the thread's listener is told.
pub proof fn law_teardown(t: BaseTask)
    ensures
        ({
            let r = teardown_of(t);
            &&& r.free matches Some(b) ==> b.addr > 0 && b.addr % 4096 == 0 && 0 < b.size <= 16
                * 1024 * 1024 && t.stack_block == Some(b)
            &&& t.stack_block is None ==> r.notify == t.destroy_listener && (r.release_context
                <==> t.context is Some)
            &&& t.stack_block matches Some(b) ==> b.addr > 0 ==> b.addr % 4096 == 0 ==> 0 < b.size
                <= 16 * 1024 * 1024 ==> r.free == t.stack_block && r.notify == t.destroy_listener
                && (r.release_context <==> t.context is Some)
            &&& t.stack_block is Some && r.free is None ==> r.notify is None && !r.release_context
        }),
{
}

/// Where a thread resumes. With the skip mark, a link register, and a supervisor call in the
/// four bytes before the program counter, it resumes at the link register; without any of
/// these, at its program counter. Nothing else of the machine changes.
pub proof fn law_where_a_thread_resumes(b: Backend, skip: bool, w: u32)
    ensures
        ({
            let m = b@;
            let pc = m.reg(RegisterARM64::PC);
            let lr = m.reg(RegisterARM64::LR);
            let after = skipped(m, skip);
            &&& skip && lr != 0 && pc >= 4 && m.read_u32(pc - 4) == Some(w) && w & 0xffe0_001f
                == 0xd400_0001 ==> after.reg(RegisterARM64::PC) == lr
            &&& !skip || lr == 0 || pc < 4 || m.read_u32(pc - 4) is None ==> after == m
            &&& m.read_u32(pc - 4) == Some(w) && w & 0xffe0_001f != 0xd400_0001 ==> after == m
            &&& after.mem == m.mem
            &&& after.reg(RegisterARM64::X0) == m.reg(RegisterARM64::X0)
            &&& after.reg(RegisterARM64::SP) == m.reg(RegisterARM64::SP)
        }),
{
    b.reg_slots();
}

} // verus!
