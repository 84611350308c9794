//! What parked guest threads wait for.
use std::time::SystemTime;
use vstd::prelude::*;
use crate::backend::{lemma_half_apart, lemma_half_inside, Backend, Machine, RegisterARM64};
use crate::le::{le16, le32, put_le16, put_le32};
use crate::linux::errno::{errno_number, Errno};
use crate::linux::pipe::{pipe_deliver, pipe_unread, Pipe, PipeTable};
use crate::num::{address_limit, bits_of_i32, min_int, sign_extend, to_bits_i32};
use crate::outside::{duration_secs, epoch_distance, since_epoch};

verus! {

/// The bit of a poll request and its answer that stands for readable data.
pub const POLLIN: i16 = 1;

/// The host's clock cannot be used: it stands before the Unix epoch or too far after
/// it, or before a time that it showed earlier.
#[derive(Clone, Copy, Debug, PartialEq, Eq, Structural)]
pub struct ClockError;

/// The whole seconds since the epoch at an instant of the wall clock.
pub open spec fn epoch_secs(t: SystemTime) -> Option<u64> {
    match epoch_distance(t) {
        Ok(d) => Some(duration_secs(d)),
        Err(_) => None,
    }
}

/// The host's wall clock was read, and it showed `t`.
pub open spec fn clock_showed(t: SystemTime) -> bool {
    call_ensures(SystemTime::now, (), t)
}

/// Whole seconds since the epoch; nothing where the clock stands before it.
pub fn clock_seconds() -> (r: Option<u64>)
    ensures
        exists|t: SystemTime| clock_showed(t) && r == #[trigger] epoch_secs(t),
{
    let t = SystemTime::now();
    let r = match since_epoch(t) {
        Ok(d) => Some(d.as_secs()),
        Err(_) => None,
    };
    assert(r == epoch_secs(t));
    r
}

/// The machine after a mutex word that an exited thread left behind was unlocked:
/// where the word still holds `val` it becomes zero, and where `val` is a locked
/// state the owner word after it becomes zero too.
pub open spec fn unlocked_futex(m: Machine, uaddr: u64, val: u32) -> Machine {
    if m.read_u32(uaddr as int) == Some(val) {
        let cleared = m.write(uaddr as int, le32(0));
        if val & 3 != 0 {
            cleared.try_write((uaddr + 4) % address_limit(), le32(0))
        } else {
            cleared
        }
    } else {
        m
    }
}

/// Unlock a bionic mutex word left behind by an exited thread. A word with `val & 3`
/// set is locked or contended; the next word is its owner.
pub fn unlock_stale_futex(backend: &mut Backend, uaddr: u64, val: u32)
    ensures
        final(backend)@ == unlocked_futex(old(backend)@, uaddr, val),
{
    match backend.mem_read_u32(uaddr) {
        Ok(word) => {
            if word != val {
                return ;
            }
        },
        Err(_) => {
            return ;
        },
    }
    let zero = put_le32(0);
    let ghost before = backend@;
    backend.mem_try_write(uaddr, zero.as_slice());
    if val & 3 != 0 {
        let owner: u64 = if uaddr >= 0xffff_ffff_ffff_fffc {
            uaddr - 0xffff_ffff_ffff_fffc
        } else {
            uaddr + 4
        };
        assert(owner == (uaddr + 4) % address_limit());
        backend.mem_try_write(owner, zero.as_slice());
    }
}

/// A futex word is unmapped or holds something else than `val`.
pub open spec fn futex_changed(m: Machine, uaddr: u64, val: u32) -> bool {
    m.read_u32(uaddr as int) != Some(val)
}

fn word_changed(backend: &Backend, uaddr: u64, val: u32) -> (r: bool)
    ensures
        r == futex_changed(backend@, uaddr, val),
{
    match backend.mem_read_u32(uaddr) {
        Ok(word) => word != val,
        Err(_) => true,
    }
}

/// Waits on a futex word without a time limit.
pub struct FutexIndefinitelyWaiter {
    pub uaddr: u64,
    pub val: u32,
    pub woken_up: bool,
}

impl FutexIndefinitelyWaiter {
    pub fn new(uaddr: u64, val: u32) -> (w: FutexIndefinitelyWaiter)
        ensures
            w == (FutexIndefinitelyWaiter { uaddr, val, woken_up: false }),
    {
        FutexIndefinitelyWaiter { uaddr, val, woken_up: false }
    }

    /// Wake the waiter if it waits at `addr`.
    pub fn wake_up(&mut self, addr: u64) -> (r: bool)
        ensures
            r == (addr == old(self).uaddr),
            *final(self) == (FutexIndefinitelyWaiter {
                woken_up: old(self).woken_up || r,
                ..*old(self)
            }),
    {
        if addr == self.uaddr {
            self.woken_up = true;
            return true;
        }
        false
    }

    /// Wake the waiter to break a deadlock, and unlock the word it waits on.
    pub fn release_for_deadlock(&mut self, backend: &mut Backend) -> (r: bool)
        ensures
            r,
            *final(self) == (FutexIndefinitelyWaiter { woken_up: true, ..*old(self) }),
            final(backend)@ == unlocked_futex(old(backend)@, old(self).uaddr, old(self).val),
    {
        self.woken_up = true;
        unlock_stale_futex(backend, self.uaddr, self.val);
        true
    }

    /// Whether the thread can go on: it was woken, or the word changed.
    pub fn can_dispatch(&self, backend: &Backend) -> (r: bool)
        ensures
            r == (self.woken_up || futex_changed(backend@, self.uaddr, self.val)),
    {
        if self.woken_up {
            return true;
        }
        word_changed(backend, self.uaddr, self.val)
    }

    /// What the wait returns to the guest: zero after a wake-up, else `EAGAIN`.
    pub fn on_continue_run(&self, backend: &mut Backend)
        ensures
            final(backend)@ == old(backend)@.ret(
                if self.woken_up {
                    0
                } else {
                    -errno_number(Errno::EAGAIN)
                },
            ),
    {
        if self.woken_up {
            backend.reg_write(RegisterARM64::X0, 0);
        } else {
            let errno: i32 = Errno::EAGAIN.as_i32();
            backend.reg_write_i64(RegisterARM64::X0, -(errno as i64));
        }
    }
}

/// Waits on a futex word for a limited time.
pub struct FutexNanoSleepWaiter {
    pub uaddr: u64,
    pub val: u32,
    pub woken_up: bool,
    pub wait_millis: u64,
    pub start_time: u64,
}

/// Whether a limited wait is over at time `now`, or that the clock does not say.
pub open spec fn sleep_over(w: FutexNanoSleepWaiter, m: Machine, now: Option<u64>) -> Result<
    bool,
    ClockError,
> {
    if w.woken_up || futex_changed(m, w.uaddr, w.val) {
        Ok(true)
    } else {
        match now {
            Some(t) if t >= w.start_time => Ok(t - w.start_time >= w.wait_millis),
            _ => Err(ClockError),
        }
    }
}

impl FutexNanoSleepWaiter {
    /// A wait that starts at the clock reading `start_time`.
    pub fn started_at(uaddr: u64, val: u32, wait_millis: u64, start_time: u64) -> (w:
        FutexNanoSleepWaiter)
        ensures
            w == (FutexNanoSleepWaiter { uaddr, val, woken_up: false, wait_millis, start_time }),
    {
        FutexNanoSleepWaiter { uaddr, val, woken_up: false, wait_millis, start_time }
    }

    /// A wait that starts now.
    pub fn new(uaddr: u64, val: u32, wait_millis: u64) -> (r: Result<
        FutexNanoSleepWaiter,
        ClockError,
    >)
        ensures
            exists|t: SystemTime|
                clock_showed(t) && (match #[trigger] epoch_secs(t) {
                    Some(start_time) => r == Ok::<FutexNanoSleepWaiter, ClockError>(
                        FutexNanoSleepWaiter {
                            uaddr,
                            val,
                            woken_up: false,
                            wait_millis,
                            start_time,
                        },
                    ),
                    None => r == Err::<FutexNanoSleepWaiter, ClockError>(ClockError),
                }),
    {
        match clock_seconds() {
            Some(start_time) => Ok(Self::started_at(uaddr, val, wait_millis, start_time)),
            None => Err(ClockError),
        }
    }

    /// Wake the waiter if it waits at `addr`.
    pub fn wake_up(&mut self, addr: u64) -> (r: bool)
        ensures
            r == (addr == old(self).uaddr),
            *final(self) == (FutexNanoSleepWaiter {
                woken_up: old(self).woken_up || r,
                ..*old(self)
            }),
    {
        if addr == self.uaddr {
            self.woken_up = true;
            return true;
        }
        false
    }

    /// Wake the waiter to break a deadlock, and unlock the word it waits on.
    pub fn release_for_deadlock(&mut self, backend: &mut Backend) -> (r: bool)
        ensures
            r,
            *final(self) == (FutexNanoSleepWaiter { woken_up: true, ..*old(self) }),
            final(backend)@ == unlocked_futex(old(backend)@, old(self).uaddr, old(self).val),
    {
        self.woken_up = true;
        unlock_stale_futex(backend, self.uaddr, self.val);
        true
    }

    /// Whether the thread can go on at clock reading `now`: it was woken, the word
    /// changed, or the time is over.
    pub fn can_dispatch_at(&self, backend: &Backend, now: Option<u64>) -> (r: Result<
        bool,
        ClockError,
    >)
        ensures
            r == sleep_over(*self, backend@, now),
    {
        if self.woken_up {
            return Ok(true);
        }
        if word_changed(backend, self.uaddr, self.val) {
            return Ok(true);
        }
        match now {
            Some(t) if t >= self.start_time => Ok(t - self.start_time >= self.wait_millis),
            _ => Err(ClockError),
        }
    }

    /// Whether the thread can go on now.
    pub fn can_dispatch(&self, backend: &Backend) -> (r: Result<bool, ClockError>)
        ensures
            exists|t: SystemTime|
                clock_showed(t) && r == sleep_over(*self, backend@, #[trigger] epoch_secs(t)),
    {
        let now = clock_seconds();
        self.can_dispatch_at(backend, now)
    }

    /// What the wait returns to the guest: zero after a wake-up, else `ETIMEDOUT`.
    pub fn on_continue_run(&self, backend: &mut Backend)
        ensures
            final(backend)@ == old(backend)@.ret(
                if self.woken_up {
                    0
                } else {
                    -errno_number(Errno::ETIMEDOUT)
                },
            ),
    {
        if self.woken_up {
            backend.reg_write(RegisterARM64::X0, 0);
        } else {
            let errno: i32 = Errno::ETIMEDOUT.as_i32();
            backend.reg_write_i64(RegisterARM64::X0, -(errno as i64));
        }
    }
}

/// Waits for data in a pipe.
pub struct PipeReadWaiter {
    pub pipe: usize,
    pub dst: u64,
    pub count: u64,
    pub yielded: bool,
}

impl PipeReadWaiter {
    pub fn new(pipe: usize, dst: u64, count: u64) -> (w: PipeReadWaiter)
        ensures
            w == (PipeReadWaiter { pipe, dst, count, yielded: false }),
    {
        PipeReadWaiter { pipe, dst, count, yielded: false }
    }

    /// Whether the thread can go on: there is data, or it gave way once before.
    pub fn can_dispatch(&mut self, table: &PipeTable) -> (r: bool)
        requires
            old(self).pipe < table.pipes@.len(),
        ensures
            r == (table.pipes@[old(self).pipe as int].unread().len() > 0 || old(self).yielded),
            *final(self) == (PipeReadWaiter { yielded: old(self).yielded || !r, ..*old(self) }),
    {
        if pipe_unread(table, self.pipe) > 0 {
            return true;
        }
        if self.yielded {
            return true;
        }
        self.yielded = true;
        false
    }

    /// Finish the read: hand the data over and return its length to the guest.
    pub fn on_continue_run(&self, table: &mut PipeTable, backend: &mut Backend)
        requires
            self.pipe < old(table).pipes@.len(),
        ensures
            ({
                let p = old(table).pipes@[self.pipe as int];
                let n = min_int(self.count as int, p.unread().len() as int);
                &&& final(backend)@ == old(backend)@.try_write(
                    self.dst as int,
                    p.unread().take(n),
                ).set_reg(RegisterARM64::X0, n as u64)
                &&& final(table).pipes@ == old(table).pipes@.update(
                    self.pipe as int,
                    p.advanced(n),
                )
            }),
    {
        let n: u64 = pipe_deliver(table, self.pipe, backend, self.dst, self.count);
        backend.reg_write(RegisterARM64::X0, n);
    }
}

/// One descriptor of a poll request.
pub struct PollWatch {
    pub events: i16,
    pub revents_off: u64,
    pub pipe: Option<usize>,
}

impl PollWatch {
    pub fn new(events: i16, revents_off: u64, pipe: Option<usize>) -> (w: PollWatch)
        ensures
            w == (PollWatch { events, revents_off, pipe }),
    {
        PollWatch { events, revents_off, pipe }
    }

    /// The watched pipe exists.
    pub open spec fn wf(self, pipes: int) -> bool {
        self.pipe matches Some(p) ==> p < pipes
    }

    /// Readable data was asked for and is there.
    pub open spec fn ready(self, pipes: Seq<Pipe>) -> bool {
        &&& self.events & POLLIN != 0
        &&& self.pipe matches Some(p) && pipes[p as int].unread().len() > 0
    }

    fn is_ready(&self, table: &PipeTable) -> (r: bool)
        requires
            self.wf(table.pipes@.len() as int),
        ensures
            r == self.ready(table.pipes@),
    {
        if self.events & POLLIN == 0 {
            return false;
        }
        match self.pipe {
            Some(p) => pipe_unread(table, p) > 0,
            None => false,
        }
    }
}

/// Waits until one of several descriptors is readable.
pub struct PollWaiter {
    pub watches: Vec<PollWatch>,
    pub yielded: bool,
}

/// Some watch is ready.
pub open spec fn any_ready(watches: Seq<PollWatch>, pipes: Seq<Pipe>) -> bool {
    exists|i: int| 0 <= i < watches.len() && (#[trigger] watches[i]).ready(pipes)
}

/// How many of the first `n` watches are ready.
pub open spec fn ready_count(watches: Seq<PollWatch>, pipes: Seq<Pipe>, n: int) -> int
    decreases n,
{
    if n <= 0 {
        0
    } else {
        ready_count(watches, pipes, n - 1) + if watches[n - 1].ready(pipes) {
            1int
        } else {
            0
        }
    }
}

/// The machine after the answers of the first `n` watches were stored.
pub open spec fn poll_answered(
    m: Machine,
    watches: Seq<PollWatch>,
    pipes: Seq<Pipe>,
    n: int,
) -> Machine
    decreases n,
{
    if n <= 0 {
        m
    } else {
        poll_answered(m, watches, pipes, n - 1).try_write(
            watches[n - 1].revents_off as int,
            le16(
                if watches[n - 1].ready(pipes) {
                    1
                } else {
                    0
                },
            ),
        )
    }
}

impl PollWaiter {
    pub fn new(watches: Vec<PollWatch>) -> (w: PollWaiter)
        ensures
            w == (PollWaiter { watches, yielded: false }),
    {
        PollWaiter { watches, yielded: false }
    }

    /// All watched pipes exist.
    pub open spec fn wf(self, pipes: int) -> bool {
        forall|i: int| 0 <= i < self.watches@.len() ==> (#[trigger] self.watches@[i]).wf(pipes)
    }

    /// Whether the thread can go on: a watch is ready, or it gave way once before.
    pub fn can_dispatch(&mut self, table: &PipeTable) -> (r: bool)
        requires
            old(self).wf(table.pipes@.len() as int),
        ensures
            r == (any_ready(old(self).watches@, table.pipes@) || old(self).yielded),
            *final(self) == (PollWaiter { yielded: old(self).yielded || !r, ..*old(self) }),
    {
        let mut i: usize = 0;
        while i < self.watches.len()
            invariant
                *self == *old(self),
                self.wf(table.pipes@.len() as int),
                i <= self.watches@.len(),
                forall|j: int| 0 <= j < i ==> !(#[trigger] self.watches@[j]).ready(table.pipes@),
            decreases self.watches@.len() - i,
        {
            if self.watches[i].is_ready(table) {
                return true;
            }
            i = i + 1;
        }
        if self.yielded {
            return true;
        }
        self.yielded = true;
        false
    }

    /// Finish the poll: store each answer and return the number of ready watches.
    pub fn on_continue_run(&self, table: &PipeTable, backend: &mut Backend)
        requires
            self.wf(table.pipes@.len() as int),
        ensures
            final(backend)@ == poll_answered(
                old(backend)@,
                self.watches@,
                table.pipes@,
                self.watches@.len() as int,
            ).set_reg(
                RegisterARM64::X0,
                ready_count(self.watches@, table.pipes@, self.watches@.len() as int) as u64,
            ),
    {
        let mut ready: u64 = 0;
        let mut i: usize = 0;
        while i < self.watches.len()
            invariant
                self.wf(table.pipes@.len() as int),
                i <= self.watches@.len(),
                ready <= i,
                ready == ready_count(self.watches@, table.pipes@, i as int),
                backend@ == poll_answered(old(backend)@, self.watches@, table.pipes@, i as int),
            decreases self.watches@.len() - i,
        {
            let mut revents: u16 = 0;
            if self.watches[i].is_ready(table) {
                revents = 1;
                ready = ready + 1;
            }
            let data = put_le16(revents);
            backend.mem_try_write(self.watches[i].revents_off, data.as_slice());
            i = i + 1;
        }
        backend.reg_write(RegisterARM64::X0, ready);
    }
}

/// A child process, as its parent sees it.
pub struct Child {
    pub alive: bool,
    pub status: i32,
}

/// The children of a process. A child is known by its position.
pub struct ChildTable {
    pub children: Vec<Child>,
}

/// Waits for a child to exit.
pub struct ChildExitWaiter {
    pub pid: i32,
    pub wstatus: u64,
    pub child: usize,
}

/// The wait status of a child that exited with `status`: its low byte, one byte up.
pub open spec fn exit_word(status: i32) -> u32 {
    ((bits_of_i32(status) % 256) * 256) as u32
}

impl ChildExitWaiter {
    pub fn new(pid: i32, wstatus: u64, child: usize) -> (w: ChildExitWaiter)
        ensures
            w == (ChildExitWaiter { pid, wstatus, child }),
    {
        ChildExitWaiter { pid, wstatus, child }
    }

    pub fn alive(&self, table: &ChildTable) -> (r: bool)
        requires
            self.child < table.children@.len(),
        ensures
            r == table.children@[self.child as int].alive,
    {
        table.children[self.child].alive
    }

    /// Whether the thread can go on: the child is gone.
    pub fn can_dispatch(&self, table: &ChildTable) -> (r: bool)
        requires
            self.child < table.children@.len(),
        ensures
            r == !table.children@[self.child as int].alive,
    {
        !self.alive(table)
    }

    /// Finish the wait: store the status where asked and return the child's id.
    pub fn on_continue_run(&self, table: &ChildTable, backend: &mut Backend)
        requires
            self.child < table.children@.len(),
        ensures
            ({
                let word = le32(exit_word(table.children@[self.child as int].status));
                final(backend)@ == (if self.wstatus != 0 {
                    old(backend)@.try_write(self.wstatus as int, word)
                } else {
                    old(backend)@
                }).set_reg(RegisterARM64::X0, sign_extend(self.pid))
            }),
    {
        let st: u32 = (to_bits_i32(table.children[self.child].status) % 256) * 256;
        if self.wstatus != 0 {
            let data = put_le32(st);
            backend.mem_try_write(self.wstatus, data.as_slice());
        }
        backend.reg_write_i64(RegisterARM64::X0, self.pid as i64);
    }
}

/// What a parked thread waits for.
pub enum Waiter {
    FutexIndefinite(FutexIndefinitelyWaiter),
    FutexNanoSleep(FutexNanoSleepWaiter),
    PipeRead(PipeReadWaiter),
    Poll(PollWaiter),
    ChildExit(ChildExitWaiter),
    Unknown,
}

impl Waiter {
    /// The pipes and the child that the waiter looks at exist.
    pub open spec fn wf(self, pipes: int, children: int) -> bool {
        match self {
            Waiter::PipeRead(w) => w.pipe < pipes,
            Waiter::Poll(w) => w.wf(pipes),
            Waiter::ChildExit(w) => w.child < children,
            _ => true,
        }
    }

    /// The waiter waits on the futex word at `addr`.
    pub open spec fn waits_at(self, addr: u64) -> bool {
        match self {
            Waiter::FutexIndefinite(w) => w.uaddr == addr,
            Waiter::FutexNanoSleep(w) => w.uaddr == addr,
            _ => false,
        }
    }

    /// The waiter after a wake-up at the word it waits on.
    pub open spec fn woken(self) -> Waiter {
        match self {
            Waiter::FutexIndefinite(w) => Waiter::FutexIndefinite(
                FutexIndefinitelyWaiter { woken_up: true, ..w },
            ),
            Waiter::FutexNanoSleep(w) => Waiter::FutexNanoSleep(
                FutexNanoSleepWaiter { woken_up: true, ..w },
            ),
            w => w,
        }
    }

    /// Wake the waiter if it waits on the futex word at `addr`.
    pub fn wake_up(&mut self, addr: u64) -> (r: bool)
        ensures
            r == old(self).waits_at(addr),
            *final(self) == if r {
                old(self).woken()
            } else {
                *old(self)
            },
    {
        match self {
            Waiter::FutexIndefinite(w) => w.wake_up(addr),
            Waiter::FutexNanoSleep(w) => w.wake_up(addr),
            _ => false,
        }
    }
}

/// A thread whose futex wait was woken can go on, and its wait returns zero; without
/// a wake-up the wait never returns zero.
pub proof fn law_woken_wait_returns_zero(w: FutexIndefinitelyWaiter, s: FutexNanoSleepWaiter, m: Machine, now: Option<u64>)
    ensures
        Waiter::FutexIndefinite(w).woken() matches Waiter::FutexIndefinite(v) && v.woken_up,
        Waiter::FutexNanoSleep(s).woken() matches Waiter::FutexNanoSleep(v) && sleep_over(
            v,
            m,
            now,
        ) == Ok::<bool, ClockError>(true),
        m.regs.len() == 35 ==> m.ret(0).reg(RegisterARM64::X0) == 0,
        m.regs.len() == 35 ==> m.ret(-errno_number(Errno::EAGAIN)).reg(RegisterARM64::X0) != 0,
        m.regs.len() == 35 ==> m.ret(-errno_number(Errno::ETIMEDOUT)).reg(RegisterARM64::X0) != 0,
{
}

/// After a deadlock release the word no longer holds the value that was waited for,
/// unless that value is zero, so that no waiter on it stays parked.
pub proof fn law_release_frees_the_word(b: Backend, uaddr: u64, val: u32)
    requires
        val != 0,
    ensures
        futex_changed(unlocked_futex(b@, uaddr, val), uaddr, val),
{
    let m = b@;
    if m.read_u32(uaddr as int) == Some(val) {
        let after = unlocked_futex(m, uaddr, val);
        crate::le::law_le32_round_trip(0);
        crate::backend::law_pages_hold_their_bytes(b, uaddr + 3);
        let s = after.read(uaddr as int, 4);
        assert(s =~= le32(0));
    }
}

/// A limited wait that nobody woke, on a word that still has its value, is over exactly when
/// the clock has moved on by the time that was asked for. Before that it is not, and a clock
/// that fell behind the start says nothing. A woken wait is over, and so is one whose word
/// changed, whatever the clock shows.
pub proof fn law_limited_wait(w: FutexNanoSleepWaiter, m: Machine, t: u64)
    ensures
        w.woken_up || m.read_u32(w.uaddr as int) != Some(w.val) ==> sleep_over(w, m, Some(t))
            == Ok::<bool, ClockError>(true) && sleep_over(w, m, None) == Ok::<bool, ClockError>(true),
        !w.woken_up && m.read_u32(w.uaddr as int) == Some(w.val) ==> {
            &&& t >= w.start_time + w.wait_millis <==> sleep_over(w, m, Some(t)) == Ok::<
                bool,
                ClockError,
            >(true)
            &&& w.start_time <= t < w.start_time + w.wait_millis ==> sleep_over(w, m, Some(t))
                == Ok::<bool, ClockError>(false)
            &&& t < w.start_time ==> sleep_over(w, m, Some(t)) is Err
            &&& sleep_over(w, m, None) is Err
        },
{
}

/// A word that an exited thread left locked becomes zero, and the owner after it too where
/// the word says that it is locked. A word that has another value by now is left alone.
pub proof fn law_stale_lock(b: Backend, uaddr: u64, val: u32)
    requires
        uaddr + 8 <= u64::MAX,
    ensures
        ({
            let m = b@;
            let after = unlocked_futex(m, uaddr, val);
            &&& after.regs == m.regs
            &&& m.read_u32(uaddr as int) != Some(val) ==> after == m
            &&& m.read_u32(uaddr as int) == Some(val) ==> after.read_u32(uaddr as int) == Some(0u32)
            &&& m.read_u32(uaddr as int) == Some(val) && val & 3 != 0 && m.mapped(uaddr + 4, 4)
                ==> after.read_u32(uaddr + 4) == Some(0u32)
            &&& val & 3 == 0 ==> after.read_u32(uaddr + 4) == m.read_u32(uaddr + 4)
        }),
{
    let m = b@;
    let after = unlocked_futex(m, uaddr, val);
    let zero = le32(0);
    crate::le::law_le32_round_trip(0);
    if m.read_u32(uaddr as int) == Some(val) {
        assert((uaddr + 4) % address_limit() == uaddr + 4);
        let cleared = m.write(uaddr as int, zero);
        lemma_half_inside(m, uaddr as int, zero, 0);
        lemma_half_apart(m, uaddr as int, zero, uaddr + 4);
        assert(zero.subrange(0, 4) =~= zero);
        assert(cleared.mem.dom() =~= m.mem.dom());
        if val & 3 != 0 {
            lemma_half_apart(cleared, uaddr + 4, zero, uaddr as int);
            if m.mapped(uaddr + 4, 4) {
                lemma_half_inside(cleared, uaddr + 4, zero, 0);
            }
        }
    }
}

/// What a finished poll tells of a descriptor: one where data was asked for and there is
/// some in its pipe, else zero. The number of ready descriptors is returned.
pub proof fn law_poll_answer(b: Backend, watches: Seq<PollWatch>, pipes: Seq<Pipe>, i: int)
    requires
        0 <= i < watches.len(),
        b@.mapped(watches[i].revents_off as int, 2),
        forall|j: int|
            i < j < watches.len() ==> (#[trigger] watches[j]).revents_off + 2
                <= watches[i].revents_off || watches[i].revents_off + 2 <= watches[j].revents_off,
    ensures
        ({
            let n = watches.len() as int;
            let after = poll_answered(b@, watches, pipes, n);
            let w = watches[i];
            let some = w.events & 1 != 0 && (w.pipe matches Some(p) && pipes[p as int].unread().len()
                > 0);
            &&& after.mem[w.revents_off as int] == if some {
                1u8
            } else {
                0u8
            }
            &&& after.mem[w.revents_off + 1] == 0
            &&& after.regs == b@.regs
        }),
        ready_count(watches, pipes, watches.len() as int) == watches.filter(
            |w: PollWatch| w.ready(pipes),
        ).len(),
{
    lemma_poll_answer(b@, watches, pipes, i, watches.len() as int);
    lemma_ready_count(watches, pipes, watches.len() as int);
    assert(watches.take(watches.len() as int) =~= watches);
}

proof fn lemma_poll_answer(
    m: Machine,
    watches: Seq<PollWatch>,
    pipes: Seq<Pipe>,
    i: int,
    n: int,
)
    requires
        0 <= i,
        n <= watches.len(),
        i < watches.len(),
        m.mapped(watches[i].revents_off as int, 2),
        forall|j: int|
            i < j < watches.len() ==> (#[trigger] watches[j]).revents_off + 2
                <= watches[i].revents_off || watches[i].revents_off + 2 <= watches[j].revents_off,
    ensures
        ({
            let after = poll_answered(m, watches, pipes, n);
            let w = watches[i];
            &&& after.mem.dom() == m.mem.dom()
            &&& after.regs == m.regs
            &&& i < n ==> after.mem[w.revents_off as int] == if w.ready(pipes) {
                1u8
            } else {
                0u8
            } && after.mem[w.revents_off + 1] == 0
        }),
    decreases n,
{
    if n > 0 {
        lemma_poll_answer(m, watches, pipes, i, n - 1);
        let before = poll_answered(m, watches, pipes, n - 1);
        let after = poll_answered(m, watches, pipes, n);
        let at = watches[n - 1].revents_off as int;
        assert(after.mem.dom() =~= m.mem.dom());
        if n - 1 == i {
            assert(before.mapped(at, 2));
            assert(m.mem.dom().contains(at) && m.mem.dom().contains(at + 1));
        }
    }
}

proof fn lemma_ready_count(watches: Seq<PollWatch>, pipes: Seq<Pipe>, n: int)
    requires
        0 <= n <= watches.len(),
    ensures
        ready_count(watches, pipes, n) == watches.take(n).filter(
            |w: PollWatch| w.ready(pipes),
        ).len(),
    decreases n,
{
    reveal(Seq::filter);
    if n > 0 {
        lemma_ready_count(watches, pipes, n - 1);
        assert(watches.take(n).drop_last() =~= watches.take(n - 1));
    }
}

} // verus!
