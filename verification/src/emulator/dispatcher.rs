//! The threads of the guest.
use vstd::multiset::Multiset;
use vstd::prelude::*;
use crate::emulator::base_task::{BaseTask, TaskStatus};
use crate::outside::bag_contents;

verus! {

/// What a task is for.
#[derive(Clone, Copy, Debug, PartialEq, Eq, Structural)]
pub enum TaskKind {
    /// A call into the guest.
    Function64,
    /// A signal handler.
    SignalTask,
    /// A guest thread.
    MarshmallowThread,
    Other,
}

/// The signals that a thread blocks, and those that wait; none until the thread asks.
#[derive(Clone, Copy, Debug, PartialEq, Eq, Structural)]
pub struct SignalOps {
    pub mask: Option<u64>,
    pub pending: Option<u64>,
}

/// How a guest thread was started.
#[derive(Clone, Copy, Debug, PartialEq, Eq, Structural)]
pub struct ThreadStart {
    pub fn_ptr: u64,
    pub arg: u64,
    /// Where the guest keeps the thread's id while the thread lives; zero for nowhere.
    pub child_tid: u64,
    pub tls: u64,
    pub child_stack: u64,
}

pub struct AbstractTask {
    pub kind: TaskKind,
    pub id: u32,
    pub base: BaseTask,
    pub start: ThreadStart,
    pub signals: SignalOps,
    pub exit_status: Option<i32>,
}

/// A guest thread that was not run yet.
pub open spec fn is_new_thread(t: AbstractTask, id: u32, start: ThreadStart) -> bool {
    &&& t.kind == TaskKind::MarshmallowThread
    &&& t.id == id
    &&& t.start == start
    &&& t.signals == (SignalOps { mask: None, pending: None })
    &&& t.exit_status is None
    &&& t.base.waiter is None
    &&& t.base.context is None
    &&& t.base.snap is None
    &&& t.base.stack_block is None
    &&& t.base.destroy_listener is None
    &&& t.base.stack@.len() == 0
    &&& bag_contents(t.base.bag) == Multiset::<u64>::empty()
    &&& t.base.status == TaskStatus::Z
    &&& !t.base.skip_svc_epilogue
}

impl AbstractTask {
    /// A guest thread that was not run yet.
    pub fn new_thread(id: u32, start: ThreadStart) -> (t: AbstractTask)
        ensures
            is_new_thread(t, id, start),
    {
        AbstractTask {
            kind: TaskKind::MarshmallowThread,
            id,
            base: BaseTask::new(),
            start,
            signals: SignalOps { mask: None, pending: None },
            exit_status: None,
        }
    }

    /// The task waits on the futex word at `addr`.
    pub open spec fn waits_at(self, addr: u64) -> bool {
        self.base.waiter matches Some(w) && w.waits_at(addr)
    }

    /// The task with its waiter woken.
    pub open spec fn woken(self) -> AbstractTask {
        AbstractTask {
            base: BaseTask {
                waiter: match self.base.waiter {
                    Some(w) => Some(w.woken()),
                    None => None,
                },
                ..self.base
            },
            ..self
        }
    }
}

pub struct ThreadDispatcher {
    pub tasks: Vec<AbstractTask>,
    /// The task that the processor runs.
    pub running: Option<usize>,
    /// The task that system calls are made for.
    pub context: Option<usize>,
}

/// How many of the first `n` tasks a wake-up at `addr` wakes, of at most `max`.
pub open spec fn woken_count(tasks: Seq<AbstractTask>, addr: u64, max: u32, n: int) -> int
    decreases n,
{
    if n <= 0 {
        0
    } else {
        let before = woken_count(tasks, addr, max, n - 1);
        if before < max && tasks[n - 1].waits_at(addr) {
            before + 1
        } else {
            before
        }
    }
}

/// The tasks after a wake-up at `addr`: the first `max` that wait there are woken.
pub open spec fn woken_tasks(tasks: Seq<AbstractTask>, addr: u64, max: u32) -> Seq<AbstractTask> {
    Seq::new(
        tasks.len(),
        |i: int|
            if woken_count(tasks, addr, max, i) < max && tasks[i].waits_at(addr) {
                tasks[i].woken()
            } else {
                tasks[i]
            },
    )
}

pub proof fn lemma_woken_count(tasks: Seq<AbstractTask>, addr: u64, max: u32, n: int)
    requires
        0 <= n,
    ensures
        0 <= woken_count(tasks, addr, max, n) <= max,
        woken_count(tasks, addr, max, n) <= n,
    decreases n,
{
    if n > 0 {
        lemma_woken_count(tasks, addr, max, n - 1);
    }
}

impl ThreadDispatcher {
    /// The current tasks exist, and so does what the tasks wait for.
    pub open spec fn wf(self, pipes: int, children: int) -> bool {
        &&& self.running matches Some(i) ==> i < self.tasks@.len()
        &&& self.context matches Some(i) ==> i < self.tasks@.len()
        &&& forall|i: int|
            0 <= i < self.tasks@.len() ==> (#[trigger] self.tasks@[i]).base.wf(pipes, children)
    }

    pub fn new() -> (d: ThreadDispatcher)
        ensures
            d.tasks@.len() == 0,
            d.running is None,
            d.context is None,
    {
        ThreadDispatcher { tasks: Vec::new(), running: None, context: None }
    }

    pub fn task_counts(&self) -> (n: usize)
        ensures
            n == self.tasks@.len(),
    {
        self.tasks.len()
    }

    pub fn add_thread(&mut self, task: AbstractTask)
        ensures
            final(self).tasks@ == old(self).tasks@.push(task),
            final(self).running == old(self).running,
            final(self).context == old(self).context,
    {
        self.tasks.push(task);
    }

    /// Wake at most `max` of the tasks that wait on the futex word at `addr`, in their
    /// order. Gives their number.
    pub fn wake_futex(&mut self, addr: u64, max: u32) -> (count: u32)
        ensures
            count == woken_count(old(self).tasks@, addr, max, old(self).tasks@.len() as int),
            final(self).tasks@ == woken_tasks(old(self).tasks@, addr, max),
            final(self).running == old(self).running,
            final(self).context == old(self).context,
            forall|pipes: int, children: int|
                old(self).wf(pipes, children) ==> #[trigger] final(self).wf(pipes, children),
    {
        let ghost tasks = self.tasks@;
        let n: usize = self.tasks.len();
        let mut count: u32 = 0;
        let mut i: usize = 0;
        while i < n
            invariant
                i <= n,
                n == tasks.len(),
                tasks == old(self).tasks@,
                self.tasks@.len() == n,
                self.running == old(self).running,
                self.context == old(self).context,
                count == woken_count(tasks, addr, max, i as int),
                forall|j: int|
                    0 <= j < i ==> #[trigger] self.tasks@[j] == woken_tasks(tasks, addr, max)[j],
                forall|j: int| i <= j < n ==> #[trigger] self.tasks@[j] == tasks[j],
            decreases n - i,
        {
            proof {
                lemma_woken_count(tasks, addr, max, i as int);
            }
            if count < max {
                let mut woken = false;
                if let Some(w) = &mut self.tasks[i].base.waiter {
                    woken = w.wake_up(addr);
                }
                if woken {
                    count = count + 1;
                }
            }
            i = i + 1;
        }
        assert(self.tasks@ =~= woken_tasks(tasks, addr, max));
        proof {
            assert forall|pipes: int, children: int|
                old(self).wf(pipes, children) implies #[trigger] self.wf(pipes, children) by {
                assert forall|j: int| 0 <= j < self.tasks@.len() implies (
                #[trigger] self.tasks@[j]).base.wf(pipes, children) by {
                    assert(tasks[j].base.wf(pipes, children));
                }
            }
        }
        count
    }
}

/// A wake-up wakes every task that waits on the word where there is no limit below
/// their number, none that waits elsewhere, and never more than asked for.
pub proof fn law_wake_reaches_the_waiters(tasks: Seq<AbstractTask>, addr: u64, max: u32, i: int)
    requires
        0 <= i < tasks.len(),
    ensures
        woken_count(tasks, addr, max, tasks.len() as int) <= max,
        !tasks[i].waits_at(addr) ==> woken_tasks(tasks, addr, max)[i] == tasks[i],
        tasks.len() <= max && tasks[i].waits_at(addr) ==> woken_tasks(tasks, addr, max)[i]
            == tasks[i].woken(),
        max == 0 ==> woken_tasks(tasks, addr, max)[i] == tasks[i],
{
    lemma_woken_count(tasks, addr, max, i);
    lemma_woken_count(tasks, addr, max, tasks.len() as int);
}

} // verus!
