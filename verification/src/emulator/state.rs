//! The state of the guest process.
use std::time::Instant;
use vstd::prelude::*;
use crate::backend::{law_write_then_read, Backend, Machine, RegisterARM64};
use crate::emulator::base_task::TaskStatus;
use crate::emulator::dispatcher::ThreadDispatcher;
use crate::le::{le_i32, put_le_i32};
use crate::linux::errno::{errno_number, Errno};
use crate::linux::file_system::FileSystem;
use crate::linux::thread::ChildTable;
use crate::memory::loader::{module_holding, AndroidElfLoader};
use crate::memory::svc_memory::SvcMemory;
use crate::num::bits_of_i32;
use crate::outside::index_entries;
use crate::text::str_eq;

verus! {

pub struct AndroidEmulator {
    pub brk: u64,
    pub heap_base: u64,
    pub pid: u32,
    pub ppid: u32,
    /// Where the guest's error number stands.
    pub errno: u64,
    pub exit_status: Option<i32>,
    pub exec_path: Option<String>,
    pub proc_name: String,
    pub base_path: String,
    pub next_task_id: u32,
    pub file_system: FileSystem,
    pub memory: AndroidElfLoader,
    pub thread_dispatcher: ThreadDispatcher,
    pub svc_memory: SvcMemory,
    pub children: ChildTable,
    /// That the processor is to stop, and the state of the running task from then on.
    pub stop: Option<TaskStatus>,
    /// When the steady clocks began.
    pub clock_start: Option<Instant>,
}

impl AndroidEmulator {
    /// The parts fit together.
    pub open spec fn wf(self) -> bool {
        &&& self.file_system.wf()
        &&& self.memory.wf()
        &&& self.thread_dispatcher.wf(
            self.file_system.pipes.pipes@.len() as int,
            self.children.children@.len() as int,
        )
    }

    /// The machine after the guest's error number was set.
    pub open spec fn errno_told(self, m: Machine, number: int) -> Machine {
        m.try_write(self.errno as int, le_i32(number as i32))
    }

    /// The machine after a system call was refused with this error.
    pub open spec fn refusal(self, m: Machine, e: Errno) -> Machine {
        self.errno_told(m.ret(-errno_number(e)), errno_number(e) as int)
    }

    /// The name of the module that the guest was called from; none where the link
    /// register points into no module.
    pub open spec fn caller(self, m: Machine) -> Seq<char> {
        match module_holding(
            index_entries(self.memory.modules),
            self.memory.list@,
            m.reg(RegisterARM64::LR),
            0,
        ) {
            Some(i) => self.memory.list@[i as int].name@,
            None => Seq::empty(),
        }
    }

    /// The name of the module that the guest was called from.
    pub fn find_caller_name(&self, backend: &Backend) -> (r: String)
        requires
            self.memory.wf(),
        ensures
            r@ == self.caller(backend@),
    {
        match self.memory.find_module_by_address(backend.reg_read(RegisterARM64::LR)) {
            Some(i) => self.memory.list[i].name.as_str().to_owned(),
            None => {
                proof {
                    reveal_strlit("");
                    assert(""@ =~= Seq::<char>::empty());
                }
                "".to_owned()
            },
        }
    }

    /// Whether the guest was called from the C library.
    pub fn called_from_libc(&self, backend: &Backend) -> (r: bool)
        requires
            self.memory.wf(),
        ensures
            r == (self.caller(backend@) == "libc.so"@),
    {
        let name = self.find_caller_name(backend);
        str_eq(name.as_str(), "libc.so")
    }

    /// The id that the guest sees of itself: the current thread's, else the process's.
    pub open spec fn current_id(self) -> u32 {
        match self.thread_dispatcher.context {
            Some(i) => self.thread_dispatcher.tasks@[i as int].id,
            None => self.pid,
        }
    }

    pub fn get_current_pid(&self) -> (r: u32)
        requires
            self.thread_dispatcher.context matches Some(i) ==> i
                < self.thread_dispatcher.tasks@.len(),
        ensures
            r == self.current_id(),
    {
        match self.thread_dispatcher.context {
            Some(i) => self.thread_dispatcher.tasks[i].id,
            None => self.pid,
        }
    }

    /// Store the guest's error number. Where the guest has no memory for it, nothing is
    /// stored.
    pub fn set_errno(&self, backend: &mut Backend, errno: i32)
        ensures
            final(backend)@ == self.errno_told(old(backend)@, errno as int),
    {
        let data = put_le_i32(errno);
        backend.mem_try_write(self.errno, data.as_slice());
    }

    /// Stop the processor; the running task is then in state `status`.
    pub fn emu_stop(&mut self, status: TaskStatus)
        ensures
            *final(self) == (AndroidEmulator { stop: Some(status), ..*old(self) }),
    {
        self.stop = Some(status);
    }

    /// How the guest ended, if it has.
    pub fn last_exit_status(&self) -> (r: Option<i32>)
        ensures
            r == self.exit_status,
    {
        self.exit_status
    }

    pub fn set_exec_path(&mut self, path: String)
        ensures
            *final(self) == (AndroidEmulator { exec_path: Some(path), ..*old(self) }),
    {
        self.exec_path = Some(path);
    }
}

/// Refuse a system call: the result is the negated error number, and the guest's error
/// number is set.
pub fn refuse(backend: &mut Backend, emulator: &AndroidEmulator, e: Errno)
    ensures
        final(backend)@ == emulator.refusal(old(backend)@, e),
{
    let errno: i32 = e.as_i32();
    backend.reg_write_i64(RegisterARM64::X0, -(errno as i64));
    emulator.set_errno(backend, errno);
}

/// A refused system call gives the guest a negative number. Its absolute value is what the
/// guest's error number then is, where the guest has memory for it. No other register and
/// no other byte of memory changes.
pub proof fn law_refusal(b: Backend, p: AndroidEmulator, e: Errno)
    requires
        e != Errno::OK,
    ensures
        ({
            let m = b@;
            let after = p.refusal(m, e);
            let at = p.errno as int;
            &&& after.reg_i64(RegisterARM64::X0) == -errno_number(e)
            &&& after.reg_i64(RegisterARM64::X0) < 0
            &&& m.mapped(at, 4) ==> after.read_u32(at) == Some(bits_of_i32(errno_number(e)))
            &&& after.mem.dom() == m.mem.dom()
            &&& after.prot == m.prot
            &&& forall|a: int|
                m.mem.dom().contains(a) && !(at <= a < at + 4) ==> #[trigger] after.mem[a]
                    == m.mem[a]
            &&& forall|r: RegisterARM64|
                r != RegisterARM64::X0 ==> #[trigger] after.reg(r) == m.reg(r)
        }),
{
    b.reg_slots();
    let m = b@;
    let told = m.ret(-errno_number(e));
    let after = p.refusal(m, e);
    let at = p.errno as int;
    let data = le_i32(errno_number(e));
    assert(told.mem == m.mem);
    assert(told.mapped(at, 4) == m.mapped(at, 4));
    if m.mapped(at, 4) {
        crate::le::law_le32_round_trip(bits_of_i32(errno_number(e)));
        law_write_then_read(told, at, data, at);
        assert(after.read(at, 4) == data);
    }
    assert(after.mem.dom() =~= m.mem.dom());
}

/// The guest was called from the module that holds the address in its link register, the first
/// by the order of names; where no named module holds it, from none.
pub proof fn law_caller(e: AndroidEmulator, m: Machine)
    ensures
        ({
            let entries = index_entries(e.memory.modules);
            let lr = m.reg(RegisterARM64::LR);
            ||| exists|k: int|
                0 <= k < entries.len() && e.caller(m) == e.memory.list@[(
                #[trigger] entries[k]).1 as int].name@ && e.memory.list@[entries[k].1 as int].base
                    <= lr < e.memory.list@[entries[k].1 as int].base + e.memory.list@[
                entries[k].1 as int].size
            ||| e.caller(m).len() == 0 && forall|k: int|
                0 <= k < entries.len() ==> !(e.memory.list@[(#[trigger] entries[k]).1 as int].base
                    <= lr < e.memory.list@[entries[k].1 as int].base + e.memory.list@[
                entries[k].1 as int].size)
        }),
{
    crate::memory::loader::law_module_for_address(
        index_entries(e.memory.modules),
        e.memory.list@,
        m.reg(RegisterARM64::LR),
    );
}

} // verus!
