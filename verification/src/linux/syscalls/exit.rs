//! The end of threads and of the process.
//!
//! Before the process ends, what the guest's C library still holds in its stream
//! buffers is written out. A stream of that library is a record of 152 bytes: the
//! place of the next byte at 0, flags at 16, the descriptor at 20 and the start of the
//! buffer at 24. Records stand in rows, and the rows form a chain: the next row at 0,
//! the number of records at 8 and their place at 16.
use vstd::prelude::*;
use crate::backend::{
    lemma_half_inside, lemma_word_stored, Backend, Machine, RegisterARM64,
};
use crate::emulator::base_task::TaskStatus;
use crate::emulator::dispatcher::{woken_tasks, AbstractTask, TaskKind, ThreadDispatcher};
use crate::emulator::state::AndroidEmulator;
use crate::le::{le32, le64, put_le32, put_le64};
use crate::linux::file_system::{file_at, DynamicIO, FileIO, FileSystem, FsView};
use crate::linux::module::{named_symbol, needs_below, Found};
use crate::linux::syscalls::files::lemma_fs_keeps_wf;
use crate::linux::syscalls::threads::{in_thread, lemma_tasks_keep_wf, parked_at, told_to_wake};
use crate::num::{address_limit, from_bits_i32, i32_of_bits};
use crate::outside::{entry_has_key, entry_value, has_entry, index_entries, index_get};

verus! {

/// The machine and the files while streams are written out.
#[verifier::ext_equal]
pub struct StdioRun {
    pub m: Machine,
    pub v: FsView,
}

/// The word at an address of the address space, where it can be read.
pub open spec fn peek64(m: Machine, addr: int) -> Option<u64> {
    if addr < address_limit() {
        m.read_u64(addr)
    } else {
        None
    }
}

/// The half word at an address of the address space, where it can be read.
pub open spec fn peek32(m: Machine, addr: int) -> Option<u32> {
    if addr < address_limit() {
        m.read_u32(addr)
    } else {
        None
    }
}

fn look64(backend: &Backend, base: u64, offset: u64) -> (r: Option<u64>)
    ensures
        r == peek64(backend@, base + offset),
{
    match base.checked_add(offset) {
        Some(addr) => match backend.mem_read_u64(addr) {
            Ok(v) => Some(v),
            Err(_) => None,
        },
        None => None,
    }
}

fn look32(backend: &Backend, base: u64, offset: u64) -> (r: Option<u32>)
    ensures
        r == peek32(backend@, base + offset),
{
    match base.checked_add(offset) {
        Some(addr) => match backend.mem_read_u32(addr) {
            Ok(v) => Some(v),
            Err(_) => None,
        },
        None => None,
    }
}

/// A stream that is open for writing, and whose bytes are meant for a file.
pub const STREAM_WRITES: u32 = 0x0008;

/// A stream whose bytes stay in memory.
pub const STREAM_IN_MEMORY: u32 = 0x8000;

/// The most bytes of one stream that are written out.
pub const STREAM_LIMIT: u64 = 0x10_0000;

/// What a stream still has to write: the descriptor, and the start and the length of
/// the bytes.
pub open spec fn unwritten(m: Machine, fp: int) -> Option<(i32, u64, int)> {
    match (peek64(m, fp), peek32(m, fp + 16), peek32(m, fp + 20), peek64(m, fp + 24)) {
        (Some(next), Some(flags), Some(file_no), Some(base)) => {
            let n = next - base;
            if flags & STREAM_IN_MEMORY == 0 && flags & STREAM_WRITES != 0 && next != 0 && base != 0
                && 0 < n <= STREAM_LIMIT && m.mapped(base as int, n) {
                Some((i32_of_bits(file_no), base, n))
            } else {
                None
            }
        },
        _ => None,
    }
}

impl StdioRun {
    /// One stream was written out.
    pub open spec fn flush_one(self, fp: int) -> StdioRun {
        match unwritten(self.m, fp) {
            Some((fd, base, n)) => StdioRun {
                m: self.m.try_write(fp, le64(base)),
                v: self.v.send(fd, self.m.read(base as int, n as nat)),
            },
            None => self,
        }
    }

    /// The first `n` streams of a row were written out.
    pub open spec fn flush_row(self, iobs: int, n: int) -> StdioRun
        decreases n,
    {
        if n <= 0 {
            self
        } else {
            let before = self.flush_row(iobs, n - 1);
            if iobs + (n - 1) * 152 < address_limit() {
                before.flush_one(iobs + (n - 1) * 152)
            } else {
                before
            }
        }
    }

    /// At most `k` rows of a chain were written out.
    pub open spec fn flush_chain(self, glue: u64, k: int) -> StdioRun
        decreases k,
    {
        if k <= 0 || glue == 0 {
            self
        } else {
            match (peek32(self.m, glue + 8), peek64(self.m, glue + 16)) {
                (Some(niobs), Some(iobs)) => {
                    let after = if iobs != 0 && 0 < niobs < 64 {
                        self.flush_row(iobs as int, niobs as int)
                    } else {
                        self
                    };
                    match peek64(after.m, glue as int) {
                        Some(next) => if next == glue {
                            after
                        } else {
                            after.flush_chain(next, k - 1)
                        },
                        None => after,
                    }
                },
                _ => self,
            }
        }
    }

    /// The stream behind a symbol was written out. The symbol is the stream itself or
    /// a pointer to it.
    pub open spec fn flush_symbol(self, at: Option<u64>) -> StdioRun {
        match at {
            None => self,
            Some(addr) => match self.m.read_u64(addr as int) {
                None => self,
                Some(pointer) => if pointer > 0x10000 && self.m.read_u64(pointer as int) is Some {
                    self.flush_one(pointer as int)
                } else {
                    self.flush_one(addr as int)
                },
            },
        }
    }
}

/// Write out what a stream still holds.
pub fn flush_one_file(backend: &mut Backend, file_system: &mut FileSystem, fp: u64)
    requires
        old(file_system).wf(),
    ensures
        final(file_system).wf(),
        final(file_system).slots == old(file_system).slots,
        final(file_system).pipes.pipes@.len() == old(file_system).pipes.pipes@.len(),
        (StdioRun { m: final(backend)@, v: final(file_system)@ }) == (StdioRun {
            m: old(backend)@,
            v: old(file_system)@,
        }).flush_one(fp as int),
{
    let next: u64 = match look64(backend, fp, 0) {
        Some(v) => v,
        None => {
            return ;
        },
    };
    let flags: u32 = match look32(backend, fp, 16) {
        Some(v) => v,
        None => {
            return ;
        },
    };
    if flags == 0 || flags & STREAM_IN_MEMORY != 0 || flags & STREAM_WRITES == 0 {
        assert(0u32 & 0x0008u32 == 0) by (bit_vector);
        return ;
    }
    let file_no: u32 = match look32(backend, fp, 20) {
        Some(v) => v,
        None => {
            return ;
        },
    };
    let base: u64 = match look64(backend, fp, 24) {
        Some(v) => v,
        None => {
            return ;
        },
    };
    if next == 0 || base == 0 || next < base {
        return ;
    }
    let n: u64 = next - base;
    if n == 0 || n > STREAM_LIMIT {
        return ;
    }
    let data = match backend.mem_read_as_vec(base, n) {
        Ok(data) => data,
        Err(_) => {
            return ;
        },
    };
    file_system.write_guest_fd(from_bits_i32(file_no), data.as_slice());
    backend.mem_try_write(fp, put_le64(base).as_slice());
}

/// Write out what the streams of a chain still hold, eight rows at most.
pub fn flush_sglue_chain(backend: &mut Backend, file_system: &mut FileSystem, glue: u64)
    requires
        old(file_system).wf(),
    ensures
        final(file_system).wf(),
        final(file_system).slots == old(file_system).slots,
        final(file_system).pipes.pipes@.len() == old(file_system).pipes.pipes@.len(),
        (StdioRun { m: final(backend)@, v: final(file_system)@ }) == (StdioRun {
            m: old(backend)@,
            v: old(file_system)@,
        }).flush_chain(glue, 8),
{
    let ghost start = StdioRun { m: backend@, v: file_system@ };
    let ghost end = start.flush_chain(glue, 8);
    let mut at: u64 = glue;
    let mut k: u64 = 8;
    while k > 0
        invariant
            k <= 8,
            start == (StdioRun { m: old(backend)@, v: old(file_system)@ }),
            end == start.flush_chain(glue, 8),
            file_system.wf(),
            file_system.slots == old(file_system).slots,
            file_system.pipes.pipes@.len() == old(file_system).pipes.pipes@.len(),
            (StdioRun { m: backend@, v: file_system@ }).flush_chain(at, k as int) == end,
        decreases k,
    {
        if at == 0 {
            return ;
        }
        let niobs: i32 = match look32(backend, at, 8) {
            Some(v) => from_bits_i32(v),
            None => {
                return ;
            },
        };
        let iobs: u64 = match look64(backend, at, 16) {
            Some(v) => v,
            None => {
                return ;
            },
        };
        if iobs != 0 && niobs > 0 && niobs < 64 {
            flush_row_of_files(backend, file_system, iobs, niobs as u64);
        }
        let next: u64 = match look64(backend, at, 0) {
            Some(v) => v,
            None => {
                return ;
            },
        };
        if next == at {
            return ;
        }
        at = next;
        k = k - 1;
    }
}

fn flush_row_of_files(backend: &mut Backend, file_system: &mut FileSystem, iobs: u64, n: u64)
    requires
        old(file_system).wf(),
        n < 64,
    ensures
        final(file_system).wf(),
        final(file_system).slots == old(file_system).slots,
        final(file_system).pipes.pipes@.len() == old(file_system).pipes.pipes@.len(),
        (StdioRun { m: final(backend)@, v: final(file_system)@ }) == (StdioRun {
            m: old(backend)@,
            v: old(file_system)@,
        }).flush_row(iobs as int, n as int),
{
    let ghost start = StdioRun { m: backend@, v: file_system@ };
    let mut i: u64 = 0;
    while i < n
        invariant
            i <= n,
            n < 64,
            start == (StdioRun { m: old(backend)@, v: old(file_system)@ }),
            file_system.wf(),
            file_system.slots == old(file_system).slots,
            file_system.pipes.pipes@.len() == old(file_system).pipes.pipes@.len(),
            (StdioRun { m: backend@, v: file_system@ }) == start.flush_row(iobs as int, i as int),
        decreases n - i,
    {
        if let Some(fp) = iobs.checked_add(i * 152) {
            flush_one_file(backend, file_system, fp);
        }
        i = i + 1;
    }
}

/// Where the C library keeps a symbol, if it is loaded and has one.
pub open spec fn libc_symbol(e: AndroidEmulator, name: Seq<char>) -> Option<Found> {
    let entries = index_entries(e.memory.modules);
    if has_entry(entries, "libc.so"@) {
        named_symbol(
            e.memory.list@,
            e.memory.list@[entry_value(entries, "libc.so"@) as int],
            e.memory.list@.len() as int,
            name,
            false,
        )
    } else {
        None
    }
}

/// The address of a symbol of the C library.
pub open spec fn libc_address(e: AndroidEmulator, name: Seq<char>) -> Option<u64> {
    match libc_symbol(e, name) {
        Some(f) => Some((f.base + f.symbol.value) as u64),
        None => None,
    }
}

/// A symbol of the C library, where there is one, stands in the address space.
pub open spec fn symbol_fits(e: AndroidEmulator, name: Seq<char>) -> bool {
    libc_symbol(e, name) matches Some(f) ==> f.base + f.symbol.value <= u64::MAX
}

/// The symbols through which streams are found stand in the address space.
pub open spec fn stdio_fits(e: AndroidEmulator) -> bool {
    symbol_fits(e, "__sglue"@) && symbol_fits(e, "stdout"@) && symbol_fits(e, "stderr"@)
}

/// All streams of the C library were written out.
pub open spec fn all_flushed(m: Machine, e: AndroidEmulator) -> StdioRun {
    let start = StdioRun { m, v: e.file_system@ };
    let chained = match libc_address(e, "__sglue"@) {
        Some(glue) => start.flush_chain(glue, 8),
        None => start,
    };
    chained.flush_symbol(libc_address(e, "stdout"@)).flush_symbol(libc_address(e, "stderr"@))
}

fn find_libc_symbol(emulator: &AndroidEmulator, name: &str) -> (r: Option<u64>)
    requires
        emulator.wf(),
        symbol_fits(*emulator, name@),
    ensures
        r == libc_address(*emulator, name@),
{
    match index_get(&emulator.memory.modules, "libc.so") {
        Some(i) => {
            let ghost entries = index_entries(emulator.memory.modules);
            assert(has_entry(entries, "libc.so"@));
            let ghost k = choose|k: int| entry_has_key(entries, "libc.so"@, k);
            assert(entry_has_key(entries, "libc.so"@, k));
            assert(entries[k].1 < emulator.memory.list@.len());
            assert(needs_below(emulator.memory.list@[i as int], i as int));
            match emulator.memory.list[i].find_symbol_by_name(&emulator.memory.list, name, false) {
                Ok(symbol) => Some(symbol.address()),
                Err(_) => None,
            }
        },
        None => None,
    }
}

fn flush_symbol_file(backend: &mut Backend, file_system: &mut FileSystem, at: Option<u64>)
    requires
        old(file_system).wf(),
    ensures
        final(file_system).wf(),
        final(file_system).slots == old(file_system).slots,
        final(file_system).pipes.pipes@.len() == old(file_system).pipes.pipes@.len(),
        (StdioRun { m: final(backend)@, v: final(file_system)@ }) == (StdioRun {
            m: old(backend)@,
            v: old(file_system)@,
        }).flush_symbol(at),
{
    if let Some(addr) = at {
        if let Ok(pointer) = backend.mem_read_u64(addr) {
            let fp: u64 = if pointer > 0x10000 && backend.mem_read_u64(pointer).is_ok() {
                pointer
            } else {
                addr
            };
            flush_one_file(backend, file_system, fp);
        }
    }
}

/// Write out what the streams of the guest's C library still hold.
pub fn flush_bionic_stdio(backend: &mut Backend, emulator: &mut AndroidEmulator)
    requires
        old(emulator).wf(),
        stdio_fits(*old(emulator)),
    ensures
        final(emulator).wf(),
        (StdioRun { m: final(backend)@, v: final(emulator).file_system@ }) == all_flushed(
            old(backend)@,
            *old(emulator),
        ),
        *final(emulator) == (AndroidEmulator {
            file_system: final(emulator).file_system,
            ..*old(emulator)
        }),
{
    let glue = find_libc_symbol(emulator, "__sglue");
    let out = find_libc_symbol(emulator, "stdout");
    let err = find_libc_symbol(emulator, "stderr");
    if let Some(glue) = glue {
        flush_sglue_chain(backend, &mut emulator.file_system, glue);
    }
    flush_symbol_file(backend, &mut emulator.file_system, out);
    flush_symbol_file(backend, &mut emulator.file_system, err);
    proof {
        lemma_fs_keeps_wf(*old(emulator), *emulator);
    }
}

/// The process ended with a status: the streams are written out, and the host is to
/// end with the same status.
pub open spec fn process_ended(
    m: Machine,
    e: AndroidEmulator,
    m2: Machine,
    e2: AndroidEmulator,
    status: i32,
) -> bool {
    &&& (StdioRun { m: m2, v: e2.file_system@ }) == all_flushed(m, e)
    &&& e2 == (AndroidEmulator {
        exit_status: Some(status),
        file_system: e2.file_system,
        ..e
    })
}

/// End the process with the status in `X0`. Gives the status for the host to end with.
pub fn syscall_exit_group(backend: &mut Backend, emulator: &mut AndroidEmulator) -> (status: i32)
    requires
        old(emulator).wf(),
        stdio_fits(*old(emulator)),
    ensures
        final(emulator).wf(),
        status == old(backend)@.reg_i32(RegisterARM64::X0),
        process_ended(old(backend)@, *old(emulator), final(backend)@, *final(emulator), status),
{
    let status: i32 = backend.reg_read_i32(RegisterARM64::X0);
    emulator.exit_status = Some(status);
    flush_bionic_stdio(backend, emulator);
    status
}

/// The threads after the current one ended with a status: whoever waits at the place
/// of its id is woken.
pub open spec fn thread_ended(d: ThreadDispatcher, d2: ThreadDispatcher, status: i32) -> bool {
    let i = d.context->0 as int;
    let t = d.tasks@[i];
    let marked = d.tasks@.update(i, AbstractTask { exit_status: Some(status), ..t });
    &&& d2.tasks@ == if t.start.child_tid != 0 {
        woken_tasks(marked, t.start.child_tid, u32::MAX)
    } else {
        marked
    }
    &&& d2 == (ThreadDispatcher { tasks: d2.tasks, ..d })
}

/// What ending the current task does.
pub open spec fn exit_done(
    m: Machine,
    e: AndroidEmulator,
    r: Option<i32>,
    m2: Machine,
    e2: AndroidEmulator,
) -> bool {
    let status = m.reg_i32(RegisterARM64::X0);
    let d = e.thread_dispatcher;
    if in_thread(d) {
        let ctid = d.tasks@[d.context->0 as int].start.child_tid;
        &&& r is None
        &&& m2 == if ctid != 0 {
            m.try_write(ctid as int, le32(0))
        } else {
            m
        }
        &&& thread_ended(d, e2.thread_dispatcher, status)
        &&& e2 == (AndroidEmulator {
            thread_dispatcher: e2.thread_dispatcher,
            stop: Some(TaskStatus::X),
            ..e
        })
    } else {
        &&& r == Some(status)
        &&& process_ended(m, e, m2, e2, status)
    }
}

/// End the current thread, or the process where the current task is no thread, with
/// the status in `X0`. A thread's id is cleared where the guest keeps it. Gives the
/// status for the host to end with, if the process ended.
pub fn syscall_exit(backend: &mut Backend, emulator: &mut AndroidEmulator) -> (r: Option<i32>)
    requires
        old(emulator).wf(),
        old(emulator).thread_dispatcher.context is Some,
        !in_thread(old(emulator).thread_dispatcher) ==> stdio_fits(*old(emulator)),
    ensures
        final(emulator).wf(),
        exit_done(old(backend)@, *old(emulator), r, final(backend)@, *final(emulator)),
{
    let status: i32 = backend.reg_read_i32(RegisterARM64::X0);
    let i: usize = emulator.thread_dispatcher.context.unwrap();
    if emulator.thread_dispatcher.tasks[i].kind == TaskKind::MarshmallowThread {
        let ctid: u64 = emulator.thread_dispatcher.tasks[i].start.child_tid;
        emulator.thread_dispatcher.tasks[i].exit_status = Some(status);
        proof {
            lemma_tasks_keep_wf(*old(emulator), *emulator, i as int);
            let t = old(emulator).thread_dispatcher.tasks@[i as int];
            assert(emulator.thread_dispatcher.tasks@ =~= old(emulator).thread_dispatcher.tasks@.update(
                i as int,
                AbstractTask { exit_status: Some(status), ..t },
            ));
        }
        if ctid != 0 {
            backend.mem_try_write(ctid, put_le32(0).as_slice());
            let _woken: u32 = emulator.thread_dispatcher.wake_futex(ctid, u32::MAX);
        }
        emulator.emu_stop(TaskStatus::X);
        return None;
    }
    Some(syscall_exit_group(backend, emulator))
}

/// A stream that was written out holds nothing more: writing it out again sends
/// nothing and changes nothing.
pub proof fn law_flushed_stream_is_empty(run: StdioRun, fp: int)
    requires
        0 <= fp,
    ensures
        unwritten(run.flush_one(fp).m, fp) is None,
        run.flush_one(fp).flush_one(fp) == run.flush_one(fp),
{
    if let Some((fd, base, n)) = unwritten(run.m, fp) {
        let m = run.m;
        let after = run.flush_one(fp).m;
        assert(after.mem.dom() =~= m.mem.dom());
        assert(after.read(fp, 8) =~= le64(base));
        crate::le::law_le64_round_trip(base);
        assert(after.read(fp + 24, 8) =~= m.read(fp + 24, 8));
        assert(after.mapped(fp, 8));
        assert(peek64(after, fp) == Some(base));
        assert(peek64(after, fp + 24) == Some(base));
    }
}

/// A thread that ends has its status on record, in the low half of `X0`, and stops for good.
/// The half word where the guest keeps its id is zero from then on, and every other task that
/// waits there is woken; the tasks that wait elsewhere stay as they are. The process goes on:
/// no stream is written out. A task that is no thread ends the process with that status.
pub proof fn law_thread_exit(
    m: Machine,
    e: AndroidEmulator,
    r: Option<i32>,
    m2: Machine,
    e2: AndroidEmulator,
    i: int,
)
    requires
        exit_done(m, e, r, m2, e2),
        e.thread_dispatcher.context is Some,
        e.thread_dispatcher.context->0 < e.thread_dispatcher.tasks@.len() <= u32::MAX,
        0 <= i < e.thread_dispatcher.tasks@.len(),
    ensures
        ({
            let me = e.thread_dispatcher.context->0 as int;
            let tasks = e.thread_dispatcher.tasks@;
            let tasks2 = e2.thread_dispatcher.tasks@;
            let place = tasks[me].start.child_tid;
            let status = m.reg_i32(RegisterARM64::X0);
            if tasks[me].kind == TaskKind::MarshmallowThread {
                &&& r is None
                &&& e2.stop == Some(TaskStatus::X)
                &&& e2.exit_status == e.exit_status
                &&& e2.file_system == e.file_system
                &&& tasks2.len() == tasks.len()
                &&& tasks2[me].exit_status == Some(status)
                &&& place != 0 && m.mapped(place as int, 4) ==> m2.read_u32(place as int)
                    == Some(0u32)
                &&& place == 0 ==> m2 == m
                &&& i != me && place != 0 && parked_at(tasks[i], place) ==> told_to_wake(
                    tasks2[i],
                )
                &&& i != me && (place == 0 || !parked_at(tasks[i], place)) ==> tasks2[i]
                    == tasks[i]
            } else {
                r == Some(status) && e2.exit_status == Some(status)
            }
        }),
{
    let d = e.thread_dispatcher;
    let me = d.context->0 as int;
    if in_thread(d) {
        let t = d.tasks@[me];
        let place = t.start.child_tid;
        let status = m.reg_i32(RegisterARM64::X0);
        let marked = d.tasks@.update(me, AbstractTask { exit_status: Some(status), ..t });
        if place != 0 {
            crate::emulator::dispatcher::law_wake_reaches_the_waiters(marked, place, u32::MAX, i);
            crate::emulator::dispatcher::law_wake_reaches_the_waiters(marked, place, u32::MAX, me);
            if m.mapped(place as int, 4) {
                crate::le::law_le32_round_trip(0);
                lemma_half_inside(m, place as int, le32(0), 0);
                assert(le32(0).subrange(0, 4) =~= le32(0));
            }
        }
    }
}

/// What writing a stream out does. A stream's record has the place of its next byte at 0, its
/// flags at 16, its descriptor at 20 and the start of its buffer at 24. Where it is open for
/// writing (flag 8), is not one in memory (flag 0x8000), and holds between one byte and a
/// megabyte that can be read, those bytes go to its descriptor: to the end of standard output
/// or error, or of the pipe. After that the next byte is the first of the buffer again. In
/// all other cases nothing happens.
pub proof fn law_stream_is_written_out(run: StdioRun, fp: int)
    requires
        0 <= fp,
        fp + 32 <= 0x1_0000_0000_0000_0000,
        run.m.read_u64(fp) is Some,
        run.m.read_u32(fp + 16) is Some,
        run.m.read_u32(fp + 20) is Some,
        run.m.read_u64(fp + 24) is Some,
    ensures
        ({
            let m = run.m;
            let end = run.flush_one(fp);
            let next = m.read_u64(fp)->0;
            let flags = m.read_u32(fp + 16)->0;
            let fd = i32_of_bits(m.read_u32(fp + 20)->0) as int;
            let base = m.read_u64(fp + 24)->0;
            let data = m.read(base as int, (next - base) as nat);
            if flags & 8 != 0 && flags & 0x8000 == 0 && base != 0 && base < next && next - base
                <= 0x10_0000 && m.mapped(base as int, next - base) {
                &&& end.m.read_u64(fp) == Some(base)
                &&& end.v.slots == run.v.slots
                &&& match file_at(run.v.slots, fd) {
                    Some(FileIO::Dynamic(DynamicIO::Stdout(f))) => {
                        &&& f.err ==> end.v.err == run.v.err + data && end.v.out == run.v.out
                        &&& !f.err ==> end.v.out == run.v.out + data && end.v.err == run.v.err
                        &&& end.v.pipes == run.v.pipes
                    },
                    Some(FileIO::Dynamic(DynamicIO::Pipe(p))) => p.writer && p.pipe
                        < run.v.pipes.len() ==> end.v.pipes[p.pipe as int].0
                        == run.v.pipes[p.pipe as int].0 + data,
                    Some(FileIO::File(_)) => end.v.driver == run.v.driver.push((fd as i32, data)),
                    None => end.v == run.v,
                    _ => true,
                }
            } else {
                end == run
            }
        }),
{
    let m = run.m;
    if let Some((fd, base, n)) = unwritten(m, fp) {
        lemma_word_stored(m, fp, base);
        assert(le64(base).len() == 8);
    }
}

/// How the streams of a chain are gone through. A row has the next row at 0, the number of its
/// records at 8 and their place at 16. Its records, 152 bytes each, are written out one after
/// the other, then the next row. The chain ends at a row that leads nowhere or to itself, and
/// after eight rows.
pub proof fn law_chain_of_streams(run: StdioRun, glue: u64, k: int, iobs: int, i: int)
    requires
        0 <= i,
        0 <= iobs,
        iobs + i * 152 < 0x1_0000_0000_0000_0000,
        glue + 24 <= 0x1_0000_0000_0000_0000,
    ensures
        run.flush_row(iobs, 0) == run,
        run.flush_row(iobs, i + 1) == run.flush_row(iobs, i).flush_one(iobs + 152 * i),
        run.flush_chain(0, k) == run,
        run.flush_chain(glue, 0) == run,
        k > 0 && glue != 0 && run.m.read_u32(glue + 8) is Some && run.m.read_u64(glue + 16) is Some
            ==> {
            let count = run.m.read_u32(glue + 8)->0;
            let first = run.m.read_u64(glue + 16)->0;
            let after = if first != 0 && 0 < count < 64 {
                run.flush_row(first as int, count as int)
            } else {
                run
            };
            run.flush_chain(glue, k) == match after.m.read_u64(glue as int) {
                Some(next) => if next == glue {
                    after
                } else {
                    after.flush_chain(next, k - 1)
                },
                None => after,
            }
        },
{
    assert(i + 1 - 1 == i);
    assert(iobs + (i + 1 - 1) * 152 == iobs + 152 * i);
}

/// A standard stream's symbol leads to its record: where the word at the symbol is an address
/// above 0x10000 that can be read, the record stands there, else at the symbol itself.
pub proof fn law_stream_symbol(run: StdioRun, addr: u64)
    requires
        run.m.read_u64(addr as int) is Some,
    ensures
        ({
            let word = run.m.read_u64(addr as int)->0;
            run.flush_symbol(Some(addr)) == if word > 0x10000 && run.m.read_u64(word as int) is Some {
                run.flush_one(word as int)
            } else {
                run.flush_one(addr as int)
            }
        }),
        run.flush_symbol(None) == run,
{
}

/// A symbol of the C library stands at the library's base and the symbol's value; where no C
/// library is loaded there is none.
pub proof fn law_libc_address(e: AndroidEmulator, name: Seq<char>)
    requires
        symbol_fits(e, name),
    ensures
        libc_symbol(e, name) matches Some(f) ==> (libc_address(e, name) matches Some(a) && a
            == f.base + f.symbol.value),
        libc_symbol(e, name) is None ==> libc_address(e, name) is None,
        !has_entry(index_entries(e.memory.modules), "libc.so"@) ==> libc_address(e, name) is None,
{
}

} // verus!
