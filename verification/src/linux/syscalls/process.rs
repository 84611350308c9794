//! System calls on the process itself: identity, signals, scheduling, chance.
use vstd::prelude::*;
use crate::backend::{lemma_half_apart, lemma_half_inside, Backend, Machine, RegisterARM64};
use crate::emulator::state::{refuse, AndroidEmulator};
use crate::le::{le_i32, put_le_i32, put_zeros, zeros};
use crate::linux::entry::GUEST_UID;
use crate::linux::errno::Errno;
use crate::linux::syscalls::files::refused;
use crate::num::{from_bits_i32, i32_of_bits, min_int};
use crate::outside::random_byte;

verus! {

/// Control the process: every operation is accepted and has no effect.
pub fn syscall_prctl(backend: &mut Backend, emulator: &AndroidEmulator)
    ensures
        final(backend)@ == old(backend)@.ret(0),
{
    backend.reg_write_i64(RegisterARM64::X0, 0);
}

pub fn syscall_geteuid(backend: &mut Backend, emulator: &AndroidEmulator)
    ensures
        final(backend)@ == old(backend)@.ret(GUEST_UID as int),
        final(backend)@ == old(backend)@.set_reg(RegisterARM64::X0, 10261),
{
    backend.reg_write_i64(RegisterARM64::X0, GUEST_UID as i64);
}

pub fn syscall_getuid(backend: &mut Backend, emulator: &AndroidEmulator)
    ensures
        final(backend)@ == old(backend)@.ret(GUEST_UID as int),
        final(backend)@ == old(backend)@.set_reg(RegisterARM64::X0, 10261),
{
    backend.reg_write_i64(RegisterARM64::X0, GUEST_UID as i64);
}

pub fn syscall_getppid(backend: &mut Backend, emulator: &AndroidEmulator)
    ensures
        final(backend)@ == old(backend)@.ret(i32_of_bits(emulator.ppid) as int),
{
    backend.reg_write_i64(RegisterARM64::X0, from_bits_i32(emulator.ppid) as i64);
}

pub fn syscall_getpid(backend: &mut Backend, emulator: &AndroidEmulator)
    ensures
        final(backend)@ == old(backend)@.ret(i32_of_bits(emulator.pid) as int),
{
    backend.reg_write_i64(RegisterARM64::X0, from_bits_i32(emulator.pid) as i64);
}

pub fn syscall_gettid(backend: &mut Backend, emulator: &AndroidEmulator)
    requires
        emulator.wf(),
    ensures
        final(backend)@ == old(backend)@.set_reg(RegisterARM64::X0, emulator.current_id() as u64),
{
    backend.reg_write(RegisterARM64::X0, emulator.get_current_pid() as u64);
}

/// The machine after `data` was stored at `addr` where that is an address and mapped.
pub open spec fn told(m: Machine, addr: u64, data: Seq<u8>) -> Machine {
    if addr != 0 {
        m.try_write(addr as int, data)
    } else {
        m
    }
}

fn tell_zeros(backend: &mut Backend, addr: u64, n: usize)
    ensures
        final(backend)@ == told(old(backend)@, addr, zeros(n as nat)),
{
    if addr != 0 {
        backend.mem_try_write(addr, put_zeros(n).as_slice());
    }
}

/// The alternate signal stack: there is none, and `X1` is told so.
pub fn syscall_sigaltstack(backend: &mut Backend, emulator: &AndroidEmulator)
    ensures
        final(backend)@ == told(
            old(backend)@,
            old(backend)@.reg(RegisterARM64::X1),
            zeros(24),
        ).ret(0),
{
    let old_ss: u64 = backend.reg_read(RegisterARM64::X1);
    tell_zeros(backend, old_ss, 24);
    backend.reg_write_i64(RegisterARM64::X0, 0);
}

/// The action of a signal: always the default one, and `X2` is told so.
pub fn syscall_rt_sigaction(backend: &mut Backend, emulator: &AndroidEmulator)
    ensures
        final(backend)@ == told(
            old(backend)@,
            old(backend)@.reg(RegisterARM64::X2),
            zeros(32),
        ).ret(0),
{
    let oldact: u64 = backend.reg_read(RegisterARM64::X2);
    tell_zeros(backend, oldact, 32);
    backend.reg_write_i64(RegisterARM64::X0, 0);
}

/// The signal that a waiting guest gets at once.
pub const SIGINT: i32 = 2;

/// The machine after a waiting guest was told of an interrupt.
pub open spec fn interrupt_told(m: Machine) -> Machine {
    let info = m.reg(RegisterARM64::X1);
    (if info != 0 {
        m.try_write(info as int, le_i32(SIGINT)).try_write(info + 8, le_i32(0))
    } else {
        m
    }).ret(SIGINT as int)
}

/// Wait for a signal: an interrupt comes at once, and `X1` is told which it was.
pub fn syscall_rt_sigtimedwait(backend: &mut Backend, emulator: &AndroidEmulator)
    requires
        old(backend)@.reg(RegisterARM64::X1) + 8 <= u64::MAX,
    ensures
        final(backend)@ == interrupt_told(old(backend)@),
{
    let info: u64 = backend.reg_read(RegisterARM64::X1);
    if info != 0 {
        backend.mem_try_write(info, put_le_i32(SIGINT).as_slice());
        backend.mem_try_write(info + 8, put_le_i32(0).as_slice());
    }
    backend.reg_write_i64(RegisterARM64::X0, SIGINT as i64);
}

/// Wait for a child: there is none.
pub fn syscall_wait4(backend: &mut Backend, emulator: &mut AndroidEmulator)
    ensures
        refused(
            old(backend)@,
            *old(emulator),
            final(backend)@,
            *final(emulator),
            Errno::ECHILD,
        ),
{
    refuse(backend, emulator, Errno::ECHILD);
}

/// Send a signal: accepted, and nobody gets it.
pub fn syscall_kill(backend: &mut Backend, emulator: &AndroidEmulator)
    ensures
        final(backend)@ == old(backend)@.ret(0),
{
    backend.reg_write_i64(RegisterARM64::X0, 0);
}

/// Queue a signal: accepted, and nobody gets it.
pub fn syscall_rt_tgsigqueueinfo(backend: &mut Backend, emulator: &AndroidEmulator)
    ensures
        final(backend)@ == old(backend)@.ret(0),
{
    backend.reg_write_i64(RegisterARM64::X0, 0);
}

/// Sleep: over at once, and `X1` is told that no time is left.
pub fn syscall_nanosleep(backend: &mut Backend, emulator: &AndroidEmulator)
    ensures
        final(backend)@ == told(
            old(backend)@,
            old(backend)@.reg(RegisterARM64::X1),
            zeros(16),
        ).ret(0),
{
    let rem: u64 = backend.reg_read(RegisterARM64::X1);
    tell_zeros(backend, rem, 16);
    backend.reg_write_i64(RegisterARM64::X0, 0);
}

pub fn syscall_sched_yield(backend: &mut Backend, emulator: &AndroidEmulator)
    ensures
        final(backend)@ == old(backend)@.ret(0),
{
    backend.reg_write_i64(RegisterARM64::X0, 0);
}

/// A processor mask of `n` bytes in which only the first processor is set.
pub open spec fn first_processor(n: int) -> Seq<u8> {
    seq![1u8] + zeros((n - 1) as nat)
}

/// The machine after a thread was told which processors it may run on.
pub open spec fn affinity_told(m: Machine) -> Machine {
    let size = min_int(m.reg(RegisterARM64::X1) as int, 128);
    let mask = m.reg(RegisterARM64::X2);
    (if size > 0 {
        told(m, mask, first_processor(size))
    } else {
        m
    }).ret(min_int(size, 8))
}

/// The processors that a thread may run on: the first one. The mask goes to `X2`, in
/// at most `X1` and at most 128 bytes.
pub fn syscall_sched_getaffinity(backend: &mut Backend, emulator: &AndroidEmulator)
    ensures
        final(backend)@ == affinity_told(old(backend)@),
{
    let wanted: u64 = backend.reg_read(RegisterARM64::X1);
    let mask: u64 = backend.reg_read(RegisterARM64::X2);
    let size: usize = if wanted < 128 {
        wanted as usize
    } else {
        128
    };
    if mask != 0 && size > 0 {
        let mut bits: Vec<u8> = Vec::new();
        bits.push(1);
        bits.extend_from_slice(put_zeros(size - 1).as_slice());
        assert(bits@ =~= first_processor(size as int));
        backend.mem_try_write(mask, bits.as_slice());
    }
    let n: i64 = if size < 8 {
        size as i64
    } else {
        8
    };
    backend.reg_write_i64(RegisterARM64::X0, n);
}

pub fn syscall_sched_setaffinity(backend: &mut Backend, emulator: &AndroidEmulator)
    ensures
        final(backend)@ == old(backend)@.ret(0),
{
    backend.reg_write_i64(RegisterARM64::X0, 0);
}

pub fn syscall_set_robust_list(backend: &mut Backend, emulator: &AndroidEmulator)
    ensures
        final(backend)@ == old(backend)@.ret(0),
{
    backend.reg_write_i64(RegisterARM64::X0, 0);
}

pub fn syscall_rseq(backend: &mut Backend, emulator: &AndroidEmulator)
    ensures
        final(backend)@ == old(backend)@.ret(0),
{
    backend.reg_write_i64(RegisterARM64::X0, 0);
}

pub fn syscall_membarrier(backend: &mut Backend, emulator: &AndroidEmulator)
    ensures
        final(backend)@ == old(backend)@.ret(0),
{
    backend.reg_write_i64(RegisterARM64::X0, 0);
}

/// There is no extended file description.
pub fn syscall_statx(backend: &mut Backend, emulator: &mut AndroidEmulator)
    ensures
        refused(
            old(backend)@,
            *old(emulator),
            final(backend)@,
            *final(emulator),
            Errno::ENOSYS,
        ),
{
    refuse(backend, emulator, Errno::ENOSYS);
}

/// The system call numbered `nr` is not there.
pub fn syscall_enosys(backend: &mut Backend, emulator: &mut AndroidEmulator, nr: u64)
    ensures
        refused(
            old(backend)@,
            *old(emulator),
            final(backend)@,
            *final(emulator),
            Errno::ENOSYS,
        ),
{
    refuse(backend, emulator, Errno::ENOSYS);
}

/// The most random bytes that one call gives.
pub const RANDOM_LIMIT: u64 = 0x1_0000;

/// How many random bytes a call asks for.
pub open spec fn random_count(m: Machine) -> int {
    min_int(m.reg(RegisterARM64::X1) as int, RANDOM_LIMIT as int)
}

/// What storing random bytes comes to.
pub open spec fn random_told(
    m: Machine,
    e: AndroidEmulator,
    m2: Machine,
    e2: AndroidEmulator,
    data: Seq<u8>,
) -> bool {
    let buf = m.reg(RegisterARM64::X0) as int;
    if m.mapped(buf, data.len() as int) {
        m2 == m.write(buf, data).set_reg(RegisterARM64::X0, data.len() as u64) && e2 == e
    } else {
        refused(m, e, m2, e2, Errno::EFAULT)
    }
}

/// Give the guest these random bytes, at `X0`.
pub fn tell_random(backend: &mut Backend, emulator: &mut AndroidEmulator, data: &[u8])
    ensures
        random_told(old(backend)@, *old(emulator), final(backend)@, *final(emulator), data@),
{
    let buf: u64 = backend.reg_read(RegisterARM64::X0);
    if backend.mem_write(buf, data).is_err() {
        refuse(backend, emulator, Errno::EFAULT);
        return ;
    }
    backend.reg_write(RegisterARM64::X0, data.len() as u64);
}

/// The host's source of chance gave this byte.
pub closed spec fn came_by_chance(b: u8) -> bool {
    call_ensures(random_byte, (), b)
}

/// A byte that came by chance is what the host's source of chance gave.
pub(crate) proof fn law_chance_is_asked(b: u8)
    requires
        came_by_chance(b),
    ensures
        call_ensures(random_byte, (), b),
{
}

/// Store `X1` random bytes at `X0`, at most [`RANDOM_LIMIT`].
pub fn syscall_getrandom(backend: &mut Backend, emulator: &mut AndroidEmulator)
    ensures
        exists|data: Seq<u8>|
            data.len() == random_count(old(backend)@) && #[trigger] random_told(
                old(backend)@,
                *old(emulator),
                final(backend)@,
                *final(emulator),
                data,
            ) && forall|i: int| 0 <= i < data.len() ==> came_by_chance(#[trigger] data[i]),
{
    let wanted: u64 = backend.reg_read(RegisterARM64::X1);
    let n: u64 = if wanted < RANDOM_LIMIT {
        wanted
    } else {
        RANDOM_LIMIT
    };
    let mut data: Vec<u8> = Vec::new();
    let mut i: u64 = 0;
    while i < n
        invariant
            i <= n,
            data@.len() == i,
            forall|j: int| 0 <= j < i ==> came_by_chance(#[trigger] data@[j]),
        decreases n - i,
    {
        data.push(random_byte());
        i = i + 1;
    }
    tell_random(backend, emulator, data.as_slice());
}

/// A system call that is not there is answered with the negative of one error number,
/// whatever its number is, and that number is told. No other register and no other byte
/// of memory changes.
pub proof fn law_unknown_call(
    m: Backend,
    e: AndroidEmulator,
    m2: Machine,
    e2: AndroidEmulator,
    other: RegisterARM64,
    addr: int,
)
    requires
        refused(m@, e, m2, e2, Errno::ENOSYS),
        other != RegisterARM64::X0,
        m@.mem.dom().contains(addr),
        !(e.errno <= addr < e.errno + 4),
    ensures
        m2.reg_i64(RegisterARM64::X0) == -38,
        m@.mapped(e.errno as int, 4) ==> m2.read_u32(e.errno as int) == Some(38u32),
        e2 == e,
        m2.mem.dom() == m@.mem.dom(),
        m2.mem[addr] == m@.mem[addr],
        m2.prot == m@.prot,
        m2.reg(other) == m@.reg(other),
{
    crate::emulator::state::law_refusal(m, e, Errno::ENOSYS);
}

/// A thread may run on the first processor and on no other. It is told so in as many bytes as
/// it holds ready, at most 128, and what it gets is the size of the mask that counts, at most
/// eight.
pub proof fn law_one_processor(b: Backend)
    requires
        b@.reg(RegisterARM64::X2) != 0,
        b@.mapped(b@.reg(RegisterARM64::X2) as int, 128),
    ensures
        ({
            let m = b@;
            let after = affinity_told(m);
            let size = m.reg(RegisterARM64::X1);
            let mask = m.reg(RegisterARM64::X2);
            &&& size > 0 ==> after.mem[mask as int] == 1
            &&& forall|i: int| 1 <= i < size && i < 128 ==> #[trigger] after.mem[mask + i] == 0
            &&& forall|a: int|
                m.mem.dom().contains(a) && (a < mask || mask + 128 <= a || mask + size <= a)
                    ==> #[trigger] after.mem[a] == m.mem[a]
            &&& size >= 8 ==> after.reg(RegisterARM64::X0) == 8
            &&& size < 8 ==> after.reg(RegisterARM64::X0) == size
        }),
{
    b.reg_slots();
    let m = b@;
    let after = affinity_told(m);
    let size = min_int(m.reg(RegisterARM64::X1) as int, 128);
    let mask = m.reg(RegisterARM64::X2);
    assert(m.mem.dom().contains(mask as int));
    if size > 0 {
        assert(m.mapped(mask as int, size));
        assert(after.mem[mask + 0] == first_processor(size)[0]);
    }
    assert forall|i: int| 1 <= i < m.reg(RegisterARM64::X1) && i < 128 implies #[trigger] after.mem[mask
        + i] == 0 by {
        assert(m.mem.dom().contains(mask + i));
    }
}

/// A guest that waits for a signal gets an interrupt, which is signal two: the number is
/// returned, and stands at the beginning of what the guest is told, with a code of zero.
#[verifier::rlimit(40)]
pub proof fn law_waiting_guest_is_interrupted(b: Backend)
    requires
        b@.reg(RegisterARM64::X1) != 0,
        b@.mapped(b@.reg(RegisterARM64::X1) as int, 12),
    ensures
        ({
            let after = interrupt_told(b@);
            let info = b@.reg(RegisterARM64::X1);
            &&& after.reg(RegisterARM64::X0) == 2
            &&& after.read_u32(info as int) == Some(2u32)
            &&& after.read_u32(info + 8) == Some(0u32)
        }),
{
    b.reg_slots();
    let m = b@;
    let info = m.reg(RegisterARM64::X1) as int;
    let two = le_i32(2);
    let zero = le_i32(0);
    crate::le::law_le32_round_trip(2);
    crate::le::law_le32_round_trip(0);
    assert(m.mapped(info, 4));
    let m1 = m.write(info, two);
    assert(m1.mem.dom() =~= m.mem.dom());
    assert(m1.mapped(info + 8, 4)) by {
        assert forall|a: int| info + 8 <= a < info + 12 implies m1.mem.dom().contains(a) by {
            assert(m.mem.dom().contains(a));
        }
    }
    let m2 = m1.write(info + 8, zero);
    lemma_half_inside(m, info, two, 0);
    lemma_half_apart(m1, info + 8, zero, info);
    lemma_half_inside(m1, info + 8, zero, 0);
    assert(two.subrange(0, 4) =~= two);
    assert(zero.subrange(0, 4) =~= zero);
    let after = interrupt_told(m);
    assert(after.read_u32(info) == m2.read_u32(info));
    assert(after.read_u32(info + 8) == m2.read_u32(info + 8));
}

/// A guest that asks for random bytes gets as many as it asked for, at most 65536 at a time:
/// they stand where it asked for them, their number is returned, and nothing else changes.
/// Where it has no memory there, it is refused with error 14.
pub proof fn law_random_bytes(
    b: Backend,
    e: AndroidEmulator,
    m2: Machine,
    e2: AndroidEmulator,
    data: Seq<u8>,
)
    requires
        data.len() == random_count(b@),
        random_told(b@, e, m2, e2, data),
    ensures
        ({
            let m = b@;
            let at = m.reg(RegisterARM64::X0) as int;
            let wanted = m.reg(RegisterARM64::X1);
            &&& wanted <= 65536 ==> data.len() == wanted
            &&& wanted > 65536 ==> data.len() == 65536
            &&& m.mapped(at, data.len() as int) ==> {
                &&& m2.reg(RegisterARM64::X0) == data.len()
                &&& m2.read(at, data.len()) == data
                &&& forall|a: int|
                    m.mem.dom().contains(a) && (a < at || at + data.len() <= a)
                        ==> #[trigger] m2.mem[a] == m.mem[a]
            }
            &&& !m.mapped(at, data.len() as int) ==> m2.reg_i64(RegisterARM64::X0) == -14
            &&& e2 == e
        }),
{
    b.reg_slots();
    let m = b@;
    let at = m.reg(RegisterARM64::X0) as int;
    if m.mapped(at, data.len() as int) {
        crate::backend::law_write_then_read(m, at, data, at);
        assert(m2.read(at, data.len()) =~= m.write(at, data).read(at, data.len()));
    } else {
        crate::emulator::state::law_refusal(b, e, Errno::EFAULT);
    }
}

} // verus!
