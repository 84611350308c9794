//! System calls on the guest's address space.
use vstd::prelude::*;
use crate::backend::{
    law_map_then_unmap, Backend, Machine, RegisterARM64, PAGE_ALIGN, PERM_READ_WRITE,
};
use crate::emulator::state::{refuse, AndroidEmulator};
use crate::linux::errno::Errno;
use crate::linux::syscalls::files::refused;
use crate::num::{from_bits_i32, i32_of_bits, sign_extend, to_bits_i64};
use crate::tool::{ceil_to, floor_to};

verus! {

broadcast use vstd::std_specs::hash::group_hash_axioms;

/// The machine after the end of the heap was moved from `brk` to `addr`.
pub open spec fn heap_moved(m: Machine, brk: int, addr: int) -> Machine {
    if addr > brk {
        m.map_pages(brk, addr - brk, PERM_READ_WRITE)
    } else if addr < brk {
        m.unmap_pages(addr, brk - addr)
    } else {
        m
    }
}

/// The end of the heap can be moved from `brk` to `addr`.
pub open spec fn heap_can_move(m: Machine, brk: int, addr: int) -> bool {
    &&& addr > brk ==> m.can_map(brk, addr - brk)
    &&& addr < brk ==> m.can_change(addr, brk - addr)
}

/// What moving the end of the heap does.
pub open spec fn brk_done(
    m: Machine,
    e: AndroidEmulator,
    m2: Machine,
    e2: AndroidEmulator,
) -> bool {
    let addr = m.reg(RegisterARM64::X0);
    if addr == 0 {
        &&& m2 == m.set_reg(RegisterARM64::X0, e.heap_base)
        &&& e2 == (AndroidEmulator { brk: e.heap_base, ..e })
    } else if addr % 8 != 0 {
        refused(m, e, m2, e2, Errno::EINVAL)
    } else {
        &&& m2 == heap_moved(m, e.brk as int, addr as int).set_reg(RegisterARM64::X0, addr)
        &&& e2 == (AndroidEmulator { brk: addr, ..e })
    }
}

/// Move the end of the heap to `X0`; ask for its start where that is zero.
pub fn syscall_brk(backend: &mut Backend, emulator: &mut AndroidEmulator)
    requires
        ({
            let addr = old(backend)@.reg(RegisterARM64::X0);
            addr != 0 && addr % 8 == 0 ==> heap_can_move(
                old(backend)@,
                old(emulator).brk as int,
                addr as int,
            )
        }),
    ensures
        brk_done(old(backend)@, *old(emulator), final(backend)@, *final(emulator)),
{
    let addr: u64 = backend.reg_read(RegisterARM64::X0);
    if addr == 0 {
        emulator.brk = emulator.heap_base;
        backend.reg_write(RegisterARM64::X0, emulator.heap_base);
        return ;
    }
    if addr % 8 != 0 {
        refuse(backend, emulator, Errno::EINVAL);
        return ;
    }
    let brk: u64 = emulator.brk;
    if addr > brk {
        backend.mem_map(brk, addr - brk, PERM_READ_WRITE).unwrap();
    } else if addr < brk {
        backend.mem_unmap(addr, brk - addr).unwrap();
    }
    emulator.brk = addr;
    backend.reg_write(RegisterARM64::X0, addr);
}

/// A heap that grows and then shrinks to where it was leaves memory as it was.
pub proof fn law_heap_grows_and_shrinks_back(b: Backend, brk: int, addr: int)
    requires
        addr >= brk,
        heap_can_move(b@, brk, addr),
    ensures
        heap_can_move(heap_moved(b@, brk, addr), addr, brk),
        heap_moved(heap_moved(b@, brk, addr), addr, brk) == b@,
{
    if addr > brk {
        law_map_then_unmap(b, brk, addr - brk, PERM_READ_WRITE);
    }
}

/// What the guest wants mapped.
#[derive(Clone, Copy, Debug, PartialEq, Eq, Structural)]
pub struct MmapRequest {
    pub start: u64,
    pub length: u64,
    pub prot: u32,
    pub flags: u32,
    pub fd: i32,
    pub offset: i64,
}

/// What the registers of a mapping call ask for. The offset counts pages.
pub open spec fn asked_mapping(m: Machine) -> MmapRequest {
    MmapRequest {
        start: m.reg(RegisterARM64::X0),
        length: sign_extend(m.reg_i32(RegisterARM64::X1)),
        prot: m.reg_u32(RegisterARM64::X2),
        flags: m.reg_u32(RegisterARM64::X3),
        fd: m.reg_i32(RegisterARM64::X4),
        offset: i32_of_bits(m.reg_u32(RegisterARM64::X5) << 12) as i64,
    }
}

/// What the registers of a mapping call ask for.
pub fn mmap_request(backend: &Backend) -> (r: MmapRequest)
    ensures
        r == asked_mapping(backend@),
{
    let length: i32 = backend.reg_read_i32(RegisterARM64::X1);
    MmapRequest {
        start: backend.reg_read(RegisterARM64::X0),
        length: to_bits_i64(length as i64),
        prot: backend.reg_read_u32(RegisterARM64::X2),
        flags: backend.reg_read_u32(RegisterARM64::X3),
        fd: backend.reg_read_i32(RegisterARM64::X4),
        offset: from_bits_i32(backend.reg_read_u32(RegisterARM64::X5) << 12) as i64,
    }
}

/// What became of a mapping.
#[derive(Clone, Copy, Debug, PartialEq, Eq, Structural)]
pub enum MmapReply {
    /// The memory is mapped at this address.
    Mapped(u64),
    /// The request has this fault.
    Refused(Errno),
    /// The machine could not map it.
    Failed,
}

/// What a mapping call comes to.
pub open spec fn mmap_done(
    m: Machine,
    e: AndroidEmulator,
    reply: MmapReply,
    m2: Machine,
    e2: AndroidEmulator,
) -> bool {
    match reply {
        MmapReply::Mapped(addr) => m2 == m.set_reg(RegisterARM64::X0, addr) && e2 == e,
        MmapReply::Refused(errno) => refused(m, e, m2, e2, errno),
        MmapReply::Failed => refused(m, e, m2, e2, Errno::EAGAIN),
    }
}

/// Answer a mapping call.
pub fn syscall_mmap(backend: &mut Backend, emulator: &mut AndroidEmulator, reply: MmapReply)
    ensures
        mmap_done(old(backend)@, *old(emulator), reply, final(backend)@, *final(emulator)),
{
    match reply {
        MmapReply::Mapped(addr) => {
            backend.reg_write(RegisterARM64::X0, addr);
        },
        MmapReply::Refused(errno) => {
            refuse(backend, emulator, errno);
        },
        MmapReply::Failed => {
            refuse(backend, emulator, Errno::EAGAIN);
        },
    }
}

/// The range that the registers of an unmapping call name: its start and length.
pub fn munmap_request(backend: &Backend) -> (r: (u64, u64))
    ensures
        r.0 == backend@.reg(RegisterARM64::X0),
        r.1 == sign_extend(backend@.reg_i32(RegisterARM64::X1)),
{
    let length: i32 = backend.reg_read_i32(RegisterARM64::X1);
    (backend.reg_read(RegisterARM64::X0), to_bits_i64(length as i64))
}

/// What an unmapping call comes to.
pub open spec fn munmap_done(
    m: Machine,
    e: AndroidEmulator,
    unmapped: bool,
    m2: Machine,
    e2: AndroidEmulator,
) -> bool {
    if unmapped {
        m2 == m.ret(0) && e2 == e
    } else {
        refused(m, e, m2, e2, Errno::EINVAL)
    }
}

/// Answer an unmapping call; `unmapped` says whether the range could be unmapped.
pub fn syscall_munmap(backend: &mut Backend, emulator: &mut AndroidEmulator, unmapped: bool)
    ensures
        munmap_done(old(backend)@, *old(emulator), unmapped, final(backend)@, *final(emulator)),
{
    if !unmapped {
        refuse(backend, emulator, Errno::EINVAL);
        return ;
    }
    backend.reg_write(RegisterARM64::X0, 0);
}

/// What changing the protection of pages does.
pub open spec fn mprotect_done(
    m: Machine,
    e: AndroidEmulator,
    m2: Machine,
    e2: AndroidEmulator,
) -> bool {
    let addr = m.reg(RegisterARM64::X0) as int;
    let start = floor_to(addr, 0x1000);
    let size = ceil_to(sign_extend(m.reg_i32(RegisterARM64::X1)) + addr % 0x1000, 0x1000);
    if m.can_change(start, size) {
        m2 == m.protect_pages(start, size, m.reg_u32(RegisterARM64::X2)).ret(0) && e2 == e
    } else {
        refused(m, e, m2, e2, Errno::EINVAL)
    }
}

/// Give the pages that hold the `X1` bytes at `X0` the protection `X2`.
pub fn syscall_mprotect(backend: &mut Backend, emulator: &mut AndroidEmulator)
    requires
        ({
            let m = old(backend)@;
            let addr = m.reg(RegisterARM64::X0) as int;
            let size = sign_extend(m.reg_i32(RegisterARM64::X1)) + addr % 0x1000;
            size > 0 && ceil_to(size, 0x1000) <= u64::MAX
        }),
    ensures
        mprotect_done(old(backend)@, *old(emulator), final(backend)@, *final(emulator)),
{
    let addr: u64 = backend.reg_read(RegisterARM64::X0);
    let len_i32: i32 = backend.reg_read_i32(RegisterARM64::X1);
    let len: u64 = to_bits_i64(len_i32 as i64);
    let prot: u32 = backend.reg_read_u32(RegisterARM64::X2);
    let start: u64 = (addr / PAGE_ALIGN) * PAGE_ALIGN;
    let offset: u64 = addr - start;
    assert(offset == addr as int % 0x1000);
    let ghost whole = len + offset;
    assert(ceil_to(whole, 0x1000) >= whole);
    let size: u64 = len + offset;
    assert(ceil_to(size as int, 0x1000) == ((size - 1) / 0x1000 + 1) * 0x1000);
    let aligned: u64 = ((size - 1) / PAGE_ALIGN + 1) * PAGE_ALIGN;
    if start % PAGE_ALIGN != 0 {
        refuse(backend, emulator, Errno::EINVAL);
        return ;
    }
    if backend.mem_protect(start, aligned, prot).is_err() {
        refuse(backend, emulator, Errno::EINVAL);
        return ;
    }
    backend.reg_write_i64(RegisterARM64::X0, 0);
}

/// What advice on a range comes to.
pub open spec fn madvise_done(
    m: Machine,
    e: AndroidEmulator,
    m2: Machine,
    e2: AndroidEmulator,
) -> bool {
    let addr = m.reg(RegisterARM64::X0);
    if addr != 0 && addr % 0x1000 == 0 && sign_extend(m.reg_i32(RegisterARM64::X1)) % 0x1000 == 0
        && e.memory.memory_map@.dom().contains(addr) {
        m2 == m.ret(0) && e2 == e
    } else {
        refused(m, e, m2, e2, Errno::EINVAL)
    }
}

/// Advice on the range at `X0`. It is accepted for a whole range that was mapped at
/// that address; nothing follows from it.
pub fn syscall_madvise(backend: &mut Backend, emulator: &mut AndroidEmulator)
    ensures
        madvise_done(old(backend)@, *old(emulator), final(backend)@, *final(emulator)),
{
    let addr: u64 = backend.reg_read(RegisterARM64::X0);
    let len_i32: i32 = backend.reg_read_i32(RegisterARM64::X1);
    let len: u64 = to_bits_i64(len_i32 as i64);
    let advice: i32 = backend.reg_read_i32(RegisterARM64::X2);
    if advice == 4 {
        backend.reg_write_i64(RegisterARM64::X0, 0);
    }
    proof {
        old(backend).reg_slots();
        assert forall|v: int| #[trigger] old(backend)@.ret(0).ret(v) == old(backend)@.ret(v) by {
            assert(old(backend)@.ret(0).ret(v).regs =~= old(backend)@.ret(v).regs);
        }
        let no = -(crate::linux::errno::errno_number(Errno::EINVAL) as int);
        assert(old(backend)@.ret(0).ret(no) == old(backend)@.ret(no));
        assert(old(backend)@.ret(0).ret(0) == old(backend)@.ret(0));
    }
    if addr == 0 || addr % PAGE_ALIGN != 0 || len % PAGE_ALIGN != 0 {
        refuse(backend, emulator, Errno::EINVAL);
        return ;
    }
    if emulator.memory.memory_map.contains_key(&addr) {
        backend.reg_write_i64(RegisterARM64::X0, 0);
    } else {
        refuse(backend, emulator, Errno::EINVAL);
    }
}

/// What moving the end of the heap to `X0` leaves. Where it grows, every page between the old
/// end and the new one is mapped, zeroed, and can be read and written. Where it shrinks, no
/// page from the new end to the old one is mapped. The pages elsewhere stay as they were, the
/// result is the new end, and it is on record. An address of zero gives the start of the
/// heap, and one that is not a multiple of eight is refused with 22.
#[verifier::rlimit(40)]
pub proof fn law_heap_end(
    b: Backend,
    e: AndroidEmulator,
    m2: Machine,
    e2: AndroidEmulator,
    p: int,
    a: int,
)
    requires
        brk_done(b@, e, m2, e2),
        ({
            let addr = b@.reg(RegisterARM64::X0);
            addr != 0 && addr % 8 == 0 ==> heap_can_move(b@, e.brk as int, addr as int)
        }),
    ensures
        ({
            let m = b@;
            let addr = m.reg(RegisterARM64::X0);
            let result = m2.reg(RegisterARM64::X0);
            if addr == 0 {
                result == e.heap_base && e2.brk == e.heap_base && m2.mem == m.mem && m2.prot
                    == m.prot
            } else if addr % 8 != 0 {
                m2.reg_i64(RegisterARM64::X0) == -22 && e2 == e && m2.prot == m.prot
            } else {
                &&& result == addr
                &&& e2.brk == addr
                &&& e.brk <= p * 0x1000 < addr ==> m2.prot.dom().contains(p) && m2.prot[p] == 3
                &&& e.brk <= a < addr ==> m2.mem.dom().contains(a) && m2.mem[a] == 0
                &&& addr <= p * 0x1000 < e.brk ==> !m2.prot.dom().contains(p)
                &&& addr <= a < e.brk ==> !m2.mem.dom().contains(a)
                &&& !(e.brk <= p * 0x1000 < addr) && !(addr <= p * 0x1000 < e.brk) ==> {
                    &&& m2.prot.dom().contains(p) == m.prot.dom().contains(p)
                    &&& m.prot.dom().contains(p) ==> m2.prot[p] == m.prot[p]
                }
                &&& !(e.brk <= a < addr) && !(addr <= a < e.brk) ==> {
                    &&& m2.mem.dom().contains(a) == m.mem.dom().contains(a)
                    &&& m.mem.dom().contains(a) ==> m2.mem[a] == m.mem[a]
                }
            }
        }),
{
    b.reg_slots();
    let m = b@;
    let addr = m.reg(RegisterARM64::X0);
    crate::emulator::state::law_refusal(b, e, Errno::EINVAL);
    if addr != 0 && addr % 8 == 0 {
        let lo: int = if e.brk < addr {
            e.brk as int
        } else {
            addr as int
        };
        let hi: int = if e.brk < addr {
            addr as int
        } else {
            e.brk as int
        };
        if lo < hi {
            assert(lo % 0x1000 == 0 && hi % 0x1000 == 0);
            assert((lo + (hi - lo)) / 0x1000 == hi / 0x1000);
            assert((lo / 0x1000 <= p < hi / 0x1000) <==> (lo <= p * 0x1000 < hi));
        }
    }
}

/// What a change of protection leaves: every page that holds one of the `X1` bytes at `X0`
/// has the protection in the low half of `X2`, and the result is zero. All bytes and the
/// protection of the pages elsewhere stay. Where one of the pages is not mapped, the call is
/// refused with 22 and no protection changes.
#[verifier::rlimit(40)]
pub proof fn law_changed_protection(
    b: Backend,
    e: AndroidEmulator,
    m2: Machine,
    e2: AndroidEmulator,
    p: int,
)
    requires
        mprotect_done(b@, e, m2, e2),
        0 < b@.reg_i32(RegisterARM64::X1),
        b@.reg(RegisterARM64::X0) + b@.reg_i32(RegisterARM64::X1) + 0x1000 <= u64::MAX,
    ensures
        e2 == e,
        ({
            let m = b@;
            let addr = m.reg(RegisterARM64::X0) as int;
            let len = m.reg_i32(RegisterARM64::X1) as int;
            let touched = p * 0x1000 < addr + len && addr < (p + 1) * 0x1000;
            let all = forall|q: int|
                #![trigger m.prot.dom().contains(q)]
                q * 0x1000 < addr + len && addr < (q + 1) * 0x1000 ==> m.prot.dom().contains(q);
            if all {
                &&& m2.reg_i64(RegisterARM64::X0) == 0
                &&& m2.mem == m.mem
                &&& touched ==> m2.prot.dom().contains(p) && m2.prot[p] == m.reg(RegisterARM64::X2)
                    % 0x1_0000_0000
                &&& !touched ==> {
                    &&& m2.prot.dom().contains(p) == m.prot.dom().contains(p)
                    &&& m.prot.dom().contains(p) ==> m2.prot[p] == m.prot[p]
                }
            } else {
                &&& m2.reg_i64(RegisterARM64::X0) == -22
                &&& m2.prot == m.prot
            }
        }),
{
    b.reg_slots();
    let m = b@;
    crate::emulator::state::law_refusal(b, e, Errno::EINVAL);
    let addr = m.reg(RegisterARM64::X0) as int;
    let len = m.reg_i32(RegisterARM64::X1) as int;
    let start = floor_to(addr, 0x1000);
    let size = ceil_to(len + addr % 0x1000, 0x1000);
    let all = forall|q: int|
        #![trigger m.prot.dom().contains(q)]
        q * 0x1000 < addr + len && addr < (q + 1) * 0x1000 ==> m.prot.dom().contains(q);
    assert(Machine::whole_pages(start, size));
    assert forall|q: int| #![trigger m.prot.dom().contains(q)]
        (q * 0x1000 < addr + len && addr < (q + 1) * 0x1000) <==> start / 0x1000 <= q < (start
            + size) / 0x1000 by {}
    assert((p * 0x1000 < addr + len && addr < (p + 1) * 0x1000) <==> start / 0x1000 <= p < (start
        + size) / 0x1000);
    if all {
        assert forall|q: int| start / 0x1000 <= q < (start + size) / 0x1000 implies m.prot.dom().contains(
            q,
        ) by {}
        assert(m.can_change(start, size));
    } else {
        let q = choose|q: int|
            #![trigger m.prot.dom().contains(q)]
            q * 0x1000 < addr + len && addr < (q + 1) * 0x1000 && !m.prot.dom().contains(q);
        assert(start / 0x1000 <= q < (start + size) / 0x1000);
        assert(!m.held(start, size));
    }
}

/// What a mapping call asks for: the address in `X0`, the low halves of `X1` to `X4` as its
/// length, protection, flags and descriptor, and an offset of as many pages as `X5` says.
pub proof fn law_mapping_request(m: Machine)
    requires
        m.reg_i32(RegisterARM64::X1) >= 0,
        m.reg(RegisterARM64::X5) < 0x8_0000,
    ensures
        asked_mapping(m).start == m.reg(RegisterARM64::X0),
        asked_mapping(m).length == m.reg(RegisterARM64::X1) % 0x1_0000_0000,
        asked_mapping(m).prot == m.reg(RegisterARM64::X2) % 0x1_0000_0000,
        asked_mapping(m).flags == m.reg(RegisterARM64::X3) % 0x1_0000_0000,
        asked_mapping(m).fd == m.reg_i32(RegisterARM64::X4),
        asked_mapping(m).offset == 4096 * m.reg(RegisterARM64::X5),
{
    let n: u32 = m.reg_u32(RegisterARM64::X5);
    assert(n << 12 == 4096 * n) by (bit_vector)
        requires
            n < 0x8_0000,
    ;
}

/// A mapping call gives the address of the mapping, or minus eleven where the machine could
/// not map, or the error that was found in the request; an unmapping call gives zero or minus
/// 22. Advice is taken for a mapping that begins at the address, with the address and the
/// length at page boundaries, and is otherwise answered with minus 22. None of these changes
/// the process.
pub proof fn law_mapping_answers(
    b: Backend,
    e: AndroidEmulator,
    reply: MmapReply,
    unmapped: bool,
    m2: Machine,
    e2: AndroidEmulator,
)
    ensures
        ({
            let x0 = m2.reg_i64(RegisterARM64::X0);
            &&& mmap_done(b@, e, reply, m2, e2) ==> {
                &&& e2 == e
                &&& reply matches MmapReply::Mapped(addr) ==> m2.reg(RegisterARM64::X0) == addr
                    && m2.mem == b@.mem
                &&& reply == MmapReply::Refused(Errno::EINVAL) ==> x0 == -22
                &&& reply == MmapReply::Refused(Errno::ENOMEM) ==> x0 == -12
                &&& reply is Failed ==> x0 == -11
            }
            &&& munmap_done(b@, e, unmapped, m2, e2) ==> {
                &&& e2 == e
                &&& unmapped ==> x0 == 0 && m2.mem == b@.mem
                &&& !unmapped ==> x0 == -22
            }
            &&& madvise_done(b@, e, m2, e2) ==> {
                let addr = b@.reg(RegisterARM64::X0);
                let len = b@.reg_i32(RegisterARM64::X1);
                let fine = addr > 0 && addr % 4096 == 0 && len as int % 4096 == 0
                    && e.memory.memory_map@.dom().contains(addr);
                &&& e2 == e
                &&& fine ==> x0 == 0 && m2.mem == b@.mem
                &&& !fine ==> x0 == -22
            }
        }),
{
    b.reg_slots();
    crate::emulator::state::law_refusal(b, e, Errno::EINVAL);
    crate::emulator::state::law_refusal(b, e, Errno::ENOMEM);
    crate::emulator::state::law_refusal(b, e, Errno::EAGAIN);
}

} // verus!
