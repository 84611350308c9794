//! Guest stubs that trap into the runtime.
use vstd::prelude::*;
use crate::backend::{lemma_half_inside, Backend, Machine};
use crate::le::{law_le32_round_trip, le32, put_le32};

verus! {

/// The instruction `ret`.
pub const RET_INSN: u32 = 0xd65f03c0;

/// The instruction `svc #number`.
pub open spec fn svc_insn(number: u32) -> u32 {
    0xd4000001u32 | ((number & 0xffff) << 5)
}

/// The instruction `svc #number`.
pub fn assemble_svc(number: u32) -> (r: u32)
    ensures
        r == svc_insn(number),
{
    0xd4000001u32 | ((number & 0xffff) << 5)
}

/// What a trap stub does.
#[derive(Clone, Copy, Debug, PartialEq, Eq, Structural)]
pub enum SvcHandler {
    DlIteratePhdr,
    /// With the address of the message that `dlerror` shows.
    DlError(u64),
    DlClose(u64),
    DlOpen(u64),
    DlAddr,
    DlSym,
    DlUnwindFindExidx,
    /// Give back a fixed number.
    LoaderConst(i64),
    /// A function of `libandroid.so` that does nothing.
    AndroidStub,
    Usleep,
    Nanosleep,
    ClockNanosleep,
    Sigaction,
    SystemPropertyGet,
    SystemPropertyFind,
    SystemPropertyRead,
}

/// What a handler tells the trap to do.
#[derive(Clone, Copy, Debug, PartialEq, Eq, Structural)]
pub enum SvcCallResult {
    /// Give this back to the guest.
    RET(i64),
    /// Leave the result register alone.
    VOID,
    /// Give up: the guest handed over something that cannot be used, or memory ran out.
    Fault,
}

/// A run of guest memory that stubs are put into, and the stubs so far. The number of
/// a stub is its position.
pub struct SvcMemory {
    pub next: u64,
    pub end: u64,
    pub handlers: Vec<SvcHandler>,
}

impl SvcMemory {
    pub fn new(base: u64, size: u64) -> (s: SvcMemory)
        requires
            base + size <= u64::MAX,
        ensures
            s.next == base,
            s.end == base + size,
            s.handlers@.len() == 0,
    {
        SvcMemory { next: base, end: base + size, handlers: Vec::new() }
    }

    /// There is room for `size` more bytes.
    pub open spec fn has_room(self, size: int) -> bool {
        self.next + (size + 15) / 16 * 16 <= self.end
    }

    /// Take `size` bytes, rounded up to sixteen.
    pub fn allocate(&mut self, size: u64) -> (p: u64)
        requires
            old(self).has_room(size as int),
            size + 15 <= u64::MAX,
        ensures
            p == old(self).next,
            *final(self) == (SvcMemory {
                next: (old(self).next + (size + 15) / 16 * 16) as u64,
                ..*old(self)
            }),
            p + size <= final(self).next <= final(self).end,
            final(self).next < p + size + 16,
            (final(self).next - p) % 16 == 0,
    {
        let p: u64 = self.next;
        self.next = p + (size + 15) / 16 * 16;
        p
    }

    /// Put a stub with this code in place for a handler. Gives its address.
    pub fn register_code(&mut self, backend: &mut Backend, handler: SvcHandler, code: &[u8]) -> (p:
        u64)
        requires
            old(self).has_room(code@.len() as int),
            code@.len() + 15 <= u64::MAX,
            old(backend)@.mapped(old(self).next as int, code@.len() as int),
        ensures
            p == old(self).next,
            final(self).handlers@ == old(self).handlers@.push(handler),
            final(self).next == old(self).next + (code@.len() + 15) / 16 * 16,
            final(self).end == old(self).end,
            final(backend)@ == old(backend)@.write(p as int, code@),
    {
        let p: u64 = self.allocate(code.len() as u64);
        backend.mem_write(p, code).unwrap();
        self.handlers.push(handler);
        p
    }

    /// Put a plain stub in place for a handler: trap, then return. Gives its address.
    pub fn register_svc(&mut self, backend: &mut Backend, handler: SvcHandler) -> (p: u64)
        requires
            old(self).has_room(8),
            old(self).handlers@.len() < 0x10000,
            old(backend)@.mapped(old(self).next as int, 8),
        ensures
            p == old(self).next,
            final(self).handlers@ == old(self).handlers@.push(handler),
            final(self).next == old(self).next + 16,
            final(self).end == old(self).end,
            final(backend)@ == old(backend)@.write(
                p as int,
                plain_stub(old(self).handlers@.len() as u32),
            ),
    {
        let number: u32 = self.handlers.len() as u32;
        let mut code = put_le32(assemble_svc(number));
        let mut tail = put_le32(RET_INSN);
        code.append(&mut tail);
        assert(code@ =~= plain_stub(number));
        self.register_code(backend, handler, code.as_slice())
    }
}

/// The code of a plain stub: trap, then return.
pub open spec fn plain_stub(number: u32) -> Seq<u8> {
    le32(svc_insn(number)) + le32(RET_INSN)
}

/// The trap of a stub holds the stub's number, and is a supervisor call.
pub proof fn law_trap_number(number: u32)
    requires
        number < 0x10000,
    ensures
        (svc_insn(number) >> 5u32) & 0xffff == number,
        svc_insn(number) & 0xffe0_001f == 0xd400_0001,
{
    assert(number < 0x10000 ==> ((0xd4000001u32 | ((number & 0xffff) << 5u32)) >> 5u32) & 0xffff
        == number && (0xd4000001u32 | ((number & 0xffff) << 5u32)) & 0xffe0_001f == 0xd400_0001)
        by (bit_vector);
}

/// A plain stub is two instructions: the trap with its number, and a return.
pub proof fn law_plain_stub(m: Machine, at: int, number: u32)
    requires
        m.mapped(at, 8),
        number < 0x10000,
    ensures
        ({
            let after = m.write(at, plain_stub(number));
            &&& after.read_u32(at) matches Some(w)
            &&& (w >> 5u32) & 0xffff == number
            &&& w & 0xffe0_001f == 0xd400_0001
            &&& after.read_u32(at + 4) == Some(0xd65f_03c0u32)
        }),
{
    let code = plain_stub(number);
    law_trap_number(number);
    law_le32_round_trip(svc_insn(number));
    law_le32_round_trip(RET_INSN);
    lemma_half_inside(m, at, code, 0);
    lemma_half_inside(m, at, code, 4);
    assert(code.subrange(0, 4) =~= le32(svc_insn(number)));
    assert(code.subrange(4, 8) =~= le32(RET_INSN));
}

} // verus!
