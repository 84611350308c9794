//! The guest's initial stack, which grows downwards.
use vstd::prelude::*;
use vstd::utf8::encode_utf8;
use crate::backend::{Backend, BackendError, Machine, RegisterARM64};
use crate::le::{le64, put_le64};
use crate::tool::{align_size, stack_size};

verus! {

broadcast use vstd::string::group_string_axioms;

/// The stack pointer, and where the stack began.
#[derive(Clone, Copy, Debug, PartialEq, Eq, Structural)]
pub struct GuestStack {
    pub sp: u64,
    pub base: u64,
}

/// One step in building up a stack.
pub enum StackOp {
    /// Move the stack pointer down.
    Alloc(int),
    /// Store bytes. Where the addresses are not mapped, building stops.
    Put(int, Seq<u8>),
}

/// A stack that is being built: the machine, the stack pointer, and whether all
/// steps so far went well.
#[verifier::ext_equal]
pub struct StackRun {
    pub m: Machine,
    pub stack: GuestStack,
    pub ok: bool,
}

/// The stack after its pointer was moved to `sp`. A stack with no pointer begins there.
pub open spec fn moved_to(s: GuestStack, sp: int) -> GuestStack {
    GuestStack {
        sp: sp as u64,
        base: if s.sp == 0 {
            sp as u64
        } else {
            s.base
        },
    }
}

impl StackRun {
    pub open spec fn step(self, op: StackOp) -> StackRun {
        if !self.ok {
            self
        } else {
            match op {
                StackOp::Alloc(n) => StackRun {
                    m: self.m.set_reg(RegisterARM64::SP, (self.stack.sp - n) as u64),
                    stack: moved_to(self.stack, self.stack.sp - n),
                    ok: true,
                },
                StackOp::Put(addr, data) => StackRun {
                    m: self.m.try_write(addr, data),
                    ok: self.m.mapped(addr, data.len() as int),
                    ..self
                },
            }
        }
    }

    /// The state after all steps.
    pub open spec fn run(self, ops: Seq<StackOp>) -> StackRun
        decreases ops.len(),
    {
        if ops.len() == 0 {
            self
        } else {
            self.run(ops.drop_last()).step(ops.last())
        }
    }
}

/// How much the steps take off the stack pointer.
pub open spec fn total_alloc(ops: Seq<StackOp>) -> int
    decreases ops.len(),
{
    if ops.len() == 0 {
        0
    } else {
        total_alloc(ops.drop_last()) + match ops.last() {
            StackOp::Alloc(n) => n,
            StackOp::Put(_, _) => 0,
        }
    }
}

/// Building in two parts is building in one go.
pub proof fn lemma_run_append(s: StackRun, a: Seq<StackOp>, b: Seq<StackOp>)
    ensures
        s.run(a + b) == s.run(a).run(b),
    decreases b.len(),
{
    if b.len() == 0 {
        assert(a + b =~= a);
    } else {
        assert((a + b).drop_last() =~= a + b.drop_last());
        lemma_run_append(s, a, b.drop_last());
    }
}

pub proof fn lemma_alloc_append(a: Seq<StackOp>, b: Seq<StackOp>)
    ensures
        total_alloc(a + b) == total_alloc(a) + total_alloc(b),
    decreases b.len(),
{
    if b.len() == 0 {
        assert(a + b =~= a);
    } else {
        assert((a + b).drop_last() =~= a + b.drop_last());
        lemma_alloc_append(a, b.drop_last());
    }
}

/// One more step at the end.
pub proof fn lemma_run_one(s: StackRun, op: StackOp)
    ensures
        s.run(seq![op]) == s.step(op),
        total_alloc(seq![op]) == match op {
            StackOp::Alloc(n) => n,
            StackOp::Put(_, _) => 0,
        },
{
    reveal_with_fuel(StackRun::run, 2);
    reveal_with_fuel(total_alloc, 2);
    assert(seq![op].drop_last() =~= Seq::<StackOp>::empty());
}

/// Text as the guest reads it: its bytes and a zero.
pub open spec fn c_bytes(s: Seq<char>) -> Seq<u8> {
    encode_utf8(s).push(0)
}

/// The room that text takes on the stack.
pub open spec fn text_room(s: Seq<char>) -> int {
    stack_size(encode_utf8(s).len() as int + 1)
}

/// The steps that put text on a stack with pointer `sp`.
pub open spec fn text_ops(sp: int, s: Seq<char>) -> Seq<StackOp> {
    seq![StackOp::Alloc(text_room(s)), StackOp::Put(sp - text_room(s), c_bytes(s))]
}

/// The steps that put one word on a stack with pointer `sp`.
pub open spec fn word_ops(sp: int, v: u64) -> Seq<StackOp> {
    seq![StackOp::Alloc(8), StackOp::Put(sp - 8, le64(v))]
}

/// Text as the guest reads it: its bytes and a zero.
pub fn c_string_bytes(s: &str) -> (r: Vec<u8>)
    ensures
        r@ == c_bytes(s@),
{
    let mut data: Vec<u8> = Vec::new();
    data.extend_from_slice(s.as_bytes());
    assert(data@ =~= encode_utf8(s@));
    data.push(0);
    data
}

impl GuestStack {
    /// The state of a stack that goes well so far.
    pub open spec fn begun(self, m: Machine) -> StackRun {
        StackRun { m, stack: self, ok: true }
    }

    pub fn set_point(&mut self, backend: &mut Backend, sp: u64)
        ensures
            *final(self) == moved_to(*old(self), sp as int),
            final(backend)@ == old(backend)@.set_reg(RegisterARM64::SP, sp),
    {
        if self.sp == 0 {
            self.base = sp;
        }
        self.sp = sp;
        backend.reg_write(RegisterARM64::SP, sp);
    }

    /// Move the stack pointer down by `size`.
    pub fn allocate(&mut self, backend: &mut Backend, size: u64) -> (p: u64)
        requires
            size <= old(self).sp,
        ensures
            p == old(self).sp - size,
            final(self).sp == p,
            final(self).begun(final(backend)@) == old(self).begun(old(backend)@).run(
                seq![StackOp::Alloc(size as int)],
            ),
    {
        let sp: u64 = self.sp - size;
        proof {
            lemma_run_one(self.begun(backend@), StackOp::Alloc(size as int));
        }
        self.set_point(backend, sp);
        sp
    }

    /// Store bytes at an address.
    pub fn put(&self, backend: &mut Backend, addr: u64, data: &[u8]) -> (r: Result<
        (),
        BackendError,
    >)
        ensures
            ({
                let after = self.begun(old(backend)@).run(seq![StackOp::Put(addr as int, data@)]);
                &&& after.m == final(backend)@
                &&& after.stack == *self
                &&& after.ok == (r is Ok)
            }),
            r is Err ==> r == Err::<(), BackendError>(BackendError::Unmapped),
    {
        proof {
            lemma_run_one(self.begun(backend@), StackOp::Put(addr as int, data@));
        }
        backend.mem_write(addr, data)
    }

    /// Store a word at an address.
    pub fn put_u64(&self, backend: &mut Backend, addr: u64, v: u64) -> (r: Result<
        (),
        BackendError,
    >)
        ensures
            ({
                let after = self.begun(old(backend)@).run(seq![StackOp::Put(addr as int, le64(v))]);
                &&& after.m == final(backend)@
                &&& after.stack == *self
                &&& after.ok == (r is Ok)
            }),
            r is Err ==> r == Err::<(), BackendError>(BackendError::Unmapped),
    {
        let data = put_le64(v);
        self.put(backend, addr, data.as_slice())
    }

    /// Put one word on the stack.
    pub fn push_u64(&mut self, backend: &mut Backend, v: u64) -> (r: Result<u64, BackendError>)
        requires
            8 <= old(self).sp,
        ensures
            final(self).sp == old(self).sp - 8,
            ({
                let after = old(self).begun(old(backend)@).run(word_ops(old(self).sp as int, v));
                &&& after.m == final(backend)@
                &&& after.stack == *final(self)
                &&& after.ok == (r is Ok)
            }),
            r is Ok ==> r == Ok::<u64, BackendError>(final(self).sp),
            r is Err ==> r == Err::<u64, BackendError>(BackendError::Unmapped),
    {
        let ghost start = self.begun(backend@);
        let p: u64 = self.allocate(backend, 8);
        proof {
            lemma_run_append(
                start,
                seq![StackOp::Alloc(8)],
                seq![StackOp::Put(p as int, le64(v))],
            );
            assert(seq![StackOp::Alloc(8)] + seq![StackOp::Put(p as int, le64(v))] =~= word_ops(
                old(self).sp as int,
                v,
            ));
        }
        match self.put_u64(backend, p, v) {
            Ok(_) => Ok(p),
            Err(e) => Err(e),
        }
    }

    /// Put text on the stack.
    pub fn push_text(&mut self, backend: &mut Backend, s: &str) -> (r: Result<u64, BackendError>)
        requires
            text_room(s@) <= old(self).sp,
        ensures
            final(self).sp == old(self).sp - text_room(s@),
            ({
                let after = old(self).begun(old(backend)@).run(text_ops(old(self).sp as int, s@));
                &&& after.m == final(backend)@
                &&& after.stack == *final(self)
                &&& after.ok == (r is Ok)
            }),
            r is Ok ==> r == Ok::<u64, BackendError>(final(self).sp),
            r is Err ==> r == Err::<u64, BackendError>(BackendError::Unmapped),
    {
        let data = c_string_bytes(s);
        let size: u64 = align_size(data.len() as u64);
        let ghost start = self.begun(backend@);
        let p: u64 = self.allocate(backend, size);
        proof {
            lemma_run_append(
                start,
                seq![StackOp::Alloc(size as int)],
                seq![StackOp::Put(p as int, data@)],
            );
            assert(seq![StackOp::Alloc(size as int)] + seq![StackOp::Put(p as int, data@)]
                =~= text_ops(old(self).sp as int, s@));
        }
        match self.put(backend, p, data.as_slice()) {
            Ok(_) => Ok(p),
            Err(e) => Err(e),
        }
    }
}

/// Builds a stack step by step. Once a step failed, the rest has no effect.
pub struct StackBuilder {
    pub stack: GuestStack,
    pub ok: bool,
    /// Where the stack pointer is, or would be had all gone well.
    pub at: u64,
    pub start: Ghost<StackRun>,
    pub done: Ghost<Seq<StackOp>>,
}

impl StackBuilder {
    /// The builder has carried out the steps it says it has.
    pub closed spec fn wf(self, m: Machine) -> bool {
        &&& (StackRun { m, stack: self.stack, ok: self.ok }) == self.start@.run(self.done@)
        &&& self.ok ==> self.stack.sp == self.at
    }

    pub fn new(stack: GuestStack, backend: &Backend) -> (b: StackBuilder)
        ensures
            b.wf(backend@),
            b.start@ == stack.begun(backend@),
            b.done@ == Seq::<StackOp>::empty(),
            b.at == stack.sp,
            b.ok,
    {
        StackBuilder {
            stack,
            ok: true,
            at: stack.sp,
            start: Ghost(stack.begun(backend@)),
            done: Ghost(Seq::empty()),
        }
    }

    /// What the builder stands for.
    pub proof fn stands_for(self, m: Machine)
        requires
            self.wf(m),
        ensures
            (StackRun { m, stack: self.stack, ok: self.ok }) == self.start@.run(self.done@),
            self.ok ==> self.stack.sp == self.at,
    {
    }

    /// Move the stack pointer down by `size`.
    pub fn take(&mut self, backend: &mut Backend, size: u64) -> (p: u64)
        requires
            old(self).wf(old(backend)@),
            size <= old(self).at,
        ensures
            final(self).wf(final(backend)@),
            p == old(self).at - size,
            final(self).at == p,
            final(self).start == old(self).start,
            final(self).done@ == old(self).done@.push(StackOp::Alloc(size as int)),
    {
        self.at = self.at - size;
        if self.ok {
            self.stack.set_point(backend, self.at);
        }
        proof {
            self.done@ = self.done@.push(StackOp::Alloc(size as int));
            assert(self.done@.drop_last() =~= old(self).done@);
        }
        self.at
    }

    /// Store bytes at an address.
    pub fn put(&mut self, backend: &mut Backend, addr: u64, data: &[u8])
        requires
            old(self).wf(old(backend)@),
        ensures
            final(self).wf(final(backend)@),
            final(self).at == old(self).at,
            final(self).start == old(self).start,
            final(self).done@ == old(self).done@.push(StackOp::Put(addr as int, data@)),
    {
        if self.ok {
            self.ok = backend.mem_write(addr, data).is_ok();
        }
        proof {
            self.done@ = self.done@.push(StackOp::Put(addr as int, data@));
            assert(self.done@.drop_last() =~= old(self).done@);
        }
    }

    /// Store a word at an address.
    pub fn put_u64(&mut self, backend: &mut Backend, addr: u64, v: u64)
        requires
            old(self).wf(old(backend)@),
        ensures
            final(self).wf(final(backend)@),
            final(self).at == old(self).at,
            final(self).start == old(self).start,
            final(self).done@ == old(self).done@.push(StackOp::Put(addr as int, le64(v))),
    {
        let data = put_le64(v);
        self.put(backend, addr, data.as_slice());
    }

    /// Put one word on the stack.
    pub fn push_u64(&mut self, backend: &mut Backend, v: u64)
        requires
            old(self).wf(old(backend)@),
            8 <= old(self).at,
        ensures
            final(self).wf(final(backend)@),
            final(self).at == old(self).at - 8,
            final(self).start == old(self).start,
            final(self).done@ == old(self).done@ + word_ops(old(self).at as int, v),
    {
        let p: u64 = self.take(backend, 8);
        self.put_u64(backend, p, v);
        assert(self.done@ =~= old(self).done@ + word_ops(old(self).at as int, v));
    }

    /// Put text on the stack.
    pub fn push_text(&mut self, backend: &mut Backend, s: &str) -> (p: u64)
        requires
            old(self).wf(old(backend)@),
            text_room(s@) <= old(self).at,
        ensures
            final(self).wf(final(backend)@),
            p == old(self).at - text_room(s@),
            final(self).at == p,
            final(self).start == old(self).start,
            final(self).done@ == old(self).done@ + text_ops(old(self).at as int, s@),
    {
        let data = c_string_bytes(s);
        let size: u64 = align_size(data.len() as u64);
        let p: u64 = self.take(backend, size);
        self.put(backend, p, data.as_slice());
        assert(self.done@ =~= old(self).done@ + text_ops(old(self).at as int, s@));
        p
    }
}

/// Steps that touch no address of `[addr, addr + len)`.
pub open spec fn ops_apart(ops: Seq<StackOp>, addr: int, len: int) -> bool {
    forall|i: int|
        0 <= i < ops.len() ==> match #[trigger] ops[i] {
            StackOp::Alloc(_) => true,
            StackOp::Put(a, d) => a + d.len() <= addr || addr + len <= a,
        }
}

/// Building changes no mapping, and no byte that its steps do not touch.
pub proof fn law_building_keeps_the_rest(s: StackRun, ops: Seq<StackOp>, addr: int, len: int)
    requires
        ops_apart(ops, addr, len),
    ensures
        s.run(ops).m.mem.dom() == s.m.mem.dom(),
        s.run(ops).m.prot == s.m.prot,
        forall|a: int|
            addr <= a < addr + len && s.m.mem.dom().contains(a) ==> #[trigger] s.run(ops).m.mem[a]
                == s.m.mem[a],
    decreases ops.len(),
{
    if ops.len() > 0 {
        let front = ops.drop_last();
        assert forall|i: int| 0 <= i < front.len() implies match #[trigger] front[i] {
            StackOp::Alloc(_) => true,
            StackOp::Put(a, d) => a + d.len() <= addr || addr + len <= a,
        } by {
            assert(front[i] == ops[i]);
        }
        law_building_keeps_the_rest(s, front, addr, len);
        assert(ops.last() == ops[ops.len() - 1]);
        let mid = s.run(front);
        let end = mid.step(ops.last());
        assert(end.m.mem.dom() =~= mid.m.mem.dom());
        assert forall|a: int|
            addr <= a < addr + len && s.m.mem.dom().contains(a) implies #[trigger] s.run(
            ops,
        ).m.mem[a] == s.m.mem[a] by {
            assert(s.run(front).m.mem[a] == s.m.mem[a]);
        }
    }
}

/// What a step stored is still there at the end, where no later step touches it and
/// building went well.
pub proof fn law_stored_bytes_stay(
    s: StackRun,
    before: Seq<StackOp>,
    addr: int,
    data: Seq<u8>,
    after: Seq<StackOp>,
)
    requires
        ops_apart(after, addr, data.len() as int),
        s.run(before.push(StackOp::Put(addr, data)) + after).ok,
    ensures
        s.run(before.push(StackOp::Put(addr, data)) + after).m.mapped(addr, data.len() as int),
        s.run(before.push(StackOp::Put(addr, data)) + after).m.read(addr, data.len()) == data,
{
    let op = StackOp::Put(addr, data);
    let head = before.push(op);
    lemma_run_append(s, head, after);
    assert(head.drop_last() =~= before);
    let mid = s.run(head);
    lemma_ok_before(mid, after);
    law_building_keeps_the_rest(mid, after, addr, data.len() as int);
    let end = s.run(head + after);
    assert(mid.m == s.run(before).m.write(addr, data));
    assert forall|a: int| addr <= a < addr + data.len() implies end.m.mem.dom().contains(a) by {
        assert(s.run(before).m.mem.dom().contains(a));
        assert(mid.m.mem.dom().contains(a));
    }
    assert forall|i: int| 0 <= i < data.len() implies end.m.read(addr, data.len())[i] == data[i] by {
        assert(end.m.mem.dom().contains(addr + i));
        assert(end.m.mem[addr + i] == mid.m.mem[addr + i]);
        assert(mid.m.mem[addr + i] == data[addr + i - addr]);
    }
    assert(end.m.read(addr, data.len()) =~= data);
}

/// A run that ends well went well all along.
pub proof fn lemma_ok_before(s: StackRun, ops: Seq<StackOp>)
    requires
        s.run(ops).ok,
    ensures
        s.ok,
    decreases ops.len(),
{
    if ops.len() > 0 {
        lemma_ok_before(s, ops.drop_last());
    }
}

/// The text stands at an address, with a zero byte after it.
pub open spec fn text_stands(m: Machine, at: int, text: Seq<char>) -> bool {
    let bytes = encode_utf8(text);
    &&& m.read(at, bytes.len()) == bytes
    &&& m.mem[at + bytes.len()] == 0
}

pub proof fn lemma_text_stands(m: Machine, at: int, text: Seq<char>)
    requires
        m.read(at, c_bytes(text).len()) == c_bytes(text),
    ensures
        text_stands(m, at, text),
{
    let all = c_bytes(text);
    let bytes = encode_utf8(text);
    assert(m.read(at, bytes.len()) =~= bytes) by {
        assert forall|i: int| 0 <= i < bytes.len() implies #[trigger] m.read(at, bytes.len())[i]
            == bytes[i] by {
            assert(m.read(at, all.len())[i] == all[i]);
        }
    }
    assert(m.read(at, all.len())[bytes.len() as int] == all[bytes.len() as int]);
}

/// The word at an address is a pointer to a text.
pub open spec fn leads_to(m: Machine, at: int, text: Seq<char>) -> bool {
    m.read_u64(at) matches Some(p) && text_stands(m, p as int, text)
}

} // verus!
