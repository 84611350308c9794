//! The thread block, the TLS area and the argument block of the first thread.
use bytes::Bytes;
use vstd::prelude::*;
use crate::android::sdk::GUEST_HWCAP;
use crate::backend::{Backend, BackendError, Machine, PAGE_ALIGN, RegisterARM64};
use crate::le::{le32, le64};
use crate::memory::stack::{
    c_bytes, law_stored_bytes_stay, leads_to, lemma_text_stands, moved_to, ops_apart, text_ops,
    text_room, GuestStack, StackBuilder, StackOp, StackRun,
};
use crate::outside::{
    buffer_bytes, buffer_freeze, buffer_new, buffer_put_u32_le, buffer_put_u64_le, bytes_slice,
    frozen_bytes,
};

verus! {

pub const AT_PAGESZ: u64 = 6;

pub const AT_HWCAP: u64 = 16;

pub const AT_RANDOM: u64 = 25;

/// The value that guards stack frames.
pub const STACK_CANARY: u64 = 0xa5a5_a5a5_a5a5_a5a5;

pub const ENV_DATA: &'static str = "ANDROID_DATA=/data";

pub const ENV_ROOT: &'static str = "ANDROID_ROOT=/system";

pub const ENV_PATH: &'static str = "PATH=/sbin:/vendor/bin:/system/sbin:/system/bin:/system/xbin";

pub const ENV_LAYOUT: &'static str = "NO_ADDR_COMPAT_LAYOUT_FIXUP=1";

/// Where the parts of the first thread's data stand, from the highest address down.
pub struct TlsLayout {
    pub thread: int,
    pub guard: int,
    pub name: int,
    pub name_ptr: int,
    pub auxv: int,
    pub environ: int,
    pub env_data: int,
    pub env_root: int,
    pub env_path: int,
    pub env_layout: int,
    pub argv: int,
    pub tls: int,
}

/// The layout below a stack pointer, for a process name.
pub open spec fn tls_layout(sp: int, name: Seq<char>) -> TlsLayout {
    let thread = sp - 0x400;
    let guard = thread - 8;
    let name_at = guard - text_room(name);
    let name_ptr = name_at - 8;
    let auxv = name_ptr - 0x100;
    let environ = auxv - 40;
    let env_data = environ - text_room(ENV_DATA@);
    let env_root = env_data - text_room(ENV_ROOT@);
    let env_path = env_root - text_room(ENV_PATH@);
    let env_layout = env_path - text_room(ENV_LAYOUT@);
    let argv = env_layout - 0x100;
    let tls = argv - 0x2000;
    TlsLayout {
        thread,
        guard,
        name: name_at,
        name_ptr,
        auxv,
        environ,
        env_data,
        env_root,
        env_path,
        env_layout,
        argv,
        tls,
    }
}

/// The room that all of it takes.
pub open spec fn tls_room(name: Seq<char>) -> int {
    0 - tls_layout(0, name).tls
}

/// The thread block, the guard and the process name.
#[verifier::opaque]
pub open spec fn thread_ops(l: TlsLayout, pid: u32, name: Seq<char>) -> Seq<StackOp> {
    (seq![
        StackOp::Alloc(0x400),
        StackOp::Put(l.thread, le64(0) + le64(0) + le32(pid)),
        StackOp::Alloc(8),
    ] + text_ops(l.guard, name)).push(StackOp::Alloc(8)).push(
        StackOp::Put(l.name_ptr, le64(l.name as u64)),
    )
}

/// The auxiliary vector: where random bytes are, the page size, the capabilities and
/// an end mark.
#[verifier::opaque]
pub open spec fn auxv_ops(done: Seq<StackOp>, l: TlsLayout) -> Seq<StackOp> {
    done.push(StackOp::Alloc(0x100)).push(StackOp::Put(l.auxv, le64(AT_RANDOM))).push(
        StackOp::Put(l.auxv + 8, le64(l.guard as u64)),
    ).push(StackOp::Put(l.auxv + 16, le64(AT_PAGESZ))).push(
        StackOp::Put(l.auxv + 24, le64(PAGE_ALIGN)),
    ).push(StackOp::Put(l.auxv + 32, le64(AT_HWCAP))).push(
        StackOp::Put(l.auxv + 40, le64(GUEST_HWCAP)),
    ).push(StackOp::Put(l.auxv + 48, le64(0))).push(StackOp::Put(l.auxv + 56, le64(0)))
}

/// The environment: four strings, and pointers to them with an end mark.
#[verifier::opaque]
pub open spec fn environ_ops(done: Seq<StackOp>, l: TlsLayout) -> Seq<StackOp> {
    let env0 = (done.push(StackOp::Alloc(40)) + text_ops(l.environ, ENV_DATA@)).push(
        StackOp::Put(l.environ, le64(l.env_data as u64)),
    );
    let env1 = (env0 + text_ops(l.env_data, ENV_ROOT@)).push(
        StackOp::Put(l.environ + 8, le64(l.env_root as u64)),
    );
    let env2 = (env1 + text_ops(l.env_root, ENV_PATH@)).push(
        StackOp::Put(l.environ + 16, le64(l.env_path as u64)),
    );
    (env2 + text_ops(l.env_path, ENV_LAYOUT@)).push(
        StackOp::Put(l.environ + 24, le64(l.env_layout as u64)),
    ).push(StackOp::Put(l.environ + 32, le64(0)))
}

/// The argument block: pointers to the process name, the environment and the
/// auxiliary vector.
#[verifier::opaque]
pub open spec fn argument_ops(done: Seq<StackOp>, l: TlsLayout) -> Seq<StackOp> {
    done.push(StackOp::Alloc(0x100)).push(StackOp::Put(l.argv + 8, le64(l.name_ptr as u64))).push(
        StackOp::Put(l.argv + 16, le64(l.environ as u64)),
    ).push(StackOp::Put(l.argv + 24, le64(l.auxv as u64)))
}

/// The TLS area, with the thread block in slot 1, the argument block in slot 3 and
/// the stack guard in slot 5; and the guard itself.
#[verifier::opaque]
pub open spec fn slot_ops(done: Seq<StackOp>, l: TlsLayout) -> Seq<StackOp> {
    done.push(StackOp::Alloc(0x2000)).push(StackOp::Put(l.tls + 8, le64(l.thread as u64))).push(
        StackOp::Put(l.tls + 24, le64(l.argv as u64)),
    ).push(StackOp::Put(l.guard, le64(STACK_CANARY))).push(
        StackOp::Put(l.tls + 40, le64(STACK_CANARY)),
    )
}

/// The steps up to the TLS area.
pub open spec fn tls_head_ops(sp: int, pid: u32, name: Seq<char>) -> Seq<StackOp> {
    let l = tls_layout(sp, name);
    argument_ops(environ_ops(auxv_ops(thread_ops(l, pid, name), l), l), l)
}

/// All steps.
pub open spec fn tls_ops(sp: int, pid: u32, name: Seq<char>) -> Seq<StackOp> {
    slot_ops(tls_head_ops(sp, pid, name), tls_layout(sp, name))
}

/// A process id between two null links, as the thread block begins.
fn thread_block(pid: u32) -> (r: Bytes)
    ensures
        frozen_bytes(r) == le64(0) + le64(0) + le32(pid),
{
    let mut buf = buffer_new();
    buffer_put_u64_le(&mut buf, 0);
    buffer_put_u64_le(&mut buf, 0);
    buffer_put_u32_le(&mut buf, pid);
    assert(buffer_bytes(buf) =~= le64(0) + le64(0) + le32(pid));
    buffer_freeze(buf)
}

fn put_thread(
    b: &mut StackBuilder,
    backend: &mut Backend,
    pid: u32,
    proc_name: &str,
    Ghost(l): Ghost<TlsLayout>,
) -> (r: (u64, u64, u64))
    requires
        old(b).wf(old(backend)@),
        old(b).done@ == Seq::<StackOp>::empty(),
        l == tls_layout(old(b).at as int, proc_name@),
        l.name_ptr >= 0,
    ensures
        final(b).wf(final(backend)@),
        final(b).start == old(b).start,
        final(b).done@ == thread_ops(l, pid, proc_name@),
        final(b).at == l.name_ptr,
        r.0 == l.thread,
        r.1 == l.guard,
        r.2 == l.name_ptr,
{
    reveal(thread_ops);
    let thread: u64 = b.take(backend, 0x400);
    let block = thread_block(pid);
    b.put(backend, thread, bytes_slice(&block));
    let guard: u64 = b.take(backend, 8);
    let ghost first = seq![
        StackOp::Alloc(0x400),
        StackOp::Put(l.thread, le64(0) + le64(0) + le32(pid)),
        StackOp::Alloc(8),
    ];
    assert(b.done@ =~= first);
    let name: u64 = b.push_text(backend, proc_name);
    let name_ptr: u64 = b.take(backend, 8);
    b.put_u64(backend, name_ptr, name);
    (thread, guard, name_ptr)
}

fn put_auxv(b: &mut StackBuilder, backend: &mut Backend, guard: u64, Ghost(l): Ghost<TlsLayout>) -> (r:
    u64)
    requires
        old(b).wf(old(backend)@),
        old(b).at == l.name_ptr,
        l.auxv == l.name_ptr - 0x100,
        l.auxv >= 0,
        guard == l.guard,
    ensures
        final(b).wf(final(backend)@),
        final(b).start == old(b).start,
        final(b).done@ == auxv_ops(old(b).done@, l),
        final(b).at == l.auxv,
        r == l.auxv,
{
    reveal(auxv_ops);
    let auxv: u64 = b.take(backend, 0x100);
    b.put_u64(backend, auxv, AT_RANDOM);
    b.put_u64(backend, auxv + 8, guard);
    b.put_u64(backend, auxv + 16, AT_PAGESZ);
    b.put_u64(backend, auxv + 24, PAGE_ALIGN);
    b.put_u64(backend, auxv + 32, AT_HWCAP);
    b.put_u64(backend, auxv + 40, GUEST_HWCAP);
    b.put_u64(backend, auxv + 48, 0);
    b.put_u64(backend, auxv + 56, 0);
    auxv
}

fn put_environ(b: &mut StackBuilder, backend: &mut Backend, Ghost(l): Ghost<TlsLayout>) -> (r: u64)
    requires
        old(b).wf(old(backend)@),
        old(b).at == l.auxv,
        l.environ == l.auxv - 40,
        l.env_data == l.environ - text_room(ENV_DATA@),
        l.env_root == l.env_data - text_room(ENV_ROOT@),
        l.env_path == l.env_root - text_room(ENV_PATH@),
        l.env_layout == l.env_path - text_room(ENV_LAYOUT@),
        l.env_layout >= 0,
    ensures
        final(b).wf(final(backend)@),
        final(b).start == old(b).start,
        final(b).done@ == environ_ops(old(b).done@, l),
        final(b).at == l.env_layout,
        r == l.environ,
{
    reveal(environ_ops);
    let environ: u64 = b.take(backend, 40);
    let env_data: u64 = b.push_text(backend, ENV_DATA);
    b.put_u64(backend, environ, env_data);
    let env_root: u64 = b.push_text(backend, ENV_ROOT);
    b.put_u64(backend, environ + 8, env_root);
    let env_path: u64 = b.push_text(backend, ENV_PATH);
    b.put_u64(backend, environ + 16, env_path);
    let env_layout: u64 = b.push_text(backend, ENV_LAYOUT);
    b.put_u64(backend, environ + 24, env_layout);
    b.put_u64(backend, environ + 32, 0);
    environ
}

fn put_arguments(
    b: &mut StackBuilder,
    backend: &mut Backend,
    name_ptr: u64,
    environ: u64,
    auxv: u64,
    Ghost(l): Ghost<TlsLayout>,
) -> (r: u64)
    requires
        old(b).wf(old(backend)@),
        old(b).at == l.env_layout,
        l.argv == l.env_layout - 0x100,
        l.argv >= 0,
        name_ptr == l.name_ptr,
        environ == l.environ,
        auxv == l.auxv,
    ensures
        final(b).wf(final(backend)@),
        final(b).start == old(b).start,
        final(b).done@ == argument_ops(old(b).done@, l),
        final(b).at == l.argv,
        r == l.argv,
{
    reveal(argument_ops);
    let argv: u64 = b.take(backend, 0x100);
    b.put_u64(backend, argv + 8, name_ptr);
    b.put_u64(backend, argv + 16, environ);
    b.put_u64(backend, argv + 24, auxv);
    argv
}

fn put_slots(
    b: &mut StackBuilder,
    backend: &mut Backend,
    thread: u64,
    argv: u64,
    guard: u64,
    Ghost(l): Ghost<TlsLayout>,
) -> (r: u64)
    requires
        old(b).wf(old(backend)@),
        old(b).at == l.argv,
        l.tls == l.argv - 0x2000,
        l.tls >= 0,
        thread == l.thread,
        argv == l.argv,
        guard == l.guard,
    ensures
        final(b).wf(final(backend)@),
        final(b).start == old(b).start,
        final(b).done@ == slot_ops(old(b).done@, l),
        final(b).at == l.tls,
        r == l.tls,
{
    reveal(slot_ops);
    let tls: u64 = b.take(backend, 0x2000);
    b.put_u64(backend, tls + 8, thread);
    b.put_u64(backend, tls + 24, argv);
    b.put_u64(backend, guard, STACK_CANARY);
    b.put_u64(backend, tls + 40, STACK_CANARY);
    tls
}

/// Set up the first thread's data on the stack. Gives the address of the environment
/// pointer and that of the error number.
pub fn init_tls(stack: &mut GuestStack, backend: &mut Backend, pid: u32, proc_name: &str) -> (r:
    Result<(u64, u64), BackendError>)
    requires
        tls_room(proc_name@) <= old(stack).sp,
        old(stack).begun(old(backend)@).run(
            tls_head_ops(old(stack).sp as int, pid, proc_name@),
        ).ok ==> old(stack).begun(old(backend)@).run(
            tls_ops(old(stack).sp as int, pid, proc_name@),
        ).ok,
    ensures
        ({
            let l = tls_layout(old(stack).sp as int, proc_name@);
            let end = old(stack).begun(old(backend)@).run(
                tls_ops(old(stack).sp as int, pid, proc_name@),
            );
            if end.ok {
                let sp = l.tls - l.tls % 16;
                &&& r == Ok::<(u64, u64), BackendError>(
                    ((l.argv + 16) as u64, (l.tls + 16) as u64),
                )
                &&& *final(stack) == moved_to(end.stack, sp)
                &&& final(backend)@ == end.m.set_reg(
                    RegisterARM64::TPIDR_EL0,
                    l.tls as u64,
                ).set_reg(RegisterARM64::SP, sp as u64)
            } else {
                &&& r == Err::<(u64, u64), BackendError>(BackendError::Unmapped)
                &&& *final(stack) == end.stack
                &&& final(backend)@ == end.m
            }
        }),
{
    let ghost l = tls_layout(stack.sp as int, proc_name@);
    let mut b = StackBuilder::new(*stack, backend);
    let (thread, guard, name_ptr) = put_thread(&mut b, backend, pid, proc_name, Ghost(l));
    let auxv: u64 = put_auxv(&mut b, backend, guard, Ghost(l));
    let environ: u64 = put_environ(&mut b, backend, Ghost(l));
    let argv: u64 = put_arguments(&mut b, backend, name_ptr, environ, auxv, Ghost(l));
    let tls: u64 = put_slots(&mut b, backend, thread, argv, guard, Ghost(l));
    proof {
        b.stands_for(backend@);
    }
    *stack = b.stack;
    if !b.ok {
        return Err(BackendError::Unmapped);
    }
    backend.reg_write(RegisterARM64::TPIDR_EL0, tls);
    let sp: u64 = stack.sp - stack.sp % 16;
    stack.set_point(backend, sp);
    Ok((argv + 16, tls + 16))
}

/// A word that a step stored is what the guest reads there in the end, where no later
/// step touches it.
proof fn lemma_word_stays(
    s: StackRun,
    before: Seq<StackOp>,
    addr: int,
    v: u64,
    after: Seq<StackOp>,
    all: Seq<StackOp>,
)
    requires
        all == before.push(StackOp::Put(addr, le64(v))) + after,
        ops_apart(after, addr, 8),
        s.run(all).ok,
    ensures
        s.run(all).m.read_u64(addr) == Some(v),
{
    law_stored_bytes_stay(s, before, addr, le64(v), after);
    crate::le::law_le64_round_trip(v);
}

/// Once the first thread's data is set up, the guest finds the thread block in TLS
/// slot 1, the argument block in slot 3 and the stack guard in slot 5, and the guard
/// that the auxiliary vector points to is the same.
pub proof fn law_tls_slots(stack: GuestStack, m: Machine, pid: u32, name: Seq<char>)
    requires
        stack.begun(m).run(tls_ops(stack.sp as int, pid, name)).ok,
        tls_room(name) <= stack.sp,
    ensures
        ({
            let l = tls_layout(stack.sp as int, name);
            let end = stack.begun(m).run(tls_ops(stack.sp as int, pid, name)).m;
            &&& end.read_u64(l.tls + 8) == Some(l.thread as u64)
            &&& end.read_u64(l.tls + 24) == Some(l.argv as u64)
            &&& end.read_u64(l.tls + 40) == Some(STACK_CANARY)
            &&& end.read_u64(l.guard) == Some(STACK_CANARY)
        }),
{
    reveal(slot_ops);
    let l = tls_layout(stack.sp as int, name);
    let s = stack.begun(m);
    let head = tls_head_ops(stack.sp as int, pid, name).push(StackOp::Alloc(0x2000));
    let all = tls_ops(stack.sp as int, pid, name);
    let thread = StackOp::Put(l.tls + 8, le64(l.thread as u64));
    let argv = StackOp::Put(l.tls + 24, le64(l.argv as u64));
    let guard = StackOp::Put(l.guard, le64(STACK_CANARY));
    let canary = StackOp::Put(l.tls + 40, le64(STACK_CANARY));
    assert(all == head.push(thread).push(argv).push(guard).push(canary));
    assert(all =~= head.push(thread) + seq![argv, guard, canary]);
    lemma_word_stays(s, head, l.tls + 8, l.thread as u64, seq![argv, guard, canary], all);
    assert(all =~= head.push(thread).push(argv) + seq![guard, canary]);
    lemma_word_stays(s, head.push(thread), l.tls + 24, l.argv as u64, seq![guard, canary], all);
    assert(all =~= head.push(thread).push(argv).push(guard) + seq![canary]);
    lemma_word_stays(s, head.push(thread).push(argv), l.guard, STACK_CANARY, seq![canary], all);
    assert(all =~= head.push(thread).push(argv).push(guard).push(canary) + seq![]);
    lemma_word_stays(
        s,
        head.push(thread).push(argv).push(guard),
        l.tls + 40,
        STACK_CANARY,
        seq![],
        all,
    );
}

/// Steps of one group, with the steps before and after it.
proof fn lemma_stays_in_group(
    s: StackRun,
    all: Seq<StackOp>,
    before: Seq<StackOp>,
    part: Seq<StackOp>,
    after: Seq<StackOp>,
    p: int,
    addr: int,
    data: Seq<u8>,
)
    requires
        all == before + part + after,
        0 <= p < part.len(),
        part[p] == StackOp::Put(addr, data),
        ops_apart(part.skip(p + 1), addr, data.len() as int),
        ops_apart(after, addr, data.len() as int),
        s.run(all).ok,
    ensures
        s.run(all).m.mapped(addr, data.len() as int),
        s.run(all).m.read(addr, data.len()) == data,
{
    let head = before + part.take(p);
    let tail = part.skip(p + 1) + after;
    lemma_apart_append(part.skip(p + 1), after, addr, data.len() as int);
    assert(all =~= head.push(StackOp::Put(addr, data)) + tail);
    law_stored_bytes_stay(s, head, addr, data, tail);
}

proof fn lemma_apart_append(a: Seq<StackOp>, b: Seq<StackOp>, addr: int, len: int)
    requires
        ops_apart(a, addr, len),
        ops_apart(b, addr, len),
    ensures
        ops_apart(a + b, addr, len),
{
    let all = a + b;
    assert forall|i: int| 0 <= i < all.len() implies match #[trigger] all[i] {
        StackOp::Alloc(_) => true,
        StackOp::Put(x, d) => x + d.len() <= addr || addr + len <= x,
    } by {
        if i < a.len() {
            assert(all[i] == a[i]);
        } else {
            assert(all[i] == b[i - a.len()]);
        }
    }
}

proof fn lemma_apart_skip(a: Seq<StackOp>, k: int, addr: int, len: int)
    requires
        0 <= k <= a.len(),
        forall|i: int|
            k <= i < a.len() ==> match #[trigger] a[i] {
                StackOp::Alloc(_) => true,
                StackOp::Put(x, d) => x + d.len() <= addr || addr + len <= x,
            },
    ensures
        ops_apart(a.skip(k), addr, len),
{
    let rest = a.skip(k);
    assert forall|i: int| 0 <= i < rest.len() implies match #[trigger] rest[i] {
        StackOp::Alloc(_) => true,
        StackOp::Put(x, d) => x + d.len() <= addr || addr + len <= x,
    } by {
        assert(rest[i] == a[k + i]);
    }
}

/// The parts of the first thread's data stand one below the other.
spec fn stacked(l: TlsLayout, name: Seq<char>) -> bool {
    &&& l.guard == l.thread - 8
    &&& l.name + c_bytes(name).len() <= l.guard
    &&& l.name_ptr == l.name - 8
    &&& l.auxv == l.name_ptr - 0x100
    &&& l.environ == l.auxv - 40
    &&& l.env_data == l.environ - text_room(ENV_DATA@)
    &&& l.env_root == l.env_data - text_room(ENV_ROOT@)
    &&& l.env_path == l.env_root - text_room(ENV_PATH@)
    &&& l.env_layout == l.env_path - text_room(ENV_LAYOUT@)
    &&& l.env_data + c_bytes(ENV_DATA@).len() <= l.environ
    &&& l.env_root + c_bytes(ENV_ROOT@).len() <= l.env_data
    &&& l.env_path + c_bytes(ENV_PATH@).len() <= l.env_root
    &&& l.env_layout + c_bytes(ENV_LAYOUT@).len() <= l.env_path
    &&& l.argv == l.env_layout - 0x100
    &&& l.tls == l.argv - 0x2000
}

proof fn lemma_stacked(sp: int, name: Seq<char>)
    ensures
        stacked(tls_layout(sp, name), name),
        tls_layout(sp, name).name == tls_layout(sp, name).guard - text_room(name),
{
}

/// The groups of steps, each on its own.
proof fn lemma_groups(sp: int, pid: u32, name: Seq<char>)
    ensures
        ({
            let l = tls_layout(sp, name);
            let none = Seq::<StackOp>::empty();
            tls_ops(sp, pid, name) == thread_ops(l, pid, name) + auxv_ops(none, l) + environ_ops(
                none,
                l,
            ) + argument_ops(none, l) + slot_ops(none, l)
        }),
{
    let l = tls_layout(sp, name);
    let none = Seq::<StackOp>::empty();
    let t = thread_ops(l, pid, name);
    let a = auxv_ops(t, l);
    let e = environ_ops(a, l);
    let g = argument_ops(e, l);
    assert(a =~= t + auxv_ops(none, l)) by {
        reveal(auxv_ops);
    }
    assert(e =~= a + environ_ops(none, l)) by {
        reveal(environ_ops);
    }
    assert(g =~= e + argument_ops(none, l)) by {
        reveal(argument_ops);
    }
    assert(slot_ops(g, l) =~= g + slot_ops(none, l)) by {
        reveal(slot_ops);
    }
}

/// Which bytes the later groups leave alone.
proof fn lemma_later_groups(l: TlsLayout, name: Seq<char>, addr: int, len: int)
    requires
        stacked(l, name),
        0 <= len,
        addr + len <= l.guard || l.guard + 8 <= addr,
    ensures
        addr >= l.name_ptr ==> ops_apart(auxv_ops(Seq::empty(), l), addr, len),
        addr >= l.auxv ==> ops_apart(environ_ops(Seq::empty(), l), addr, len),
        addr >= l.env_layout ==> ops_apart(argument_ops(Seq::empty(), l), addr, len),
        addr >= l.argv ==> ops_apart(slot_ops(Seq::empty(), l), addr, len),
{
    lemma_text_rooms(l, name);
    if addr >= l.name_ptr {
        lemma_vector_apart(l, addr, len);
    }
    if addr >= l.auxv {
        lemma_lines_apart(l, name, addr, len);
    }
    if addr >= l.env_layout {
        lemma_arguments_apart(l, addr, len);
    }
    if addr >= l.argv {
        lemma_slots_apart(l, addr, len);
    }
}

proof fn lemma_vector_apart(l: TlsLayout, addr: int, len: int)
    requires
        addr >= l.auxv + 64,
    ensures
        ops_apart(auxv_ops(Seq::empty(), l), addr, len),
{
    reveal(auxv_ops);
}

proof fn lemma_lines_apart(l: TlsLayout, name: Seq<char>, addr: int, len: int)
    requires
        stacked(l, name),
        addr >= l.environ + 40,
    ensures
        ops_apart(environ_ops(Seq::empty(), l), addr, len),
{
    reveal(environ_ops);
    lemma_text_rooms(l, name);
    let e = environ_ops(Seq::empty(), l);
    assert forall|i: int| 0 <= i < e.len() implies match #[trigger] e[i] {
        StackOp::Alloc(_) => true,
        StackOp::Put(x, d) => x + d.len() <= addr || addr + len <= x,
    } by {
        if i == 2 || i == 3 {
            lemma_environ_group(l, name, 0);
        } else if i == 5 || i == 6 {
            lemma_environ_group(l, name, 1);
        } else if i == 8 || i == 9 {
            lemma_environ_group(l, name, 2);
        } else if i == 11 || i == 12 || i == 13 {
            lemma_environ_group(l, name, 3);
        }
    }
}

proof fn lemma_arguments_apart(l: TlsLayout, addr: int, len: int)
    requires
        addr >= l.argv + 32,
    ensures
        ops_apart(argument_ops(Seq::empty(), l), addr, len),
{
    reveal(argument_ops);
}

proof fn lemma_slots_apart(l: TlsLayout, addr: int, len: int)
    requires
        addr >= l.tls + 48,
        addr + len <= l.guard || l.guard + 8 <= addr,
    ensures
        ops_apart(slot_ops(Seq::empty(), l), addr, len),
{
    reveal(slot_ops);
}

proof fn lemma_thread_group(l: TlsLayout, pid: u32, name: Seq<char>)
    requires
        stacked(l, name),
        l.name == l.guard - text_room(name),
    ensures
        ({
            let t = thread_ops(l, pid, name);
            &&& t.len() == 7
            &&& t[1] == StackOp::Put(l.thread, le64(0) + le64(0) + le32(pid))
            &&& t[4] == StackOp::Put(l.name, c_bytes(name))
            &&& t[6] == StackOp::Put(l.name_ptr, le64(l.name as u64))
            &&& ops_apart(t.skip(2), l.thread, 20)
            &&& ops_apart(t.skip(5), l.name, c_bytes(name).len() as int)
            &&& ops_apart(t.skip(7), l.name_ptr, 8)
        }),
{
    reveal(thread_ops);
    let t = thread_ops(l, pid, name);
    lemma_apart_skip(t, 2, l.thread, 20);
    lemma_apart_skip(t, 5, l.name, c_bytes(name).len() as int);
    lemma_apart_skip(t, 7, l.name_ptr, 8);
}

proof fn lemma_auxv_group(l: TlsLayout, p: int)
    requires
        1 <= p <= 8,
    ensures
        ({
            let a = auxv_ops(Seq::empty(), l);
            let words = seq![
                AT_RANDOM,
                l.guard as u64,
                AT_PAGESZ,
                PAGE_ALIGN,
                AT_HWCAP,
                GUEST_HWCAP,
                0u64,
                0u64,
            ];
            &&& a.len() == 9
            &&& a[p] == StackOp::Put(l.auxv + 8 * (p - 1), le64(words[p - 1]))
            &&& ops_apart(a.skip(p + 1), l.auxv + 8 * (p - 1), 8)
        }),
{
    reveal(auxv_ops);
    let a = auxv_ops(Seq::empty(), l);
    lemma_apart_skip(a, p + 1, l.auxv + 8 * (p - 1), 8);
}

proof fn lemma_environ_group(l: TlsLayout, name: Seq<char>, i: int)
    requires
        stacked(l, name),
        0 <= i < 4,
    ensures
        ({
            let e = environ_ops(Seq::empty(), l);
            let at = seq![l.env_data, l.env_root, l.env_path, l.env_layout][i];
            let text = seq![ENV_DATA@, ENV_ROOT@, ENV_PATH@, ENV_LAYOUT@][i];
            &&& e.len() == 14
            &&& e[3 * i + 2] == StackOp::Put(at, c_bytes(text))
            &&& e[3 * i + 3] == StackOp::Put(l.environ + 8 * i, le64(at as u64))
            &&& e[13] == StackOp::Put(l.environ + 32, le64(0))
            &&& ops_apart(e.skip(3 * i + 3), at, c_bytes(text).len() as int)
            &&& ops_apart(e.skip(3 * i + 4), l.environ + 8 * i, 8)
            &&& ops_apart(e.skip(14), l.environ + 32, 8)
        }),
{
    reveal(environ_ops);
    let e = environ_ops(Seq::empty(), l);
    let at = seq![l.env_data, l.env_root, l.env_path, l.env_layout][i];
    let text = seq![ENV_DATA@, ENV_ROOT@, ENV_PATH@, ENV_LAYOUT@][i];
    lemma_apart_skip(e, 3 * i + 3, at, c_bytes(text).len() as int);
    lemma_apart_skip(e, 3 * i + 4, l.environ + 8 * i, 8);
    lemma_apart_skip(e, 14, l.environ + 32, 8);
}

proof fn lemma_argument_group(l: TlsLayout, i: int)
    requires
        0 <= i < 3,
    ensures
        ({
            let g = argument_ops(Seq::empty(), l);
            let words = seq![l.name_ptr, l.environ, l.auxv];
            &&& g.len() == 4
            &&& g[i + 1] == StackOp::Put(l.argv + 8 * (i + 1), le64(words[i] as u64))
            &&& ops_apart(g.skip(i + 2), l.argv + 8 * (i + 1), 8)
        }),
{
    reveal(argument_ops);
    let g = argument_ops(Seq::empty(), l);
    lemma_apart_skip(g, i + 2, l.argv + 8 * (i + 1), 8);
}

proof fn lemma_word_at(m: Machine, addr: int, v: u64)
    requires
        m.mapped(addr, 8),
        m.read(addr, 8) == le64(v),
    ensures
        m.read_u64(addr) == Some(v),
{
    crate::le::law_le64_round_trip(v);
}

/// The block that slot 1 leads to: two null links and then the process id.
pub proof fn law_thread_block(stack: GuestStack, m: Machine, pid: u32, name: Seq<char>)
    requires
        stack.begun(m).run(tls_ops(stack.sp as int, pid, name)).ok,
        tls_room(name) <= stack.sp,
    ensures
        ({
            let tls = tls_layout(stack.sp as int, name).tls;
            let end = stack.begun(m).run(tls_ops(stack.sp as int, pid, name)).m;
            &&& end.read_u64(tls + 8) matches Some(t)
            &&& end.read_u64(t as int) == Some(0u64)
            &&& end.read_u64(t + 8) == Some(0u64)
            &&& end.read_u32(t + 16) == Some(pid)
        }),
{
    let sp = stack.sp as int;
    let s = stack.begun(m);
    let l = tls_layout(sp, name);
    let none = Seq::<StackOp>::empty();
    let all = tls_ops(sp, pid, name);
    let t = thread_ops(l, pid, name);
    let after = auxv_ops(none, l) + environ_ops(none, l) + argument_ops(none, l) + slot_ops(none, l);
    let data = le64(0) + le64(0) + le32(pid);
    lemma_stacked(sp, name);
    lemma_groups(sp, pid, name);
    law_tls_slots(stack, m, pid, name);
    lemma_thread_group(l, pid, name);
    lemma_after_thread(l, name, l.thread, 20);
    assert(all =~= none + t + after);
    lemma_stays_in_group(s, all, none, t, after, 1, l.thread, data);
    lemma_block_words(s.run(all).m, l.thread, pid);
}

#[verifier::rlimit(40)]
proof fn lemma_block_words(end: Machine, at: int, pid: u32)
    requires
        end.mapped(at, 20),
        end.read(at, 20) == le64(0) + le64(0) + le32(pid),
    ensures
        end.read_u64(at) == Some(0u64),
        end.read_u64(at + 8) == Some(0u64),
        end.read_u32(at + 16) == Some(pid),
{
    let data = le64(0) + le64(0) + le32(pid);
    let all = end.read(at, 20);
    crate::le::law_le64_round_trip(0);
    crate::le::law_le32_round_trip(pid);
    assert forall|i: int| 0 <= i < 20 implies #[trigger] all[i] == end.mem[at + i] by {}
    assert(end.read(at, 8) =~= data.subrange(0, 8)) by {
        assert forall|i: int| 0 <= i < 8 implies #[trigger] end.read(at, 8)[i] == data[i] by {
            assert(all[i] == data[i]);
        }
    }
    assert(end.read(at + 8, 8) =~= data.subrange(8, 16)) by {
        assert forall|i: int| 0 <= i < 8 implies #[trigger] end.read(at + 8, 8)[i] == data[8 + i] by {
            assert(all[8 + i] == data[8 + i]);
        }
    }
    assert(end.read(at + 16, 4) =~= data.subrange(16, 20)) by {
        assert forall|i: int| 0 <= i < 4 implies #[trigger] end.read(at + 16, 4)[i] == data[16 + i] by {
            assert(all[16 + i] == data[16 + i]);
        }
    }
    assert(data.subrange(0, 8) =~= le64(0));
    assert(data.subrange(8, 16) =~= le64(0));
    assert(data.subrange(16, 20) =~= le32(pid));
}

proof fn lemma_after_thread(l: TlsLayout, name: Seq<char>, addr: int, len: int)
    requires
        stacked(l, name),
        0 <= len,
        addr + len <= l.guard || l.guard + 8 <= addr,
        addr >= l.name_ptr,
    ensures
        ops_apart(
            auxv_ops(Seq::empty(), l) + environ_ops(Seq::empty(), l) + argument_ops(Seq::empty(), l)
                + slot_ops(Seq::empty(), l),
            addr,
            len,
        ),
{
    let a = auxv_ops(Seq::empty(), l);
    let e = environ_ops(Seq::empty(), l);
    let g = argument_ops(Seq::empty(), l);
    let z = slot_ops(Seq::empty(), l);
    lemma_text_rooms(l, name);
    lemma_later_groups(l, name, addr, len);
    lemma_apart_append(a, e, addr, len);
    lemma_apart_append(a + e, g, addr, len);
    lemma_apart_append(a + e + g, z, addr, len);
}

proof fn lemma_text_rooms(l: TlsLayout, name: Seq<char>)
    requires
        stacked(l, name),
    ensures
        l.tls < l.argv < l.env_layout < l.environ < l.auxv < l.name_ptr < l.name < l.guard,
        l.env_layout < l.env_path < l.env_root < l.env_data < l.environ,
{
}

/// What slot 3 leads to. The second word of the block leads on to the pointer to the process
/// name, the third to the environment and the fourth to the auxiliary vector. The environment
/// is four lines and a null pointer; the vector tells where the stack guard is, the page size
/// and the capabilities, and ends with zeros.
#[verifier::rlimit(40)]
pub proof fn law_argument_block(stack: GuestStack, m: Machine, pid: u32, name: Seq<char>)
    requires
        stack.begun(m).run(tls_ops(stack.sp as int, pid, name)).ok,
        tls_room(name) <= stack.sp,
    ensures
        ({
            let tls = tls_layout(stack.sp as int, name).tls;
            let end = stack.begun(m).run(tls_ops(stack.sp as int, pid, name)).m;
            let block = end.read_u64(tls + 24)->0;
            let args = end.read_u64(block + 8)->0;
            let env = end.read_u64(block + 16)->0;
            let aux = end.read_u64(block + 24)->0;
            &&& leads_to(end, args as int, name)
            &&& leads_to(end, env as int, "ANDROID_DATA=/data"@)
            &&& leads_to(end, env + 8, "ANDROID_ROOT=/system"@)
            &&& leads_to(
                end,
                env + 16,
                "PATH=/sbin:/vendor/bin:/system/sbin:/system/bin:/system/xbin"@,
            )
            &&& leads_to(end, env + 24, "NO_ADDR_COMPAT_LAYOUT_FIXUP=1"@)
            &&& end.read_u64(env + 32) == Some(0u64)
            &&& end.read_u64(aux as int) == Some(25u64)
            &&& end.read_u64(aux + 8) matches Some(g) && end.read_u64(g as int) == end.read_u64(
                tls + 40,
            )
            &&& end.read_u64(aux + 16) == Some(6u64)
            &&& end.read_u64(aux + 24) == Some(4096u64)
            &&& end.read_u64(aux + 32) == Some(16u64)
            &&& end.read_u64(aux + 48) == Some(0u64)
            &&& end.read_u64(aux + 56) == Some(0u64)
        }),
{
    let sp = stack.sp as int;
    let l = tls_layout(sp, name);
    let end = stack.begun(m).run(tls_ops(sp, pid, name)).m;
    lemma_stacked(sp, name);
    lemma_text_rooms(l, name);
    law_tls_slots(stack, m, pid, name);
    lemma_argument_word(stack, m, pid, name, 0);
    lemma_argument_word(stack, m, pid, name, 1);
    lemma_argument_word(stack, m, pid, name, 2);
    lemma_name_stands(stack, m, pid, name);
    lemma_line_stands(stack, m, pid, name, 0);
    lemma_line_stands(stack, m, pid, name, 1);
    lemma_line_stands(stack, m, pid, name, 2);
    lemma_line_stands(stack, m, pid, name, 3);
    lemma_vector_word(stack, m, pid, name, 1);
    lemma_vector_word(stack, m, pid, name, 2);
    lemma_vector_word(stack, m, pid, name, 3);
    lemma_vector_word(stack, m, pid, name, 4);
    lemma_vector_word(stack, m, pid, name, 5);
    lemma_vector_word(stack, m, pid, name, 7);
    lemma_vector_word(stack, m, pid, name, 8);
}

proof fn lemma_argument_word(stack: GuestStack, m: Machine, pid: u32, name: Seq<char>, i: int)
    requires
        stack.begun(m).run(tls_ops(stack.sp as int, pid, name)).ok,
        tls_room(name) <= stack.sp,
        0 <= i < 3,
    ensures
        ({
            let l = tls_layout(stack.sp as int, name);
            let end = stack.begun(m).run(tls_ops(stack.sp as int, pid, name)).m;
            end.read_u64(l.argv + 8 * (i + 1)) == Some(
                seq![l.name_ptr, l.environ, l.auxv][i] as u64,
            )
        }),
{
    let sp = stack.sp as int;
    let s = stack.begun(m);
    let l = tls_layout(sp, name);
    let none = Seq::<StackOp>::empty();
    let all = tls_ops(sp, pid, name);
    let before = thread_ops(l, pid, name) + auxv_ops(none, l) + environ_ops(none, l);
    let g = argument_ops(none, l);
    let z = slot_ops(none, l);
    let at = l.argv + 8 * (i + 1);
    let v = seq![l.name_ptr, l.environ, l.auxv][i] as u64;
    lemma_stacked(sp, name);
    lemma_text_rooms(l, name);
    lemma_groups(sp, pid, name);
    lemma_argument_group(l, i);
    lemma_later_groups(l, name, at, 8);
    assert(all =~= before + g + z);
    lemma_stays_in_group(s, all, before, g, z, i + 1, at, le64(v));
    lemma_word_at(s.run(all).m, at, v);
}

proof fn lemma_name_stands(stack: GuestStack, m: Machine, pid: u32, name: Seq<char>)
    requires
        stack.begun(m).run(tls_ops(stack.sp as int, pid, name)).ok,
        tls_room(name) <= stack.sp,
    ensures
        leads_to(
            stack.begun(m).run(tls_ops(stack.sp as int, pid, name)).m,
            tls_layout(stack.sp as int, name).name_ptr,
            name,
        ),
{
    let sp = stack.sp as int;
    let s = stack.begun(m);
    let l = tls_layout(sp, name);
    let none = Seq::<StackOp>::empty();
    let all = tls_ops(sp, pid, name);
    let t = thread_ops(l, pid, name);
    let after = auxv_ops(none, l) + environ_ops(none, l) + argument_ops(none, l) + slot_ops(none, l);
    lemma_stacked(sp, name);
    lemma_text_rooms(l, name);
    lemma_groups(sp, pid, name);
    lemma_thread_group(l, pid, name);
    lemma_after_thread(l, name, l.name, c_bytes(name).len() as int);
    lemma_after_thread(l, name, l.name_ptr, 8);
    assert(all =~= none + t + after);
    lemma_stays_in_group(s, all, none, t, after, 4, l.name, c_bytes(name));
    lemma_stays_in_group(s, all, none, t, after, 6, l.name_ptr, le64(l.name as u64));
    lemma_word_at(s.run(all).m, l.name_ptr, l.name as u64);
    lemma_text_stands(s.run(all).m, l.name, name);
}

#[verifier::rlimit(40)]
proof fn lemma_line_stands(stack: GuestStack, m: Machine, pid: u32, name: Seq<char>, i: int)
    requires
        stack.begun(m).run(tls_ops(stack.sp as int, pid, name)).ok,
        tls_room(name) <= stack.sp,
        0 <= i < 4,
    ensures
        ({
            let l = tls_layout(stack.sp as int, name);
            let end = stack.begun(m).run(tls_ops(stack.sp as int, pid, name)).m;
            &&& leads_to(
                end,
                l.environ + 8 * i,
                seq![ENV_DATA@, ENV_ROOT@, ENV_PATH@, ENV_LAYOUT@][i],
            )
            &&& end.read_u64(l.environ + 32) == Some(0u64)
        }),
{
    let sp = stack.sp as int;
    let s = stack.begun(m);
    let l = tls_layout(sp, name);
    let none = Seq::<StackOp>::empty();
    let all = tls_ops(sp, pid, name);
    let before = thread_ops(l, pid, name) + auxv_ops(none, l);
    let e = environ_ops(none, l);
    let g = argument_ops(none, l);
    let z = slot_ops(none, l);
    let at = seq![l.env_data, l.env_root, l.env_path, l.env_layout][i];
    let text = seq![ENV_DATA@, ENV_ROOT@, ENV_PATH@, ENV_LAYOUT@][i];
    let len = c_bytes(text).len() as int;
    lemma_stacked(sp, name);
    lemma_text_rooms(l, name);
    lemma_groups(sp, pid, name);
    lemma_environ_group(l, name, i);
    lemma_later_groups(l, name, at, len);
    lemma_apart_append(g, z, at, len);
    lemma_later_groups(l, name, l.environ + 8 * i, 8);
    lemma_apart_append(g, z, l.environ + 8 * i, 8);
    lemma_later_groups(l, name, l.environ + 32, 8);
    lemma_apart_append(g, z, l.environ + 32, 8);
    assert(all =~= before + e + (g + z));
    lemma_stays_in_group(s, all, before, e, g + z, 3 * i + 2, at, c_bytes(text));
    lemma_stays_in_group(s, all, before, e, g + z, 3 * i + 3, l.environ + 8 * i, le64(at as u64));
    lemma_stays_in_group(s, all, before, e, g + z, 13, l.environ + 32, le64(0));
    lemma_word_at(s.run(all).m, l.environ + 8 * i, at as u64);
    lemma_word_at(s.run(all).m, l.environ + 32, 0);
    lemma_text_stands(s.run(all).m, at, text);
}

#[verifier::rlimit(40)]
proof fn lemma_vector_word(stack: GuestStack, m: Machine, pid: u32, name: Seq<char>, p: int)
    requires
        stack.begun(m).run(tls_ops(stack.sp as int, pid, name)).ok,
        tls_room(name) <= stack.sp,
        1 <= p <= 8,
    ensures
        ({
            let l = tls_layout(stack.sp as int, name);
            let end = stack.begun(m).run(tls_ops(stack.sp as int, pid, name)).m;
            end.read_u64(l.auxv + 8 * (p - 1)) == Some(
                seq![
                    AT_RANDOM,
                    l.guard as u64,
                    AT_PAGESZ,
                    PAGE_ALIGN,
                    AT_HWCAP,
                    GUEST_HWCAP,
                    0u64,
                    0u64,
                ][p - 1],
            )
        }),
{
    let sp = stack.sp as int;
    let s = stack.begun(m);
    let l = tls_layout(sp, name);
    let none = Seq::<StackOp>::empty();
    let all = tls_ops(sp, pid, name);
    let before = thread_ops(l, pid, name);
    let a = auxv_ops(none, l);
    let e = environ_ops(none, l);
    let g = argument_ops(none, l);
    let z = slot_ops(none, l);
    let at = l.auxv + 8 * (p - 1);
    let v = seq![AT_RANDOM, l.guard as u64, AT_PAGESZ, PAGE_ALIGN, AT_HWCAP, GUEST_HWCAP, 0u64, 0u64][p
        - 1];
    lemma_stacked(sp, name);
    lemma_text_rooms(l, name);
    lemma_groups(sp, pid, name);
    lemma_auxv_group(l, p);
    lemma_later_groups(l, name, at, 8);
    lemma_apart_append(e, g, at, 8);
    lemma_apart_append(e + g, z, at, 8);
    assert(all =~= before + a + (e + g + z));
    lemma_stays_in_group(s, all, before, a, e + g + z, p, at, le64(v));
    lemma_word_at(s.run(all).m, at, v);
}

} // verus!
