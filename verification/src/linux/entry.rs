//! Starting a program: the stack that its entry point finds.
use vstd::prelude::*;
use vstd::utf8::encode_utf8;
use crate::android::sdk::GUEST_HWCAP;
use crate::backend::{Backend, BackendError, Machine};
use crate::emulator::state::AndroidEmulator;
use crate::le::{le32, le64, put_le32};
use crate::linux::module::{path_of, LinuxModule};
use crate::memory::loader::AndroidElfLoader;
use crate::memory::stack::{
    c_bytes, law_stored_bytes_stay, leads_to, lemma_text_stands, ops_apart, text_ops, text_room,
    text_stands, word_ops, GuestStack, StackBuilder, StackOp, StackRun,
};
use crate::memory::tls::{ENV_DATA, ENV_PATH, ENV_ROOT, STACK_CANARY};
use crate::num::{i32_of_bits, low32, to_low32};
use crate::num::from_bits_i32;

verus! {

/// User and group of the guest.
pub const GUEST_UID: u64 = 10261;

/// The second half of the random bytes that a program is given.
pub const RANDOM_TAIL: u64 = 0x5a5a_5a5a_5a5a_5a5a;

/// The texts of strings.
pub open spec fn texts_of(v: Seq<String>) -> Seq<Seq<char>> {
    Seq::new(v.len(), |i: int| v[i]@)
}

/// The room that the first `n` texts take.
pub open spec fn texts_room(texts: Seq<Seq<char>>, n: int) -> int
    decreases n,
{
    if n <= 0 {
        0
    } else {
        texts_room(texts, n - 1) + text_room(texts[n - 1])
    }
}

/// The steps that put the first `n` texts on a stack with pointer `sp`, one below
/// the other.
pub open spec fn texts_ops(sp: int, texts: Seq<Seq<char>>, n: int) -> Seq<StackOp>
    decreases n,
{
    if n <= 0 {
        Seq::empty()
    } else {
        texts_ops(sp, texts, n - 1) + text_ops(sp - texts_room(texts, n - 1), texts[n - 1])
    }
}

/// Where the `i`th text then stands.
pub open spec fn text_at(sp: int, texts: Seq<Seq<char>>, i: int) -> int {
    sp - texts_room(texts, i + 1)
}

/// The steps that put the last `k` words of `words` on a stack with pointer `sp`, so
/// that they stand in memory in their order.
pub open spec fn words_ops(sp: int, words: Seq<u64>, k: int) -> Seq<StackOp>
    decreases k,
{
    if k <= 0 {
        Seq::empty()
    } else {
        words_ops(sp, words, k - 1) + word_ops(sp - 8 * (k - 1), words[words.len() - k])
    }
}

/// The steps that put one pair on a stack with pointer `sp`.
pub open spec fn pair_ops(sp: int, pair: (u64, u64)) -> Seq<StackOp> {
    seq![
        StackOp::Alloc(16),
        StackOp::Put(sp - 16, le64(pair.0)),
        StackOp::Put(sp - 16 + 8, le64(pair.1)),
    ]
}

/// The steps that put the last `k` pairs on a stack with pointer `sp`, so that they
/// stand in memory in their order.
pub open spec fn pairs_ops(sp: int, pairs: Seq<(u64, u64)>, k: int) -> Seq<StackOp>
    decreases k,
{
    if k <= 0 {
        Seq::empty()
    } else {
        pairs_ops(sp, pairs, k - 1) + pair_ops(sp - 16 * (k - 1), pairs[pairs.len() - k])
    }
}

/// What the auxiliary vector tells a program about itself.
#[derive(Clone, Copy, Debug, PartialEq, Eq, Structural)]
pub struct EntryInfo {
    /// Address of the program headers.
    pub phdr: u64,
    pub phent: u64,
    pub phnum: u64,
    pub entry: u64,
}

/// The auxiliary vector: program headers, page size, entry point, ids, capabilities
/// and random bytes, with an end mark.
pub open spec fn auxv_pairs(info: EntryInfo, random: u64) -> Seq<(u64, u64)> {
    seq![
        (3, info.phdr),
        (4, info.phent),
        (5, info.phnum),
        (6, 0x1000),
        (7, 0),
        (9, info.entry),
        (11, GUEST_UID),
        (12, GUEST_UID),
        (13, GUEST_UID),
        (14, GUEST_UID),
        (16, GUEST_HWCAP),
        (23, 0),
        (25, random),
        (0, 0),
    ]
}

/// The environment of a program.
pub open spec fn program_env() -> Seq<Seq<char>> {
    seq![ENV_DATA@, ENV_ROOT@, ENV_PATH@]
}

/// Where the parts of a program's stack stand, from the highest address down.
pub struct EntryLayout {
    pub name: int,
    pub args: int,
    pub env_texts: int,
    pub random: int,
    pub auxv: int,
    pub envp: int,
    pub argv: int,
    pub sp: int,
}

/// Eight bytes between the texts and what follows, where the number of arguments, the
/// process name among them, is odd.
pub open spec fn entry_pad(args: int) -> int {
    if (args + 1) % 2 != 0 {
        8
    } else {
        0
    }
}

/// The layout below a stack pointer, for a process name and arguments.
pub open spec fn entry_layout(sp: int, name: Seq<char>, args: Seq<Seq<char>>) -> EntryLayout {
    let n = args.len() as int;
    let name_at = sp - text_room(name);
    let args_at = name_at - texts_room(args, n);
    let env_texts = args_at - texts_room(program_env(), 3);
    let random = env_texts - entry_pad(n) - 16;
    let auxv = random - 16 * 14;
    let envp = auxv - 8 - 24;
    let argv = envp - 8 - 8 * (n + 1);
    EntryLayout {
        name: name_at,
        args: args_at,
        env_texts,
        random,
        auxv,
        envp,
        argv,
        sp: argv - 8,
    }
}

/// The pointers to the process name and the arguments.
pub open spec fn argv_words(sp: int, name: Seq<char>, args: Seq<Seq<char>>) -> Seq<u64> {
    let l = entry_layout(sp, name, args);
    Seq::new(
        args.len() + 1,
        |i: int|
            if i == 0 {
                l.name as u64
            } else {
                text_at(l.name, args, i - 1) as u64
            },
    )
}

/// The pointers to the environment, whose texts stand below `at`.
pub open spec fn envp_words(at: int) -> Seq<u64> {
    Seq::new(3, |i: int| text_at(at, program_env(), i) as u64)
}

/// The process name, the arguments and the environment's texts.
pub open spec fn entry_text_ops(sp: int, name: Seq<char>, args: Seq<Seq<char>>) -> Seq<StackOp> {
    let n = args.len() as int;
    let at = sp - text_room(name);
    (seq![StackOp::Alloc(0)] + text_ops(sp, name)) + texts_ops(at, args, n) + texts_ops(
        at - texts_room(args, n),
        program_env(),
        3,
    )
}

/// Padding and random bytes.
pub open spec fn entry_random_ops(l: EntryLayout, args: int) -> Seq<StackOp> {
    let pad = if entry_pad(args) != 0 {
        seq![StackOp::Alloc(8)]
    } else {
        Seq::empty()
    };
    pad.push(StackOp::Alloc(16)).push(StackOp::Put(l.random, le64(STACK_CANARY))).push(
        StackOp::Put(l.random + 8, le64(RANDOM_TAIL)),
    )
}

/// The auxiliary vector.
pub open spec fn entry_aux_ops(l: EntryLayout, info: EntryInfo) -> Seq<StackOp> {
    pairs_ops(l.random, auxv_pairs(info, l.random as u64), 14)
}

/// The environment's pointers, the argument pointers and the argument count.
pub open spec fn entry_pointer_ops(
    l: EntryLayout,
    sp: int,
    name: Seq<char>,
    args: Seq<Seq<char>>,
) -> Seq<StackOp> {
    let n = args.len() as int;
    let env = word_ops(l.auxv, 0) + words_ops(l.auxv - 8, envp_words(l.args), 3);
    let arg = env + word_ops(l.envp, 0) + words_ops(l.envp - 8, argv_words(sp, name, args), n + 1);
    arg + seq![StackOp::Alloc(8), StackOp::Put(l.sp, le32(low32((n + 1) as u64)))]
}

/// All steps that build a program's stack below `sp`.
pub open spec fn entry_ops(sp: int, name: Seq<char>, args: Seq<Seq<char>>, info: EntryInfo) -> Seq<
    StackOp,
> {
    let l = entry_layout(sp, name, args);
    entry_text_ops(sp, name, args) + entry_random_ops(l, args.len() as int) + entry_aux_ops(
        l,
        info,
    ) + entry_pointer_ops(l, sp, name, args)
}

proof fn lemma_text_room(s: Seq<char>)
    ensures
        text_room(s) >= encode_utf8(s).len() + 1,
        text_room(s) > 0,
{
}

proof fn lemma_texts_room(texts: Seq<Seq<char>>, n: int, total: int)
    requires
        0 <= n <= total,
    ensures
        0 <= texts_room(texts, n) <= texts_room(texts, total),
    decreases total,
{
    if total > 0 {
        if n < total {
            lemma_texts_room(texts, n, total - 1);
        } else {
            lemma_texts_room(texts, n - 1, n - 1);
        }
        lemma_text_room(texts[total - 1]);
    }
}

fn push_texts(b: &mut StackBuilder, backend: &mut Backend, texts: &Vec<String>) -> (r: Vec<u64>)
    requires
        old(b).wf(old(backend)@),
        texts_room(texts_of(texts@), texts@.len() as int) <= old(b).at,
    ensures
        final(b).wf(final(backend)@),
        final(b).start == old(b).start,
        final(b).at == old(b).at - texts_room(texts_of(texts@), texts@.len() as int),
        final(b).done@ == old(b).done@ + texts_ops(
            old(b).at as int,
            texts_of(texts@),
            texts@.len() as int,
        ),
        r@.len() == texts@.len(),
        forall|i: int|
            0 <= i < r@.len() ==> #[trigger] r@[i] == text_at(
                old(b).at as int,
                texts_of(texts@),
                i,
            ),
{
    let ghost all = texts_of(texts@);
    let mut r: Vec<u64> = Vec::new();
    let n: usize = texts.len();
    let mut i: usize = 0;
    assert(b.done@ =~= old(b).done@ + texts_ops(old(b).at as int, all, 0));
    while i < n
        invariant
            i <= n,
            n == texts@.len(),
            all == texts_of(texts@),
            b.wf(backend@),
            b.start == old(b).start,
            texts_room(all, n as int) <= old(b).at,
            b.at == old(b).at - texts_room(all, i as int),
            b.done@ == old(b).done@ + texts_ops(old(b).at as int, all, i as int),
            r@.len() == i,
            forall|j: int|
                0 <= j < i ==> #[trigger] r@[j] == text_at(old(b).at as int, all, j),
        decreases n - i,
    {
        proof {
            lemma_texts_room(all, i + 1, n as int);
        }
        let ghost before = b.done@;
        let p: u64 = b.push_text(backend, texts[i].as_str());
        r.push(p);
        assert(b.done@ =~= old(b).done@ + texts_ops(old(b).at as int, all, i + 1));
        i = i + 1;
    }
    r
}

fn push_words(b: &mut StackBuilder, backend: &mut Backend, words: &Vec<u64>)
    requires
        old(b).wf(old(backend)@),
        8 * words@.len() <= old(b).at,
    ensures
        final(b).wf(final(backend)@),
        final(b).start == old(b).start,
        final(b).at == old(b).at - 8 * words@.len(),
        final(b).done@ == old(b).done@ + words_ops(
            old(b).at as int,
            words@,
            words@.len() as int,
        ),
{
    let n: usize = words.len();
    let mut k: usize = 0;
    assert(b.done@ =~= old(b).done@ + words_ops(old(b).at as int, words@, 0));
    while k < n
        invariant
            k <= n,
            n == words@.len(),
            8 * n <= old(b).at,
            b.wf(backend@),
            b.start == old(b).start,
            b.at == old(b).at - 8 * k,
            b.done@ == old(b).done@ + words_ops(old(b).at as int, words@, k as int),
        decreases n - k,
    {
        b.push_u64(backend, words[n - 1 - k]);
        assert(b.done@ =~= old(b).done@ + words_ops(old(b).at as int, words@, k + 1));
        k = k + 1;
    }
}

fn push_pairs(b: &mut StackBuilder, backend: &mut Backend, pairs: &[(u64, u64)])
    requires
        old(b).wf(old(backend)@),
        16 * pairs@.len() <= old(b).at,
    ensures
        final(b).wf(final(backend)@),
        final(b).start == old(b).start,
        final(b).at == old(b).at - 16 * pairs@.len(),
        final(b).done@ == old(b).done@ + pairs_ops(
            old(b).at as int,
            pairs@,
            pairs@.len() as int,
        ),
{
    let n: usize = pairs.len();
    let mut k: usize = 0;
    assert(b.done@ =~= old(b).done@ + pairs_ops(old(b).at as int, pairs@, 0));
    while k < n
        invariant
            k <= n,
            n == pairs@.len(),
            16 * n <= old(b).at,
            b.wf(backend@),
            b.start == old(b).start,
            b.at == old(b).at - 16 * k,
            b.done@ == old(b).done@ + pairs_ops(old(b).at as int, pairs@, k as int),
        decreases n - k,
    {
        let (ty, val) = pairs[n - 1 - k];
        let slot: u64 = b.take(backend, 16);
        b.put_u64(backend, slot, ty);
        b.put_u64(backend, slot + 8, val);
        assert(b.done@ =~= old(b).done@ + pairs_ops(old(b).at as int, pairs@, k + 1));
        k = k + 1;
    }
}

fn push_random(b: &mut StackBuilder, backend: &mut Backend, argc: u64, Ghost(l): Ghost<EntryLayout>) -> (r:
    u64)
    requires
        old(b).wf(old(backend)@),
        argc > 0,
        l.random == old(b).at - entry_pad(argc - 1) - 16,
        l.random >= 0,
    ensures
        final(b).wf(final(backend)@),
        final(b).start == old(b).start,
        final(b).at == l.random,
        r == l.random,
        final(b).done@ == old(b).done@ + entry_random_ops(l, argc - 1),
{
    if argc % 2 != 0 {
        let _pad: u64 = b.take(backend, 8);
    }
    let random: u64 = b.take(backend, 16);
    b.put_u64(backend, random, STACK_CANARY);
    b.put_u64(backend, random + 8, RANDOM_TAIL);
    assert(b.done@ =~= old(b).done@ + entry_random_ops(l, argc - 1));
    random
}

/// Push the environment's texts.
fn push_env(b: &mut StackBuilder, backend: &mut Backend) -> (r: Vec<u64>)
    requires
        old(b).wf(old(backend)@),
        texts_room(program_env(), 3) <= old(b).at,
    ensures
        final(b).wf(final(backend)@),
        final(b).start == old(b).start,
        final(b).at == old(b).at - texts_room(program_env(), 3),
        final(b).done@ == old(b).done@ + texts_ops(old(b).at as int, program_env(), 3),
        r@ == envp_words(old(b).at as int),
{
    let mut env: Vec<String> = Vec::new();
    env.push(ENV_DATA.to_owned());
    env.push(ENV_ROOT.to_owned());
    env.push(ENV_PATH.to_owned());
    assert(texts_of(env@) =~= program_env());
    let r = push_texts(b, backend, &env);
    assert(r@ =~= envp_words(old(b).at as int));
    r
}

fn push_aux(
    b: &mut StackBuilder,
    backend: &mut Backend,
    info: EntryInfo,
    random: u64,
    Ghost(l): Ghost<EntryLayout>,
)
    requires
        old(b).wf(old(backend)@),
        random == l.random,
        old(b).at == l.random,
        l.auxv == l.random - 16 * 14,
        l.auxv >= 0,
    ensures
        final(b).wf(final(backend)@),
        final(b).start == old(b).start,
        final(b).at == l.auxv,
        final(b).done@ == old(b).done@ + entry_aux_ops(l, info),
{
    let pairs: [(u64, u64); 14] = [
        (3, info.phdr),
        (4, info.phent),
        (5, info.phnum),
        (6, 0x1000),
        (7, 0),
        (9, info.entry),
        (11, GUEST_UID),
        (12, GUEST_UID),
        (13, GUEST_UID),
        (14, GUEST_UID),
        (16, GUEST_HWCAP),
        (23, 0),
        (25, random),
        (0, 0),
    ];
    assert(pairs@ =~= auxv_pairs(info, random));
    push_pairs(b, backend, pairs.as_slice());
}

fn push_pointers(
    b: &mut StackBuilder,
    backend: &mut Backend,
    envp: &Vec<u64>,
    argv: &Vec<u64>,
    Ghost(sp): Ghost<int>,
    Ghost(name): Ghost<Seq<char>>,
    Ghost(args): Ghost<Seq<Seq<char>>>,
) -> (r: u64)
    requires
        old(b).wf(old(backend)@),
        ({
            let l = entry_layout(sp, name, args);
            &&& old(b).at == l.auxv
            &&& l.sp >= 0
            &&& envp@ == envp_words(l.args)
        }),
        argv@ == argv_words(sp, name, args),
    ensures
        final(b).wf(final(backend)@),
        final(b).start == old(b).start,
        ({
            let l = entry_layout(sp, name, args);
            &&& r == l.sp
            &&& final(b).at == l.sp
            &&& final(b).done@ == old(b).done@ + entry_pointer_ops(l, sp, name, args)
        }),
{
    let ghost l = entry_layout(sp, name, args);
    b.push_u64(backend, 0);
    push_words(b, backend, envp);
    b.push_u64(backend, 0);
    push_words(b, backend, argv);
    let kab: u64 = b.take(backend, 8);
    let argc = put_le32(to_low32(argv.len() as u64));
    b.put(backend, kab, argc.as_slice());
    assert(b.done@ =~= old(b).done@ + entry_pointer_ops(l, sp, name, args));
    kab
}

/// Build a program's stack. Gives the stack pointer to start with.
pub fn build_entry_stack(
    stack: &mut GuestStack,
    backend: &mut Backend,
    name: &str,
    args: &Vec<String>,
    info: EntryInfo,
) -> (r: Result<u64, BackendError>)
    requires
        entry_layout(old(stack).sp as int, name@, texts_of(args@)).sp >= 0,
    ensures
        ({
            let sp = old(stack).sp as int;
            let l = entry_layout(sp, name@, texts_of(args@));
            let end = old(stack).begun(old(backend)@).run(
                entry_ops(sp, name@, texts_of(args@), info),
            );
            &&& final(backend)@ == end.m
            &&& *final(stack) == end.stack
            &&& r == if end.ok {
                Ok::<u64, BackendError>(l.sp as u64)
            } else {
                Err::<u64, BackendError>(BackendError::Unmapped)
            }
        }),
{
    let ghost texts = texts_of(args@);
    let ghost sp = stack.sp as int;
    let ghost l = entry_layout(sp, name@, texts);
    proof {
        lemma_texts_room(texts, 0, texts.len() as int);
        lemma_texts_room(program_env(), 0, 3);
        lemma_text_room(name@);
    }
    let mut b = StackBuilder::new(*stack, backend);
    let _mark: u64 = b.take(backend, 0);
    let p: u64 = b.push_text(backend, name);
    let ptrs = push_texts(&mut b, backend, args);
    let envp = push_env(&mut b, backend);
    assert(b.done@ =~= entry_text_ops(sp, name@, texts));
    let mut argv: Vec<u64> = Vec::new();
    argv.push(p);
    let mut i: usize = 0;
    while i < ptrs.len()
        invariant
            i <= ptrs@.len(),
            argv@.len() == i + 1,
            argv@[0] == p,
            forall|j: int| 0 <= j < i ==> argv@[j + 1] == #[trigger] ptrs@[j],
        decreases ptrs@.len() - i,
    {
        argv.push(ptrs[i]);
        i = i + 1;
    }
    assert(argv@ =~= argv_words(sp, name@, texts)) by {
        assert forall|j: int| 0 <= j < argv@.len() implies argv@[j] == argv_words(
            sp,
            name@,
            texts,
        )[j] by {
            if j > 0 {
                assert(argv@[(j - 1) + 1] == ptrs@[j - 1]);
            }
        }
    }
    let random: u64 = push_random(&mut b, backend, argv.len() as u64, Ghost(l));
    push_aux(&mut b, backend, info, random, Ghost(l));
    let kab: u64 = push_pointers(
        &mut b,
        backend,
        &envp,
        &argv,
        Ghost(sp),
        Ghost(name@),
        Ghost(texts),
    );
    proof {
        b.stands_for(backend@);
    }
    *stack = b.stack;
    if b.ok {
        Ok(kab)
    } else {
        Err(BackendError::Unmapped)
    }
}

/// Run the guest at `entry` with stack pointer `sp`.
#[derive(Clone, Copy, Debug, PartialEq, Eq, Structural)]
pub struct EntryRequest {
    pub entry: u64,
    pub sp: u64,
}

/// Why a program cannot be started.
#[derive(Clone, Copy, Debug, PartialEq, Eq, Structural)]
pub enum EntryError {
    /// It has no entry point.
    InvalidEntryPoint,
    /// Its stack could not be written.
    Memory(BackendError),
}

/// What a module tells its program.
pub open spec fn entry_info(m: LinuxModule) -> EntryInfo {
    EntryInfo {
        phdr: (m.base + match m.elf_file {
            Some(e) => e.ph_offset as int,
            None => 0,
        }) as u64,
        phent: match m.elf_file {
            Some(e) => e.ph_entry_size as u64,
            None => 56,
        },
        phnum: match m.elf_file {
            Some(e) => e.num_ph as u64,
            None => 0,
        },
        entry: (m.base + m.entry_point) as u64,
    }
}

impl LinuxModule {
    fn entry_data(&self) -> (r: EntryInfo)
        requires
            self.base + self.entry_point <= u64::MAX,
            self.elf_file matches Some(e) ==> self.base + e.ph_offset <= u64::MAX,
        ensures
            r == entry_info(*self),
    {
        let (phoff, phent, phnum) = match &self.elf_file {
            Some(e) => (e.ph_offset, e.ph_entry_size as u64, e.num_ph as u64),
            None => (0, 56, 0),
        };
        EntryInfo {
            phdr: self.base + phoff,
            phent,
            phnum,
            entry: self.base + self.entry_point,
        }
    }

    /// Make a loaded program ready to run: its path becomes that of the running
    /// program, and its arguments, environment and auxiliary vector go on the stack.
    pub fn call_entry(
        backend: &mut Backend,
        emulator: &mut AndroidEmulator,
        module: usize,
        args: &Vec<String>,
    ) -> (r: Result<EntryRequest, EntryError>)
        requires
            module < old(emulator).memory.list@.len(),
            ({
                let m = old(emulator).memory.list@[module as int];
                m.entry_point != 0 ==> {
                    &&& m.base + m.entry_point <= u64::MAX
                    &&& m.elf_file matches Some(e) ==> m.base + e.ph_offset <= u64::MAX
                    &&& entry_layout(
                        old(emulator).memory.stack.sp as int,
                        old(emulator).proc_name@,
                        texts_of(args@),
                    ).sp >= 0
                }
            }),
        ensures
            ({
                let m = old(emulator).memory.list@[module as int];
                let sp = old(emulator).memory.stack.sp as int;
                let name = old(emulator).proc_name@;
                let l = entry_layout(sp, name, texts_of(args@));
                let end = old(emulator).memory.stack.begun(old(backend)@).run(
                    entry_ops(sp, name, texts_of(args@), entry_info(m)),
                );
                if m.entry_point == 0 {
                    &&& r == Err::<EntryRequest, EntryError>(EntryError::InvalidEntryPoint)
                    &&& *final(emulator) == *old(emulator)
                    &&& final(backend)@ == old(backend)@
                } else {
                    &&& final(backend)@ == end.m
                    &&& *final(emulator) == (AndroidEmulator {
                        exec_path: final(emulator).exec_path,
                        memory: AndroidElfLoader { stack: end.stack, ..old(emulator).memory },
                        ..*old(emulator)
                    })
                    &&& final(emulator).exec_path matches Some(p) && p@ == path_of(m.name@, name)
                    &&& r == if end.ok {
                        Ok::<EntryRequest, EntryError>(
                            EntryRequest {
                                entry: (m.base + m.entry_point) as u64,
                                sp: l.sp as u64,
                            },
                        )
                    } else {
                        Err(EntryError::Memory(BackendError::Unmapped))
                    }
                }
            }),
    {
        let m = &emulator.memory.list[module];
        if m.entry_point == 0 {
            return Err(EntryError::InvalidEntryPoint);
        }
        let info = m.entry_data();
        let path = m.path(emulator.proc_name.as_str());
        emulator.exec_path = Some(path);
        match build_entry_stack(
            &mut emulator.memory.stack,
            backend,
            emulator.proc_name.as_str(),
            args,
            info,
        ) {
            Ok(sp) => Ok(EntryRequest { entry: info.entry, sp }),
            Err(e) => Err(EntryError::Memory(e)),
        }
    }

    /// The exit code of a program that was run: the one it exited with, else what its
    /// entry point returned, else one.
    pub fn entry_status(exited: Option<i32>, returned: Option<u64>) -> (r: i32)
        ensures
            r == match exited {
                Some(status) => status,
                None => match returned {
                    Some(code) => i32_of_bits(low32(code)),
                    None => 1,
                },
            },
            exited is None && returned is None ==> r == 1,
            exited is None ==> (returned matches Some(code) ==> code < 0x8000_0000 ==> r == code),
    {
        match exited {
            Some(status) => status,
            None => match returned {
                Some(code) => from_bits_i32(to_low32(code)),
                None => 1,
            },
        }
    }
}

/// All that the steps store lies below `limit`.
spec fn below(ops: Seq<StackOp>, limit: int) -> bool {
    forall|i: int|
        0 <= i < ops.len() ==> match #[trigger] ops[i] {
            StackOp::Alloc(_) => true,
            StackOp::Put(a, d) => a + d.len() <= limit,
        }
}

proof fn lemma_below_append(a: Seq<StackOp>, b: Seq<StackOp>, limit: int)
    requires
        below(a, limit),
        below(b, limit),
    ensures
        below(a + b, limit),
{
    assert forall|i: int| 0 <= i < (a + b).len() implies match #[trigger] (a + b)[i] {
        StackOp::Alloc(_) => true,
        StackOp::Put(x, d) => x + d.len() <= limit,
    } by {
        if i < a.len() {
            assert((a + b)[i] == a[i]);
        } else {
            assert((a + b)[i] == b[i - a.len()]);
        }
    }
}

/// What one step of a group stored is still there at the end, where later steps keep
/// away from it.
proof fn lemma_in_group(
    s: StackRun,
    all: Seq<StackOp>,
    before: Seq<StackOp>,
    g: Seq<StackOp>,
    after: Seq<StackOp>,
    p: int,
    addr: int,
    data: Seq<u8>,
)
    requires
        all == before + g + after,
        0 <= p < g.len(),
        g[p] == StackOp::Put(addr, data),
        ops_apart(g.skip(p + 1), addr, data.len() as int),
        below(after, addr),
        s.run(all).ok,
    ensures
        s.run(all).m.mapped(addr, data.len() as int),
        s.run(all).m.read(addr, data.len()) == data,
{
    let head = before + g.take(p);
    let tail = g.skip(p + 1) + after;
    assert(all =~= head.push(StackOp::Put(addr, data)) + tail);
    assert forall|i: int| 0 <= i < tail.len() implies match #[trigger] tail[i] {
        StackOp::Alloc(_) => true,
        StackOp::Put(a, d) => a + d.len() <= addr || addr + data.len() <= a,
    } by {
        if i < g.skip(p + 1).len() {
            assert(tail[i] == g.skip(p + 1)[i]);
        } else {
            assert(tail[i] == after[i - g.skip(p + 1).len()]);
        }
    }
    law_stored_bytes_stay(s, head, addr, data, tail);
}

/// The steps for words, one by one.
proof fn lemma_words_ops(sp: int, words: Seq<u64>, k: int)
    requires
        0 <= k <= words.len(),
    ensures
        words_ops(sp, words, k).len() == 2 * k,
        forall|j: int|
            0 <= j < 2 * k ==> #[trigger] words_ops(sp, words, k)[j] == if j % 2 == 0 {
                StackOp::Alloc(8)
            } else {
                StackOp::Put(sp - 8 * (j / 2 + 1), le64(words[words.len() - 1 - j / 2]))
            },
        below(words_ops(sp, words, k), sp),
    decreases k,
{
    if k > 0 {
        lemma_words_ops(sp, words, k - 1);
    }
}

proof fn lemma_words_stand(
    s: StackRun,
    all: Seq<StackOp>,
    before: Seq<StackOp>,
    sp: int,
    words: Seq<u64>,
    after: Seq<StackOp>,
    i: int,
)
    requires
        all == before + words_ops(sp, words, words.len() as int) + after,
        below(after, sp - 8 * words.len()),
        s.run(all).ok,
        0 <= i < words.len(),
    ensures
        s.run(all).m.read_u64(sp - 8 * (words.len() - i)) == Some(words[i]),
{
    let n = words.len() as int;
    let g = words_ops(sp, words, n);
    lemma_words_ops(sp, words, n);
    let p = 2 * (n - 1 - i) + 1;
    let addr = sp - 8 * (n - i);
    assert(g[p] == StackOp::Put(addr, le64(words[i])));
    assert forall|j: int| 0 <= j < g.skip(p + 1).len() implies match #[trigger] g.skip(p + 1)[j] {
        StackOp::Alloc(_) => true,
        StackOp::Put(a, d) => a + d.len() <= addr || addr + 8 <= a,
    } by {
        assert(g.skip(p + 1)[j] == g[p + 1 + j]);
    }
    lemma_in_group(s, all, before, g, after, p, addr, le64(words[i]));
    crate::le::law_le64_round_trip(words[i]);
}

/// The steps for pairs, one by one.
proof fn lemma_pairs_ops(sp: int, pairs: Seq<(u64, u64)>, k: int)
    requires
        0 <= k <= pairs.len(),
    ensures
        pairs_ops(sp, pairs, k).len() == 3 * k,
        forall|j: int|
            0 <= j < 3 * k ==> #[trigger] pairs_ops(sp, pairs, k)[j] == if j % 3 == 0 {
                StackOp::Alloc(16)
            } else if j % 3 == 1 {
                StackOp::Put(sp - 16 * (j / 3 + 1), le64(pairs[pairs.len() - 1 - j / 3].0))
            } else {
                StackOp::Put(sp - 16 * (j / 3 + 1) + 8, le64(pairs[pairs.len() - 1 - j / 3].1))
            },
        below(pairs_ops(sp, pairs, k), sp),
    decreases k,
{
    if k > 0 {
        lemma_pairs_ops(sp, pairs, k - 1);
    }
}

#[verifier::rlimit(30)]
proof fn lemma_pairs_stand(
    s: StackRun,
    all: Seq<StackOp>,
    before: Seq<StackOp>,
    sp: int,
    pairs: Seq<(u64, u64)>,
    after: Seq<StackOp>,
    i: int,
)
    requires
        all == before + pairs_ops(sp, pairs, pairs.len() as int) + after,
        below(after, sp - 16 * pairs.len()),
        s.run(all).ok,
        0 <= i < pairs.len(),
    ensures
        s.run(all).m.read_u64(sp - 16 * (pairs.len() - i)) == Some(pairs[i].0),
        s.run(all).m.read_u64(sp - 16 * (pairs.len() - i) + 8) == Some(pairs[i].1),
{
    let n = pairs.len() as int;
    let g = pairs_ops(sp, pairs, n);
    lemma_pairs_ops(sp, pairs, n);
    let p = 3 * (n - 1 - i) + 1;
    let addr = sp - 16 * (n - i);
    assert(g[p] == StackOp::Put(addr, le64(pairs[i].0)));
    assert(g[p + 1] == StackOp::Put(addr + 8, le64(pairs[i].1)));
    assert forall|j: int| 0 <= j < g.skip(p + 1).len() implies match #[trigger] g.skip(p + 1)[j] {
        StackOp::Alloc(_) => true,
        StackOp::Put(a, d) => a + d.len() <= addr || addr + 8 <= a,
    } by {
        assert(g.skip(p + 1)[j] == g[p + 1 + j]);
    }
    assert forall|j: int| 0 <= j < g.skip(p + 2).len() implies match #[trigger] g.skip(p + 2)[j] {
        StackOp::Alloc(_) => true,
        StackOp::Put(a, d) => a + d.len() <= addr + 8 || addr + 16 <= a,
    } by {
        assert(g.skip(p + 2)[j] == g[p + 2 + j]);
    }
    lemma_in_group(s, all, before, g, after, p, addr, le64(pairs[i].0));
    lemma_below_more(after, sp - 16 * n, addr + 8);
    lemma_in_group(s, all, before, g, after, p + 1, addr + 8, le64(pairs[i].1));
    crate::le::law_le64_round_trip(pairs[i].0);
    crate::le::law_le64_round_trip(pairs[i].1);
}

proof fn lemma_below_more(ops: Seq<StackOp>, limit: int, higher: int)
    requires
        below(ops, limit),
        limit <= higher,
    ensures
        below(ops, higher),
{
    assert forall|i: int| 0 <= i < ops.len() implies match #[trigger] ops[i] {
        StackOp::Alloc(_) => true,
        StackOp::Put(a, d) => a + d.len() <= higher,
    } by {
    }
}

/// The steps for texts, one by one.
proof fn lemma_texts_ops(sp: int, texts: Seq<Seq<char>>, n: int)
    requires
        0 <= n <= texts.len(),
    ensures
        texts_ops(sp, texts, n).len() == 2 * n,
        forall|j: int|
            0 <= j < 2 * n ==> #[trigger] texts_ops(sp, texts, n)[j] == if j % 2 == 0 {
                StackOp::Alloc(text_room(texts[j / 2]))
            } else {
                StackOp::Put(text_at(sp, texts, j / 2), c_bytes(texts[j / 2]))
            },
        below(texts_ops(sp, texts, n), sp),
    decreases n,
{
    if n > 0 {
        lemma_texts_ops(sp, texts, n - 1);
        lemma_texts_room(texts, n - 1, n);
        lemma_text_room(texts[n - 1]);
    }
}

proof fn lemma_texts_stand(
    s: StackRun,
    all: Seq<StackOp>,
    before: Seq<StackOp>,
    sp: int,
    texts: Seq<Seq<char>>,
    after: Seq<StackOp>,
    i: int,
)
    requires
        all == before + texts_ops(sp, texts, texts.len() as int) + after,
        below(after, sp - texts_room(texts, texts.len() as int)),
        s.run(all).ok,
        0 <= i < texts.len(),
    ensures
        s.run(all).m.mapped(text_at(sp, texts, i), c_bytes(texts[i]).len() as int),
        s.run(all).m.read(text_at(sp, texts, i), c_bytes(texts[i]).len()) == c_bytes(texts[i]),
{
    let n = texts.len() as int;
    let g = texts_ops(sp, texts, n);
    lemma_texts_ops(sp, texts, n);
    let p = 2 * i + 1;
    let addr = text_at(sp, texts, i);
    let data = c_bytes(texts[i]);
    assert(g[p] == StackOp::Put(addr, data));
    assert forall|j: int| 0 <= j < g.skip(p + 1).len() implies match #[trigger] g.skip(p + 1)[j] {
        StackOp::Alloc(_) => true,
        StackOp::Put(a, d) => a + d.len() <= addr || addr + data.len() <= a,
    } by {
        assert(g.skip(p + 1)[j] == g[p + 1 + j]);
        let q = (p + 1 + j) / 2;
        if (p + 1 + j) % 2 != 0 {
            lemma_texts_room(texts, i + 1, q);
            lemma_text_room(texts[q]);
        }
    }
    lemma_texts_room(texts, i + 1, n);
    lemma_below_more(after, sp - texts_room(texts, n), addr);
    lemma_in_group(s, all, before, g, after, p, addr, data);
}

/// The parts of a program's stack that lie below others.
#[verifier::rlimit(30)]
proof fn lemma_parts_below(sp: int, name: Seq<char>, args: Seq<Seq<char>>, info: EntryInfo)
    ensures
        ({
            let l = entry_layout(sp, name, args);
            let n = args.len() as int;
            &&& below(text_ops(sp, name), sp)
            &&& below(texts_ops(l.name, args, n), l.name)
            &&& below(texts_ops(l.args, program_env(), 3), l.args)
            &&& below(entry_random_ops(l, n), l.env_texts)
            &&& below(pairs_ops(l.random, auxv_pairs(info, l.random as u64), 14), l.random)
            &&& below(word_ops(l.auxv, 0), l.auxv)
            &&& below(words_ops(l.auxv - 8, envp_words(l.args), 3), l.auxv - 8)
            &&& below(word_ops(l.envp, 0), l.envp)
            &&& below(words_ops(l.envp - 8, argv_words(sp, name, args), n + 1), l.envp - 8)
            &&& below(
                seq![StackOp::Alloc(8), StackOp::Put(l.sp, le32(low32((n + 1) as u64)))],
                l.argv,
            )
            &&& l.argv <= l.envp <= l.auxv <= l.random <= l.env_texts <= l.args <= l.name
        }),
{
    let l = entry_layout(sp, name, args);
    let n = args.len() as int;
    lemma_text_room(name);
    lemma_texts_room(args, 0, n);
    lemma_texts_room(program_env(), 0, 3);
    lemma_texts_ops(l.name, args, n);
    lemma_pairs_ops(l.random, auxv_pairs(info, l.random as u64), 14);
    lemma_texts_ops(l.args, program_env(), 3);
    lemma_words_ops(l.auxv - 8, envp_words(l.args), 3);
    lemma_words_ops(l.envp - 8, argv_words(sp, name, args), n + 1);
}

/// The distances on a program's stack.
proof fn lemma_entry_shape(sp: int, name: Seq<char>, args: Seq<Seq<char>>)
    ensures
        ({
            let l = entry_layout(sp, name, args);
            let n = args.len() as int;
            &&& sp % 16 == 0 ==> l.sp % 16 == 0
            &&& l.argv == l.sp + 8
            &&& l.envp == l.argv + 8 * (n + 2)
            &&& l.auxv == l.envp + 32
            &&& l.random == l.auxv + 16 * 14
        }),
{
    lemma_rooms(args, args.len() as int);
    lemma_rooms(program_env(), 3);
}

/// What the pointer steps are made of, and what lies below what.
spec fn pointers_after(
    l: EntryLayout,
    sp: int,
    name: Seq<char>,
    args: Seq<Seq<char>>,
    k: int,
) -> Seq<StackOp> {
    let n = args.len() as int;
    let count = seq![StackOp::Alloc(8), StackOp::Put(l.sp, le32(low32((n + 1) as u64)))];
    let arg = words_ops(l.envp - 8, argv_words(sp, name, args), n + 1) + count;
    let arg_end = word_ops(l.envp, 0) + arg;
    let env = words_ops(l.auxv - 8, envp_words(l.args), 3) + arg_end;
    if k == 0 {
        count
    } else if k == 1 {
        arg
    } else if k == 2 {
        arg_end
    } else if k == 3 {
        env
    } else {
        word_ops(l.auxv, 0) + env
    }
}

proof fn lemma_pointers_after(sp: int, name: Seq<char>, args: Seq<Seq<char>>, info: EntryInfo)
    ensures
        ({
            let l = entry_layout(sp, name, args);
            &&& below(pointers_after(l, sp, name, args, 0), l.argv)
            &&& below(pointers_after(l, sp, name, args, 1), l.envp - 8)
            &&& below(pointers_after(l, sp, name, args, 2), l.envp)
            &&& below(pointers_after(l, sp, name, args, 3), l.auxv - 8)
            &&& below(pointers_after(l, sp, name, args, 4), l.auxv)
            &&& entry_pointer_ops(l, sp, name, args) == pointers_after(l, sp, name, args, 4)
        }),
{
    let l = entry_layout(sp, name, args);
    let n = args.len() as int;
    lemma_parts_below(sp, name, args, info);
    lemma_entry_shape(sp, name, args);
    let count = pointers_after(l, sp, name, args, 0);
    let arg = words_ops(l.envp - 8, argv_words(sp, name, args), n + 1);
    let env = words_ops(l.auxv - 8, envp_words(l.args), 3);
    lemma_below_more(count, l.argv, l.envp - 8);
    lemma_below_append(arg, count, l.envp - 8);
    lemma_below_more(arg + count, l.envp - 8, l.envp);
    lemma_below_append(word_ops(l.envp, 0), arg + count, l.envp);
    let arg_end = word_ops(l.envp, 0) + (arg + count);
    lemma_below_more(arg_end, l.envp, l.auxv - 8);
    lemma_below_append(env, arg_end, l.auxv - 8);
    lemma_below_more(env + arg_end, l.auxv - 8, l.auxv);
    lemma_below_append(word_ops(l.auxv, 0), env + arg_end, l.auxv);
    assert(entry_pointer_ops(l, sp, name, args) =~= pointers_after(l, sp, name, args, 4));
}

/// The steps before the pointers.
spec fn entry_before(l: EntryLayout, sp: int, name: Seq<char>, args: Seq<Seq<char>>, info: EntryInfo) -> Seq<
    StackOp,
> {
    entry_text_ops(sp, name, args) + entry_random_ops(l, args.len() as int) + entry_aux_ops(l, info)
}

#[verifier::rlimit(30)]
proof fn lemma_entry_argv(
    s: StackRun,
    sp: int,
    name: Seq<char>,
    args: Seq<Seq<char>>,
    info: EntryInfo,
    i: int,
)
    requires
        s.run(entry_ops(sp, name, args, info)).ok,
        0 <= i <= args.len(),
    ensures
        ({
            let l = entry_layout(sp, name, args);
            let end = s.run(entry_ops(sp, name, args, info)).m;
            let n = args.len() as int;
            &&& end.read_u32(l.sp) == Some(low32((n + 1) as u64))
            &&& end.read_u64(l.argv + 8 * i) == Some(argv_words(sp, name, args)[i])
            &&& end.read_u64(l.argv + 8 * (n + 1)) == Some(0u64)
        }),
{
    let l = entry_layout(sp, name, args);
    let n = args.len() as int;
    let all = entry_ops(sp, name, args, info);
    lemma_pointers_after(sp, name, args, info);
    lemma_entry_shape(sp, name, args);
    let head = entry_before(l, sp, name, args, info);
    let words = argv_words(sp, name, args);
    let env_part = word_ops(l.auxv, 0) + words_ops(l.auxv - 8, envp_words(l.args), 3);
    let arg_end = word_ops(l.envp, 0);
    let arg_words = words_ops(l.envp - 8, words, n + 1);
    let count = pointers_after(l, sp, name, args, 0);
    let g1 = head + env_part + arg_end;
    assert(all =~= g1 + arg_words + count);
    lemma_words_stand(s, all, g1, l.envp - 8, words, count, i);
    assert(all =~= (g1 + arg_words) + count + seq![]);
    assert(count.skip(2) =~= seq![]);
    lemma_in_group(s, all, g1 + arg_words, count, seq![], 1, l.sp, le32(low32((n + 1) as u64)));
    crate::le::law_le32_round_trip(low32((n + 1) as u64));
    assert(all =~= (head + env_part) + arg_end + (arg_words + count));
    assert(arg_end.skip(2) =~= seq![]);
    lemma_in_group(s, all, head + env_part, arg_end, arg_words + count, 1, l.envp - 8, le64(0));
    crate::le::law_le64_round_trip(0);
}

proof fn lemma_entry_envp(
    s: StackRun,
    sp: int,
    name: Seq<char>,
    args: Seq<Seq<char>>,
    info: EntryInfo,
    i: int,
)
    requires
        s.run(entry_ops(sp, name, args, info)).ok,
        0 <= i < 3,
    ensures
        ({
            let l = entry_layout(sp, name, args);
            let end = s.run(entry_ops(sp, name, args, info)).m;
            &&& end.read_u64(l.envp + 8 * i) == Some(envp_words(l.args)[i])
            &&& end.read_u64(l.envp + 24) == Some(0u64)
        }),
{
    let l = entry_layout(sp, name, args);
    let all = entry_ops(sp, name, args, info);
    lemma_pointers_after(sp, name, args, info);
    lemma_entry_shape(sp, name, args);
    let head = entry_before(l, sp, name, args, info);
    let words = envp_words(l.args);
    let env_end = word_ops(l.auxv, 0);
    let env_words = words_ops(l.auxv - 8, words, 3);
    let after = pointers_after(l, sp, name, args, 2);
    assert(all =~= (head + env_end) + env_words + after);
    lemma_words_stand(s, all, head + env_end, l.auxv - 8, words, after, i);
    assert(all =~= head + env_end + (env_words + after));
    assert(env_end.skip(2) =~= seq![]);
    lemma_in_group(s, all, head, env_end, env_words + after, 1, l.auxv - 8, le64(0));
    crate::le::law_le64_round_trip(0);
}

proof fn lemma_entry_auxv(
    s: StackRun,
    sp: int,
    name: Seq<char>,
    args: Seq<Seq<char>>,
    info: EntryInfo,
    i: int,
)
    requires
        s.run(entry_ops(sp, name, args, info)).ok,
        0 <= i < 14,
    ensures
        ({
            let l = entry_layout(sp, name, args);
            let end = s.run(entry_ops(sp, name, args, info)).m;
            let pairs = auxv_pairs(info, l.random as u64);
            &&& end.read_u64(l.auxv + 16 * i) == Some(pairs[i].0)
            &&& end.read_u64(l.auxv + 16 * i + 8) == Some(pairs[i].1)
        }),
{
    let l = entry_layout(sp, name, args);
    let all = entry_ops(sp, name, args, info);
    lemma_parts_below(sp, name, args, info);
    lemma_pointers_after(sp, name, args, info);
    lemma_entry_shape(sp, name, args);
    let head = entry_text_ops(sp, name, args) + entry_random_ops(l, args.len() as int);
    let pairs = auxv_pairs(info, l.random as u64);
    let after = pointers_after(l, sp, name, args, 4);
    assert(all =~= head + pairs_ops(l.random, pairs, 14) + after);
    lemma_pairs_stand(s, all, head, l.random, pairs, after, i);
}

/// A program's stack that was built without failure holds what the program expects:
/// at the stack pointer the argument count, then the pointers to the process name and
/// the arguments, then the pointers to the environment, each with a null pointer at
/// its end, then the auxiliary vector, all without a gap. The stack pointer is a multiple of sixteen
/// where it was before.
pub proof fn law_entry_pointers(
    stack: GuestStack,
    m: Machine,
    name: Seq<char>,
    args: Seq<Seq<char>>,
    info: EntryInfo,
    i: int,
)
    requires
        stack.begun(m).run(entry_ops(stack.sp as int, name, args, info)).ok,
    ensures
        ({
            let sp = stack.sp as int;
            let l = entry_layout(sp, name, args);
            let end = stack.begun(m).run(entry_ops(sp, name, args, info)).m;
            let n = args.len() as int;
            &&& sp % 16 == 0 ==> l.sp % 16 == 0
            &&& l.argv == l.sp + 8
            &&& l.envp == l.argv + 8 * (n + 2)
            &&& l.auxv == l.envp + 32
            &&& end.read_u32(l.sp) == Some(low32((n + 1) as u64))
            &&& 0 <= i <= n ==> end.read_u64(l.argv + 8 * i) == Some(
                argv_words(sp, name, args)[i],
            )
            &&& end.read_u64(l.argv + 8 * (n + 1)) == Some(0u64)
            &&& 0 <= i < 3 ==> end.read_u64(l.envp + 8 * i) == Some(envp_words(l.args)[i])
            &&& end.read_u64(l.envp + 24) == Some(0u64)
            &&& 0 <= i < 14 ==> {
                &&& end.read_u64(l.auxv + 16 * i) == Some(
                    auxv_pairs(info, l.random as u64)[i].0,
                )
                &&& end.read_u64(l.auxv + 16 * i + 8) == Some(
                    auxv_pairs(info, l.random as u64)[i].1,
                )
            }
        }),
{
    let sp = stack.sp as int;
    let s = stack.begun(m);
    lemma_entry_shape(sp, name, args);
    lemma_entry_argv(s, sp, name, args, info, 0);
    lemma_entry_envp(s, sp, name, args, info, 0);
    if 0 <= i <= args.len() {
        lemma_entry_argv(s, sp, name, args, info, i);
    }
    if 0 <= i < 3 {
        lemma_entry_envp(s, sp, name, args, info, i);
    }
    if 0 <= i < 14 {
        lemma_entry_auxv(s, sp, name, args, info, i);
    }
}

/// Texts take a multiple of sixteen bytes.
proof fn lemma_rooms(texts: Seq<Seq<char>>, n: int)
    ensures
        texts_room(texts, n) % 16 == 0,
    decreases n,
{
    if n > 0 {
        lemma_rooms(texts, n - 1);
    }
}

/// The pointers on a program's stack lead to the process name, the arguments and the
/// environment, each with a zero byte at its end, and the vector's random pointer to
/// the sixteen bytes that were chosen.
#[verifier::rlimit(30)]
pub proof fn law_entry_texts(
    stack: GuestStack,
    m: Machine,
    name: Seq<char>,
    args: Seq<Seq<char>>,
    info: EntryInfo,
    i: int,
)
    requires
        stack.begun(m).run(entry_ops(stack.sp as int, name, args, info)).ok,
    ensures
        ({
            let sp = stack.sp as int;
            let l = entry_layout(sp, name, args);
            let end = stack.begun(m).run(entry_ops(sp, name, args, info)).m;
            &&& end.read(l.name, c_bytes(name).len()) == c_bytes(name)
            &&& 0 <= i < args.len() ==> end.read(
                text_at(l.name, args, i),
                c_bytes(args[i]).len(),
            ) == c_bytes(args[i])
            &&& 0 <= i < 3 ==> end.read(
                text_at(l.args, program_env(), i),
                c_bytes(program_env()[i]).len(),
            ) == c_bytes(program_env()[i])
            &&& end.read_u64(l.random) == Some(STACK_CANARY)
            &&& end.read_u64(l.random + 8) == Some(RANDOM_TAIL)
        }),
{
    let sp = stack.sp as int;
    let l = entry_layout(sp, name, args);
    let n = args.len() as int;
    let s = stack.begun(m);
    let all = entry_ops(sp, name, args, info);
    lemma_parts_below(sp, name, args, info);
    lemma_texts_room(args, 0, n);
    let mark = seq![StackOp::Alloc(0)];
    let name_ops = text_ops(sp, name);
    let arg_texts = texts_ops(l.name, args, n);
    let random = entry_random_ops(l, n);
    let pairs = pairs_ops(l.random, auxv_pairs(info, l.random as u64), 14);
    let env_texts = texts_ops(l.args, program_env(), 3);
    let pointers = pointers_after(l, sp, name, args, 4);
    lemma_pointers_after(sp, name, args, info);
    // The random bytes.
    let a2 = pairs + pointers;
    lemma_below_more(pointers, l.auxv, l.random);
    lemma_below_append(pairs, pointers, l.random);
    let g2 = mark + name_ops + arg_texts + env_texts;
    assert(all =~= g2 + random + a2);
    let p: int = random.len() - 2;
    assert(random[p] == StackOp::Put(l.random, le64(STACK_CANARY)));
    assert(random[p + 1] == StackOp::Put(l.random + 8, le64(RANDOM_TAIL)));
    assert(random.skip(p + 1) =~= seq![StackOp::Put(l.random + 8, le64(RANDOM_TAIL))]);
    assert(random.skip(p + 2) =~= seq![]);
    lemma_in_group(s, all, g2, random, a2, p, l.random, le64(STACK_CANARY));
    lemma_below_more(a2, l.random, l.random + 8);
    lemma_in_group(s, all, g2, random, a2, p + 1, l.random + 8, le64(RANDOM_TAIL));
    crate::le::law_le64_round_trip(STACK_CANARY);
    crate::le::law_le64_round_trip(RANDOM_TAIL);
    // The environment.
    let e3 = random + a2;
    lemma_below_more(a2, l.random, l.env_texts);
    lemma_below_append(random, a2, l.env_texts);
    let g1 = mark + name_ops + arg_texts;
    assert(all =~= g1 + env_texts + e3);
    if 0 <= i < 3 {
        lemma_texts_stand(s, all, g1, l.args, program_env(), e3, i);
    }
    // The arguments.
    let a3 = env_texts + e3;
    lemma_below_more(e3, l.env_texts, l.args);
    lemma_below_append(env_texts, e3, l.args);
    let g3 = mark + name_ops;
    assert(all =~= g3 + arg_texts + a3);
    if 0 <= i < n {
        lemma_texts_stand(s, all, g3, l.name, args, a3, i);
    }
    // The process name.
    let a4 = arg_texts + a3;
    lemma_below_more(a3, l.args, l.name);
    lemma_below_append(arg_texts, a3, l.name);
    assert(all =~= mark + name_ops + a4);
    assert(name_ops.skip(2) =~= seq![]);
    lemma_in_group(s, all, mark, name_ops, a4, 1, l.name, c_bytes(name));
}

/// What a program finds at the stack pointer that it starts with: the number of its
/// arguments, the process name among them; a pointer to the name, one to each argument in
/// their order, and a null pointer; a pointer to each of the three lines of the environment,
/// and a null pointer.
pub proof fn law_program_arguments(
    stack: GuestStack,
    m: Machine,
    name: Seq<char>,
    args: Seq<Seq<char>>,
    info: EntryInfo,
    i: int,
)
    requires
        stack.begun(m).run(entry_ops(stack.sp as int, name, args, info)).ok,
        entry_layout(stack.sp as int, name, args).sp >= 0,
        args.len() < 0xffff_ffff,
    ensures
        ({
            let at = entry_layout(stack.sp as int, name, args).sp;
            let end = stack.begun(m).run(entry_ops(stack.sp as int, name, args, info)).m;
            let n = args.len() as int;
            let env = at + 8 * (n + 3);
            &&& at < stack.sp
            &&& end.read_u32(at) == Some((n + 1) as u32)
            &&& leads_to(end, at + 8, name)
            &&& 0 <= i < n ==> leads_to(end, at + 8 * (i + 2), args[i])
            &&& end.read_u64(at + 8 * (n + 2)) == Some(0u64)
            &&& leads_to(end, env, "ANDROID_DATA=/data"@)
            &&& leads_to(end, env + 8, "ANDROID_ROOT=/system"@)
            &&& leads_to(
                end,
                env + 16,
                "PATH=/sbin:/vendor/bin:/system/sbin:/system/bin:/system/xbin"@,
            )
            &&& end.read_u64(env + 24) == Some(0u64)
        }),
{
    let sp = stack.sp;
    let end = stack.begun(m).run(entry_ops(sp as int, name, args, info)).m;
    lemma_stack_data(stack, m, name, args, info, 0);
    lemma_stack_data(stack, m, name, args, info, 1);
    lemma_stack_data(stack, m, name, args, info, 2);
    lemma_entry_start(end, sp, name, args, info);
    lemma_entry_line(end, sp, name, args, info, 0);
    lemma_entry_line(end, sp, name, args, info, 1);
    lemma_entry_line(end, sp, name, args, info, 2);
    if 0 <= i < args.len() {
        lemma_stack_data(stack, m, name, args, info, i);
        lemma_stack_data(stack, m, name, args, info, i + 1);
        lemma_entry_arg(end, sp, name, args, info, i);
    }
}

/// After the environment stands the auxiliary vector: where the program headers are, their
/// size and number, the page size, the entry point, the user and the group, and a pointer to
/// sixteen random bytes.
pub proof fn law_program_vector(
    stack: GuestStack,
    m: Machine,
    name: Seq<char>,
    args: Seq<Seq<char>>,
    info: EntryInfo,
)
    requires
        stack.begun(m).run(entry_ops(stack.sp as int, name, args, info)).ok,
        entry_layout(stack.sp as int, name, args).sp >= 0,
    ensures
        ({
            let at = entry_layout(stack.sp as int, name, args).sp;
            let end = stack.begun(m).run(entry_ops(stack.sp as int, name, args, info)).m;
            let aux = at + 8 * (args.len() + 7);
            &&& end.read_u64(aux + 0) == Some(3u64)
            &&& end.read_u64(aux + 8) == Some(info.phdr)
            &&& end.read_u64(aux + 16) == Some(4u64)
            &&& end.read_u64(aux + 24) == Some(info.phent)
            &&& end.read_u64(aux + 32) == Some(5u64)
            &&& end.read_u64(aux + 40) == Some(info.phnum)
            &&& end.read_u64(aux + 48) == Some(6u64)
            &&& end.read_u64(aux + 56) == Some(4096u64)
            &&& end.read_u64(aux + 64) == Some(7u64)
            &&& end.read_u64(aux + 72) == Some(0u64)
            &&& end.read_u64(aux + 80) == Some(9u64)
            &&& end.read_u64(aux + 88) == Some(info.entry)
            &&& end.read_u64(aux + 96) == Some(11u64)
            &&& end.read_u64(aux + 104) == Some(10261u64)
            &&& end.read_u64(aux + 112) == Some(12u64)
            &&& end.read_u64(aux + 120) == Some(10261u64)
            &&& end.read_u64(aux + 128) == Some(13u64)
            &&& end.read_u64(aux + 136) == Some(10261u64)
            &&& end.read_u64(aux + 144) == Some(14u64)
            &&& end.read_u64(aux + 152) == Some(10261u64)
            &&& end.read_u64(aux + 160) == Some(16u64)
            &&& end.read_u64(aux + 176) == Some(23u64)
            &&& end.read_u64(aux + 184) == Some(0u64)
            &&& end.read_u64(aux + 192) == Some(25u64)
            &&& end.read_u64(aux + 208) == Some(0u64)
            &&& end.read_u64(aux + 216) == Some(0u64)
            &&& end.read_u64(aux + 200) matches Some(p) && end.read_u64(p as int) is Some
                && end.read_u64(p as int + 8) is Some && aux < p < stack.sp
        }),
{
    let sp = stack.sp;
    let end = stack.begun(m).run(entry_ops(sp as int, name, args, info)).m;
    assert forall|k: int| 0 <= k < 14 implies #[trigger] stack_data(
        end,
        sp as int,
        name,
        args,
        info,
        k,
    ) by {
        lemma_stack_data(stack, m, name, args, info, k);
    }
    lemma_program_vector(end, sp, name, args, info);
}

#[verifier::rlimit(60)]
proof fn lemma_program_vector(
    end: Machine,
    sp: u64,
    name: Seq<char>,
    args: Seq<Seq<char>>,
    info: EntryInfo,
)
    requires
        forall|k: int|
            0 <= k < 14 ==> #[trigger] stack_data(end, sp as int, name, args, info, k),
        entry_layout(sp as int, name, args).sp >= 0,
    ensures
        ({
            let at = entry_layout(sp as int, name, args).sp;
            let aux = at + 8 * (args.len() + 7);
            &&& end.read_u64(aux + 0) == Some(3u64)
            &&& end.read_u64(aux + 8) == Some(info.phdr)
            &&& end.read_u64(aux + 16) == Some(4u64)
            &&& end.read_u64(aux + 24) == Some(info.phent)
            &&& end.read_u64(aux + 32) == Some(5u64)
            &&& end.read_u64(aux + 40) == Some(info.phnum)
            &&& end.read_u64(aux + 48) == Some(6u64)
            &&& end.read_u64(aux + 56) == Some(4096u64)
            &&& end.read_u64(aux + 64) == Some(7u64)
            &&& end.read_u64(aux + 72) == Some(0u64)
            &&& end.read_u64(aux + 80) == Some(9u64)
            &&& end.read_u64(aux + 88) == Some(info.entry)
            &&& end.read_u64(aux + 96) == Some(11u64)
            &&& end.read_u64(aux + 104) == Some(10261u64)
            &&& end.read_u64(aux + 112) == Some(12u64)
            &&& end.read_u64(aux + 120) == Some(10261u64)
            &&& end.read_u64(aux + 128) == Some(13u64)
            &&& end.read_u64(aux + 136) == Some(10261u64)
            &&& end.read_u64(aux + 144) == Some(14u64)
            &&& end.read_u64(aux + 152) == Some(10261u64)
            &&& end.read_u64(aux + 160) == Some(16u64)
            &&& end.read_u64(aux + 176) == Some(23u64)
            &&& end.read_u64(aux + 184) == Some(0u64)
            &&& end.read_u64(aux + 192) == Some(25u64)
            &&& end.read_u64(aux + 208) == Some(0u64)
            &&& end.read_u64(aux + 216) == Some(0u64)
            &&& end.read_u64(aux + 200) matches Some(p) && end.read_u64(p as int) is Some
                && end.read_u64(p as int + 8) is Some && aux < p < sp
        }),
{
    let l = entry_layout(sp as int, name, args);
    lemma_texts_room(args, 0, args.len() as int);
    lemma_texts_room(program_env(), 0, 3);
    lemma_text_room(name);
    lemma_entry_pair(end, sp, name, args, info, 0);
    lemma_entry_pair(end, sp, name, args, info, 1);
    lemma_entry_pair(end, sp, name, args, info, 2);
    lemma_entry_pair(end, sp, name, args, info, 3);
    lemma_entry_pair(end, sp, name, args, info, 4);
    lemma_entry_pair(end, sp, name, args, info, 5);
    lemma_entry_pair(end, sp, name, args, info, 6);
    lemma_entry_pair(end, sp, name, args, info, 7);
    lemma_entry_pair(end, sp, name, args, info, 8);
    lemma_entry_pair(end, sp, name, args, info, 9);
    lemma_entry_pair(end, sp, name, args, info, 10);
    lemma_entry_pair(end, sp, name, args, info, 11);
    lemma_entry_pair(end, sp, name, args, info, 12);
    lemma_entry_pair(end, sp, name, args, info, 13);
}

/// What the pointers and texts of a program's stack were shown to be, for one end state.
#[verifier::opaque]
spec fn stack_data(
    end: Machine,
    sp: int,
    name: Seq<char>,
    args: Seq<Seq<char>>,
    info: EntryInfo,
    i: int,
) -> bool {
    let l = entry_layout(sp, name, args);
    let n = args.len() as int;
    &&& l.argv == l.sp + 8
    &&& l.envp == l.argv + 8 * (n + 2)
    &&& l.auxv == l.envp + 32
    &&& end.read_u32(l.sp) == Some(low32((n + 1) as u64))
    &&& 0 <= i <= n ==> end.read_u64(l.argv + 8 * i) == Some(argv_words(sp, name, args)[i])
    &&& end.read_u64(l.argv + 8 * (n + 1)) == Some(0u64)
    &&& 0 <= i < 3 ==> end.read_u64(l.envp + 8 * i) == Some(envp_words(l.args)[i])
    &&& end.read_u64(l.envp + 24) == Some(0u64)
    &&& 0 <= i < 14 ==> {
        &&& end.read_u64(l.auxv + 16 * i) == Some(auxv_pairs(info, l.random as u64)[i].0)
        &&& end.read_u64(l.auxv + 16 * i + 8) == Some(auxv_pairs(info, l.random as u64)[i].1)
    }
    &&& end.read(l.name, c_bytes(name).len()) == c_bytes(name)
    &&& 0 <= i < n ==> end.read(text_at(l.name, args, i), c_bytes(args[i]).len()) == c_bytes(
        args[i],
    )
    &&& 0 <= i < 3 ==> end.read(
        text_at(l.args, program_env(), i),
        c_bytes(program_env()[i]).len(),
    ) == c_bytes(program_env()[i])
    &&& end.read_u64(l.random) == Some(STACK_CANARY)
    &&& end.read_u64(l.random + 8) == Some(RANDOM_TAIL)
}

proof fn lemma_stack_data(
    stack: GuestStack,
    m: Machine,
    name: Seq<char>,
    args: Seq<Seq<char>>,
    info: EntryInfo,
    i: int,
)
    requires
        stack.begun(m).run(entry_ops(stack.sp as int, name, args, info)).ok,
    ensures
        stack_data(
            stack.begun(m).run(entry_ops(stack.sp as int, name, args, info)).m,
            stack.sp as int,
            name,
            args,
            info,
            i,
        ),
{
    reveal(stack_data);
    law_entry_pointers(stack, m, name, args, info, i);
    law_entry_texts(stack, m, name, args, info, i);
}

#[verifier::rlimit(40)]
proof fn lemma_entry_start(
    end: Machine,
    sp: u64,
    name: Seq<char>,
    args: Seq<Seq<char>>,
    info: EntryInfo,
)
    requires
        stack_data(end, sp as int, name, args, info, 0),
        entry_layout(sp as int, name, args).sp >= 0,
        args.len() < 0xffff_ffff,
    ensures
        ({
            let at = entry_layout(sp as int, name, args).sp;
            let n = args.len() as int;
            &&& at < sp
            &&& end.read_u32(at) == Some((n + 1) as u32)
            &&& end.read_u64(at + 8) matches Some(p) && text_stands(end, p as int, name)
            &&& end.read_u64(at + 8 * (n + 2)) == Some(0u64)
        }),
{
    let l = entry_layout(sp as int, name, args);
    let n = args.len() as int;
    let count: u64 = (n + 1) as u64;
    assert(low32(count) == count as u32);
    assert(0 <= l.name < sp && l.sp < sp && argv_words(sp as int, name, args)[0] == l.name) by {
        lemma_texts_room(args, 0, n);
        lemma_texts_room(program_env(), 0, 3);
        lemma_text_room(name);
    }
    assert(end.read(l.name, c_bytes(name).len()) == c_bytes(name)) by {
        reveal(stack_data);
    }
    lemma_text_stands(end, l.name, name);
    assert(end.read_u64(l.sp + 8) == Some(l.name as u64)) by {
        reveal(stack_data);
        assert(l.argv + 8 * 0 == l.sp + 8);
    }
    assert(end.read_u32(l.sp) == Some(count as u32) && end.read_u64(l.sp + 8 * (n + 2)) == Some(
        0u64,
    )) by {
        reveal(stack_data);
    }
}

proof fn lemma_entry_arg(
    end: Machine,
    sp: u64,
    name: Seq<char>,
    args: Seq<Seq<char>>,
    info: EntryInfo,
    i: int,
)
    requires
        stack_data(end, sp as int, name, args, info, i),
        stack_data(end, sp as int, name, args, info, i + 1),
        entry_layout(sp as int, name, args).sp >= 0,
        0 <= i < args.len(),
    ensures
        end.read_u64(entry_layout(sp as int, name, args).sp + 8 * (i + 2)) matches Some(p)
            && text_stands(end, p as int, args[i]),
{
    reveal(stack_data);
    let l = entry_layout(sp as int, name, args);
    let n = args.len() as int;
    lemma_texts_room(args, i + 1, n);
    lemma_texts_room(program_env(), 0, 3);
    lemma_text_room(name);
    let p = text_at(l.name, args, i);
    assert(0 <= p < sp);
    assert(argv_words(sp as int, name, args)[i + 1] == p);
    lemma_text_stands(end, p, args[i]);
}

proof fn lemma_entry_line(
    end: Machine,
    sp: u64,
    name: Seq<char>,
    args: Seq<Seq<char>>,
    info: EntryInfo,
    i: int,
)
    requires
        stack_data(end, sp as int, name, args, info, i),
        entry_layout(sp as int, name, args).sp >= 0,
        0 <= i < 3,
    ensures
        ({
            let l = entry_layout(sp as int, name, args);
            &&& l.envp == l.sp + 8 * (args.len() + 3)
            &&& end.read_u64(l.envp + 8 * i) matches Some(p) && text_stands(
                end,
                p as int,
                program_env()[i],
            )
            &&& end.read_u64(l.envp + 24) == Some(0u64)
        }),
{
    reveal(stack_data);
    let l = entry_layout(sp as int, name, args);
    lemma_texts_room(args, 0, args.len() as int);
    lemma_texts_room(program_env(), i + 1, 3);
    lemma_text_room(name);
    let p = text_at(l.args, program_env(), i);
    assert(0 <= p < sp);
    assert(envp_words(l.args)[i] == p);
    lemma_text_stands(end, p, program_env()[i]);
}

proof fn lemma_entry_pair(
    end: Machine,
    sp: u64,
    name: Seq<char>,
    args: Seq<Seq<char>>,
    info: EntryInfo,
    k: int,
)
    requires
        stack_data(end, sp as int, name, args, info, k),
        0 <= k < 14,
    ensures
        ({
            let l = entry_layout(sp as int, name, args);
            let aux = l.sp + 8 * (args.len() + 3) + 32;
            let pairs = auxv_pairs(info, l.random as u64);
            &&& aux == l.auxv
            &&& end.read_u64(aux + 16 * k) == Some(pairs[k].0)
            &&& end.read_u64(aux + 16 * k + 8) == Some(pairs[k].1)
            &&& end.read_u64(l.random) == Some(STACK_CANARY)
            &&& end.read_u64(l.random + 8) == Some(RANDOM_TAIL)
        }),
{
    reveal(stack_data);
}

/// What a program is told about itself: its headers stand at its base and their offset in the
/// file, its entry point at its base and the entry's offset.
pub proof fn law_entry_info(m: LinuxModule)
    requires
        m.base + m.entry_point <= u64::MAX,
        m.elf_file matches Some(e) && m.base + e.ph_offset <= u64::MAX,
    ensures
        entry_info(m).entry == m.base + m.entry_point,
        entry_info(m).phdr == m.base + m.elf_file->0.ph_offset,
        entry_info(m).phent == m.elf_file->0.ph_entry_size,
        entry_info(m).phnum == m.elf_file->0.num_ph,
{
}

} // verus!
