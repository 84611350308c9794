//! The asset library of the NDK.
//!
//! It is missing from many system images, while libraries that need it load fine as
//! long as its name is there. Its functions do nothing and give zero.
use vstd::prelude::*;
use crate::android::sdk::{lib64_dir, root_of};
use crate::backend::{lemma_half_apart, Backend, Machine};
use crate::emulator::state::AndroidEmulator;
use crate::linux::module::is_span;
use crate::memory::loader::AndroidElfLoader;
use crate::memory::svc_memory::{
    law_plain_stub, plain_stub, SvcCallResult, SvcHandler, SvcMemory,
};
use crate::outside::{entry_has_key, has_entry, index_contains, index_entries, put_entry};
use crate::text::join3;
use crate::tool::aligned;

verus! {

pub const SO_NAME: &'static str = "libandroid.so";

/// The number of functions that stand in.
pub const STUB_COUNT: usize = 6;

/// The functions that stand in.
pub open spec fn stub_name(i: int) -> Seq<char> {
    if i == 0 {
        "AAssetManager_fromJava"@
    } else if i == 1 {
        "AAssetManager_open"@
    } else if i == 2 {
        "AAsset_close"@
    } else if i == 3 {
        "AAsset_getBuffer"@
    } else if i == 4 {
        "AAsset_getLength"@
    } else {
        "AAsset_read"@
    }
}

fn stub_text(i: usize) -> (r: String)
    ensures
        r@ == stub_name(i as int),
{
    if i == 0 {
        "AAssetManager_fromJava".to_owned()
    } else if i == 1 {
        "AAssetManager_open".to_owned()
    } else if i == 2 {
        "AAsset_close".to_owned()
    } else if i == 3 {
        "AAsset_getBuffer".to_owned()
    } else if i == 4 {
        "AAsset_getLength".to_owned()
    } else {
        "AAsset_read".to_owned()
    }
}

/// What every function of the library does.
pub fn android_stub() -> (r: SvcCallResult)
    ensures
        r == SvcCallResult::RET(0),
{
    SvcCallResult::RET(0)
}

/// The machine after `n` stubs were put from `at` on, the first with number `first`.
pub open spec fn stubs_put(m: Machine, at: int, first: int, n: int) -> Machine
    decreases n,
{
    if n <= 0 {
        m
    } else {
        stubs_put(m, at, first, n - 1).write(
            at + (n - 1) * 16,
            plain_stub((first + n - 1) as u32),
        )
    }
}

/// There is room for the stubs of the library.
pub open spec fn can_put_stubs(m: Machine, svc: SvcMemory) -> bool {
    &&& svc.next + STUB_COUNT * 16 <= svc.end
    &&& svc.end + 0xfff <= u64::MAX
    &&& svc.handlers@.len() + STUB_COUNT <= 0x10000
    &&& m.mapped(svc.next as int, STUB_COUNT * 16)
}

/// The stubs and their names are in place: the library stands in the list and has its
/// name.
pub open spec fn library_registered(
    m: Machine,
    e: AndroidEmulator,
    m2: Machine,
    e2: AndroidEmulator,
) -> bool {
    let svc = e.svc_memory;
    let svc2 = e2.svc_memory;
    let i = e.memory.list@.len();
    let module = e2.memory.list@[i as int];
    &&& m2 == stubs_put(m, svc.next as int, svc.handlers@.len() as int, STUB_COUNT as int)
    &&& svc2.next == svc.next + STUB_COUNT * 16
    &&& svc2.end == svc.end
    &&& svc2.handlers@ == svc.handlers@ + Seq::new(
        STUB_COUNT as nat,
        |k: int| SvcHandler::AndroidStub,
    )
    &&& e2.memory.list@.len() == i + 1
    &&& e2.memory.list@.drop_last() == e.memory.list@
    &&& module.without_image(SO_NAME@)
    &&& (module.base as int, module.size as int) == aligned(
        svc.next as int,
        (STUB_COUNT - 1) * 16,
        0x1000,
    )
    &&& index_entries(e2.memory.modules) == put_entry(
        index_entries(e.memory.modules),
        SO_NAME@,
        i as usize,
    )
    &&& e2.memory == (AndroidElfLoader {
        list: e2.memory.list,
        modules: e2.memory.modules,
        ..e.memory
    })
    &&& e2 == (AndroidEmulator { svc_memory: svc2, memory: e2.memory, ..e })
}

/// Put the library in place. Gives its position in the list of modules.
pub fn register(backend: &mut Backend, emulator: &mut AndroidEmulator) -> (i: usize)
    requires
        old(emulator).wf(),
        can_put_stubs(old(backend)@, old(emulator).svc_memory),
    ensures
        final(emulator).wf(),
        i == old(emulator).memory.list@.len(),
        library_registered(old(backend)@, *old(emulator), final(backend)@, *final(emulator)),
{
    let ghost m = backend@;
    let ghost svc = emulator.svc_memory;
    let ghost first = svc.handlers@.len() as int;
    let mut symbols: Vec<(String, u64)> = Vec::new();
    let mut k: usize = 0;
    assert(svc.handlers@ + Seq::new(0, |k: int| SvcHandler::AndroidStub) =~= svc.handlers@);
    while k < STUB_COUNT
        invariant
            k <= STUB_COUNT,
            m == old(backend)@,
            svc == old(emulator).svc_memory,
            first == svc.handlers@.len(),
            can_put_stubs(m, svc),
            backend@ == stubs_put(m, svc.next as int, first, k as int),
            backend@.mem.dom() == m.mem.dom(),
            emulator.svc_memory.next == svc.next + k * 16,
            emulator.svc_memory.end == svc.end,
            emulator.svc_memory.handlers@ == svc.handlers@ + Seq::new(
                k as nat,
                |k: int| SvcHandler::AndroidStub,
            ),
            *emulator == (AndroidEmulator {
                svc_memory: emulator.svc_memory,
                ..*old(emulator)
            }),
            symbols@.len() == k,
            forall|j: int|
                0 <= j < k ==> (#[trigger] symbols@[j]).1 == svc.next + j * 16 && symbols@[j].0@
                    == stub_name(j),
        decreases STUB_COUNT - k,
    {
        let ghost handlers = emulator.svc_memory.handlers@;
        let addr: u64 = emulator.svc_memory.register_svc(backend, SvcHandler::AndroidStub);
        symbols.push((stub_text(k), addr));
        k = k + 1;
        assert(backend@.mem.dom() =~= m.mem.dom());
        assert(emulator.svc_memory.handlers@ =~= svc.handlers@ + Seq::new(
            k as nat,
            |k: int| SvcHandler::AndroidStub,
        ));
    }
    let i: usize = emulator.memory.load_virtual_module(SO_NAME.to_owned(), &symbols);
    proof {
        let lo = svc.next;
        let hi = (svc.next + 80) as u64;
        assert(symbols@[0].1 == lo);
        assert(symbols@[5].1 == hi);
        assert forall|a: u64, b: u64| #[trigger] is_span(symbols@, a, b) implies a == lo && b
            == hi by {
            assert(symbols@[0].1 == lo);
            assert(symbols@[5].1 == hi);
        }
    }
    i
}

/// Where the host would have the real library.
pub fn host_library(base_path: &str) -> (r: String)
    ensures
        r@ == root_of(base_path@) + "/system/lib64"@ + "/"@ + SO_NAME@,
{
    let dir = lib64_dir(base_path);
    join3(dir.as_str(), "/", SO_NAME)
}

/// The library is in place, or the host has the real one: nothing changes where a module
/// has its name already or the host has it, and else it is registered.
pub open spec fn registration_ensured(
    m: Machine,
    e: AndroidEmulator,
    on_host: bool,
    m2: Machine,
    e2: AndroidEmulator,
) -> bool {
    if on_host || has_entry(index_entries(e.memory.modules), SO_NAME@) {
        m2 == m && e2 == e
    } else {
        library_registered(m, e, m2, e2)
    }
}

/// Put the library in place unless a module has its name already or the host has the
/// real one.
pub fn ensure_registered(backend: &mut Backend, emulator: &mut AndroidEmulator, on_host: bool)
    requires
        old(emulator).wf(),
        !on_host && !has_entry(index_entries(old(emulator).memory.modules), SO_NAME@)
            ==> can_put_stubs(old(backend)@, old(emulator).svc_memory),
    ensures
        final(emulator).wf(),
        registration_ensured(
            old(backend)@,
            *old(emulator),
            on_host,
            final(backend)@,
            *final(emulator),
        ),
{
    if index_contains(&emulator.memory.modules, SO_NAME) {
        return ;
    }
    if on_host {
        return ;
    }
    register(backend, emulator);
}

/// After the library was ensured, its name leads to a module exactly where it did before
/// or the host has no real one. A module that had the name keeps it and stays as it was.
/// So do all other modules and their names: at most one name and one module are added.
/// Ensuring the library again changes nothing.
pub proof fn law_registered_once(
    m: Machine,
    e: AndroidEmulator,
    on_host: bool,
    m2: Machine,
    e2: AndroidEmulator,
    m3: Machine,
    e3: AndroidEmulator,
)
    requires
        registration_ensured(m, e, on_host, m2, e2),
        registration_ensured(m2, e2, on_host, m3, e3),
    ensures
        ({
            let before = index_entries(e.memory.modules);
            let after = index_entries(e2.memory.modules);
            let had = has_entry(before, SO_NAME@);
            let count = e.memory.list@.len();
            &&& has_entry(after, SO_NAME@) <==> had || !on_host
            &&& had ==> m2 == m && e2 == e
            &&& after == if had || on_host {
                before
            } else {
                before.push((SO_NAME@, count as usize))
            }
            &&& e2.memory.list@.take(count as int) == e.memory.list@
        }),
        m3 == m2,
        e3 == e2,
{
    let before = index_entries(e.memory.modules);
    let after = index_entries(e2.memory.modules);
    let count = e.memory.list@.len() as int;
    if !on_host && !has_entry(before, SO_NAME@) {
        assert(entry_has_key(after, SO_NAME@, before.len() as int));
        assert(e2.memory.list@.take(count) =~= e2.memory.list@.drop_last());
    } else {
        assert(e2.memory.list@.take(count) =~= e.memory.list@);
    }
}

/// Each function of the library is a stub of its own, sixteen bytes after the one before. Its
/// trap has the number under which the handler that gives zero stands.
pub proof fn law_library_stubs(m: Machine, e: AndroidEmulator, m2: Machine, e2: AndroidEmulator, k: int)
    requires
        can_put_stubs(m, e.svc_memory),
        library_registered(m, e, m2, e2),
        0 <= k < 6,
    ensures
        ({
            let at = e.svc_memory.next + 16 * k;
            &&& m2.read_u32(at) matches Some(w)
            &&& w & 0xffe0_001f == 0xd400_0001
            &&& (w >> 5u32) & 0xffff == e.svc_memory.handlers@.len() + k
            &&& e2.svc_memory.handlers@[e.svc_memory.handlers@.len() + k] == SvcHandler::AndroidStub
            &&& m2.read_u32(at + 4) == Some(0xd65f_03c0u32)
        }),
{
    let svc = e.svc_memory;
    lemma_stub_stands(m, svc.next as int, svc.handlers@.len() as int, k, 6);
}

#[verifier::rlimit(40)]
proof fn lemma_stub_stands(m: Machine, at: int, first: int, k: int, n: int)
    requires
        0 <= k < n <= 6,
        m.mapped(at, 96),
        0 <= first,
        first + 6 <= 0x10000,
    ensures
        ({
            let after = stubs_put(m, at, first, n);
            &&& after.mem.dom() == m.mem.dom()
            &&& after.read_u32(at + 16 * k) matches Some(w)
            &&& w & 0xffe0_001f == 0xd400_0001
            &&& (w >> 5u32) & 0xffff == first + k
            &&& after.read_u32(at + 16 * k + 4) == Some(0xd65f_03c0u32)
        }),
    decreases n,
{
    let before = stubs_put(m, at, first, n - 1);
    let code = plain_stub((first + n - 1) as u32);
    let after = stubs_put(m, at, first, n);
    lemma_stubs_domain(m, at, first, n - 1);
    assert(before.mapped(at + (n - 1) * 16, 8)) by {
        assert forall|a: int| at + (n - 1) * 16 <= a < at + (n - 1) * 16 + 8 implies before.mem.dom().contains(
            a,
        ) by {
            assert(m.mem.dom().contains(a));
        }
    }
    assert(after.mem.dom() =~= m.mem.dom());
    if k == n - 1 {
        law_plain_stub(before, at + 16 * k, (first + k) as u32);
    } else {
        lemma_stub_stands(m, at, first, k, n - 1);
        assert(code.len() == 8);
        lemma_half_apart(before, at + (n - 1) * 16, code, at + 16 * k);
        lemma_half_apart(before, at + (n - 1) * 16, code, at + 16 * k + 4);
    }
}

proof fn lemma_stubs_domain(m: Machine, at: int, first: int, n: int)
    requires
        n <= 6,
        m.mapped(at, 96),
    ensures
        stubs_put(m, at, first, n).mem.dom() == m.mem.dom(),
    decreases n,
{
    if n > 0 {
        lemma_stubs_domain(m, at, first, n - 1);
        assert(stubs_put(m, at, first, n).mem.dom() =~= m.mem.dom());
    }
}

} // verus!
