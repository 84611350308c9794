//! The last step of loading an image: its initialisers, and its place among the
//! modules.
use std::collections::VecDeque;
use vstd::prelude::*;
use crate::backend::{lemma_word_apart, lemma_word_stored, Backend, BackendError, Machine};
use crate::elf::{first_named, lemma_first_named, SymbolTable, SHT_SYMTAB};
use crate::le::le64;
use crate::linux::init_fun::{AbsoluteInitFunction, InitFunction, LinuxInitFunction};
use crate::linux::module::{needs_below, LinuxModule};
use crate::linux::resolved::{put_place, recorded, ResolvedPlaces};
use crate::linux::symbol::{entry_view, symbol_refs, LinuxSymbol, ModuleSymbol, SymbolRef};
use crate::memory::load::Loading;
use crate::memory::loader::{
    fill_places, lemma_places_stuck, named_within, places_filled, AndroidElfLoader,
};
use crate::memory::relocate::{
    asked_offset, cached_hook, first_hook, hook_key, relocated, words_stored, SymbolAnswer,
};
use crate::memory::segments::LoadError;
use crate::num::{address_limit, bits_of_i64, law_signed_bits_round_trip};
use crate::outside::{index_at, index_entries, index_len, put_entry};
use crate::text::str_eq;

verus! {

/// The image is a program, not a library.
pub open spec fn is_executable(l: Loading) -> bool {
    l.elf.file_type == 2 || l.dynamic.preinit_array_size > 0
}

/// How many initialisers the image has that run before all others.
pub open spec fn preinit_count(l: Loading) -> int {
    if is_executable(l) {
        l.dynamic.preinit_array_size as int / 8
    } else {
        0
    }
}

/// How many initialisers its array has; only a shared object's array counts.
pub open spec fn init_count(l: Loading) -> int {
    if l.elf.file_type == 3 {
        l.dynamic.init_array_size as int / 8
    } else {
        0
    }
}

/// The image has a single initialiser of its own.
pub open spec fn has_init(l: Loading) -> bool {
    l.elf.file_type == 3 && l.dynamic.init > 0
}

/// The arrays stay in the address space.
pub open spec fn inits_fit(l: Loading) -> bool {
    &&& preinit_count(l) > 0 ==> l.load_base + l.dynamic.preinit_array_offset + 8
        * preinit_count(l) <= u64::MAX
    &&& init_count(l) > 0 ==> l.load_base + l.dynamic.init_array_offset + 8 * init_count(l)
        <= u64::MAX
}

/// `count` slots from `ptr` on can be read.
pub open spec fn slots_mapped(m: Machine, ptr: int, count: int) -> bool {
    forall|i: int| 0 <= i < count ==> (#[trigger] m.read_u64(ptr + 8 * i)) is Some
}

/// `f` is the initialiser in slot `i` of the array at `ptr`.
pub open spec fn is_slot(f: InitFunction, m: Machine, l: Loading, ptr: int, i: int) -> bool {
    &&& f matches InitFunction::ABSOLUTE(a)
    &&& a.load_base == l.load_base
    &&& a.lib_name@ == l.so_name@
    &&& a.ptr == ptr + 8 * i
    &&& m.read_u64(ptr + 8 * i) == Some(a.addr)
}

/// `list` holds the initialisers of an image in the order they run: those that come
/// before all others, the single one, then the array.
pub open spec fn is_init_list(list: Seq<InitFunction>, m: Machine, l: Loading) -> bool {
    let pre = preinit_count(l);
    let one: int = if has_init(l) {
        1
    } else {
        0
    };
    &&& list.len() == pre + one + init_count(l)
    &&& forall|i: int|
        0 <= i < pre ==> is_slot(
            #[trigger] list[i],
            m,
            l,
            l.load_base + l.dynamic.preinit_array_offset,
            i,
        )
    &&& has_init(l) ==> (list[pre] matches InitFunction::LINUX(f) && f.load_base == l.load_base
        && f.lib_name@ == l.so_name@ && f.addr == l.dynamic.init)
    &&& forall|i: int|
        pre + one <= i < list.len() ==> is_slot(
            #[trigger] list[i],
            m,
            l,
            l.load_base + l.dynamic.init_array_offset,
            i - pre - one,
        )
}

/// All slots of the image's arrays can be read.
pub open spec fn inits_readable(m: Machine, l: Loading) -> bool {
    &&& slots_mapped(m, l.load_base + l.dynamic.preinit_array_offset, preinit_count(l))
    &&& slots_mapped(m, l.load_base + l.dynamic.init_array_offset, init_count(l))
}

fn collect_array(
    list: &mut VecDeque<InitFunction>,
    backend: &Backend,
    l: &Loading,
    ptr: u64,
    count: u64,
) -> (r: Result<(), BackendError>)
    requires
        ptr + 8 * count <= u64::MAX,
        old(list)@.len() + count <= u64::MAX,
    ensures
        r is Ok <==> slots_mapped(backend@, ptr as int, count as int),
        r is Err ==> r == Err::<(), BackendError>(BackendError::Unmapped),
        r is Ok ==> {
            &&& final(list)@.len() == old(list)@.len() + count
            &&& forall|i: int| 0 <= i < old(list)@.len() ==> final(list)@[i] == old(list)@[i]
            &&& forall|i: int|
                old(list)@.len() <= i < final(list)@.len() ==> is_slot(
                    #[trigger] final(list)@[i],
                    backend@,
                    *l,
                    ptr as int,
                    i - old(list)@.len(),
                )
        },
{
    let mut i: u64 = 0;
    while i < count
        invariant
            i <= count,
            ptr + 8 * count <= u64::MAX,
            list@.len() == old(list)@.len() + i,
            slots_mapped(backend@, ptr as int, i as int),
            forall|j: int| 0 <= j < old(list)@.len() ==> list@[j] == old(list)@[j],
            forall|j: int|
                old(list)@.len() <= j < list@.len() ==> is_slot(
                    #[trigger] list@[j],
                    backend@,
                    *l,
                    ptr as int,
                    j - old(list)@.len(),
                ),
        decreases count - i,
    {
        let name = l.so_name.as_str().to_owned();
        match AbsoluteInitFunction::new(l.load_base, name, ptr + 8 * i, backend) {
            Ok(f) => {
                list.push_back(InitFunction::ABSOLUTE(f));
            },
            Err(e) => {
                assert(backend@.read_u64(ptr + 8 * i) is None);
                return Err(e);
            },
        }
        i = i + 1;
    }
    Ok(())
}

/// The initialisers of an image.
pub fn collect_init_functions(backend: &Backend, l: &Loading) -> (r: Result<
    VecDeque<InitFunction>,
    BackendError,
>)
    requires
        inits_fit(*l),
    ensures
        match r {
            Ok(list) => inits_readable(backend@, *l) && is_init_list(list@, backend@, *l),
            Err(e) => !inits_readable(backend@, *l) && e == BackendError::Unmapped,
        },
{
    let mut list: VecDeque<InitFunction> = VecDeque::new();
    let executable = l.elf.file_type == 2 || l.dynamic.preinit_array_size > 0;
    if executable {
        let count: u64 = l.dynamic.preinit_array_size as u64 / 8;
        if count > 0 {
            let pointer: u64 = l.load_base + l.dynamic.preinit_array_offset;
            match collect_array(&mut list, backend, l, pointer, count) {
                Ok(_) => {},
                Err(e) => {
                    return Err(e);
                },
            }
        }
    }
    assert(list@.len() == preinit_count(*l));
    if l.elf.file_type == 3 {
        if l.dynamic.init > 0 {
            let name = l.so_name.as_str().to_owned();
            list.push_back(
                InitFunction::LINUX(LinuxInitFunction::new(l.load_base, name, l.dynamic.init)),
            );
        }
        let count: u64 = l.dynamic.init_array_size as u64 / 8;
        if count > 0 {
            let pointer: u64 = l.load_base + l.dynamic.init_array_offset;
            match collect_array(&mut list, backend, l, pointer, count) {
                Ok(_) => {},
                Err(e) => {
                    return Err(e);
                },
            }
        }
    }
    Ok(list)
}

/// The words that a program stores anew in a module: for each of the first `n` places
/// that the module had resolved and whose symbol the program defines itself, the
/// address by the program's symbol.
pub open spec fn module_words(places: Seq<ModuleSymbol>, table: SymbolTable, n: int) -> Seq<
    (int, u64),
>
    decreases n,
{
    if n <= 0 {
        Seq::empty()
    } else {
        let before = module_words(places, table, n - 1);
        match rebound(places[n - 1], table) {
            Some(w) => before.push(w),
            None => before,
        }
    }
}

/// The word for one such place.
pub open spec fn rebound(place: ModuleSymbol, table: SymbolTable) -> Option<(int, u64)> {
    match place@.symbol {
        Some((name, _)) => match first_named(table.entries@, name, 0) {
            Some(s) if !s.undefined() => Some(
                (
                    place.relocation_addr as int,
                    SymbolRef { symbol: Some((name, s)), ..place@ }.target(),
                ),
            ),
            _ => None,
        },
        None => None,
    }
}

/// The words for the first `n` named modules.
pub open spec fn program_words(
    list: Seq<LinuxModule>,
    entries: Seq<(Seq<char>, usize)>,
    table: SymbolTable,
    n: int,
) -> Seq<(int, u64)>
    decreases n,
{
    if n <= 0 {
        Seq::empty()
    } else {
        let places = list[entries[n - 1].1 as int].resolved_symbol@;
        program_words(list, entries, table, n - 1) + module_words(
            places,
            table,
            places.len() as int,
        )
    }
}

/// Storing words in two parts is storing them in one go.
proof fn lemma_words_append(m: Machine, a: Seq<(int, u64)>, b: Seq<(int, u64)>, n: int)
    requires
        0 <= n <= b.len(),
    ensures
        words_stored(m, a + b, a.len() + n) == {
            let (mid, ok) = words_stored(m, a, a.len() as int);
            if ok {
                words_stored(mid, b, n)
            } else {
                (mid, false)
            }
        },
    decreases n,
{
    if n == 0 {
        lemma_words_prefix(m, a, a + b, a.len() as int);
    } else {
        lemma_words_append(m, a, b, n - 1);
        assert((a + b)[a.len() + n - 1] == b[n - 1]);
    }
}

proof fn lemma_words_prefix(m: Machine, a: Seq<(int, u64)>, c: Seq<(int, u64)>, n: int)
    requires
        0 <= n <= a.len() <= c.len(),
        forall|i: int| 0 <= i < n ==> a[i] == c[i],
    ensures
        words_stored(m, a, n) == words_stored(m, c, n),
    decreases n,
{
    if n > 0 {
        lemma_words_prefix(m, a, c, n - 1);
    }
}

/// All the words in one go: once one could not be stored, the rest changes nothing.
proof fn lemma_words_stuck(m: Machine, words: Seq<(int, u64)>, n: int, total: int)
    requires
        0 <= n <= total,
        !words_stored(m, words, n).1,
    ensures
        words_stored(m, words, total) == words_stored(m, words, n),
    decreases total - n,
{
    if n < total {
        lemma_words_stuck(m, words, n + 1, total);
    }
}

fn store_module_words(backend: &mut Backend, places: &ResolvedPlaces, table: &SymbolTable) -> (r:
    Result<(), BackendError>)
    ensures
        ({
            let words = module_words(places@, *table, places@.len() as int);
            let (end, ok) = words_stored(old(backend)@, words, words.len() as int);
            final(backend)@ == end && ok == (r is Ok)
        }),
        r is Err ==> r == Err::<(), BackendError>(BackendError::Unmapped),
{
    let n: usize = places.len();
    let ghost all = module_words(places@, *table, n as int);
    let mut j: usize = 0;
    while j < n
        invariant
            j <= n,
            n == places@.len(),
            all == module_words(places@, *table, n as int),
            ({
                let words = module_words(places@, *table, j as int);
                words_stored(old(backend)@, words, words.len() as int) == (backend@, true)
            }),
        decreases n - j,
    {
        let ghost before = module_words(places@, *table, j as int);
        let ghost next = module_words(places@, *table, j + 1);
        let place = places.get(j);
        if let Some(e) = &place.symbol {
            if let Some(s) = table.get_elf_symbol_by_name(e.name.as_str()) {
                if !s.is_undefined() {
                    let again = ModuleSymbol {
                        so_name: place.so_name.as_str().to_owned(),
                        load_base: place.load_base,
                        symbol: Some(
                            crate::elf::SymbolEntry {
                                name: e.name.as_str().to_owned(),
                                symbol: s,
                            },
                        ),
                        relocation_addr: place.relocation_addr,
                        to_so_name: place.to_so_name.as_str().to_owned(),
                        offset: place.offset,
                    };
                    let ghost word = rebound(*place, *table)->0;
                    assert(again@ == (SymbolRef {
                        symbol: Some((e.name@, s)),
                        ..place@
                    }));
                    proof {
                        assert(next == before.push(word));
                        lemma_words_prefix(
                            old(backend)@,
                            before,
                            next,
                            before.len() as int,
                        );
                    }
                    match again.relocation(backend) {
                        Ok(_) => {},
                        Err(e) => {
                            proof {
                                lemma_module_words_prefix(places@, *table, j + 1, n as int);
                                lemma_words_prefix(
                                    old(backend)@,
                                    next,
                                    all,
                                    next.len() as int,
                                );
                                lemma_words_stuck(
                                    old(backend)@,
                                    all,
                                    next.len() as int,
                                    all.len() as int,
                                );
                            }
                            return Err(e);
                        },
                    }
                }
            }
        }
        j = j + 1;
    }
    Ok(())
}

proof fn lemma_module_words_prefix(places: Seq<ModuleSymbol>, table: SymbolTable, n: int, total: int)
    requires
        0 <= n <= total,
    ensures
        module_words(places, table, n).len() <= module_words(places, table, total).len(),
        forall|i: int|
            0 <= i < module_words(places, table, n).len() ==> module_words(places, table, n)[i]
                == module_words(places, table, total)[i],
    decreases total - n,
{
    if n < total {
        lemma_module_words_prefix(places, table, n + 1, total);
    }
}

proof fn lemma_program_words_prefix(
    list: Seq<LinuxModule>,
    entries: Seq<(Seq<char>, usize)>,
    table: SymbolTable,
    n: int,
    total: int,
)
    requires
        0 <= n <= total,
    ensures
        program_words(list, entries, table, n).len() <= program_words(
            list,
            entries,
            table,
            total,
        ).len(),
        forall|i: int|
            0 <= i < program_words(list, entries, table, n).len() ==> program_words(
                list,
                entries,
                table,
                n,
            )[i] == program_words(list, entries, table, total)[i],
    decreases total - n,
{
    if n < total {
        lemma_program_words_prefix(list, entries, table, n + 1, total);
    }
}

/// `after` is `before` but for the places it had resolved.
pub open spec fn same_but_resolved(before: LinuxModule, after: LinuxModule) -> bool {
    after == (LinuxModule { resolved_symbol: after.resolved_symbol, ..before })
}

/// The module that an image becomes. It remembers the places whose symbol was found.
pub open spec fn is_image_module(m: LinuxModule, l: Loading) -> bool {
    &&& m.name@ == l.so_name@
    &&& m.base == l.load_base
    &&& m.size == l.size
    &&& m.virtual_base == l.state.load_virtual_address
    &&& m.dynsym == Some(l.dynamic.symbols)
    &&& m.unresolved_symbol == l.unresolved
    &&& m.resolved_symbol@ == recorded(Seq::empty(), l.resolved@, l.resolved@.len() as int)
    &&& m.needed_libraries == l.needed
    &&& m.regions == l.state.regions
    &&& m.arm_ex_idx == l.state.arm_ex_idx
    &&& m.eh_frame_header == l.state.eh_frame_header
    &&& m.elf_file == Some(l.elf)
    &&& m.entry_point == l.elf.entry_point
    &&& m.ref_cnt == 0
    &&& match m.symbol_table_section {
        Some(i) => {
            &&& i < l.elf.section_headers@.len()
            &&& l.elf.section_headers@[i as int] == SHT_SYMTAB
            &&& forall|j: int| 0 <= j < i ==> l.elf.section_headers@[j] != SHT_SYMTAB
        },
        None => forall|j: int|
            0 <= j < l.elf.section_headers@.len() ==> l.elf.section_headers@[j] != SHT_SYMTAB,
    }
}

/// How many of the first `n` named modules a program rebinds: all, or those before the
/// first one with a place that cannot be written.
pub open spec fn modules_rebound(
    m: Machine,
    list: Seq<LinuxModule>,
    entries: Seq<(Seq<char>, usize)>,
    table: SymbolTable,
    n: int,
) -> int
    decreases n,
{
    if n <= 0 {
        0
    } else {
        let words = program_words(list, entries, table, n);
        let before = modules_rebound(m, list, entries, table, n - 1);
        if before == n - 1 && words_stored(m, words, words.len() as int).1 {
            n
        } else {
            before
        }
    }
}

/// The modules after the first `k` names were rebound: they remember no places.
pub open spec fn places_forgotten(
    before: Seq<LinuxModule>,
    after: Seq<LinuxModule>,
    entries: Seq<(Seq<char>, usize)>,
    k: int,
) -> bool {
    forall|i: int|
        0 <= i < before.len() ==> if named_within(entries, k, i) {
            (#[trigger] after[i]).resolved_symbol@.len() == 0 && same_but_resolved(
                before[i],
                after[i],
            )
        } else {
            after[i] == before[i]
        }
}

/// The words that a program stores anew in the modules before it; a library stores none.
pub open spec fn rebinding(loader: AndroidElfLoader, l: Loading) -> Seq<(int, u64)> {
    let entries = index_entries(loader.modules);
    if is_executable(l) {
        program_words(loader.list@, entries, l.dynamic.symbols, entries.len() as int)
    } else {
        Seq::empty()
    }
}

/// How far the last step of loading comes.
pub struct Finish {
    pub m: Machine,
    /// How many names of modules were rebound.
    pub rebound: int,
    pub status: Result<(), LoadError>,
}

/// The last step's effect on memory, and whether it ends well.
pub open spec fn finish(loader: AndroidElfLoader, m: Machine, l: Loading) -> Finish {
    let unmapped = LoadError::Memory(BackendError::Unmapped);
    if !inits_readable(m, l) {
        Finish { m, rebound: 0, status: Err(unmapped) }
    } else if l.state.load_virtual_address == 0 {
        Finish { m, rebound: 0, status: Err(LoadError::NoLoadAddress) }
    } else {
        let (filled, ok) = places_filled(m, l.resolved@, l.resolved@.len() as int);
        let entries = index_entries(loader.modules);
        let words = rebinding(loader, l);
        let (end, stored) = words_stored(filled, words, words.len() as int);
        let rebound = if is_executable(l) {
            modules_rebound(filled, loader.list@, entries, l.dynamic.symbols, entries.len() as int)
        } else {
            0
        };
        if !ok {
            Finish { m: filled, rebound: 0, status: Err(unmapped) }
        } else if !stored {
            Finish { m: end, rebound, status: Err(unmapped) }
        } else if l.so_name@ == "libc.so"@ && (first_named(
            l.dynamic.symbols.entries@,
            "malloc"@,
            0,
        ) is None || first_named(l.dynamic.symbols.entries@, "free"@, 0) is None) {
            Finish { m: end, rebound, status: Err(LoadError::NoAllocator) }
        } else {
            Finish { m: end, rebound, status: Ok(()) }
        }
    }
}

/// `s` is the symbol that the image itself has under a name.
pub open spec fn is_own_symbol(s: Option<LinuxSymbol>, l: Loading, name: Seq<char>) -> bool {
    &&& s matches Some(s)
    &&& s.name@ == name
    &&& Some(s.symbol) == first_named(l.dynamic.symbols.entries@, name, 0)
    &&& s.base == l.load_base
    &&& s.module_name@ == l.so_name@
}

impl AndroidElfLoader {
    /// Let a program's own symbols take the place of those that the modules before it
    /// were linked to.
    fn rebind_modules(&mut self, backend: &mut Backend, table: &SymbolTable) -> (r: Result<
        (),
        BackendError,
    >)
        requires
            old(self).wf(),
        ensures
            final(self).wf(),
            ({
                let entries = index_entries(old(self).modules);
                let words = program_words(old(self).list@, entries, *table, entries.len() as int);
                let (end, ok) = words_stored(old(backend)@, words, words.len() as int);
                &&& final(backend)@ == end
                &&& ok == (r is Ok)
                &&& places_forgotten(
                    old(self).list@,
                    final(self).list@,
                    entries,
                    modules_rebound(
                        old(backend)@,
                        old(self).list@,
                        entries,
                        *table,
                        entries.len() as int,
                    ),
                )
            }),
            r is Err ==> r == Err::<(), BackendError>(BackendError::Unmapped),
            final(self).list@.len() == old(self).list@.len(),
            *final(self) == (AndroidElfLoader { list: final(self).list, ..*old(self) }),
    {
        let n: usize = index_len(&self.modules);
        let ghost entries = index_entries(self.modules);
        let ghost all = program_words(old(self).list@, entries, *table, n as int);
        let mut k: usize = 0;
        while k < n
            invariant
                old(self).wf(),
                n == entries.len(),
                entries == index_entries(old(self).modules),
                k <= n,
                all == program_words(old(self).list@, entries, *table, n as int),
                self.list@.len() == old(self).list@.len(),
                *self == (AndroidElfLoader { list: self.list, ..*old(self) }),
                forall|i: int|
                    0 <= i < self.list@.len() ==> same_but_resolved(
                        old(self).list@[i],
                        #[trigger] self.list@[i],
                    ),
                forall|i: int|
                    0 <= i < self.list@.len() ==> if named_within(entries, k as int, i) {
                        (#[trigger] self.list@[i]).resolved_symbol@.len() == 0
                    } else {
                        self.list@[i] == old(self).list@[i]
                    },
                ({
                    let words = program_words(old(self).list@, entries, *table, k as int);
                    words_stored(old(backend)@, words, words.len() as int) == (backend@, true)
                }),
                modules_rebound(old(backend)@, old(self).list@, entries, *table, k as int) == k,
            decreases n - k,
        {
            let (_, i) = index_at(&self.modules, k).unwrap();
            assert(entries[k as int].1 < old(self).list@.len());
            assert(!named_within(entries, k as int, i as int)) by {
                if named_within(entries, k as int, i as int) {
                    let w = choose|w: int| 0 <= w < k && (#[trigger] entries[w]).1 == i;
                    assert(entries[w].1 != entries[k as int].1);
                }
            }
            let ghost words = program_words(old(self).list@, entries, *table, k as int);
            let ghost next = program_words(old(self).list@, entries, *table, k + 1);
            let ghost own = module_words(
                old(self).list@[i as int].resolved_symbol@,
                *table,
                old(self).list@[i as int].resolved_symbol@.len() as int,
            );
            proof {
                assert(next == words + own);
                lemma_words_append(old(backend)@, words, own, own.len() as int);
            }
            match store_module_words(backend, &self.list[i].resolved_symbol, table) {
                Ok(_) => {},
                Err(e) => {
                    proof {
                        lemma_program_words_prefix(
                            old(self).list@,
                            entries,
                            *table,
                            k + 1,
                            n as int,
                        );
                        lemma_words_prefix(old(backend)@, next, all, next.len() as int);
                        lemma_words_stuck(
                            old(backend)@,
                            all,
                            next.len() as int,
                            all.len() as int,
                        );
                        lemma_needs_kept(old(self).list@, self.list@);
                        lemma_rebound_stuck(
                            old(backend)@,
                            old(self).list@,
                            entries,
                            *table,
                            k + 1,
                            n as int,
                        );
                    }
                    return Err(e);
                },
            }
            let ghost before = self.list@;
            self.list[i].resolved_symbol = ResolvedPlaces::new();
            proof {
                assert forall|j: int| 0 <= j < self.list@.len() implies if named_within(
                    entries,
                    k + 1,
                    j,
                ) {
                    (#[trigger] self.list@[j]).resolved_symbol@.len() == 0
                } else {
                    self.list@[j] == old(self).list@[j]
                } by {
                    if j == i {
                        assert(entries[k as int].1 == j);
                    } else {
                        assert(self.list@[j] == before[j]);
                        assert(named_within(entries, k + 1, j) == named_within(
                            entries,
                            k as int,
                            j,
                        )) by {
                            if named_within(entries, k + 1, j) {
                                let w = choose|w: int|
                                    0 <= w < k + 1 && (#[trigger] entries[w]).1 == j;
                                assert(w < k);
                            }
                        }
                    }
                }
                assert forall|j: int| 0 <= j < self.list@.len() implies same_but_resolved(
                    old(self).list@[j],
                    #[trigger] self.list@[j],
                ) by {
                    assert(same_but_resolved(old(self).list@[j], before[j]));
                }
            }
            k = k + 1;
        }
        proof {
            lemma_needs_kept(old(self).list@, self.list@);
        }
        Ok(())
    }

    /// The last step: collect the image's initialisers, fill the places whose symbol
    /// was found, and take the image in as a module under its name.
    pub fn finish_load(&mut self, backend: &mut Backend, loading: Loading) -> (r: Result<
        usize,
        LoadError,
    >)
        requires
            old(self).wf(),
            loading.wf(old(self).list@.len() as int),
            inits_fit(loading),
        ensures
            final(self).wf(),
            ({
                let end = finish(*old(self), old(backend)@, loading);
                &&& final(backend)@ == end.m
                &&& places_forgotten(
                    old(self).list@,
                    final(self).list@,
                    index_entries(old(self).modules),
                    end.rebound,
                )
                &&& match end.status {
                    Ok(_) => {
                        &&& r matches Ok(i)
                        &&& i == old(self).list@.len()
                        &&& final(self).list@.len() == i + 1
                        &&& is_image_module(final(self).list@[i as int], loading)
                        &&& is_init_list(
                            final(self).list@[i as int].init_function_list@,
                            old(backend)@,
                            loading,
                        )
                        &&& index_entries(final(self).modules) == put_entry(
                            index_entries(old(self).modules),
                            loading.so_name@,
                            i,
                        )
                        &&& if loading.so_name@ == "libc.so"@ {
                            &&& is_own_symbol(final(self).malloc, loading, "malloc"@)
                            &&& is_own_symbol(final(self).free, loading, "free"@)
                        } else {
                            &&& final(self).malloc == old(self).malloc
                            &&& final(self).free == old(self).free
                        }
                    },
                    Err(e) => {
                        &&& r == Err::<usize, LoadError>(e)
                        &&& final(self).list@.len() == old(self).list@.len()
                        &&& final(self).modules == old(self).modules
                        &&& final(self).malloc == old(self).malloc
                        &&& final(self).free == old(self).free
                    },
                }
            }),
            *final(self) == (AndroidElfLoader {
                list: final(self).list,
                modules: final(self).modules,
                malloc: final(self).malloc,
                free: final(self).free,
                ..*old(self)
            }),
    {
        let inits = match collect_init_functions(backend, &loading) {
            Ok(list) => list,
            Err(e) => {
                return Err(LoadError::Memory(e));
            },
        };
        if loading.state.load_virtual_address == 0 {
            return Err(LoadError::NoLoadAddress);
        }
        let executable = loading.elf.file_type == 2 || loading.dynamic.preinit_array_size > 0;
        match fill_places(backend, &loading.resolved) {
            Ok(_) => {},
            Err(e) => {
                return Err(LoadError::Memory(e));
            },
        }
        if executable {
            match self.rebind_modules(backend, &loading.dynamic.symbols) {
                Ok(_) => {},
                Err(e) => {
                    return Err(LoadError::Memory(e));
                },
            }
        }
        let ghost rebound_list = self.list@;
        let is_libc = str_eq(loading.so_name.as_str(), "libc.so");
        let section = loading.elf.find_section_by_type(SHT_SYMTAB);
        let entry: u64 = loading.elf.entry_point;
        let name = loading.so_name.as_str().to_owned();
        let mut module = LinuxModule::new(
            loading.state.load_virtual_address,
            loading.load_base,
            loading.size,
            loading.so_name,
            Some(loading.dynamic.symbols),
            loading.unresolved,
            inits,
            loading.needed,
            loading.state.regions,
            loading.state.arm_ex_idx,
            loading.state.eh_frame_header,
            section,
            Some(loading.elf),
        );
        if is_libc {
            let malloc = match module.find_symbol_by_name(&self.list, "malloc", false) {
                Ok(s) => s,
                Err(_) => {
                    return Err(LoadError::NoAllocator);
                },
            };
            let free = match module.find_symbol_by_name(&self.list, "free", false) {
                Ok(s) => s,
                Err(_) => {
                    return Err(LoadError::NoAllocator);
                },
            };
            self.malloc = Some(malloc);
            self.free = Some(free);
        }
        module.entry_point = entry;
        module.resolved_symbol = ResolvedPlaces::new().put_all(loading.resolved);
        let i: usize = self.add_module(name, module);
        proof {
            assert forall|j: int| 0 <= j < i implies #[trigger] self.list@[j] == rebound_list[j] by {
            }
        }
        Ok(i)
    }

    /// Look again at the places of a module that wait for a symbol, now that more is
    /// loaded. `answers` says for each what was found. A place with a symbol gets its
    /// address, is kept, and is remembered as resolved if it could be written, one place
    /// for each symbol; one without is dropped.
    pub fn retry_unresolved(
        &mut self,
        backend: &mut Backend,
        i: usize,
        answers: Vec<Option<ModuleSymbol>>,
    )
        requires
            old(self).wf(),
            i < old(self).list@.len(),
            answers@.len() == old(self).list@[i as int].unresolved_symbol@.len(),
        ensures
            final(self).wf(),
            ({
                let m = old(self).list@[i as int];
                let after = final(self).list@[i as int];
                let n = answers@.len() as int;
                &&& final(self).list@ == old(self).list@.update(i as int, after)
                &&& after.unresolved_symbol@ == kept_places(m.unresolved_symbol@, answers@, n)
                &&& after.resolved_symbol@ == remembered_places(
                    old(backend)@,
                    m.resolved_symbol@,
                    answers@,
                    n,
                )
                &&& final(backend)@ == retried(old(backend)@, answers@, n)
                &&& after == (LinuxModule {
                    unresolved_symbol: after.unresolved_symbol,
                    resolved_symbol: after.resolved_symbol,
                    ..m
                })
            }),
            *final(self) == (AndroidElfLoader { list: final(self).list, ..*old(self) }),
    {
        let ghost m = self.list@[i as int];
        let ghost given = answers@;
        let mut places: Vec<ModuleSymbol> = Vec::new();
        std::mem::swap(&mut places, &mut self.list[i].unresolved_symbol);
        let ghost all = places@;
        let mut kept: Vec<ModuleSymbol> = Vec::new();
        let mut done = ResolvedPlaces::new();
        std::mem::swap(&mut done, &mut self.list[i].resolved_symbol);
        let mut answers = answers;
        let mut j: usize = 0;
        let n: usize = places.len();
        while j < n
            invariant
                j <= n,
                n == all.len(),
                n == given.len(),
                places@ == all.skip(j as int),
                answers@ == given.skip(j as int),
                kept@ == kept_places(all, given, j as int),
                done@ == remembered_places(
                    old(backend)@,
                    m.resolved_symbol@,
                    given,
                    j as int,
                ),
                backend@ == retried(old(backend)@, given, j as int),
            decreases n - j,
        {
            let place = places.remove(0);
            let answer = answers.remove(0);
            assert(place == all[j as int]);
            assert(answer == given[j as int]);
            assert(places@ =~= all.skip(j + 1));
            assert(answers@ =~= given.skip(j + 1));
            if let Some(s) = answer {
                let ok = s.relocation(backend).is_ok();
                if ok {
                    done = done.put(s);
                }
                kept.push(place);
            }
            j = j + 1;
        }
        self.list[i].unresolved_symbol = kept;
        self.list[i].resolved_symbol = done;
        proof {
            let after = self.list@[i as int];
            assert(after == (LinuxModule {
                unresolved_symbol: after.unresolved_symbol,
                resolved_symbol: after.resolved_symbol,
                ..m
            }));
            assert(self.list@ =~= old(self).list@.update(i as int, after));
            assert forall|j: int| 0 <= j < self.list@.len() implies needs_below(
                #[trigger] self.list@[j],
                j,
            ) by {
                assert(needs_below(old(self).list@[j], j));
            }
        }
    }
}

impl AndroidElfLoader {
    /// Give the places of a module that were resolved their addresses, in their order, up
    /// to the first that cannot be written. The module remembers those that were.
    pub fn resolve_symbols(
        &mut self,
        backend: &mut Backend,
        i: usize,
        resolved: Vec<ModuleSymbol>,
    ) -> (r: Result<(), BackendError>)
        requires
            old(self).wf(),
            i < old(self).list@.len(),
        ensures
            final(self).wf(),
            ({
                let n = resolved@.len() as int;
                let (end, ok) = places_filled(old(backend)@, resolved@, n);
                let m = old(self).list@[i as int];
                let after = final(self).list@[i as int];
                &&& final(backend)@ == end
                &&& ok == (r is Ok)
                &&& final(self).list@ == old(self).list@.update(i as int, after)
                &&& same_but_resolved(m, after)
                &&& after.resolved_symbol@ == recorded(
                    m.resolved_symbol@,
                    resolved@,
                    filled_count(old(backend)@, resolved@, n),
                )
            }),
            r is Err ==> r == Err::<(), BackendError>(BackendError::Unmapped),
            *final(self) == (AndroidElfLoader { list: final(self).list, ..*old(self) }),
    {
        let ghost m = self.list@[i as int];
        let ghost all = resolved@;
        let ghost start = backend@;
        let n: usize = resolved.len();
        let mut places = resolved;
        let mut done = ResolvedPlaces::new();
        std::mem::swap(&mut done, &mut self.list[i].resolved_symbol);
        let mut j: usize = 0;
        let mut r: Result<(), BackendError> = Ok(());
        while j < n && r.is_ok()
            invariant
                j <= n,
                n == all.len(),
                places@ == all.skip(j as int),
                match r {
                    Ok(_) => {
                        &&& places_filled(start, all, j as int) == (backend@, true)
                        &&& filled_count(start, all, j as int) == j
                        &&& done@ == recorded(m.resolved_symbol@, all, j as int)
                    },
                    Err(e) => {
                        &&& e == BackendError::Unmapped
                        &&& places_filled(start, all, n as int) == (backend@, false)
                        &&& done@ == recorded(
                            m.resolved_symbol@,
                            all,
                            filled_count(start, all, n as int),
                        )
                    },
                },
            decreases n - j,
        {
            let place = places.remove(0);
            assert(place == all[j as int]);
            assert(places@ =~= all.skip(j + 1));
            match place.relocation(backend) {
                Ok(_) => {
                    done = done.put(place);
                },
                Err(e) => {
                    proof {
                        lemma_places_stuck(start, all, j + 1, n as int);
                        lemma_count_stuck(start, all, j + 1, n as int);
                    }
                    r = Err(e);
                },
            }
            j = j + 1;
        }
        self.list[i].resolved_symbol = done;
        proof {
            let after = self.list@[i as int];
            assert(same_but_resolved(m, after));
            assert(self.list@ =~= old(self).list@.update(i as int, after));
            assert forall|k: int| 0 <= k < self.list@.len() implies same_but_resolved(
                old(self).list@[k],
                #[trigger] self.list@[k],
            ) by {
            }
            lemma_needs_kept(old(self).list@, self.list@);
        }
        r
    }
}

/// How many of the first `n` places could be filled: all, or those before the first that
/// could not.
pub open spec fn filled_count(m: Machine, places: Seq<ModuleSymbol>, n: int) -> int
    decreases n,
{
    if n <= 0 {
        0
    } else if places_filled(m, places, n).1 {
        n
    } else {
        filled_count(m, places, n - 1)
    }
}

proof fn lemma_count_stuck(m: Machine, places: Seq<ModuleSymbol>, n: int, total: int)
    requires
        0 <= n <= total,
        !places_filled(m, places, n).1,
    ensures
        filled_count(m, places, total) == filled_count(m, places, n),
    decreases total - n,
{
    if n < total {
        lemma_places_stuck(m, places, n, total);
        lemma_count_stuck(m, places, n, total - 1);
    }
}

/// Once places are filled, a place holds its address where no later place lies over it.
proof fn lemma_place_holds(m: Machine, places: Seq<ModuleSymbol>, i: int, n: int)
    requires
        0 <= i < n <= places.len(),
        places_filled(m, places, n).1,
        forall|j: int|
            i < j < n ==> words_apart(
                #[trigger] places[j].relocation_addr as int,
                places[i].relocation_addr as int,
            ),
    ensures
        places_filled(m, places, n).0.read_u64(places[i].relocation_addr as int) == Some(
            places[i]@.target(),
        ),
    decreases n,
{
    let before = places_filled(m, places, n - 1).0;
    let addr = places[n - 1].relocation_addr as int;
    let target = places[n - 1]@.target();
    if i == n - 1 {
        lemma_word_stored(before, addr, target);
    } else {
        lemma_place_holds(m, places, i, n - 1);
        lemma_word_apart(before, addr, le64(target), places[i].relocation_addr as int);
    }
}

/// A word stays where other words are stored apart from it.
proof fn lemma_words_apart(m: Machine, words: Seq<(int, u64)>, n: int, x: int)
    requires
        0 <= n <= words.len(),
        forall|j: int| 0 <= j < n ==> words_apart((#[trigger] words[j]).0, x),
    ensures
        words_stored(m, words, n).0.read_u64(x) == m.read_u64(x),
    decreases n,
{
    if n > 0 {
        lemma_words_apart(m, words, n - 1, x);
        let before = words_stored(m, words, n - 1).0;
        lemma_word_apart(before, words[n - 1].0, le64(words[n - 1].1), x);
    }
}

/// Two words do not share a byte.
pub open spec fn words_apart(a: int, b: int) -> bool {
    a + 8 <= b || b + 8 <= a
}

/// What a relocation asks for is what memory holds when the image is loaded. A relocation
/// whose symbol was found, in the first step given here, leaves a place; after the last
/// step the place holds the address of that symbol. For a symbol that the image defines
/// itself and no listener replaces, and likewise for a relocation without a symbol, the
/// place is the load base and the relocation's offset, and the address is the sum of the
/// load base, the symbol's value and the addend, in 64 bits. In between, other relocations
/// may leave more places, as long as none of them, and no place that a program takes over,
/// lies over this one.
pub proof fn law_relocated_place(
    s: AndroidElfLoader,
    m0: Machine,
    l: Loading,
    k: usize,
    answer: SymbolAnswer,
    s2: AndroidElfLoader,
    m2: Machine,
    l2: Loading,
    r: Result<(), LoadError>,
    offset: u64,
    loader: AndroidElfLoader,
    m: Machine,
    last: Loading,
)
    requires
        k < l.dynamic.relocations@.len(),
        relocated(s, m0, l, k, answer, s2, m2, l2, r),
        asked_offset(s, m0, l, k, answer) == Some(offset),
        l2.resolved@.len() == l.resolved@.len() + 1,
        symbol_refs(l2.resolved@).is_prefix_of(symbol_refs(last.resolved@)),
        forall|j: int|
            l2.resolved@.len() <= j < last.resolved@.len() ==> words_apart(
                #[trigger] last.resolved@[j].relocation_addr as int,
                l2.resolved@.last().relocation_addr as int,
            ),
        is_executable(last) ==> forall|j: int|
            0 <= j < rebinding(loader, last).len() ==> words_apart(
                (#[trigger] rebinding(loader, last)[j]).0,
                l2.resolved@.last().relocation_addr as int,
            ),
        finish(loader, m, last).status is Ok,
    ensures
        ({
            let place = l2.resolved@.last()@;
            let rel = l.dynamic.relocations@[k as int];
            let symbol = entry_view(rel.symbol);
            let end = finish(loader, m, last).m;
            let value: int = match symbol {
                Some((_, e)) => e.value as int,
                None => 0,
            };
            let own = match symbol {
                Some((name, e)) => !e.undefined() && !e.gnu_ifunc() && cached_hook(
                    s.cache_hook@,
                    hook_key(l.so_name@, name),
                    0,
                ) is None && first_hook(answer.hooks@, 0) is None,
                None => true,
            };
            &&& end.read_u64(place.relocation_addr as int) == Some(place.target())
            &&& own && l.load_base + rel.offset <= u64::MAX ==> place.relocation_addr
                == l.load_base + rel.offset
            &&& own && l.load_base != u64::MAX ==> place.target() == (l.load_base + value + offset)
                % address_limit()
        }),
{
    let places = last.resolved@;
    let n = places.len() as int;
    let i = l2.resolved@.len() - 1;
    let refs = symbol_refs(l2.resolved@);
    assert(refs[i] == l2.resolved@[i]@);
    assert(symbol_refs(places)[i] == places[i]@);
    assert(refs[i] == symbol_refs(places)[i]);
    let x = places[i].relocation_addr as int;
    lemma_place_holds(m, places, i, n);
    let filled = places_filled(m, places, n).0;
    let words = rebinding(loader, last);
    lemma_words_apart(filled, words, words.len() as int, x);
    law_signed_bits_round_trip(0, 0, l.load_base);
}

/// The machine after the first `n` answers were written, as far as they could be.
pub open spec fn retried(m: Machine, answers: Seq<Option<ModuleSymbol>>, n: int) -> Machine
    decreases n,
{
    if n <= 0 {
        m
    } else {
        match answers[n - 1] {
            Some(s) => retried(m, answers, n - 1).try_write(
                s.relocation_addr as int,
                le64(s@.target()),
            ),
            None => retried(m, answers, n - 1),
        }
    }
}

/// Those of the first `n` places that have an answer.
pub open spec fn kept_places(
    places: Seq<ModuleSymbol>,
    answers: Seq<Option<ModuleSymbol>>,
    n: int,
) -> Seq<ModuleSymbol>
    decreases n,
{
    if n <= 0 {
        Seq::empty()
    } else if answers[n - 1] is Some {
        kept_places(places, answers, n - 1).push(places[n - 1])
    } else {
        kept_places(places, answers, n - 1)
    }
}

/// The places that are remembered after the first `n` answers: those of them that
/// could be written join those from before.
pub open spec fn remembered_places(
    m: Machine,
    before: Seq<ModuleSymbol>,
    answers: Seq<Option<ModuleSymbol>>,
    n: int,
) -> Seq<ModuleSymbol>
    decreases n,
{
    if n <= 0 {
        before
    } else {
        let so_far = remembered_places(m, before, answers, n - 1);
        match answers[n - 1] {
            Some(s) if retried(m, answers, n - 1).mapped(s.relocation_addr as int, 8) => {
                put_place(so_far, s)
            },
            _ => so_far,
        }
    }
}

proof fn lemma_needs_kept(before: Seq<LinuxModule>, after: Seq<LinuxModule>)
    requires
        crate::linux::module::loaded_in_order(before),
        before.len() == after.len(),
        forall|i: int|
            0 <= i < after.len() ==> same_but_resolved(before[i], #[trigger] after[i]),
    ensures
        crate::linux::module::loaded_in_order(after),
{
    assert forall|j: int| 0 <= j < after.len() implies needs_below(#[trigger] after[j], j) by {
        assert(needs_below(before[j], j));
    }
}

/// Once a module could not be rebound, none after it is.
proof fn lemma_rebound_stuck(
    m: Machine,
    list: Seq<LinuxModule>,
    entries: Seq<(Seq<char>, usize)>,
    table: SymbolTable,
    n: int,
    total: int,
)
    requires
        0 < n <= total,
        modules_rebound(m, list, entries, table, n) < n,
    ensures
        modules_rebound(m, list, entries, table, total) == modules_rebound(
            m,
            list,
            entries,
            table,
            n,
        ),
    decreases total - n,
{
    if n < total {
        lemma_rebound_stuck(m, list, entries, table, n + 1, total);
    }
}

/// The initialisers of an image, in the order they run. A program (file type 2), and any image
/// with such an array, runs the functions of its early array first, one for each eight bytes
/// of it. A shared object (file type 3) then runs its single initialiser, where it has one,
/// and then the functions of its array. Each function is what the array's slot holds.
pub proof fn law_initialisers_in_order(list: Seq<InitFunction>, m: Machine, l: Loading, i: int)
    requires
        is_init_list(list, m, l),
        0 <= i < list.len(),
    ensures
        ({
            let d = l.dynamic;
            let early: int = if l.elf.file_type == 2 || d.preinit_array_size > 0 {
                d.preinit_array_size as int / 8
            } else {
                0
            };
            let single: int = if l.elf.file_type == 3 && d.init > 0 {
                1
            } else {
                0
            };
            let late: int = if l.elf.file_type == 3 {
                d.init_array_size as int / 8
            } else {
                0
            };
            let slot = if i < early {
                l.load_base + d.preinit_array_offset + 8 * i
            } else {
                l.load_base + d.init_array_offset + 8 * (i - early - single)
            };
            &&& list.len() == early + single + late
            &&& if i == early && single == 1 {
                &&& list[i] matches InitFunction::LINUX(f)
                &&& f.addr == d.init
                &&& f.load_base == l.load_base
                &&& f.lib_name@ == l.so_name@
            } else {
                &&& list[i] matches InitFunction::ABSOLUTE(f)
                &&& f.ptr == slot
                &&& m.read_u64(slot) == Some(f.addr)
                &&& f.lib_name@ == l.so_name@
            }
        }),
{
}

/// What an image is as a module: its name, base, room, entry point, symbols and regions are
/// those that loading worked out, the places that still wait are kept, and it has no users
/// yet.
pub proof fn law_image_as_module(m: LinuxModule, l: Loading)
    requires
        is_image_module(m, l),
    ensures
        m.name@ == l.so_name@,
        m.base == l.load_base,
        m.size == l.size,
        m.entry_point == l.elf.entry_point,
        m.virtual_base == l.state.load_virtual_address,
        m.dynsym matches Some(t) && t == l.dynamic.symbols,
        m.regions@ == l.state.regions@,
        m.unresolved_symbol@ == l.unresolved@,
        index_entries(m.needed_libraries) == index_entries(l.needed),
        m.ref_cnt == 0,
        m.eh_frame_header == l.state.eh_frame_header,
{
}

/// A program takes a place over where its own table defines the place's symbol: the place
/// then gets what it would have got with the program's value for the symbol. A place whose
/// symbol the program's table lacks or leaves undefined, or that has no symbol, is left.
pub proof fn law_taken_over_place(place: ModuleSymbol, table: SymbolTable)
    ensures
        match rebound(place, table) {
            Some((at, word)) => {
                &&& at == place.relocation_addr
                &&& place.symbol is Some
                &&& exists|i: int|
                    {
                        &&& 0 <= i < table.entries@.len()
                        &&& (#[trigger] table.entries@[i]).name@ == (place.symbol->0).name@
                        &&& table.entries@[i].symbol.section != 0
                        &&& word == if place.load_base == -1 {
                            place.offset as int
                        } else {
                            (bits_of_i64(place.load_base) + table.entries@[i].symbol.value
                                + place.offset) % 0x1_0000_0000_0000_0000
                        }
                    }
            },
            None => place.symbol matches Some(e) ==> (forall|i: int|
                0 <= i < table.entries@.len() ==> (#[trigger] table.entries@[i]).name@ != e.name@)
                || exists|i: int|
                0 <= i < table.entries@.len() && (#[trigger] table.entries@[i]).name@ == e.name@
                    && table.entries@[i].symbol.section == 0,
        },
{
    if let Some(e) = place.symbol {
        lemma_first_named(table.entries@, e.name@, 0);
    }
}

/// A word stored last is read back, and stays where no later word lies over it.
proof fn lemma_word_holds(m: Machine, words: Seq<(int, u64)>, i: int, n: int)
    requires
        0 <= i < n <= words.len(),
        words_stored(m, words, n).1,
        forall|j: int| i < j < n ==> words_apart((#[trigger] words[j]).0, words[i].0),
    ensures
        words_stored(m, words, n).0.read_u64(words[i].0) == Some(words[i].1),
    decreases n,
{
    let before = words_stored(m, words, n - 1).0;
    if i == n - 1 {
        lemma_word_stored(before, words[i].0, words[i].1);
    } else {
        lemma_word_holds(m, words, i, n - 1);
        lemma_word_apart(before, words[n - 1].0, le64(words[n - 1].1), words[i].0);
    }
}

/// After a program was loaded, each place that it took over holds its new word, unless a
/// later one lies over it.
pub proof fn law_taken_over_places_hold(
    loader: AndroidElfLoader,
    m: Machine,
    l: Loading,
    i: int,
)
    requires
        finish(loader, m, l).status is Ok,
        l.elf.file_type == 2,
        0 <= i < rebinding(loader, l).len(),
        forall|j: int|
            i < j < rebinding(loader, l).len() ==> words_apart(
                (#[trigger] rebinding(loader, l)[j]).0,
                rebinding(loader, l)[i].0,
            ),
    ensures
        finish(loader, m, l).m.read_u64(rebinding(loader, l)[i].0) == Some(
            rebinding(loader, l)[i].1,
        ),
{
    let words = rebinding(loader, l);
    let filled = places_filled(m, l.resolved@, l.resolved@.len() as int).0;
    lemma_word_holds(filled, words, i, words.len() as int);
}

/// Every place of every named module whose symbol a program defines is among those that the
/// program takes over.
pub proof fn law_all_places_taken_over(
    list: Seq<LinuxModule>,
    entries: Seq<(Seq<char>, usize)>,
    table: SymbolTable,
    n: int,
    k: int,
    j: int,
)
    requires
        0 <= k < n <= entries.len(),
        0 <= j < list[entries[k].1 as int].resolved_symbol@.len(),
        rebound(list[entries[k].1 as int].resolved_symbol@[j], table) is Some,
    ensures
        program_words(list, entries, table, n).contains(
            rebound(list[entries[k].1 as int].resolved_symbol@[j], table)->0,
        ),
    decreases n,
{
    let places = list[entries[n - 1].1 as int].resolved_symbol@;
    let own = module_words(places, table, places.len() as int);
    let before = program_words(list, entries, table, n - 1);
    let all = program_words(list, entries, table, n);
    let w = rebound(list[entries[k].1 as int].resolved_symbol@[j], table)->0;
    if k < n - 1 {
        law_all_places_taken_over(list, entries, table, n - 1, k, j);
        let i = choose|i: int| 0 <= i < before.len() && before[i] == w;
        assert(all[i] == w);
    } else {
        lemma_module_words_all(places, table, places.len() as int, j);
        let i = choose|i: int| 0 <= i < own.len() && own[i] == w;
        assert(all[before.len() + i] == w);
    }
}

proof fn lemma_module_words_all(places: Seq<ModuleSymbol>, table: SymbolTable, n: int, j: int)
    requires
        0 <= j < n <= places.len(),
        rebound(places[j], table) is Some,
    ensures
        module_words(places, table, n).contains(rebound(places[j], table)->0),
    decreases n,
{
    let all = module_words(places, table, n);
    let w = rebound(places[j], table)->0;
    if j < n - 1 {
        lemma_module_words_all(places, table, n - 1, j);
        let before = module_words(places, table, n - 1);
        let i = choose|i: int| 0 <= i < before.len() && before[i] == w;
        assert(all[i] == w);
    } else {
        assert(all.last() == w);
    }
}

/// Places that are looked at again. With one more answer, a place that has one gets its
/// address, is kept, and is remembered where it could be written; a place without one is
/// dropped, and nothing is written.
pub proof fn law_retried_place(
    m: Machine,
    before: Seq<ModuleSymbol>,
    places: Seq<ModuleSymbol>,
    answers: Seq<Option<ModuleSymbol>>,
    n: int,
)
    requires
        0 <= n < answers.len(),
        answers.len() == places.len(),
    ensures
        answers[n] is None ==> {
            &&& retried(m, answers, n + 1) == retried(m, answers, n)
            &&& kept_places(places, answers, n + 1) == kept_places(places, answers, n)
            &&& remembered_places(m, before, answers, n + 1) == remembered_places(
                m,
                before,
                answers,
                n,
            )
        },
        answers[n] matches Some(s) ==> {
            let so_far = retried(m, answers, n);
            let at = s.relocation_addr as int;
            &&& kept_places(places, answers, n + 1) == kept_places(places, answers, n).push(
                places[n],
            )
            &&& so_far.mapped(at, 8) ==> {
                &&& retried(m, answers, n + 1).read_u64(at) == Some(s@.target())
                &&& s@.symbol is Some ==> remembered_places(m, before, answers, n + 1).contains(s)
            }
            &&& !so_far.mapped(at, 8) ==> {
                &&& retried(m, answers, n + 1) == so_far
                &&& remembered_places(m, before, answers, n + 1) == remembered_places(
                    m,
                    before,
                    answers,
                    n,
                )
            }
        },
        retried(m, answers, 0) == m,
        kept_places(places, answers, 0).len() == 0,
        remembered_places(m, before, answers, 0) == before,
{
    if let Some(s) = answers[n] {
        let so_far = retried(m, answers, n);
        let at = s.relocation_addr as int;
        if so_far.mapped(at, 8) {
            lemma_word_stored(so_far, at, s@.target());
            if let Some((name, _)) = s@.symbol {
                crate::linux::resolved::law_place_is_remembered(
                    remembered_places(m, before, answers, n),
                    s,
                    name,
                );
                let after = remembered_places(m, before, answers, n + 1);
                let i = crate::linux::resolved::place_for(after, name, 0)->0;
                assert(after[i] == s);
            }
        }
    }
}

/// Loading fails, and stores nothing, where a slot of the image's array of initialisers cannot
/// be read: of a shared object the array at its own offset, of a program the earlier one.
pub proof fn law_unreadable_initialisers(loader: AndroidElfLoader, m: Machine, l: Loading, i: int)
    requires
        0 <= i,
        l.elf.file_type == 3 && i < l.dynamic.init_array_size as int / 8 && m.read_u64(
            l.load_base + l.dynamic.init_array_offset + 8 * i,
        ) is None || l.elf.file_type == 2 && i < l.dynamic.preinit_array_size as int / 8
            && m.read_u64(l.load_base + l.dynamic.preinit_array_offset + 8 * i) is None,
    ensures
        finish(loader, m, l).status is Err,
        finish(loader, m, l).m == m,
        finish(loader, m, l).rebound == 0,
{
}

/// Where all slots of a library can be read and all its places can be written, loading fails
/// only without a load address, or for a C library without its allocator. What it stores is
/// what its places were to get.
pub proof fn law_finished_loading(loader: AndroidElfLoader, m: Machine, l: Loading)
    requires
        l.elf.file_type == 3,
        l.dynamic.preinit_array_size == 0,
        forall|i: int|
            0 <= i < l.dynamic.init_array_size as int / 8 ==> (#[trigger] m.read_u64(
                l.load_base + l.dynamic.init_array_offset + 8 * i,
            )) is Some,
        places_filled(m, l.resolved@, l.resolved@.len() as int).1,
    ensures
        l.state.load_virtual_address == 0 ==> finish(loader, m, l).status is Err && finish(
            loader,
            m,
            l,
        ).m == m,
        l.state.load_virtual_address != 0 && l.so_name@ != "libc.so"@ ==> finish(
            loader,
            m,
            l,
        ).status is Ok,
        l.state.load_virtual_address != 0 ==> finish(loader, m, l).m == places_filled(
            m,
            l.resolved@,
            l.resolved@.len() as int,
        ).0,
{
}

/// The allocator of the C library is the library's own: found under its name in the library's
/// table, at the library's place.
pub proof fn law_own_allocator(s: Option<LinuxSymbol>, l: Loading, name: Seq<char>)
    requires
        is_own_symbol(s, l, name),
    ensures
        s matches Some(f) && f.name@ == name && f.addr() == l.load_base + f.symbol.value && exists|
            i: int,
        |
            0 <= i < l.dynamic.symbols.entries@.len() && (
            #[trigger] l.dynamic.symbols.entries@[i]).name@ == name
                && l.dynamic.symbols.entries@[i].symbol == f.symbol,
{
    crate::elf::lemma_first_named(l.dynamic.symbols.entries@, name, 0);
}

} // verus!
