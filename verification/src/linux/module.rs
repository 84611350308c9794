//! Loaded modules.
use std::collections::VecDeque;
use indexmap::IndexMap;
use vstd::prelude::*;
use crate::backend::{Backend, BackendError, Machine};
use crate::elf::{first_covering, first_named, lemma_first_covering, ElfFile, ElfSymbol, SymbolTable};
use crate::linux::init_fun::InitFunction;
use crate::linux::resolved::ResolvedPlaces;
use crate::linux::symbol::{LinuxSymbol, ModuleSymbol};
use crate::memory::region::ModuleMemRegion;
use crate::outside::{index_at, index_entries, index_len, index_new};
use crate::text::{before_char, join2, join3, str_eq, text_before};
use crate::tool::{align_addr, aligned, can_align};

verus! {

pub struct LinuxModule {
    pub name: String,
    pub base: u64,
    pub size: u64,
    /// The modules this one needs, by name, as positions in the loader's list.
    pub needed_libraries: IndexMap<String, usize>,
    pub regions: Vec<ModuleMemRegion>,
    pub ref_cnt: u32,
    pub entry_point: u64,
    pub dynsym: Option<SymbolTable>,
    pub virtual_base: u64,
    pub unresolved_symbol: Vec<ModuleSymbol>,
    pub resolved_symbol: ResolvedPlaces,
    pub init_function_list: VecDeque<InitFunction>,
    pub arm_ex_idx: Option<usize>,
    pub eh_frame_header: Option<usize>,
    pub symbol_table_section: Option<usize>,
    pub elf_file: Option<ElfFile>,
}

/// No symbol with the name or at the address.
#[derive(Clone, Copy, Debug, PartialEq, Eq, Structural)]
pub struct SymbolNotFound;

/// A symbol that was found, and the module it was found in.
pub struct Found {
    pub symbol: ElfSymbol,
    pub base: u64,
    pub module_name: Seq<char>,
}

/// All needed modules of `m` stand before position `bound`.
pub open spec fn needs_below(m: LinuxModule, bound: int) -> bool {
    forall|k: int|
        0 <= k < index_entries(m.needed_libraries).len() ==> (#[trigger] index_entries(
            m.needed_libraries,
        )[k]).1 < bound
}

/// Each module needs only modules that were loaded before it.
pub open spec fn loaded_in_order(list: Seq<LinuxModule>) -> bool {
    forall|i: int| 0 <= i < list.len() ==> needs_below(#[trigger] list[i], i)
}

/// The symbol that a module knows under a name: its own, or with `with_dep` the first
/// that a needed module knows, in their order.
pub open spec fn named_symbol(
    list: Seq<LinuxModule>,
    m: LinuxModule,
    bound: int,
    name: Seq<char>,
    with_dep: bool,
) -> Option<Found>
    decreases bound, 1int, 0int,
{
    match m.dynsym {
        None => None,
        Some(table) => match first_named(table.entries@, name, 0) {
            Some(symbol) => Some(Found { symbol, base: m.base, module_name: m.name@ }),
            None => if with_dep {
                needed_symbol(list, index_entries(m.needed_libraries), 0, bound, name)
            } else {
                None
            },
        },
    }
}

/// The first symbol of a name that needed modules from the `k`th on know.
pub open spec fn needed_symbol(
    list: Seq<LinuxModule>,
    needed: Seq<(Seq<char>, usize)>,
    k: int,
    bound: int,
    name: Seq<char>,
) -> Option<Found>
    decreases bound, 0int, needed.len() - k,
{
    if k < 0 || k >= needed.len() || needed[k].1 >= bound {
        None
    } else {
        match named_symbol(list, list[needed[k].1 as int], needed[k].1 as int, name, true) {
            Some(f) => Some(f),
            None => needed_symbol(list, needed, k + 1, bound, name),
        }
    }
}

/// `r` is what was found, or says that nothing was.
pub open spec fn symbol_answer(
    r: Result<LinuxSymbol, SymbolNotFound>,
    name: Seq<char>,
    found: Option<Found>,
) -> bool {
    match found {
        Some(f) => {
            &&& r matches Ok(s)
            &&& s.name@ == name
            &&& s.symbol == f.symbol
            &&& s.base == f.base
            &&& s.module_name@ == f.module_name
        },
        None => r is Err,
    }
}

fn find_in_list(list: &Vec<LinuxModule>, at: usize, name: &str, with_dep: bool) -> (r: Result<
    LinuxSymbol,
    SymbolNotFound,
>)
    requires
        at < list@.len(),
        loaded_in_order(list@),
    ensures
        symbol_answer(r, name@, named_symbol(list@, list@[at as int], at as int, name@, with_dep)),
    decreases at, 1int, 0int,
{
    let m = &list[at];
    match m.own_symbol(name) {
        Ok(s) => Ok(s),
        Err(e) => {
            if m.dynsym.is_none() || !with_dep {
                return Err(e);
            }
            let n: usize = index_len(&m.needed_libraries);
            let mut k: usize = 0;
            while k < n
                invariant
                    n == index_entries(m.needed_libraries).len(),
                    k <= n,
                    at < list@.len(),
                    m == list@[at as int],
                    loaded_in_order(list@),
                    needs_below(*m, at as int),
                    needed_symbol(
                        list@,
                        index_entries(m.needed_libraries),
                        0,
                        at as int,
                        name@,
                    ) == needed_symbol(
                        list@,
                        index_entries(m.needed_libraries),
                        k as int,
                        at as int,
                        name@,
                    ),
                    named_symbol(list@, *m, at as int, name@, with_dep) == needed_symbol(
                        list@,
                        index_entries(m.needed_libraries),
                        0,
                        at as int,
                        name@,
                    ),
                decreases n - k,
            {
                let (_, dep) = index_at(&m.needed_libraries, k).unwrap();
                assert(index_entries(m.needed_libraries)[k as int].1 < at);
                let found = find_in_list(list, dep, name, true);
                if found.is_ok() {
                    return found;
                }
                k = k + 1;
            }
            Err(SymbolNotFound)
        },
    }
}

/// The path under which the guest sees a module.
pub open spec fn path_of(name: Seq<char>, proc_name: Seq<char>) -> Seq<char> {
    if is_system_library(name) {
        "/system/lib64/"@ + name
    } else {
        "/data/app/~~YuanShenZhenChaoHaoWan/"@ + before_char(proc_name, ':') + "-0/lib/arm64/"@
            + name
    }
}

/// The libraries that belong to the system image.
pub open spec fn is_system_library(name: Seq<char>) -> bool {
    ||| name == "liblog.so"@
    ||| name == "libc++.so"@
    ||| name == "libc.so"@
    ||| name == "libm.so"@
    ||| name == "libdl.so"@
    ||| name == "libstdc++.so"@
    ||| name == "libz.so"@
    ||| name == "libandroid.so"@
}

/// The least and the greatest of the addresses.
pub open spec fn is_span(symbols: Seq<(String, u64)>, first: u64, last: u64) -> bool {
    &&& exists|i: int| 0 <= i < symbols.len() && (#[trigger] symbols[i]).1 == first
    &&& exists|i: int| 0 <= i < symbols.len() && (#[trigger] symbols[i]).1 == last
    &&& forall|i: int| 0 <= i < symbols.len() ==> first <= (#[trigger] symbols[i]).1 <= last
}

/// What is left to do about a module's initialisers.
#[derive(Clone, Copy, Debug, PartialEq, Eq, Structural)]
pub enum InitStep {
    /// Nothing.
    Done,
    /// Run the function at this address, then go on.
    Call(u64),
}

/// The next step through a list of initialisers, and how many of them it takes off.
/// Those with nothing to run are passed over, but a guest that exited goes no further.
pub open spec fn next_init(list: Seq<InitFunction>, m: Machine, exited: bool, from: int) -> (
    Result<InitStep, BackendError>,
    int,
)
    decreases list.len() - from,
{
    if from < 0 || from >= list.len() {
        (Ok(InitStep::Done), from)
    } else {
        match list[from].target(m) {
            None => (Err(BackendError::Unmapped), from + 1),
            Some(Some(address)) => (Ok(InitStep::Call(address)), from + 1),
            Some(None) => if exited {
                (Ok(InitStep::Done), from + 1)
            } else {
                next_init(list, m, exited, from + 1)
            },
        }
    }
}

/// The machine after the first `n` regions were unmapped.
pub open spec fn regions_unmapped(m: Machine, regions: Seq<ModuleMemRegion>, n: int) -> Machine
    decreases n,
{
    if n <= 0 {
        m
    } else {
        regions_unmapped(m, regions, n - 1).unmap_pages(
            regions[n - 1].begin as int,
            regions[n - 1].end - regions[n - 1].begin,
        )
    }
}

/// Region `i` can be unmapped once those before it are.
pub open spec fn region_unmappable(m: Machine, regions: Seq<ModuleMemRegion>, i: int) -> bool {
    regions_unmapped(m, regions, i).can_change(
        regions[i].begin as int,
        regions[i].end - regions[i].begin,
    )
}

impl LinuxModule {
    pub fn new(
        virtual_base: u64,
        base: u64,
        size: u64,
        name: String,
        dynsym: Option<SymbolTable>,
        unresolved_symbol: Vec<ModuleSymbol>,
        init_function_list: VecDeque<InitFunction>,
        needed_libraries: IndexMap<String, usize>,
        regions: Vec<ModuleMemRegion>,
        arm_ex_idx: Option<usize>,
        eh_frame_header: Option<usize>,
        symbol_table_section: Option<usize>,
        elf_file: Option<ElfFile>,
    ) -> (m: LinuxModule)
        ensures
            m == (LinuxModule {
                name,
                base,
                size,
                needed_libraries,
                regions,
                ref_cnt: 0,
                entry_point: 0,
                dynsym,
                virtual_base,
                unresolved_symbol,
                resolved_symbol: m.resolved_symbol,
                init_function_list,
                arm_ex_idx,
                eh_frame_header,
                symbol_table_section,
                elf_file,
            }),
            m.resolved_symbol@.len() == 0,
    {
        LinuxModule {
            name,
            base,
            size,
            needed_libraries,
            regions,
            ref_cnt: 0,
            entry_point: 0,
            dynsym,
            virtual_base,
            unresolved_symbol,
            resolved_symbol: ResolvedPlaces::new(),
            init_function_list,
            arm_ex_idx,
            eh_frame_header,
            symbol_table_section,
            elf_file,
        }
    }

    /// The module has this name and nothing of an image: it only spans addresses.
    pub open spec fn without_image(self, name: Seq<char>) -> bool {
        &&& self.virtual_base == self.base
        &&& self.name@ == name
        &&& index_entries(self.needed_libraries).len() == 0
        &&& self.regions@.len() == 0
        &&& self.ref_cnt == 0
        &&& self.entry_point == 0
        &&& self.dynsym is None
        &&& self.unresolved_symbol@.len() == 0
        &&& self.resolved_symbol@.len() == 0
        &&& self.init_function_list@.len() == 0
        &&& self.arm_ex_idx is None
        &&& self.eh_frame_header is None
        &&& self.symbol_table_section is None
        &&& self.elf_file is None
    }

    /// The address lies in the module.
    pub open spec fn spans(self, addr: u64) -> bool {
        self.base <= addr < self.base + self.size
    }

    /// The symbol that holds an address. Beyond the entry point a symbol that begins
    /// before the entry point goes by the name `start`.
    pub fn find_symbol_by_closest_addr(&self, addr: u64) -> (r: Result<LinuxSymbol, SymbolNotFound>)
        requires
            self.dynsym is Some && addr >= self.base ==> self.base + self.entry_point <= u64::MAX,
        ensures
            match self.dynsym {
                Some(table) if addr >= self.base => match first_covering(
                    table.entries@,
                    (addr - self.base) as u64,
                    0,
                ) {
                    Some(i) => {
                        let e = table.entries@[i];
                        &&& r matches Ok(s)
                        &&& s.symbol == e.symbol
                        &&& s.base == self.base
                        &&& s.module_name@ == self.name@
                        &&& s.addr() <= addr
                        &&& s.name@ == if addr >= self.base + self.entry_point && self.entry_point
                            > e.symbol.value {
                            "start"@
                        } else {
                            e.name@
                        }
                    },
                    None => r is Err,
                },
                _ => r is Err,
            },
    {
        if let Some(table) = &self.dynsym {
            if addr < self.base {
                return Err(SymbolNotFound);
            }
            let so_addr: u64 = addr - self.base;
            if let Some(i) = table.get_elf_symbol_by_addr(so_addr) {
                proof {
                    lemma_first_covering(table.entries@, so_addr, 0);
                }
                let entry: u64 = self.base + self.entry_point;
                let symbol = table.entries[i].symbol;
                let name = if addr >= entry && entry > self.base + symbol.value {
                    "start".to_owned()
                } else {
                    table.entries[i].name.as_str().to_owned()
                };
                return Ok(
                    LinuxSymbol {
                        name,
                        symbol,
                        base: self.base,
                        module_name: self.name.as_str().to_owned(),
                    },
                );
            }
        }
        Err(SymbolNotFound)
    }

    fn own_symbol(&self, name: &str) -> (r: Result<LinuxSymbol, SymbolNotFound>)
        ensures
            symbol_answer(
                r,
                name@,
                named_symbol(Seq::empty(), *self, 0, name@, false),
            ),
    {
        if let Some(table) = &self.dynsym {
            if let Some(symbol) = table.get_elf_symbol_by_name(name) {
                return Ok(
                    LinuxSymbol {
                        name: name.to_owned(),
                        symbol,
                        base: self.base,
                        module_name: self.name.as_str().to_owned(),
                    },
                );
            }
        }
        Err(SymbolNotFound)
    }

    /// The symbol of a name; with `with_dep` also one of the modules needed.
    pub fn find_symbol_by_name(&self, list: &Vec<LinuxModule>, name: &str, with_dep: bool) -> (r:
        Result<LinuxSymbol, SymbolNotFound>)
        requires
            loaded_in_order(list@),
            needs_below(*self, list@.len() as int),
        ensures
            symbol_answer(
                r,
                name@,
                named_symbol(list@, *self, list@.len() as int, name@, with_dep),
            ),
    {
        match self.own_symbol(name) {
            Ok(s) => Ok(s),
            Err(e) => {
                if self.dynsym.is_none() || !with_dep {
                    return Err(e);
                }
                let n: usize = index_len(&self.needed_libraries);
                let mut k: usize = 0;
                while k < n
                    invariant
                        n == index_entries(self.needed_libraries).len(),
                        k <= n,
                        loaded_in_order(list@),
                        needs_below(*self, list@.len() as int),
                        named_symbol(list@, *self, list@.len() as int, name@, with_dep)
                            == needed_symbol(
                            list@,
                            index_entries(self.needed_libraries),
                            k as int,
                            list@.len() as int,
                            name@,
                        ),
                    decreases n - k,
                {
                    let (_, dep) = index_at(&self.needed_libraries, k).unwrap();
                    assert(index_entries(self.needed_libraries)[k as int].1 < list@.len());
                    let found = find_in_list(list, dep, name, true);
                    if found.is_ok() {
                        return found;
                    }
                    k = k + 1;
                }
                Err(SymbolNotFound)
            },
        }
    }

    /// The symbol that the module's own table has under a name.
    pub fn get_elf_symbol_by_name(&self, name: &str) -> (r: Result<ElfSymbol, SymbolNotFound>)
        ensures
            match self.dynsym {
                Some(table) => match first_named(table.entries@, name@, 0) {
                    Some(s) => r == Ok::<ElfSymbol, SymbolNotFound>(s),
                    None => r is Err,
                },
                None => r is Err,
            },
    {
        if let Some(table) = &self.dynsym {
            if let Some(s) = table.get_elf_symbol_by_name(name) {
                return Ok(s);
            }
        }
        Err(SymbolNotFound)
    }

    /// A module without an image, made of addresses: it spans the pages from the
    /// least to the greatest of them.
    pub fn create_virtual_module(name: String, symbols: &Vec<(String, u64)>) -> (m: LinuxModule)
        requires
            symbols@.len() > 0,
            forall|i: int|
                0 <= i < symbols@.len() ==> (#[trigger] symbols@[i]).1 + 0xfff <= u64::MAX,
        ensures
            exists|first: u64, last: u64|
                #![trigger is_span(symbols@, first, last)]
                is_span(symbols@, first, last) && (m.base as int, m.size as int) == aligned(
                    first as int,
                    last - first,
                    0x1000,
                ),
            m.without_image(name@),
    {
        let mut first: u64 = symbols[0].1;
        let mut last: u64 = symbols[0].1;
        let mut i: usize = 1;
        while i < symbols.len()
            invariant
                1 <= i <= symbols@.len(),
                exists|j: int| 0 <= j < i && (#[trigger] symbols@[j]).1 == first,
                exists|j: int| 0 <= j < i && (#[trigger] symbols@[j]).1 == last,
                forall|j: int| 0 <= j < i ==> first <= (#[trigger] symbols@[j]).1 <= last,
            decreases symbols@.len() - i,
        {
            let v: u64 = symbols[i].1;
            if v < first {
                first = v;
            }
            if v > last {
                last = v;
            }
            i = i + 1;
            assert(symbols@[i - 1].1 == v);
        }
        assert(is_span(symbols@, first, last));
        assert(can_align(first as int, last - first, 0x1000)) by {
            let j = choose|j: int| 0 <= j < symbols@.len() && (#[trigger] symbols@[j]).1 == last;
            assert(symbols@[j].1 + 0xfff <= u64::MAX);
        }
        let a = align_addr(first, last - first, 0x1000);
        Self::new(
            a.address,
            a.address,
            a.size,
            name,
            None,
            Vec::new(),
            VecDeque::new(),
            index_new(),
            Vec::new(),
            None,
            None,
            None,
            None,
        )
    }

    /// The path under which the guest sees the module.
    pub fn path(&self, proc_name: &str) -> (r: String)
        ensures
            r@ == path_of(self.name@, proc_name@),
    {
        let name = self.name.as_str();
        if str_eq(name, "liblog.so") || str_eq(name, "libc++.so") || str_eq(name, "libc.so")
            || str_eq(name, "libm.so") || str_eq(name, "libdl.so") || str_eq(name, "libstdc++.so")
            || str_eq(name, "libz.so") || str_eq(name, "libandroid.so") {
            return join2("/system/lib64/", name);
        }
        let package = text_before(proc_name, ':');
        let dir = join3("/data/app/~~YuanShenZhenChaoHaoWan/", package.as_str(), "-0/lib/arm64/");
        join2(dir.as_str(), name)
    }

    /// Unmap the module's regions, in order, up to the first that cannot be unmapped.
    pub fn unload(&self, backend: &mut Backend) -> (r: Result<(), BackendError>)
        requires
            forall|i: int|
                0 <= i < self.regions@.len() ==> (#[trigger] self.regions@[i]).begin
                    <= self.regions@[i].end,
        ensures
            match r {
                Ok(_) => {
                    &&& forall|i: int|
                        0 <= i < self.regions@.len() ==> #[trigger] region_unmappable(
                            old(backend)@,
                            self.regions@,
                            i,
                        )
                    &&& final(backend)@ == regions_unmapped(
                        old(backend)@,
                        self.regions@,
                        self.regions@.len() as int,
                    )
                },
                Err(_) => exists|n: int|
                    {
                        &&& 0 <= n < self.regions@.len()
                        &&& !#[trigger] region_unmappable(old(backend)@, self.regions@, n)
                        &&& final(backend)@ == regions_unmapped(old(backend)@, self.regions@, n)
                        &&& forall|i: int|
                            0 <= i < n ==> #[trigger] region_unmappable(
                                old(backend)@,
                                self.regions@,
                                i,
                            )
                    },
            },
    {
        let mut i: usize = 0;
        while i < self.regions.len()
            invariant
                i <= self.regions@.len(),
                forall|j: int|
                    0 <= j < self.regions@.len() ==> (#[trigger] self.regions@[j]).begin
                        <= self.regions@[j].end,
                forall|j: int|
                    0 <= j < i ==> #[trigger] region_unmappable(old(backend)@, self.regions@, j),
                backend@ == regions_unmapped(old(backend)@, self.regions@, i as int),
            decreases self.regions@.len() - i,
        {
            let region = self.regions[i];
            let ghost before = backend@;
            assert(self.regions@[i as int].begin <= self.regions@[i as int].end);
            match backend.mem_unmap(region.begin, region.end - region.begin) {
                Ok(_) => {
                    assert(region_unmappable(old(backend)@, self.regions@, i as int));
                },
                Err(e) => {
                    assert(!region_unmappable(old(backend)@, self.regions@, i as int));
                    return Err(e);
                },
            }
            i = i + 1;
        }
        Ok(())
    }

    /// Go on with the module's initialisers. Those of a module that waits for symbols
    /// stay where they are unless `must_call_init` says otherwise. `resumed` tells
    /// that a function which an earlier step asked for was run; `exited`, that the
    /// guest has ended.
    pub fn call_init_functions(
        &mut self,
        must_call_init: bool,
        resumed: bool,
        exited: bool,
        backend: &Backend,
    ) -> (r: Result<InitStep, BackendError>)
        requires
            forall|i: int|
                0 <= i < old(self).init_function_list@.len() ==> (#[trigger] old(self).init_function_list@[i]).wf(),
        ensures
            *final(self) == (LinuxModule {
                init_function_list: final(self).init_function_list,
                ..*old(self)
            }),
            ({
                let list = old(self).init_function_list@;
                if (!must_call_init && old(self).unresolved_symbol@.len() > 0) || (resumed
                    && exited) {
                    r == Ok::<InitStep, BackendError>(InitStep::Done) && final(self).init_function_list@ == list
                } else {
                    let (step, n) = next_init(list, backend@, exited, 0);
                    r == step && final(self).init_function_list@ == list.skip(n)
                }
            }),
    {
        if !must_call_init && self.unresolved_symbol.len() > 0 {
            return Ok(InitStep::Done);
        }
        if resumed && exited {
            return Ok(InitStep::Done);
        }
        let ghost list = self.init_function_list@;
        let ghost mut n: int = 0;
        assert(list.skip(0) =~= list);
        loop
            invariant
                0 <= n <= list.len(),
                must_call_init || old(self).unresolved_symbol@.len() == 0,
                !(resumed && exited),
                list == old(self).init_function_list@,
                self.init_function_list@ == list.skip(n),
                *self == (LinuxModule {
                    init_function_list: self.init_function_list,
                    ..*old(self)
                }),
                next_init(list, backend@, exited, 0) == next_init(list, backend@, exited, n),
                forall|i: int| 0 <= i < list.len() ==> (#[trigger] list[i]).wf(),
            decreases list.len() - n,
        {
            match self.init_function_list.pop_front() {
                Some(f) => {
                    assert(f == list[n]);
                    assert(self.init_function_list@ =~= list.skip(n + 1));
                    match f.call(backend) {
                        Ok(Some(address)) => {
                            return Ok(InitStep::Call(address));
                        },
                        Ok(None) => {
                            if exited {
                                return Ok(InitStep::Done);
                            }
                        },
                        Err(e) => {
                            return Err(e);
                        },
                    }
                    proof {
                        n = n + 1;
                    }
                },
                None => {
                    assert(self.init_function_list@ =~= list.skip(n));
                    return Ok(InitStep::Done);
                },
            }
        }
    }
}

/// A symbol that a module has itself comes before any of its needed modules.
pub proof fn law_own_symbol_comes_first(
    list: Seq<LinuxModule>,
    m: LinuxModule,
    name: Seq<char>,
    with_dep: bool,
)
    requires
        m.dynsym matches Some(t) && first_named(t.entries@, name, 0) is Some,
    ensures
        named_symbol(list, m, list.len() as int, name, with_dep) == Some(
            Found {
                symbol: first_named(m.dynsym->0.entries@, name, 0)->0,
                base: m.base,
                module_name: m.name@,
            },
        ),
{
}

/// The module's own table has the symbol under the name, and it is the first there.
pub open spec fn defines(m: LinuxModule, name: Seq<char>, f: Found) -> bool {
    &&& f.base == m.base
    &&& f.module_name == m.name@
    &&& m.dynsym matches Some(t) && exists|i: int|
        0 <= i < t.entries@.len() && (#[trigger] t.entries@[i]).name@ == name && t.entries@[i].symbol
            == f.symbol && forall|j: int| 0 <= j < i ==> (#[trigger] t.entries@[j]).name@ != name
}

/// No entry of the module's own table has the name.
pub open spec fn lacks(m: LinuxModule, name: Seq<char>) -> bool {
    m.dynsym matches Some(t) ==> forall|i: int|
        0 <= i < t.entries@.len() ==> (#[trigger] t.entries@[i]).name@ != name
}

/// A symbol that is found under a name stands in the table of the module itself or, where
/// needed modules are looked at too, of a loaded module; it carries that module's base and
/// name. Without needed modules nothing is found exactly where the module's own table lacks
/// the name. With them, the module's own symbol comes first, and among the needed modules
/// the first, in their order, that knows the name.
pub proof fn law_symbol_search(
    list: Seq<LinuxModule>,
    m: LinuxModule,
    bound: int,
    name: Seq<char>,
)
    requires
        0 <= bound <= list.len(),
    ensures
        match named_symbol(list, m, bound, name, false) {
            Some(f) => defines(m, name, f),
            None => lacks(m, name),
        },
        match named_symbol(list, m, bound, name, true) {
            Some(f) => if lacks(m, name) {
                exists|i: int| 0 <= i < bound && defines(#[trigger] list[i], name, f)
            } else {
                defines(m, name, f)
            },
            None => lacks(m, name),
        },
    decreases bound, 1int, 0int,
{
    if let Some(t) = m.dynsym {
        crate::elf::lemma_first_named(t.entries@, name, 0);
        if first_named(t.entries@, name, 0) is None {
            lemma_needed_search(list, index_entries(m.needed_libraries), 0, bound, name);
        }
    }
}

proof fn lemma_needed_search(
    list: Seq<LinuxModule>,
    needed: Seq<(Seq<char>, usize)>,
    k: int,
    bound: int,
    name: Seq<char>,
)
    requires
        0 <= bound <= list.len(),
    ensures
        needed_symbol(list, needed, k, bound, name) matches Some(f) ==> exists|i: int|
            0 <= i < bound && defines(#[trigger] list[i], name, f),
    decreases bound, 0int, needed.len() - k,
{
    if 0 <= k < needed.len() && needed[k].1 < bound {
        let at = needed[k].1 as int;
        law_symbol_search(list, list[at], at, name);
        match named_symbol(list, list[at], at, name, true) {
            Some(f) => {
                if !lacks(list[at], name) {
                    assert(defines(list[at], name, f));
                }
            },
            None => {
                lemma_needed_search(list, needed, k + 1, bound, name);
            },
        }
    }
}

/// Among needed modules the first in their order that knows a name gives the symbol.
pub proof fn law_needed_modules_in_order(
    list: Seq<LinuxModule>,
    needed: Seq<(Seq<char>, usize)>,
    bound: int,
    name: Seq<char>,
    k: int,
)
    requires
        0 <= k < needed.len(),
        forall|j: int| 0 <= j < needed.len() ==> (#[trigger] needed[j]).1 < bound,
        forall|j: int|
            0 <= j < k ==> named_symbol(
                list,
                list[(#[trigger] needed[j]).1 as int],
                needed[j].1 as int,
                name,
                true,
            ) is None,
        named_symbol(list, list[needed[k].1 as int], needed[k].1 as int, name, true) is Some,
    ensures
        needed_symbol(list, needed, 0, bound, name) == named_symbol(
            list,
            list[needed[k].1 as int],
            needed[k].1 as int,
            name,
            true,
        ),
{
    lemma_skip_needed(list, needed, bound, name, 0, k);
}

proof fn lemma_skip_needed(
    list: Seq<LinuxModule>,
    needed: Seq<(Seq<char>, usize)>,
    bound: int,
    name: Seq<char>,
    from: int,
    k: int,
)
    requires
        0 <= from <= k < needed.len(),
        forall|j: int| 0 <= j < needed.len() ==> (#[trigger] needed[j]).1 < bound,
        forall|j: int|
            from <= j < k ==> named_symbol(
                list,
                list[(#[trigger] needed[j]).1 as int],
                needed[j].1 as int,
                name,
                true,
            ) is None,
        named_symbol(list, list[needed[k].1 as int], needed[k].1 as int, name, true) is Some,
    ensures
        needed_symbol(list, needed, from, bound, name) == named_symbol(
            list,
            list[needed[k].1 as int],
            needed[k].1 as int,
            name,
            true,
        ),
    decreases k - from,
{
    assert(needed[from].1 < bound);
    if from < k {
        assert(named_symbol(
            list,
            list[needed[from].1 as int],
            needed[from].1 as int,
            name,
            true,
        ) is None);
        lemma_skip_needed(list, needed, bound, name, from + 1, k);
    }
}

/// Initialisers run in their order: the next one to run is the first that has a function,
/// all before it have none, and it is taken off the list together with them. A guest that
/// has exited still has its first initialiser run, but skips none.
pub proof fn law_next_initialiser(list: Seq<InitFunction>, m: Machine, exited: bool)
    ensures
        ({
            let (step, n) = next_init(list, m, exited, 0);
            &&& 0 <= n <= list.len()
            &&& match step {
                Ok(InitStep::Call(address)) => {
                    &&& n > 0
                    &&& list[n - 1].target(m) == Some(Some(address))
                    &&& forall|i: int|
                        0 <= i < n - 1 ==> (#[trigger] list[i]).target(m) == Some(None::<u64>)
                    &&& exited ==> n == 1
                },
                Ok(InitStep::Done) => {
                    &&& forall|i: int|
                        0 <= i < n ==> (#[trigger] list[i]).target(m) == Some(None::<u64>)
                    &&& !exited ==> n == list.len()
                    &&& exited ==> n <= 1
                },
                Err(_) => {
                    &&& n > 0
                    &&& list[n - 1].target(m) is None
                    &&& forall|i: int|
                        0 <= i < n - 1 ==> (#[trigger] list[i]).target(m) == Some(None::<u64>)
                },
            }
        }),
{
    lemma_next_init(list, m, exited, 0);
}

proof fn lemma_next_init(list: Seq<InitFunction>, m: Machine, exited: bool, from: int)
    requires
        0 <= from <= list.len(),
    ensures
        ({
            let (step, n) = next_init(list, m, exited, from);
            &&& from <= n <= list.len()
            &&& match step {
                Ok(InitStep::Call(address)) => {
                    &&& n > from
                    &&& list[n - 1].target(m) == Some(Some(address))
                    &&& forall|i: int|
                        from <= i < n - 1 ==> (#[trigger] list[i]).target(m) == Some(None::<u64>)
                    &&& exited ==> n == from + 1
                },
                Ok(InitStep::Done) => {
                    &&& forall|i: int|
                        from <= i < n ==> (#[trigger] list[i]).target(m) == Some(None::<u64>)
                    &&& !exited ==> n == list.len()
                    &&& exited ==> n <= from + 1
                },
                Err(_) => {
                    &&& n > from
                    &&& list[n - 1].target(m) is None
                    &&& forall|i: int|
                        from <= i < n - 1 ==> (#[trigger] list[i]).target(m) == Some(None::<u64>)
                },
            }
        }),
    decreases list.len() - from,
{
    if from < list.len() && !exited {
        lemma_next_init(list, m, exited, from + 1);
    }
}

/// A module made of addresses spans all of them, from a page's begin to a page's end.
pub proof fn law_virtual_span(symbols: Seq<(String, u64)>, first: u64, last: u64, i: int)
    requires
        is_span(symbols, first, last),
        0 <= i < symbols.len(),
    ensures
        ({
            let (base, size) = aligned(first as int, last - first, 0x1000);
            &&& base <= symbols[i].1 <= base + size
            &&& base % 0x1000 == 0
            &&& size % 0x1000 == 0
            &&& first - 0x1000 < base
            &&& base + size < last + 0x1000
        }),
{
    assert(first <= symbols[i].1 <= last);
}

/// The libraries of the system image have their path below `/system/lib64/`; every other
/// library has it in the package's own directory, which is named after the process up to the
/// first colon.
pub proof fn law_module_paths(name: Seq<char>, proc_name: Seq<char>)
    ensures
        ({
            let path = path_of(name, proc_name);
            let system = name == "liblog.so"@ || name == "libc++.so"@ || name == "libc.so"@ || name
                == "libm.so"@ || name == "libdl.so"@ || name == "libstdc++.so"@ || name == "libz.so"@
                || name == "libandroid.so"@;
            &&& system ==> path == "/system/lib64/"@ + name
            &&& !system ==> path == "/data/app/~~YuanShenZhenChaoHaoWan/"@ + before_char(
                proc_name,
                ':',
            ) + "-0/lib/arm64/"@ + name
        }),
{
}

/// Once a module's regions were unmapped, no page of them is mapped, and every other page has
/// its protection and its bytes as before.
pub proof fn law_unloaded_regions(m: Machine, regions: Seq<ModuleMemRegion>, n: int, p: int)
    requires
        0 <= n <= regions.len(),
        forall|i: int|
            0 <= i < n ==> (#[trigger] regions[i]).begin % 0x1000 == 0 && regions[i].end % 0x1000
                == 0 && regions[i].begin <= regions[i].end,
    ensures
        ({
            let end = regions_unmapped(m, regions, n);
            &&& (exists|i: int|
                0 <= i < n && (#[trigger] regions[i]).begin <= p * 0x1000 < regions[i].end)
                ==> !end.prot.dom().contains(p)
            &&& !(exists|i: int|
                0 <= i < n && (#[trigger] regions[i]).begin <= p * 0x1000 < regions[i].end) ==> {
                &&& end.prot.dom().contains(p) == m.prot.dom().contains(p)
                &&& m.prot.dom().contains(p) ==> end.prot[p] == m.prot[p]
            }
            &&& end.regs == m.regs
        }),
    decreases n,
{
    if n > 0 {
        law_unloaded_regions(m, regions, n - 1, p);
        let r = regions[n - 1];
        assert(r.begin % 0x1000 == 0);
        let before = regions_unmapped(m, regions, n - 1);
        let inside = r.begin as int / 0x1000 <= p < (r.begin + (r.end - r.begin)) / 0x1000;
        assert(inside <==> r.begin <= p * 0x1000 < r.end);
        if exists|i: int| 0 <= i < n && (#[trigger] regions[i]).begin <= p * 0x1000 < regions[i].end {
            let i = choose|i: int|
                0 <= i < n && (#[trigger] regions[i]).begin <= p * 0x1000 < regions[i].end;
            if i < n - 1 {
                assert(regions[i].begin <= p * 0x1000 < regions[i].end);
            }
        }
    }
}

} // verus!
