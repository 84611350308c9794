//! The loader's own state: the stack, the mapped ranges and the modules.
use std::collections::HashMap;
use bytes::Bytes;
use indexmap::IndexMap;
use vstd::prelude::*;
use crate::backend::{
    Backend, BackendError, Machine, PERM_READ_EXEC, PERM_READ_WRITE, RegisterARM64,
};
use crate::elf::ElfFile;
use crate::le::{le32, le64};
use crate::linux::module::{
    is_span, loaded_in_order, needs_below, next_init, InitStep, LinuxModule,
};
use crate::linux::symbol::{LinuxSymbol, ModuleSymbol};
use crate::memory::region::MemoryMap;
use crate::memory::segments::map_range;
use crate::memory::stack::{
    lemma_run_append, moved_to, text_ops, text_room, GuestStack, StackOp,
};
use crate::memory::tls::{init_tls, tls_head_ops, tls_layout, tls_ops, tls_room};
use crate::outside::{
    bytes_slice, frozen_bytes, index_at, index_entries, index_insert, index_len, index_new,
    put_entry,
};
use crate::tool::{align_size, aligned, can_align, stack_size, Alignment};

verus! {

broadcast use vstd::std_specs::hash::group_hash_axioms;

/// Where the guest's stack ends and modules begin.
#[derive(Clone, Copy, Debug, PartialEq, Eq, Structural)]
pub struct GuestLayout {
    /// One past the highest address of the stack.
    pub stack_base: u64,
    pub stack_pages: u64,
    /// Where the first module goes.
    pub mmap_base: u64,
}

/// A symbol of a library that a listener replaced, as `library#symbol`.
pub struct HookEntry {
    pub key: String,
    pub hook: u64,
}

pub struct AndroidElfLoader {
    pub stack_size: u64,
    pub stack: GuestStack,
    pub environ: u64,
    pub hook_listeners: Vec<usize>,
    pub cache_hook: Vec<HookEntry>,
    pub mmap_base: u64,
    pub memory_map: HashMap<u64, MemoryMap>,
    pub temp_memory: Vec<(u64, u64)>,
    /// All modules that were ever loaded, in that order.
    pub list: Vec<LinuxModule>,
    /// The modules by name, as positions in `list`.
    pub modules: IndexMap<String, usize>,
    pub malloc: Option<LinuxSymbol>,
    pub free: Option<LinuxSymbol>,
    pub tlsdesc_resolver: Option<u64>,
}

/// The first module, from the `k`th name on, that holds an address.
pub open spec fn module_holding(
    entries: Seq<(Seq<char>, usize)>,
    list: Seq<LinuxModule>,
    addr: u64,
    k: int,
) -> Option<usize>
    decreases entries.len() - k,
{
    if k < 0 || k >= entries.len() {
        None
    } else if list[entries[k].1 as int].spans(addr) {
        Some(entries[k].1)
    } else {
        module_holding(entries, list, addr, k + 1)
    }
}

/// Where the stub for TLS descriptors stands.
pub const TLSDESC_STUB: u64 = 0xfffc0000;

/// `ldr x0, [x0, #8]` and `ret`.
pub open spec fn tlsdesc_code() -> Seq<u8> {
    seq![0x00, 0x04, 0x40, 0xf9, 0xc0, 0x03, 0x5f, 0xd6]
}

/// The machine with the stub in place, as far as its page can be had.
pub open spec fn stub_installed(m: Machine) -> Machine {
    (if m.can_map(TLSDESC_STUB as int, 0x1000) {
        m.map_pages(TLSDESC_STUB as int, 0x1000, PERM_READ_EXEC)
    } else {
        m
    }).try_write(TLSDESC_STUB as int, tlsdesc_code())
}

/// The machine after the first `n` ranges were unmapped, as far as they could be.
pub open spec fn ranges_released(m: Machine, ranges: Seq<(u64, u64)>, n: int) -> Machine
    decreases n,
{
    if n <= 0 {
        m
    } else {
        let before = ranges_released(m, ranges, n - 1);
        if before.can_change(ranges[n - 1].0 as int, ranges[n - 1].1 as int) {
            before.unmap_pages(ranges[n - 1].0 as int, ranges[n - 1].1 as int)
        } else {
            before
        }
    }
}

/// The machine after the places got their addresses, and whether all could.
pub open spec fn places_filled(m: Machine, places: Seq<ModuleSymbol>, n: int) -> (Machine, bool)
    decreases n,
{
    if n <= 0 {
        (m, true)
    } else {
        let (before, ok) = places_filled(m, places, n - 1);
        if !ok {
            (before, false)
        } else {
            let addr = places[n - 1].relocation_addr as int;
            (before.try_write(addr, le64(places[n - 1]@.target())), before.mapped(addr, 8))
        }
    }
}

pub proof fn lemma_places_stuck(m: Machine, places: Seq<ModuleSymbol>, n: int, total: int)
    requires
        0 <= n <= total,
        !places_filled(m, places, n).1,
    ensures
        places_filled(m, places, total) == places_filled(m, places, n),
    decreases total - n,
{
    if n < total {
        lemma_places_stuck(m, places, n + 1, total);
    }
}

/// Give each place its address, up to the first that cannot be written.
pub fn fill_places(backend: &mut Backend, places: &Vec<ModuleSymbol>) -> (r: Result<
    (),
    BackendError,
>)
    ensures
        ({
            let (end, ok) = places_filled(old(backend)@, places@, places@.len() as int);
            final(backend)@ == end && ok == (r is Ok)
        }),
        r is Err ==> r == Err::<(), BackendError>(BackendError::Unmapped),
{
    let n: usize = places.len();
    let mut i: usize = 0;
    while i < n
        invariant
            i <= n,
            n == places@.len(),
            places_filled(old(backend)@, places@, i as int) == (backend@, true),
        decreases n - i,
    {
        let ghost next = places_filled(old(backend)@, places@, i + 1);
        proof {
            if !next.1 {
                lemma_places_stuck(old(backend)@, places@, i + 1, n as int);
            }
        }
        match places[i].relocation(backend) {
            Ok(_) => {},
            Err(e) => {
                return Err(e);
            },
        }
        i = i + 1;
    }
    Ok(())
}

/// Where the initialisers of the loaded modules have come to.
#[derive(Clone, Copy, Debug, PartialEq, Eq, Structural)]
pub struct InitCursor {
    /// Position among the named modules.
    pub at: usize,
    /// Whether a function of that module was run already.
    pub resumed: bool,
}

/// What to do next about initialisers.
#[derive(Clone, Copy, Debug, PartialEq, Eq, Structural)]
pub enum InitAction {
    /// Run the function at this address, then go on.
    Call(u64),
    /// Go on.
    Again,
    /// All is done.
    Finished,
}

/// `after` is `before` with no initialisers and no headers left.
pub open spec fn uncached(before: LinuxModule, after: LinuxModule) -> bool {
    &&& after.init_function_list@.len() == 0
    &&& match before.elf_file {
        Some(e) => {
            &&& after.elf_file matches Some(f)
            &&& f.program_headers@.len() == 0
            &&& f.section_headers@.len() == 0
            &&& f == (ElfFile {
                program_headers: f.program_headers,
                section_headers: f.section_headers,
                ..e
            })
        },
        None => after.elf_file is None,
    }
    &&& after == (LinuxModule {
        init_function_list: after.init_function_list,
        elf_file: after.elf_file,
        ..before
    })
}

/// One of the first `n` names leads to position `i`.
pub open spec fn named_within(entries: Seq<(Seq<char>, usize)>, n: int, i: int) -> bool {
    exists|k: int| 0 <= k < n && (#[trigger] entries[k]).1 == i
}

/// No two names lead to the same module.
pub open spec fn distinct_values(entries: Seq<(Seq<char>, usize)>) -> bool {
    forall|j: int, k: int|
        0 <= j < k < entries.len() ==> (#[trigger] entries[j]).1 != (#[trigger] entries[k]).1
}

impl AndroidElfLoader {
    /// Names lead to modules, each to its own, and modules need only earlier ones.
    pub open spec fn wf(self) -> bool {
        &&& loaded_in_order(self.list@)
        &&& forall|k: int|
            0 <= k < index_entries(self.modules).len() ==> (#[trigger] index_entries(
                self.modules,
            )[k]).1 < self.list@.len()
        &&& distinct_values(index_entries(self.modules))
    }

    /// Map the stack and set up the first thread's data. Also gives the address of the
    /// guest's error number.
    pub fn new(backend: &mut Backend, layout: GuestLayout, pid: u32, proc_name: &str) -> (r: Result<
        (AndroidElfLoader, u64),
        BackendError,
    >)
        requires
            0 < layout.stack_base,
            layout.stack_pages * 0x1000 <= layout.stack_base,
            old(backend)@.can_map(
                layout.stack_base - layout.stack_pages * 0x1000,
                layout.stack_pages * 0x1000,
            ),
            tls_room(proc_name@) <= layout.stack_base,
            ({
                let m = old(backend)@.map_pages(
                    layout.stack_base - layout.stack_pages * 0x1000,
                    layout.stack_pages * 0x1000,
                    PERM_READ_WRITE,
                ).set_reg(RegisterARM64::SP, layout.stack_base);
                let stack = GuestStack { sp: layout.stack_base, base: layout.stack_base };
                stack.begun(m).run(
                    tls_head_ops(layout.stack_base as int, pid, proc_name@),
                ).ok ==> stack.begun(m).run(
                    tls_ops(layout.stack_base as int, pid, proc_name@),
                ).ok
            }),
        ensures
            ({
                let m = old(backend)@.map_pages(
                    layout.stack_base - layout.stack_pages * 0x1000,
                    layout.stack_pages * 0x1000,
                    PERM_READ_WRITE,
                ).set_reg(RegisterARM64::SP, layout.stack_base);
                let stack = GuestStack { sp: layout.stack_base, base: layout.stack_base };
                let l = tls_layout(layout.stack_base as int, proc_name@);
                let end = stack.begun(m).run(tls_ops(layout.stack_base as int, pid, proc_name@));
                let sp = l.tls - l.tls % 16;
                let set = end.m.set_reg(RegisterARM64::TPIDR_EL0, l.tls as u64).set_reg(
                    RegisterARM64::SP,
                    sp as u64,
                );
                if !end.ok {
                    &&& r is Err
                    &&& final(backend)@ == end.m
                } else {
                    &&& final(backend)@ == set.try_write(l.tls + 16, le32(0))
                    &&& r is Ok <==> set.mapped(l.tls + 16, 4)
                    &&& r matches Ok((loader, errno)) ==> {
                        &&& errno == l.tls + 16
                        &&& loader.environ == l.argv + 16
                        &&& loader.stack == moved_to(end.stack, sp)
                    }
                }
            }),
            r matches Err(e) ==> e == BackendError::Unmapped,
            r matches Ok((loader, _)) ==> {
                &&& loader.wf()
                &&& loader.stack_size == layout.stack_pages * 0x1000
                &&& loader.mmap_base == layout.mmap_base
                &&& loader.hook_listeners@.len() == 0
                &&& loader.cache_hook@.len() == 0
                &&& loader.memory_map@ == Map::<u64, MemoryMap>::empty()
                &&& loader.temp_memory@.len() == 0
                &&& loader.list@.len() == 0
                &&& index_entries(loader.modules).len() == 0
                &&& loader.malloc is None
                &&& loader.free is None
                &&& loader.tlsdesc_resolver is None
            },
    {
        let stack_size: u64 = layout.stack_pages * 0x1000;
        backend.mem_map(layout.stack_base - stack_size, stack_size, PERM_READ_WRITE).unwrap();
        let mut stack = GuestStack { sp: 0, base: 0 };
        stack.set_point(backend, layout.stack_base);
        let (environ, errno) = match init_tls(&mut stack, backend, pid, proc_name) {
            Ok(p) => p,
            Err(e) => {
                return Err(e);
            },
        };
        match backend.mem_write_u32(errno, 0) {
            Ok(_) => {},
            Err(e) => {
                return Err(e);
            },
        }
        let loader = AndroidElfLoader {
            stack_size,
            stack,
            environ,
            hook_listeners: Vec::new(),
            cache_hook: Vec::new(),
            mmap_base: layout.mmap_base,
            memory_map: HashMap::new(),
            temp_memory: Vec::new(),
            list: Vec::new(),
            modules: index_new(),
            malloc: None,
            free: None,
            tlsdesc_resolver: None,
        };
        Ok((loader, errno))
    }

    /// The first module, by the order of the names, that holds an address.
    pub fn find_module_by_address(&self, addr: u64) -> (r: Option<usize>)
        requires
            self.wf(),
        ensures
            r == module_holding(index_entries(self.modules), self.list@, addr, 0),
            r matches Some(i) ==> i < self.list@.len() && self.list@[i as int].spans(addr),
    {
        let n: usize = index_len(&self.modules);
        let mut k: usize = 0;
        while k < n
            invariant
                self.wf(),
                n == index_entries(self.modules).len(),
                k <= n,
                module_holding(index_entries(self.modules), self.list@, addr, 0)
                    == module_holding(index_entries(self.modules), self.list@, addr, k as int),
            decreases n - k,
        {
            let (_, i) = index_at(&self.modules, k).unwrap();
            assert(index_entries(self.modules)[k as int].1 < self.list@.len());
            let m = &self.list[i];
            if m.base <= addr && addr - m.base < m.size {
                return Some(i);
            }
            k = k + 1;
        }
        None
    }

    pub fn set_mmap_base(&mut self, mmap_base: u64)
        ensures
            *final(self) == (AndroidElfLoader { mmap_base, ..*old(self) }),
    {
        self.mmap_base = mmap_base;
    }

    /// The stub that TLS descriptors lead to, put in place on first use.
    pub fn ensure_tlsdesc_resolver(&mut self, backend: &mut Backend) -> (r: u64)
        ensures
            match old(self).tlsdesc_resolver {
                Some(addr) => {
                    &&& r == addr
                    &&& *final(self) == *old(self)
                    &&& final(backend)@ == old(backend)@
                },
                None => {
                    &&& r == TLSDESC_STUB
                    &&& *final(self) == (AndroidElfLoader {
                        tlsdesc_resolver: Some(TLSDESC_STUB),
                        ..*old(self)
                    })
                    &&& final(backend)@ == stub_installed(old(backend)@)
                },
            },
    {
        if let Some(addr) = self.tlsdesc_resolver {
            return addr;
        }
        let _ = backend.mem_map(TLSDESC_STUB, 0x1000, PERM_READ_EXEC);
        let code: [u8; 8] = [0x00, 0x04, 0x40, 0xf9, 0xc0, 0x03, 0x5f, 0xd6];
        assert(code@ =~= tlsdesc_code());
        backend.mem_try_write(TLSDESC_STUB, code.as_slice());
        self.tlsdesc_resolver = Some(TLSDESC_STUB);
        TLSDESC_STUB
    }

    /// Make up a module from addresses and give it a name. A module that had the name
    /// loses it.
    pub fn load_virtual_module(&mut self, name: String, symbols: &Vec<(String, u64)>) -> (i: usize)
        requires
            old(self).wf(),
            symbols@.len() > 0,
            forall|i: int|
                0 <= i < symbols@.len() ==> (#[trigger] symbols@[i]).1 + 0xfff <= u64::MAX,
        ensures
            final(self).wf(),
            i == old(self).list@.len(),
            final(self).list@.len() == i + 1,
            final(self).list@.drop_last() == old(self).list@,
            ({
                let m = final(self).list@[i as int];
                &&& m.without_image(name@)
                &&& exists|first: u64, last: u64|
                    #![trigger is_span(symbols@, first, last)]
                    is_span(symbols@, first, last) && (m.base as int, m.size as int) == aligned(
                        first as int,
                        last - first,
                        0x1000,
                    )
            }),
            index_entries(final(self).modules) == put_entry(
                index_entries(old(self).modules),
                name@,
                i,
            ),
            *final(self) == (AndroidElfLoader {
                list: final(self).list,
                modules: final(self).modules,
                ..*old(self)
            }),
    {
        let label = name.as_str().to_owned();
        let module = LinuxModule::create_virtual_module(label, symbols);
        self.add_module(name, module)
    }

    /// Take a module into the list and give it a name.
    pub fn add_module(&mut self, name: String, module: LinuxModule) -> (i: usize)
        requires
            old(self).wf(),
            needs_below(module, old(self).list@.len() as int),
        ensures
            final(self).wf(),
            i == old(self).list@.len(),
            final(self).list@ == old(self).list@.push(module),
            index_entries(final(self).modules) == put_entry(
                index_entries(old(self).modules),
                name@,
                i,
            ),
            *final(self) == (AndroidElfLoader {
                list: final(self).list,
                modules: final(self).modules,
                ..*old(self)
            }),
    {
        let i: usize = self.list.len();
        self.list.push(module);
        let _ = index_insert(&mut self.modules, name, i);
        i
    }

    /// Give back memory that was only borrowed.
    pub fn release_tmp_memory(&mut self, backend: &mut Backend)
        ensures
            final(backend)@ == ranges_released(
                old(backend)@,
                old(self).temp_memory@,
                old(self).temp_memory@.len() as int,
            ),
            final(self).temp_memory@.len() == 0,
            *final(self) == (AndroidElfLoader {
                temp_memory: final(self).temp_memory,
                ..*old(self)
            }),
    {
        let n: usize = self.temp_memory.len();
        let mut i: usize = 0;
        while i < n
            invariant
                i <= n,
                n == self.temp_memory@.len(),
                *self == *old(self),
                backend@ == ranges_released(old(backend)@, self.temp_memory@, i as int),
            decreases n - i,
        {
            let (base, size) = self.temp_memory[i];
            let _ = backend.mem_unmap(base, size);
            i = i + 1;
        }
        self.temp_memory.clear();
    }

    /// Forget what is no longer needed of the named modules once they run.
    pub fn release_cached_library(&mut self)
        requires
            old(self).wf(),
        ensures
            final(self).list@.len() == old(self).list@.len(),
            forall|i: int|
                0 <= i < old(self).list@.len() ==> if named_within(
                    index_entries(old(self).modules),
                    index_entries(old(self).modules).len() as int,
                    i,
                ) {
                    uncached(old(self).list@[i], #[trigger] final(self).list@[i])
                } else {
                    final(self).list@[i] == old(self).list@[i]
                },
            *final(self) == (AndroidElfLoader { list: final(self).list, ..*old(self) }),
    {
        let n: usize = index_len(&self.modules);
        let ghost entries = index_entries(self.modules);
        let mut k: usize = 0;
        while k < n
            invariant
                old(self).wf(),
                n == entries.len(),
                entries == index_entries(old(self).modules),
                k <= n,
                self.list@.len() == old(self).list@.len(),
                *self == (AndroidElfLoader { list: self.list, ..*old(self) }),
                forall|i: int|
                    0 <= i < old(self).list@.len() ==> if named_within(entries, k as int, i) {
                        uncached(old(self).list@[i], #[trigger] self.list@[i])
                    } else {
                        self.list@[i] == old(self).list@[i]
                    },
            decreases n - k,
        {
            let (_, i) = index_at(&self.modules, k).unwrap();
            assert(entries[k as int].1 < old(self).list@.len());
            let ghost before = self.list@;
            self.list[i].init_function_list.clear();
            if let Some(elf) = &mut self.list[i].elf_file {
                elf.program_headers.clear();
                elf.section_headers.clear();
            }
            proof {
                assert(named_within(entries, k + 1, i as int));
                assert forall|j: int| 0 <= j < old(self).list@.len() implies if named_within(
                    entries,
                    k + 1,
                    j,
                ) {
                    uncached(old(self).list@[j], #[trigger] self.list@[j])
                } else {
                    self.list@[j] == old(self).list@[j]
                } by {
                    if j == i {
                        assert(uncached(old(self).list@[j], before[j]) || before[j] == old(self).list@[j]);
                    } else {
                        assert(self.list@[j] == before[j]);
                        assert(named_within(entries, k + 1, j) == named_within(
                            entries,
                            k as int,
                            j,
                        )) by {
                            if named_within(entries, k + 1, j) {
                                let w = choose|w: int|
                                    0 <= w < k + 1 && (#[trigger] entries[w]).1 == j;
                                assert(w < k);
                            }
                        }
                    }
                }
            }
            k = k + 1;
        }
    }

    /// Round a range out, map it and record it.
    pub fn mem_map(
        &mut self,
        backend: &mut Backend,
        address: u64,
        size: u64,
        prot: u32,
        align: u64,
    ) -> (a: Alignment)
        requires
            can_align(address as int, size as int, align as int),
            ({
                let (a, n) = aligned(address as int, size as int, align as int);
                old(backend)@.can_map(a, n)
            }),
        ensures
            (a.address as int, a.size as int) == aligned(
                address as int,
                size as int,
                align as int,
            ),
            a.begin == 0,
            a.data_size == 0,
            final(backend)@ == old(backend)@.map_pages(a.address as int, a.size as int, prot),
            final(self).memory_map@ == old(self).memory_map@.insert(
                a.address,
                MemoryMap { base: a.address, size: a.size, prot },
            ),
            *final(self) == (AndroidElfLoader {
                memory_map: final(self).memory_map,
                ..*old(self)
            }),
    {
        map_range(backend, &mut self.memory_map, address, size, prot, align)
    }

    pub fn add_hook_listeners(&mut self, listener: usize)
        ensures
            final(self).hook_listeners@ == old(self).hook_listeners@.push(listener),
            *final(self) == (AndroidElfLoader {
                hook_listeners: final(self).hook_listeners,
                ..*old(self)
            }),
    {
        self.hook_listeners.push(listener);
    }

    /// Take room on the stack.
    pub fn allocate_stack(&mut self, backend: &mut Backend, size: u64) -> (p: u64)
        requires
            size <= old(self).stack.sp,
        ensures
            p == old(self).stack.sp - size,
            final(self).stack.sp == p,
            final(self).stack.begun(final(backend)@) == old(self).stack.begun(
                old(backend)@,
            ).run(seq![StackOp::Alloc(size as int)]),
            *final(self) == (AndroidElfLoader { stack: final(self).stack, ..*old(self) }),
    {
        self.stack.allocate(backend, size)
    }

    pub fn set_stack_point(&mut self, backend: &mut Backend, sp: u64)
        ensures
            *final(self) == (AndroidElfLoader {
                stack: moved_to(old(self).stack, sp as int),
                ..*old(self)
            }),
            final(backend)@ == old(backend)@.set_reg(RegisterARM64::SP, sp),
    {
        self.stack.set_point(backend, sp);
    }

    /// Put text on the stack.
    pub fn write_stack_string(&mut self, backend: &mut Backend, string: &str) -> (r: Result<
        u64,
        BackendError,
    >)
        requires
            text_room(string@) <= old(self).stack.sp,
        ensures
            final(self).stack.sp == old(self).stack.sp - text_room(string@),
            ({
                let after = old(self).stack.begun(old(backend)@).run(
                    text_ops(old(self).stack.sp as int, string@),
                );
                &&& after.m == final(backend)@
                &&& after.stack == final(self).stack
                &&& after.ok == (r is Ok)
            }),
            r is Ok ==> r == Ok::<u64, BackendError>(final(self).stack.sp),
            r is Err ==> r == Err::<u64, BackendError>(BackendError::Unmapped),
            *final(self) == (AndroidElfLoader { stack: final(self).stack, ..*old(self) }),
    {
        self.stack.push_text(backend, string)
    }

    /// Put bytes on the stack.
    pub fn write_stack_bytes(&mut self, backend: &mut Backend, bytes: &Bytes) -> (r: Result<
        u64,
        BackendError,
    >)
        requires
            stack_size(frozen_bytes(*bytes).len() as int) <= old(self).stack.sp,
        ensures
            ({
                let n = stack_size(frozen_bytes(*bytes).len() as int);
                let p = old(self).stack.sp - n;
                let after = old(self).stack.begun(old(backend)@).run(
                    seq![StackOp::Alloc(n), StackOp::Put(p, frozen_bytes(*bytes))],
                );
                &&& final(self).stack.sp == p
                &&& after.m == final(backend)@
                &&& after.stack == final(self).stack
                &&& after.ok == (r is Ok)
            }),
            r is Ok ==> r == Ok::<u64, BackendError>(final(self).stack.sp),
            r is Err ==> r == Err::<u64, BackendError>(BackendError::Unmapped),
            *final(self) == (AndroidElfLoader { stack: final(self).stack, ..*old(self) }),
    {
        let data = bytes_slice(bytes);
        let size: u64 = align_size(data.len() as u64);
        let ghost start = self.stack.begun(backend@);
        let p: u64 = self.stack.allocate(backend, size);
        proof {
            lemma_run_append(
                start,
                seq![StackOp::Alloc(size as int)],
                seq![StackOp::Put(p as int, data@)],
            );
            assert(seq![StackOp::Alloc(size as int)] + seq![StackOp::Put(p as int, data@)] =~= seq![
                StackOp::Alloc(size as int),
                StackOp::Put(p as int, data@),
            ]);
        }
        match self.stack.put(backend, p, data) {
            Ok(_) => Ok(p),
            Err(e) => Err(e),
        }
    }

    /// Point the current thread's TLS slot 3 at the first thread's argument block.
    pub fn restore_thread_argv(&self, backend: &mut Backend)
        requires
            self.environ >= 16,
            old(backend)@.reg(RegisterARM64::TPIDR_EL0) + 24 <= u64::MAX,
            old(backend)@.mapped(old(backend)@.reg(RegisterARM64::TPIDR_EL0) + 24, 8),
        ensures
            final(backend)@ == old(backend)@.write(
                old(backend)@.reg(RegisterARM64::TPIDR_EL0) + 24,
                le64((self.environ - 16) as u64),
            ),
            final(backend)@.read_u64(old(backend)@.reg(RegisterARM64::TPIDR_EL0) + 24) == Some(
                (self.environ - 16) as u64,
            ),
    {
        let tls: u64 = backend.reg_read(RegisterARM64::TPIDR_EL0);
        proof {
            crate::backend::lemma_word_stored(backend@, tls + 24, (self.environ - 16) as u64);
        }
        backend.mem_write_u64(tls + 24, self.environ - 16).unwrap();
    }

    /// The places that wait for a symbol: for each module with an image, in the order
    /// of the names, the position of the module and of the place in it.
    pub open spec fn waiting(self, n: int) -> Seq<(usize, usize)>
        decreases n,
    {
        if n <= 0 {
            Seq::empty()
        } else {
            let i = index_entries(self.modules)[n - 1].1;
            let m = self.list@[i as int];
            self.waiting(n - 1) + if m.elf_file is Some {
                Seq::new(m.unresolved_symbol@.len(), |j: int| (i, j as usize))
            } else {
                Seq::empty()
            }
        }
    }

    pub fn waiting_symbols(&self) -> (r: Vec<(usize, usize)>)
        requires
            self.wf(),
        ensures
            r@ == self.waiting(index_entries(self.modules).len() as int),
    {
        let n: usize = index_len(&self.modules);
        let mut r: Vec<(usize, usize)> = Vec::new();
        let mut k: usize = 0;
        while k < n
            invariant
                self.wf(),
                n == index_entries(self.modules).len(),
                k <= n,
                r@ == self.waiting(k as int),
            decreases n - k,
        {
            let (_, i) = index_at(&self.modules, k).unwrap();
            assert(index_entries(self.modules)[k as int].1 < self.list@.len());
            let m = &self.list[i];
            let ghost before = r@;
            if m.elf_file.is_some() {
                let mut j: usize = 0;
                while j < m.unresolved_symbol.len()
                    invariant
                        j <= m.unresolved_symbol@.len(),
                        r@ == before + Seq::new(j as nat, |l: int| (i, l as usize)),
                    decreases m.unresolved_symbol@.len() - j,
                {
                    r.push((i, j));
                    j = j + 1;
                    assert(r@ =~= before + Seq::new(j as nat, |l: int| (i, l as usize)));
                }
            }
            k = k + 1;
            assert(r@ =~= self.waiting(k as int));
        }
        r
    }

    /// One step through the initialisers of all named modules, in their order. The
    /// module at `module_base` runs them even while it waits for symbols, if
    /// `force_init` says so. A guest that exited goes no further.
    pub fn next_initialiser(
        &mut self,
        backend: &Backend,
        cursor: InitCursor,
        force_init: bool,
        module_base: u64,
        exited: bool,
    ) -> (r: Result<(InitAction, InitCursor), BackendError>)
        requires
            old(self).wf(),
            forall|i: int, j: int|
                0 <= i < old(self).list@.len() && 0 <= j < old(self).list@[i].init_function_list@.len() ==> (#[trigger] old(self).list@[i].init_function_list@[j]).wf(),
        ensures
            final(self).wf(),
            *final(self) == (AndroidElfLoader { list: final(self).list, ..*old(self) }),
            if cursor.at >= index_entries(old(self).modules).len() {
                &&& r == Ok::<(InitAction, InitCursor), BackendError>(
                    (InitAction::Finished, cursor),
                )
                &&& final(self).list@ == old(self).list@
            } else {
                let i = index_entries(old(self).modules)[cursor.at as int].1 as int;
                let m = old(self).list@[i];
                let after = final(self).list@[i];
                let forced = force_init && module_base == m.base;
                let gated = (!forced && m.unresolved_symbol@.len() > 0) || (cursor.resumed
                    && exited);
                let (step, n) = if gated {
                    (Ok::<InitStep, BackendError>(InitStep::Done), 0)
                } else {
                    next_init(m.init_function_list@, backend@, exited, 0)
                };
                &&& final(self).list@ == old(self).list@.update(i, after)
                &&& after == (LinuxModule {
                    init_function_list: after.init_function_list,
                    ..m
                })
                &&& match step {
                    Err(e) => {
                        &&& r == Err::<(InitAction, InitCursor), BackendError>(e)
                        &&& after.init_function_list@ == m.init_function_list@.skip(n)
                    },
                    Ok(InitStep::Call(address)) => {
                        &&& r == Ok::<(InitAction, InitCursor), BackendError>(
                            (
                                InitAction::Call(address),
                                InitCursor { at: cursor.at, resumed: true },
                            ),
                        )
                        &&& after.init_function_list@ == m.init_function_list@.skip(n)
                    },
                    Ok(InitStep::Done) => {
                        &&& r == Ok::<(InitAction, InitCursor), BackendError>(
                            (
                                if exited {
                                    InitAction::Finished
                                } else {
                                    InitAction::Again
                                },
                                InitCursor { at: (cursor.at + 1) as usize, resumed: false },
                            ),
                        )
                        &&& after.init_function_list@.len() == 0
                    },
                }
            },
    {
        if cursor.at >= index_len(&self.modules) {
            return Ok((InitAction::Finished, cursor));
        }
        let (_, i) = index_at(&self.modules, cursor.at).unwrap();
        assert(index_entries(self.modules)[cursor.at as int].1 < self.list@.len());
        let ghost m = self.list@[i as int];
        let forced = force_init && module_base == self.list[i].base;
        let step = self.list[i].call_init_functions(forced, cursor.resumed, exited, backend);
        let out = match step {
            Err(e) => Err(e),
            Ok(InitStep::Call(address)) => Ok(
                (InitAction::Call(address), InitCursor { at: cursor.at, resumed: true }),
            ),
            Ok(InitStep::Done) => {
                self.list[i].init_function_list.clear();
                let action = if exited {
                    InitAction::Finished
                } else {
                    InitAction::Again
                };
                Ok((action, InitCursor { at: cursor.at + 1, resumed: false }))
            },
        };
        proof {
            let after = self.list@[i as int];
            assert(after == (LinuxModule { init_function_list: after.init_function_list, ..m }));
            assert(self.list@ =~= old(self).list@.update(i as int, after));
            assert forall|j: int| 0 <= j < self.list@.len() implies needs_below(
                #[trigger] self.list@[j],
                j,
            ) by {
                assert(needs_below(old(self).list@[j], j));
            }
        }
        out
    }

    /// Count one more user of a module.
    pub fn retain_module(&mut self, i: usize)
        requires
            old(self).wf(),
            i < old(self).list@.len(),
        ensures
            final(self).wf(),
            final(self).list@ == old(self).list@.update(
                i as int,
                LinuxModule {
                    ref_cnt: ((old(self).list@[i as int].ref_cnt + 1) % 0x1_0000_0000) as u32,
                    ..old(self).list@[i as int]
                },
            ),
            *final(self) == (AndroidElfLoader { list: final(self).list, ..*old(self) }),
    {
        let count: u32 = self.list[i].ref_cnt;
        self.list[i].ref_cnt = if count == u32::MAX {
            0
        } else {
            count + 1
        };
        proof {
            assert(self.list@ =~= old(self).list@.update(
                i as int,
                LinuxModule {
                    ref_cnt: ((old(self).list@[i as int].ref_cnt + 1) % 0x1_0000_0000) as u32,
                    ..old(self).list@[i as int]
                },
            ));
            assert forall|j: int| 0 <= j < self.list@.len() implies needs_below(
                #[trigger] self.list@[j],
                j,
            ) by {
                assert(needs_below(old(self).list@[j], j));
            }
        }
    }
}

/// The module that is found for an address holds it: the address is not below its base and
/// less than its size above. It is the first such by the order of names, and where none is
/// found, no named module holds the address.
pub proof fn law_module_for_address(
    entries: Seq<(Seq<char>, usize)>,
    list: Seq<LinuxModule>,
    addr: u64,
)
    ensures
        match module_holding(entries, list, addr, 0) {
            Some(i) => {
                &&& list[i as int].base <= addr
                &&& addr < list[i as int].base + list[i as int].size
                &&& exists|k: int|
                    0 <= k < entries.len() && (#[trigger] entries[k]).1 == i && forall|j: int|
                        0 <= j < k ==> !(list[(#[trigger] entries[j]).1 as int].base <= addr < list[
                        entries[j].1 as int].base + list[entries[j].1 as int].size)
            },
            None => forall|k: int|
                0 <= k < entries.len() ==> !(list[(#[trigger] entries[k]).1 as int].base <= addr
                    < list[entries[k].1 as int].base + list[entries[k].1 as int].size),
        },
{
    lemma_module_holding(entries, list, addr, 0);
}

proof fn lemma_module_holding(
    entries: Seq<(Seq<char>, usize)>,
    list: Seq<LinuxModule>,
    addr: u64,
    from: int,
)
    requires
        0 <= from <= entries.len(),
    ensures
        match module_holding(entries, list, addr, from) {
            Some(i) => {
                &&& list[i as int].spans(addr)
                &&& exists|k: int|
                    from <= k < entries.len() && (#[trigger] entries[k]).1 == i && forall|j: int|
                        from <= j < k ==> !list[(#[trigger] entries[j]).1 as int].spans(addr)
            },
            None => forall|k: int|
                from <= k < entries.len() ==> !list[(#[trigger] entries[k]).1 as int].spans(addr),
        },
    decreases entries.len() - from,
{
    if from < entries.len() {
        if list[entries[from].1 as int].spans(addr) {
            assert(entries[from].1 == module_holding(entries, list, addr, from)->0);
        } else {
            lemma_module_holding(entries, list, addr, from + 1);
            if let Some(i) = module_holding(entries, list, addr, from + 1) {
                let k = choose|k: int|
                    from + 1 <= k < entries.len() && (#[trigger] entries[k]).1 == i && forall|j: int|
                        from + 1 <= j < k ==> !list[(#[trigger] entries[j]).1 as int].spans(addr);
                assert(entries[k].1 == i);
            }
        }
    }
}

/// The stub for TLS descriptors is two instructions, on a page of its own that can be read
/// and executed: it loads the second word of the descriptor and returns.
pub proof fn law_stub_code(m: Machine)
    requires
        m.can_map(0xfffc_0000, 0x1000),
    ensures
        stub_installed(m).read_u32(0xfffc_0000) == Some(0xf940_0400u32),
        stub_installed(m).read_u32(0xfffc_0004) == Some(0xd65f_03c0u32),
        stub_installed(m).prot.dom().contains(0xfffc0),
        stub_installed(m).prot[0xfffc0] == 5,
{
    let page = m.map_pages(TLSDESC_STUB as int, 0x1000, PERM_READ_EXEC);
    let code = tlsdesc_code();
    assert(page.mapped(0xfffc_0000, 8));
    crate::backend::lemma_half_inside(page, 0xfffc_0000, code, 0);
    crate::backend::lemma_half_inside(page, 0xfffc_0000, code, 4);
    assert(code.subrange(0, 4) =~= seq![0x00u8, 0x04, 0x40, 0xf9]);
    assert(code.subrange(4, 8) =~= seq![0xc0u8, 0x03, 0x5f, 0xd6]);
}

/// The places that wait are those of the named modules with an image, all of them and no
/// others.
#[verifier::rlimit(40)]
pub proof fn law_waiting_places(s: AndroidElfLoader, n: int, i: usize, j: usize)
    requires
        0 <= n <= index_entries(s.modules).len(),
        forall|k: int|
            0 <= k < n ==> s.list@[(#[trigger] index_entries(
                s.modules,
            )[k]).1 as int].unresolved_symbol@.len() <= usize::MAX,
    ensures
        s.waiting(n).contains((i, j)) <==> named_within(index_entries(s.modules), n, i as int)
            && s.list@[i as int].elf_file is Some && j < s.list@[i as int].unresolved_symbol@.len(),
    decreases n,
{
    if n > 0 {
        law_waiting_places(s, n - 1, i, j);
        let entries = index_entries(s.modules);
        let at = entries[n - 1].1;
        let m = s.list@[at as int];
        let before = s.waiting(n - 1);
        let more = if m.elf_file is Some {
            Seq::new(m.unresolved_symbol@.len(), |l: int| (at, l as usize))
        } else {
            Seq::empty()
        };
        assert(s.waiting(n) =~= before + more);
        assert(s.list@[entries[n - 1].1 as int].unresolved_symbol@.len() <= usize::MAX);
        if s.waiting(n).contains((i, j)) {
            let k = choose|k: int| 0 <= k < s.waiting(n).len() && s.waiting(n)[k] == (i, j);
            if k < before.len() {
                assert(before[k] == (i, j));
                assert(before.contains((i, j)));
                let w = choose|w: int| 0 <= w < n - 1 && (#[trigger] entries[w]).1 == i;
                assert(entries[w].1 == i);
            } else {
                assert(more[k - before.len()] == (i, j));
                assert(entries[n - 1].1 == i);
            }
        }
        if named_within(entries, n, i as int) && s.list@[i as int].elf_file is Some && j
            < s.list@[i as int].unresolved_symbol@.len() {
            let w = choose|w: int| 0 <= w < n && (#[trigger] entries[w]).1 == i;
            if w < n - 1 {
                assert(named_within(entries, n - 1, i as int));
                let k = choose|k: int| 0 <= k < before.len() && before[k] == (i, j);
                assert(s.waiting(n)[k] == (i, j));
            } else {
                assert(more[j as int] == (i, j));
                assert(s.waiting(n)[before.len() + j] == (i, j));
            }
        }
    }
}

/// Where all places could get their addresses, each holds the address that it was meant to
/// get, unless a later place lies over it.
pub proof fn law_filled_place(m: Machine, places: Seq<ModuleSymbol>, n: int, i: int)
    requires
        0 <= i < n,
        places_filled(m, places, n).1,
        forall|j: int|
            i < j < n ==> (#[trigger] places[j]).relocation_addr + 8 <= places[i].relocation_addr
                || places[i].relocation_addr + 8 <= places[j].relocation_addr,
    ensures
        places_filled(m, places, n).0.read_u64(places[i].relocation_addr as int) == Some(
            places[i]@.target(),
        ),
    decreases n,
{
    let (before, ok) = places_filled(m, places, n - 1);
    let at = places[n - 1].relocation_addr as int;
    let word = places[n - 1]@.target();
    assert(ok);
    if i == n - 1 {
        crate::backend::lemma_word_stored(before, at, word);
    } else {
        law_filled_place(m, places, n - 1, i);
        crate::backend::lemma_word_apart(
            before,
            at,
            le64(word),
            places[i].relocation_addr as int,
        );
    }
}

/// A page of a range that could be given back is mapped no more, and a page of none of the
/// ranges stays as it was.
pub proof fn law_released_ranges(m: Machine, ranges: Seq<(u64, u64)>, n: int, i: int, p: int)
    requires
        0 <= i < n <= ranges.len(),
    ensures
        ({
            let after = ranges_released(m, ranges, n);
            let turn = ranges_released(m, ranges, i);
            &&& turn.can_change(ranges[i].0 as int, ranges[i].1 as int) && ranges[i].0 <= p * 0x1000
                && p * 0x1000 < ranges[i].0 + ranges[i].1 ==> !after.prot.dom().contains(p)
            &&& (forall|j: int|
                0 <= j < n ==> p * 0x1000 + 0x1000 <= (#[trigger] ranges[j]).0 || ranges[j].0
                    + ranges[j].1 <= p * 0x1000) ==> after.prot.dom().contains(p)
                == m.prot.dom().contains(p)
            &&& after.regs == m.regs
        }),
    decreases n,
{
    let before = ranges_released(m, ranges, n - 1);
    let after = ranges_released(m, ranges, n);
    let start = ranges[n - 1].0 as int;
    let size = ranges[n - 1].1 as int;
    assert(after.prot.dom().contains(p) ==> before.prot.dom().contains(p));
    if i < n - 1 {
        law_released_ranges(m, ranges, n - 1, i, p);
    } else if n > 1 {
        law_released_ranges(m, ranges, n - 1, 0, p);
    }
}

/// What is forgotten of a module that runs are its initialisers and headers; its place, its
/// symbols and its entry stay, and so does where its program headers stand.
pub proof fn law_released_module(before: LinuxModule, after: LinuxModule)
    requires
        uncached(before, after),
    ensures
        after.base == before.base,
        after.size == before.size,
        after.name == before.name,
        after.dynsym == before.dynsym,
        after.entry_point == before.entry_point,
        after.unresolved_symbol == before.unresolved_symbol,
        after.init_function_list@.len() == 0,
        before.elf_file is Some <==> after.elf_file is Some,
        before.elf_file matches Some(e) ==> after.elf_file->0.ph_offset == e.ph_offset
            && after.elf_file->0.num_ph == e.num_ph && after.elf_file->0.program_headers@.len() == 0,
{
}

} // verus!
