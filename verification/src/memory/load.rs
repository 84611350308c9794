//! Loading an image: checks, placement, and the libraries it needs.
//!
//! Loading an image waits several times for work that is done elsewhere: other
//! images, symbols that listeners or other modules provide, guest code that picks an
//! implementation. So it goes in steps: [`AndroidElfLoader::begin_load`], then
//! [`AndroidElfLoader::link_needed`] for each needed library, then
//! `AndroidElfLoader::relocate` for each relocation, then
//! `AndroidElfLoader::finish_load`.
use indexmap::IndexMap;
use vstd::prelude::*;
use crate::backend::{Backend, BackendError, Machine};
use crate::elf::{DynamicStructure, ElfFile, ProgramHeader, PT_LOAD};
use crate::linux::module::LinuxModule;
use crate::linux::symbol::ModuleSymbol;
use crate::memory::loader::AndroidElfLoader;
use crate::memory::patch::{apply_relr, relr_applied};
use crate::memory::segments::{
    map_segments, outcome, LoadError, SegmentRun, SegmentState, Segments,
};
use crate::num::{max_int, max_u64};
use crate::outside::{
    entry_value, has_entry, index_entries, index_get, index_insert, index_new, put_entry,
};
use crate::text::{before_char, text_before};
use crate::tool::{align_addr, ceil_to, lemma_floor};

verus! {

/// Why the image is refused by its header alone, if it is.
pub open spec fn header_error(elf: ElfFile) -> Option<LoadError> {
    if elf.version != 1 {
        Some(LoadError::Version)
    } else if elf.encoding != 1 {
        Some(LoadError::Encoding)
    } else if elf.object_size == 1 {
        Some(LoadError::Class)
    } else if elf.arch != 0xb7 {
        Some(LoadError::Machine)
    } else if elf.num_ph == 0 {
        Some(LoadError::NoProgramHeaders)
    } else {
        None
    }
}

/// The header takes part in the image's extent.
pub open spec fn counts(ph: ProgramHeader) -> bool {
    ph.typ == PT_LOAD && ph.mem_size > 0
}

/// One past the highest address of the first `n` segments.
pub open spec fn bound_high(phs: Seq<ProgramHeader>, n: int) -> int
    decreases n,
{
    if n <= 0 {
        0
    } else if counts(phs[n - 1]) {
        max_int(bound_high(phs, n - 1), phs[n - 1].virtual_address + phs[n - 1].mem_size)
    } else {
        bound_high(phs, n - 1)
    }
}

/// The widest boundary of the first `n` segments, and at least a page.
pub open spec fn base_align(phs: Seq<ProgramHeader>, n: int) -> int
    decreases n,
{
    if n <= 0 {
        0x1000
    } else if counts(phs[n - 1]) {
        max_int(base_align(phs, n - 1), phs[n - 1].align as int)
    } else {
        base_align(phs, n - 1)
    }
}

/// Where an image goes: the first multiple of its boundary from `mmap_base` on.
pub open spec fn load_base(elf: ElfFile, mmap_base: u64) -> int {
    ceil_to(mmap_base as int, base_align(elf.program_headers@, elf.num_ph as int))
}

/// The room that is set aside for an image.
pub open spec fn image_size(elf: ElfFile) -> int {
    ceil_to(
        bound_high(elf.program_headers@, elf.num_ph as int),
        base_align(elf.program_headers@, elf.num_ph as int),
    )
}

/// The addresses of an image stay in the address space.
pub open spec fn image_fits(elf: ElfFile, mmap_base: u64) -> bool {
    &&& 0 < mmap_base
    &&& bound_high(elf.program_headers@, elf.num_ph as int) + base_align(
        elf.program_headers@,
        elf.num_ph as int,
    ) <= u64::MAX
    &&& load_base(elf, mmap_base) + image_size(elf) <= u64::MAX
}

proof fn lemma_bounds(phs: Seq<ProgramHeader>, n: int, total: int)
    requires
        0 <= n <= total,
    ensures
        0 <= bound_high(phs, n) <= bound_high(phs, total),
        0x1000 <= base_align(phs, n) <= base_align(phs, total),
    decreases total,
{
    if total > 0 {
        if n < total {
            lemma_bounds(phs, n, total - 1);
        } else {
            lemma_bounds(phs, n - 1, n - 1);
        }
    }
}

/// Check the header of an image.
pub fn check_header(elf: &ElfFile) -> (r: Result<(), LoadError>)
    ensures
        match header_error(*elf) {
            Some(e) => r == Err::<(), LoadError>(e),
            None => r is Ok,
        },
{
    if elf.version != 1 {
        return Err(LoadError::Version);
    }
    if elf.encoding != 1 {
        return Err(LoadError::Encoding);
    }
    if elf.object_size == 1 {
        return Err(LoadError::Class);
    }
    if elf.arch != 0xb7 {
        return Err(LoadError::Machine);
    }
    if elf.num_ph == 0 {
        return Err(LoadError::NoProgramHeaders);
    }
    Ok(())
}

/// The extent of an image, and its boundary.
pub fn image_extent(elf: &ElfFile) -> (r: (u128, u64))
    requires
        elf.wf(),
    ensures
        r.0 == bound_high(elf.program_headers@, elf.num_ph as int),
        r.0 <= 2 * u64::MAX,
        r.1 == base_align(elf.program_headers@, elf.num_ph as int),
{
    let n: usize = elf.program_headers.len();
    let mut high: u128 = 0;
    let mut align: u64 = 0x1000;
    let mut i: usize = 0;
    while i < n
        invariant
            i <= n,
            n == elf.program_headers@.len(),
            high <= 2 * u64::MAX,
            high == bound_high(elf.program_headers@, i as int),
            align == base_align(elf.program_headers@, i as int),
        decreases n - i,
    {
        let ph = &elf.program_headers[i];
        if ph.typ == PT_LOAD && ph.mem_size > 0 {
            let end: u128 = ph.virtual_address as u128 + ph.mem_size as u128;
            if end > high {
                high = end;
            }
            align = max_u64(align, ph.align);
        }
        i = i + 1;
    }
    (high, align)
}

/// An image that is being loaded.
pub struct Loading {
    pub elf: ElfFile,
    pub dynamic: DynamicStructure,
    pub load_base: u64,
    pub size: u64,
    pub state: SegmentState,
    pub so_name: String,
    /// The needed libraries that were linked so far, and how many those are.
    pub needed: IndexMap<String, usize>,
    pub linked: usize,
    /// Places that no symbol was found for.
    pub unresolved: Vec<ModuleSymbol>,
    /// Places whose symbol was found.
    pub resolved: Vec<ModuleSymbol>,
}

/// What the first step of loading gives.
pub enum LoadStart {
    /// The image has no dynamic part and is loaded already, as this module.
    Loaded(usize),
    /// The image goes on to be linked.
    Linking(Loading),
}

/// The name of a library without what follows the first dot.
pub fn get_base_name(file_name: &str) -> (r: String)
    ensures
        r@ == before_char(file_name@, '.'),
{
    text_before(file_name, '.')
}

/// How the segments of an image come out.
pub open spec fn segments_of(loader: AndroidElfLoader, m: Machine, elf: ElfFile) -> SegmentRun {
    Segments {
        m,
        map: loader.memory_map@,
        regions: Seq::empty(),
        last: None,
        load_virtual_address: 0,
        dynamic: false,
        eh_frame_header: None,
        arm_ex_idx: None,
    }.headers(
        elf.program_headers@,
        elf.program_headers@.len() as int,
        load_base(elf, loader.mmap_base) as u64,
    )
}

/// The image has packed relative relocations.
pub open spec fn has_relr(d: DynamicStructure) -> bool {
    d.relr_size > 0 && d.relr_offset > 0
}

impl Loading {
    /// The linked libraries are loaded.
    pub open spec fn wf(self, modules: int) -> bool {
        &&& self.elf.wf()
        &&& self.linked <= self.dynamic.needed@.len()
        &&& forall|k: int|
            0 <= k < index_entries(self.needed).len() ==> (#[trigger] index_entries(
                self.needed,
            )[k]).1 < modules
    }
}

impl AndroidElfLoader {
    /// The first step: check the image, map its segments, and apply its packed
    /// relative relocations. `dynamic` is its dynamic part, if it has one. An image
    /// without one is loaded at once, under the library's name.
    pub fn begin_load(
        &mut self,
        backend: &mut Backend,
        elf: ElfFile,
        dynamic: Option<DynamicStructure>,
        library_name: String,
    ) -> (r: Result<LoadStart, LoadError>)
        requires
            old(self).wf(),
            elf.wf(),
            header_error(elf) is None && image_fits(elf, old(self).mmap_base) ==> {
                let run = segments_of(*old(self), old(backend)@, elf);
                run.status is Fine && run.s.dynamic ==> dynamic is Some
            },
        ensures
            final(self).wf(),
            match header_error(elf) {
                Some(e) => {
                    &&& r == Err::<LoadStart, LoadError>(e)
                    &&& *final(self) == *old(self)
                    &&& final(backend)@ == old(backend)@
                },
                None => if !image_fits(elf, old(self).mmap_base) {
                    &&& r == Err::<LoadStart, LoadError>(LoadError::Misplaced)
                    &&& *final(self) == *old(self)
                    &&& final(backend)@ == old(backend)@
                } else {
                    let run = segments_of(*old(self), old(backend)@, elf);
                    let base = load_base(elf, old(self).mmap_base);
                    let size = image_size(elf);
                    &&& *final(self) == (AndroidElfLoader {
                        memory_map: final(self).memory_map,
                        mmap_base: (base + size) as u64,
                        list: final(self).list,
                        modules: final(self).modules,
                        ..*old(self)
                    })
                    &&& final(self).memory_map@ == run.s.map
                    &&& match outcome(run.status) {
                        Err(e) => {
                            &&& r == Err::<LoadStart, LoadError>(e)
                            &&& final(self).list == old(self).list
                            &&& final(self).modules == old(self).modules
                            &&& final(backend)@ == run.s.m
                        },
                        Ok(_) => if !run.s.dynamic {
                            &&& final(backend)@ == run.s.m
                            &&& if run.s.load_virtual_address == 0 {
                                &&& r == Err::<LoadStart, LoadError>(LoadError::NoLoadAddress)
                                &&& final(self).list == old(self).list
                                &&& final(self).modules == old(self).modules
                            } else {
                                &&& r matches Ok(LoadStart::Loaded(i))
                                &&& i == old(self).list@.len()
                                &&& final(self).list@.len() == i + 1
                                &&& final(self).list@.drop_last() == old(self).list@
                                &&& static_module(
                                    final(self).list@[i as int],
                                    run.s,
                                    elf,
                                    base,
                                    library_name@,
                                )
                                &&& index_entries(final(self).modules) == put_entry(
                                    index_entries(old(self).modules),
                                    library_name@,
                                    i,
                                )
                            }
                        } else {
                            let d = dynamic->0;
                            let relr = relr_applied(
                                run.s.m,
                                base as u64,
                                d.relr_offset,
                                d.relr_size,
                            );
                            &&& final(self).list == old(self).list
                            &&& final(self).modules == old(self).modules
                            &&& final(backend)@ == if has_relr(d) {
                                relr.m
                            } else {
                                run.s.m
                            }
                            &&& if has_relr(d) && !relr.fits {
                                r == Err::<LoadStart, LoadError>(LoadError::Misplaced)
                            } else if has_relr(d) && !relr.ok {
                                r == Err::<LoadStart, LoadError>(
                                    LoadError::Memory(BackendError::Unmapped),
                                )
                            } else {
                                &&& r matches Ok(LoadStart::Linking(l))
                                &&& l.wf(final(self).list@.len() as int)
                                &&& l.elf == elf
                                &&& l.dynamic == d
                                &&& l.load_base == base
                                &&& l.size == size
                                &&& l.state.with(run.s.m, run.s.map) == run.s
                                &&& l.so_name@ == match d.so_name {
                                    Some(name) => name@,
                                    None => library_name@,
                                }
                                &&& index_entries(l.needed).len() == 0
                                &&& l.linked == 0
                                &&& l.unresolved@.len() == 0
                                &&& l.resolved@.len() == 0
                            }
                        },
                    }
                },
            },
    {
        match check_header(&elf) {
            Ok(_) => {},
            Err(e) => {
                return Err(e);
            },
        }
        proof {
            lemma_bounds(elf.program_headers@, 0, elf.num_ph as int);
        }
        let (high, align) = image_extent(&elf);
        if self.mmap_base == 0 || high + align as u128 > u64::MAX as u128 {
            return Err(LoadError::Misplaced);
        }
        proof {
            lemma_floor(self.mmap_base + align - 1, align as int);
            lemma_floor(high + align - 1, align as int);
            vstd::arithmetic::div_mod::lemma_div_plus_one(self.mmap_base - 1, align as int);
            lemma_floor(0, align as int);
            vstd::arithmetic::div_mod::lemma_small_mod(0, align as nat);
        }
        let steps: u64 = (self.mmap_base - 1) / align;
        assert((steps + 1) * align == load_base(elf, self.mmap_base));
        let wide_base: u128 = (steps as u128 + 1) * align as u128;
        let size: u64 = align_addr(0, high as u64, align).size;
        assert(size == image_size(elf));
        if wide_base + size as u128 > u64::MAX as u128 {
            return Err(LoadError::Misplaced);
        }
        let base: u64 = wide_base as u64;
        self.set_mmap_base(base + size);
        let mut state = SegmentState::new();
        let ghost run = segments_of(*old(self), old(backend)@, elf);
        assert(state.with(backend@, self.memory_map@) =~= (Segments {
            m: old(backend)@,
            map: old(self).memory_map@,
            regions: Seq::empty(),
            last: None,
            load_virtual_address: 0,
            dynamic: false,
            eh_frame_header: None,
            arm_ex_idx: None,
        }));
        match map_segments(
            backend,
            &mut self.memory_map,
            &mut state,
            &elf.program_headers,
            base,
        ) {
            Ok(_) => {},
            Err(e) => {
                return Err(e);
            },
        }
        if !state.dynamic {
            if state.load_virtual_address == 0 {
                return Err(LoadError::NoLoadAddress);
            }
            let name = library_name.as_str().to_owned();
            let entry: u64 = elf.entry_point;
            let mut module = LinuxModule::new(
                state.load_virtual_address,
                base,
                size,
                name,
                None,
                Vec::new(),
                std::collections::VecDeque::new(),
                index_new(),
                state.regions,
                state.arm_ex_idx,
                state.eh_frame_header,
                None,
                Some(elf),
            );
            module.entry_point = entry;
            let i: usize = self.add_module(library_name, module);
            assert(self.list@.drop_last() =~= old(self).list@);
            return Ok(LoadStart::Loaded(i));
        }
        let dynamic = dynamic.unwrap();
        if dynamic.relr_size > 0 && dynamic.relr_offset > 0 {
            match apply_relr(backend, base, dynamic.relr_offset, dynamic.relr_size) {
                Ok(_) => {},
                Err(e) => {
                    return Err(e);
                },
            }
        }
        let so_name = match &dynamic.so_name {
            Some(name) => name.as_str().to_owned(),
            None => library_name,
        };
        Ok(
            LoadStart::Linking(
                Loading {
                    elf,
                    dynamic,
                    load_base: base,
                    size,
                    state,
                    so_name,
                    needed: index_new(),
                    linked: 0,
                    unresolved: Vec::new(),
                    resolved: Vec::new(),
                },
            ),
        )
    }

    /// The needed library that has to be loaded before linking goes on, if the next
    /// one is not loaded yet.
    pub fn wanted_library(&self, loading: &Loading) -> (r: Option<String>)
        ensures
            match r {
                Some(name) => {
                    &&& loading.linked < loading.dynamic.needed@.len()
                    &&& name@ == loading.dynamic.needed@[loading.linked as int]@
                    &&& !has_entry(index_entries(self.modules), name@)
                },
                None => loading.linked >= loading.dynamic.needed@.len() || has_entry(
                    index_entries(self.modules),
                    loading.dynamic.needed@[loading.linked as int]@,
                ),
            },
    {
        if loading.linked >= loading.dynamic.needed.len() {
            return None;
        }
        let name = loading.dynamic.needed[loading.linked].as_str();
        if index_get(&self.modules, name).is_some() {
            return None;
        }
        Some(name.to_owned())
    }

    /// Link the next needed library: the one that is loaded under its name, else the
    /// module `fresh` that was just loaded for it. Without either, loading fails.
    pub fn link_needed(&mut self, loading: &mut Loading, fresh: Option<usize>) -> (r: Result<
        (),
        LoadError,
    >)
        requires
            old(self).wf(),
            old(loading).wf(old(self).list@.len() as int),
            old(loading).linked < old(loading).dynamic.needed@.len(),
            fresh matches Some(i) ==> i < old(self).list@.len(),
        ensures
            final(self).wf(),
            final(loading).wf(final(self).list@.len() as int),
            ({
                let name = old(loading).dynamic.needed@[old(loading).linked as int]@;
                let entries = index_entries(old(self).modules);
                let target = if has_entry(entries, name) {
                    Some(entry_value(entries, name))
                } else {
                    fresh
                };
                match target {
                    Some(i) => {
                        &&& r is Ok
                        &&& final(self).list@ == old(self).list@.update(
                            i as int,
                            LinuxModule {
                                ref_cnt: ((old(self).list@[i as int].ref_cnt + 1)
                                    % 0x1_0000_0000) as u32,
                                ..old(self).list@[i as int]
                            },
                        )
                        &&& *final(self) == (AndroidElfLoader {
                            list: final(self).list,
                            ..*old(self)
                        })
                        &&& index_entries(final(loading).needed) == put_entry(
                            index_entries(old(loading).needed),
                            before_char(name, '.'),
                            i,
                        )
                        &&& *final(loading) == (Loading {
                            needed: final(loading).needed,
                            linked: (old(loading).linked + 1) as usize,
                            ..*old(loading)
                        })
                    },
                    None => {
                        &&& r == Err::<(), LoadError>(
                            LoadError::NeededLibrary(old(loading).linked),
                        )
                        &&& *final(self) == *old(self)
                        &&& *final(loading) == *old(loading)
                    },
                }
            }),
    {
        let count: usize = loading.dynamic.needed.len();
        assert(loading.linked < count);
        let name = loading.dynamic.needed[loading.linked].as_str();
        let found = index_get(&self.modules, name);
        let i: usize = match found {
            Some(i) => {
                proof {
                    let entries = index_entries(self.modules);
                    let k = choose|k: int| crate::outside::entry_has_key(entries, name@, k);
                    assert(entries[k].1 < self.list@.len());
                }
                i
            },
            None => match fresh {
                Some(i) => i,
                None => {
                    return Err(LoadError::NeededLibrary(loading.linked));
                },
            },
        };
        let base_name = get_base_name(name);
        self.retain_module(i);
        let _ = index_insert(&mut loading.needed, base_name, i);
        loading.linked = loading.linked + 1;
        Ok(())
    }
}

/// The module of an image without a dynamic part.
pub open spec fn static_module(
    m: LinuxModule,
    s: Segments,
    elf: ElfFile,
    base: int,
    name: Seq<char>,
) -> bool {
    &&& m.name@ == name
    &&& m.base == base
    &&& m.size == image_size(elf)
    &&& m.virtual_base == s.load_virtual_address
    &&& m.regions@ == s.regions
    &&& m.arm_ex_idx == s.arm_ex_idx
    &&& m.eh_frame_header == s.eh_frame_header
    &&& m.entry_point == elf.entry_point
    &&& m.elf_file == Some(elf)
    &&& m.dynsym is None
    &&& m.ref_cnt == 0
    &&& m.symbol_table_section is None
    &&& index_entries(m.needed_libraries).len() == 0
    &&& m.unresolved_symbol@.len() == 0
    &&& m.resolved_symbol@.len() == 0
    &&& m.init_function_list@.len() == 0
}

/// Images never share room: where an image is set aside begins where room was left
/// free, on the image's boundary, and what comes next begins beyond it.
pub proof fn law_images_do_not_overlap(elf: ElfFile, mmap_base: u64)
    requires
        image_fits(elf, mmap_base),
    ensures
        mmap_base <= load_base(elf, mmap_base),
        load_base(elf, mmap_base) % base_align(elf.program_headers@, elf.num_ph as int) == 0,
        bound_high(elf.program_headers@, elf.num_ph as int) <= image_size(elf),
{
    let align = base_align(elf.program_headers@, elf.num_ph as int);
    lemma_bounds(elf.program_headers@, 0, elf.num_ph as int);
    lemma_floor(mmap_base + align - 1, align);
    lemma_floor(bound_high(elf.program_headers@, elf.num_ph as int) + align - 1, align);
}

/// Which images are accepted by their header: those of version 1 that are little-endian, not
/// of the 32-bit class, for the processor number 183, and with at least one program header.
/// The first of these that does not hold is the error.
pub proof fn law_header_checks(elf: ElfFile)
    ensures
        header_error(elf) is None <==> elf.version == 1 && elf.encoding == 1 && elf.object_size != 1
            && elf.arch == 183 && elf.num_ph >= 1,
        header_error(elf) == Some(LoadError::Version) <==> elf.version != 1,
        header_error(elf) == Some(LoadError::Encoding) <==> elf.version == 1 && elf.encoding != 1,
        header_error(elf) == Some(LoadError::Class) <==> elf.version == 1 && elf.encoding == 1
            && elf.object_size == 1,
        header_error(elf) == Some(LoadError::Machine) <==> elf.version == 1 && elf.encoding == 1
            && elf.object_size != 1 && elf.arch != 183,
        header_error(elf) == Some(LoadError::NoProgramHeaders) <==> elf.version == 1
            && elf.encoding == 1 && elf.object_size != 1 && elf.arch == 183 && elf.num_ph == 0,
{
}

proof fn lemma_extent(phs: Seq<ProgramHeader>, n: int, i: int)
    requires
        0 <= i < n <= phs.len(),
        phs[i].typ == 1,
        phs[i].mem_size > 0,
    ensures
        phs[i].virtual_address + phs[i].mem_size <= bound_high(phs, n),
        phs[i].align <= base_align(phs, n),
    decreases n,
{
    if i < n - 1 {
        lemma_extent(phs, n - 1, i);
    }
}

proof fn lemma_boundary(phs: Seq<ProgramHeader>, n: int)
    requires
        0 <= n <= phs.len(),
    ensures
        base_align(phs, n) == 0x1000 || exists|i: int|
            0 <= i < n && (#[trigger] phs[i]).typ == 1 && phs[i].mem_size > 0 && phs[i].align
                == base_align(phs, n),
        bound_high(phs, n) == 0 || exists|i: int|
            0 <= i < n && (#[trigger] phs[i]).typ == 1 && phs[i].mem_size > 0
                && phs[i].virtual_address + phs[i].mem_size == bound_high(phs, n),
    decreases n,
{
    if n > 0 {
        lemma_boundary(phs, n - 1);
        let ph = phs[n - 1];
        assert(ph == phs[n - 1]);
        if base_align(phs, n) == base_align(phs, n - 1) && base_align(phs, n) != 0x1000 {
            let i = choose|i: int|
                0 <= i < n - 1 && (#[trigger] phs[i]).typ == 1 && phs[i].mem_size > 0
                    && phs[i].align == base_align(phs, n - 1);
            assert(phs[i].align == base_align(phs, n));
        }
        if bound_high(phs, n) == bound_high(phs, n - 1) && bound_high(phs, n) != 0 {
            let i = choose|i: int|
                0 <= i < n - 1 && (#[trigger] phs[i]).typ == 1 && phs[i].mem_size > 0
                    && phs[i].virtual_address + phs[i].mem_size == bound_high(phs, n - 1);
            assert(phs[i].virtual_address + phs[i].mem_size == bound_high(phs, n));
        }
    }
}

/// Where an image goes and how much room it gets. Its base is the first multiple, from where
/// room was left free on, of the widest boundary that a loadable segment with any bytes asks
/// for, and of at least 0x1000. Every such segment ends inside the room, and the room reaches
/// less than one boundary beyond the last of them.
pub proof fn law_image_room(elf: ElfFile, mmap_base: u64, i: int)
    requires
        image_fits(elf, mmap_base),
        elf.wf(),
        0 <= i < elf.num_ph,
        elf.program_headers@[i].typ == 1,
        elf.program_headers@[i].mem_size > 0,
    ensures
        ({
            let phs = elf.program_headers@;
            let base = load_base(elf, mmap_base);
            let room = image_size(elf);
            let step = base_align(phs, elf.num_ph as int);
            &&& step >= 0x1000
            &&& step >= phs[i].align
            &&& (step == 0x1000 || exists|j: int|
                0 <= j < elf.num_ph && (#[trigger] phs[j]).typ == 1 && phs[j].mem_size > 0
                    && phs[j].align == step)
            &&& base % step == 0
            &&& mmap_base <= base < mmap_base + step
            &&& room % step == 0
            &&& phs[i].virtual_address + phs[i].mem_size <= room
            &&& exists|j: int|
                0 <= j < elf.num_ph && (#[trigger] phs[j]).typ == 1 && room
                    < phs[j].virtual_address + phs[j].mem_size + step
        }),
{
    let phs = elf.program_headers@;
    let n = elf.num_ph as int;
    let step = base_align(phs, n);
    lemma_bounds(phs, 0, n);
    lemma_extent(phs, n, i);
    lemma_boundary(phs, n);
    crate::tool::law_ceil_is_the_next_multiple(mmap_base as int, step);
    crate::tool::law_ceil_is_the_next_multiple(bound_high(phs, n), step);
    let base = load_base(elf, mmap_base);
    assert(base % step == 0);
    let j = choose|j: int|
        0 <= j < n && (#[trigger] phs[j]).typ == 1 && phs[j].mem_size > 0 && phs[j].virtual_address
            + phs[j].mem_size == bound_high(phs, n);
    assert(phs[j].typ == 1 && image_size(elf) < phs[j].virtual_address + phs[j].mem_size + step);
}

/// An image without a dynamic part becomes a module at the place that was set aside for it,
/// with the image's own entry point and without symbols, libraries or initialisers.
pub proof fn law_static_module(
    m: LinuxModule,
    s: Segments,
    elf: ElfFile,
    mmap_base: u64,
    name: Seq<char>,
)
    requires
        static_module(m, s, elf, load_base(elf, mmap_base), name),
    ensures
        m.name@ == name,
        m.base >= mmap_base,
        m.base % 0x1000 == 0 || base_align(elf.program_headers@, elf.num_ph as int) % 0x1000 != 0,
        m.entry_point == elf.entry_point,
        m.elf_file == Some(elf),
        m.virtual_base == s.load_virtual_address,
        m.dynsym is None,
        m.init_function_list@.len() == 0,
        m.unresolved_symbol@.len() == 0,
{
    let step = base_align(elf.program_headers@, elf.num_ph as int);
    lemma_bounds(elf.program_headers@, 0, elf.num_ph as int);
    lemma_floor(mmap_base + step - 1, step);
    if step % 0x1000 == 0 {
        let base = load_base(elf, mmap_base);
        let q = base / step;
        let k = step / 0x1000;
        vstd::arithmetic::div_mod::lemma_fundamental_div_mod(base, step);
        vstd::arithmetic::div_mod::lemma_fundamental_div_mod(step, 0x1000);
        assert(base == 0x1000 * (k * q)) by (nonlinear_arith)
            requires
                base == step * q,
                step == 0x1000 * k,
        ;
        vstd::arithmetic::div_mod::lemma_mod_multiples_basic(k * q, 0x1000);
        vstd::arithmetic::mul::lemma_mul_is_commutative(k * q, 0x1000);
    }
}

/// Packed relative relocations are applied exactly where the image says where they are and
/// that there are some.
pub proof fn law_packed_relocations(d: DynamicStructure)
    ensures
        has_relr(d) <==> d.relr_size != 0 && d.relr_offset != 0,
{
}

/// An image is mapped from nothing: without program headers no byte, page or record changes,
/// and there is neither a region nor a dynamic part.
pub proof fn law_fresh_segments(loader: AndroidElfLoader, m: Machine, elf: ElfFile)
    requires
        elf.program_headers@.len() == 0,
    ensures
        ({
            let run = segments_of(loader, m, elf);
            &&& run.s.m == m
            &&& run.s.map == loader.memory_map@
            &&& run.s.regions.len() == 0
            &&& !run.s.dynamic
            &&& run.s.load_virtual_address == 0
            &&& run.s.eh_frame_header is None && run.s.arm_ex_idx is None
            &&& outcome(run.status) is Ok
        }),
{
}

} // verus!
