//! Mapping the segments of an image.
use std::collections::HashMap;
use vstd::prelude::*;
use crate::backend::{Backend, BackendError, Machine, PERM_ALL, PERM_EXEC, PERM_NONE};
use crate::elf::{
    ProgramHeader, SegmentData, PT_ARM_EXIDX, PT_DYNAMIC, PT_GNU_EH_FRAME, PT_LOAD,
};
use crate::memory::patch::{code_neutralized, neutralize_pac_bti};
use crate::memory::region::{MemoryMap, ModuleMemRegion};
use crate::num::{from_bits_i64, i64_of_bits, max_int, max_u64};
use crate::tool::{
    align_addr, aligned, can_align, ceil_to, floor_to, get_segment_protection, lemma_floor,
    protection_of, Alignment,
};

verus! {

broadcast use vstd::std_specs::hash::group_hash_axioms;

/// Why an image cannot be loaded.
#[derive(Clone, Copy, Debug, PartialEq, Eq, Structural)]
pub enum LoadError {
    /// The ELF version is not 1.
    Version,
    /// The image is not little-endian.
    Encoding,
    /// The image is of the 32-bit class.
    Class,
    /// The image is for another processor.
    Machine,
    /// There are no program headers.
    NoProgramHeaders,
    /// A segment begins inside the data of the one before it.
    SegmentOverlap,
    /// A segment ends up before the one that precedes it.
    SegmentOrder,
    /// A program header's contents are of another kind than its type says.
    SegmentData,
    /// No segment was mapped.
    NoLoadAddress,
    /// The image cannot be placed: an address leaves the address space, pages are
    /// taken, or the bytes of a segment run past mapped pages. It may be mapped in part,
    /// so the guest cannot go on.
    Misplaced,
    /// The needed library at this position cannot be had.
    NeededLibrary(usize),
    /// Guest memory could not be read or written.
    Memory(BackendError),
    /// The C library lacks `malloc` or `free`.
    NoAllocator,
}

/// How far the mapping of segments has come.
#[verifier::ext_equal]
pub struct Segments {
    pub m: Machine,
    pub map: Map<u64, MemoryMap>,
    pub regions: Seq<ModuleMemRegion>,
    pub last: Option<Alignment>,
    /// Where the first segment was mapped; zero before that.
    pub load_virtual_address: u64,
    pub dynamic: bool,
    pub eh_frame_header: Option<usize>,
    pub arm_ex_idx: Option<usize>,
}

/// Whether mapping goes on.
pub enum SegmentStatus {
    Fine,
    /// The image is refused.
    Refused(LoadError),
    /// The image cannot be placed.
    Misplaced,
}

/// What mapping gives.
pub open spec fn outcome(status: SegmentStatus) -> Result<(), LoadError> {
    match status {
        SegmentStatus::Fine => Ok(()),
        SegmentStatus::Refused(e) => Err(e),
        SegmentStatus::Misplaced => Err(LoadError::Misplaced),
    }
}

#[verifier::ext_equal]
pub struct SegmentRun {
    pub s: Segments,
    pub status: SegmentStatus,
}

/// The protection of a segment: what its flags ask for, and all of it where they ask
/// for nothing.
pub open spec fn segment_prot(flags: u32) -> u32 {
    if protection_of(flags) == PERM_NONE {
        PERM_ALL
    } else {
        protection_of(flags)
    }
}

/// The boundary that a segment is rounded out to.
pub open spec fn segment_align(align: u64) -> int {
    max_int(0x1000, align as int)
}

impl Segments {
    pub open spec fn fine(self) -> SegmentRun {
        SegmentRun { s: self, status: SegmentStatus::Fine }
    }

    pub open spec fn refused(self, e: LoadError) -> SegmentRun {
        SegmentRun { s: self, status: SegmentStatus::Refused(e) }
    }

    pub open spec fn misplaced(self) -> SegmentRun {
        SegmentRun { s: self, status: SegmentStatus::Misplaced }
    }

    /// The range can be rounded out and mapped.
    pub open spec fn can_map(self, addr: int, size: int, align: int) -> bool {
        let (a, n) = aligned(addr, size, align);
        can_align(addr, size, align) && self.m.can_map(a, n)
    }

    /// The range is rounded out, mapped and recorded.
    pub open spec fn map_range(self, addr: int, size: int, prot: u32, align: int) -> Segments {
        let (a, n) = aligned(addr, size, align);
        Segments {
            m: self.m.map_pages(a, n, prot),
            map: self.map.insert(
                a as u64,
                MemoryMap { base: a as u64, size: n as u64, prot },
            ),
            ..self
        }
    }

    /// A region is recorded for the segment `ph`.
    pub open spec fn record(self, ph: ProgramHeader, begin: int, a: int, n: int) -> Segments {
        Segments {
            regions: self.regions.push(
                ModuleMemRegion {
                    virtual_address: begin as u64,
                    begin: a as u64,
                    end: (a + n) as u64,
                    perms: segment_prot(ph.flags),
                    offset: i64_of_bits(ph.virtual_address),
                },
            ),
            ..self
        }
    }

    /// The newest region holds the address.
    pub open spec fn overlapped(self, check: int) -> bool {
        self.regions.len() > 0 && self.regions.last().begin <= check < self.regions.last().end
    }

    /// A segment that begins inside the newest region: that region's tail gets the
    /// segment's protection too, and what reaches beyond it is mapped.
    pub open spec fn place_over(self, ph: ProgramHeader, begin: int) -> SegmentRun {
        let align = segment_align(ph.align);
        let check = floor_to(begin, align);
        let over = self.regions.last().end - check;
        let prot = segment_prot(ph.flags);
        if !self.m.can_change(check, over) {
            self.misplaced()
        } else {
            let shared = Segments {
                m: self.m.protect_pages(check, over, self.regions.last().perms | prot),
                ..self
            };
            if ph.mem_size <= over {
                shared.fine()
            } else if !shared.can_map(begin + over, ph.mem_size - over, align) {
                shared.misplaced()
            } else {
                let (a, n) = aligned(begin + over, ph.mem_size - over, align);
                let placed = shared.map_range(
                    begin + over,
                    ph.mem_size - over,
                    prot,
                    align,
                ).record(ph, begin, a, n);
                let next = Segments {
                    last: Some(
                        Alignment {
                            address: a as u64,
                            size: n as u64,
                            begin: begin as u64,
                            data_size: 0,
                        },
                    ),
                    ..placed
                };
                match self.last {
                    Some(l) => if l.begin + l.data_size > u64::MAX {
                        placed.misplaced()
                    } else if l.begin + l.data_size > begin {
                        placed.refused(LoadError::SegmentOverlap)
                    } else {
                        next.fine()
                    },
                    None => next.fine(),
                }
            }
        }
    }

    /// A segment that begins outside the newest region is mapped, and a gap between
    /// it and the one before it is reserved without access.
    pub open spec fn place_apart(self, ph: ProgramHeader, begin: int) -> SegmentRun {
        let align = segment_align(ph.align);
        if !self.can_map(begin, ph.mem_size as int, align) {
            self.misplaced()
        } else {
            let (a, n) = aligned(begin, ph.mem_size as int, align);
            let placed = self.map_range(
                begin,
                ph.mem_size as int,
                segment_prot(ph.flags),
                align,
            ).record(ph, begin, a, n);
            let now = Some(
                Alignment {
                    address: a as u64,
                    size: n as u64,
                    begin: begin as u64,
                    data_size: 0,
                },
            );
            match self.last {
                Some(l) => {
                    let base = l.address + l.size;
                    let off = i64_of_bits(a as u64) - i64_of_bits(base as u64);
                    if base > u64::MAX || off > i64::MAX || off < i64::MIN {
                        placed.misplaced()
                    } else if off < 0 {
                        placed.refused(LoadError::SegmentOrder)
                    } else if off == 0 {
                        Segments { last: now, ..placed }.fine()
                    } else if !placed.m.can_map(base, off) {
                        placed.misplaced()
                    } else {
                        Segments {
                            m: placed.m.map_pages(base, off, PERM_NONE),
                            map: placed.map.insert(
                                base as u64,
                                MemoryMap { base: base as u64, size: off as u64, prot: PERM_NONE },
                            ),
                            last: now,
                            ..placed
                        }.fine()
                    }
                },
                None => Segments { last: now, ..placed }.fine(),
            }
        }
    }

    /// The bytes of a segment are stored, and the hints in code are replaced.
    pub open spec fn fill(self, ph: ProgramHeader, begin: int) -> SegmentRun {
        match ph.data {
            SegmentData::Load(bytes) => if !self.m.mapped(begin, bytes@.len() as int) {
                self.misplaced()
            } else {
                let stored = self.m.write(begin, bytes@);
                Segments {
                    m: if segment_prot(ph.flags) & PERM_EXEC != 0 {
                        code_neutralized(stored, begin, bytes@.len() as int)
                    } else {
                        stored
                    },
                    last: match self.last {
                        Some(l) => Some(Alignment { data_size: bytes@.len() as u64, ..l }),
                        None => None,
                    },
                    ..self
                }.fine()
            },
            _ => self.refused(LoadError::SegmentData),
        }
    }

    /// One loadable segment.
    pub open spec fn load(self, ph: ProgramHeader, load_base: u64) -> SegmentRun {
        let begin = load_base + ph.virtual_address;
        if begin > u64::MAX || ph.align > i64::MAX || !can_align(
            begin,
            ph.mem_size as int,
            segment_align(ph.align),
        ) {
            self.misplaced()
        } else {
            let s = Segments {
                load_virtual_address: if self.load_virtual_address == 0 {
                    begin as u64
                } else {
                    self.load_virtual_address
                },
                ..self
            };
            let placed = if s.overlapped(floor_to(begin, segment_align(ph.align))) {
                s.place_over(ph, begin)
            } else {
                s.place_apart(ph, begin)
            };
            match placed.status {
                SegmentStatus::Fine => placed.s.fill(ph, begin),
                _ => placed,
            }
        }
    }

    /// The program header at position `i`.
    pub open spec fn header(self, ph: ProgramHeader, i: usize, load_base: u64) -> SegmentRun {
        if ph.typ == PT_LOAD {
            self.load(ph, load_base)
        } else if ph.typ == PT_DYNAMIC {
            match ph.data {
                SegmentData::DynamicStructure => Segments { dynamic: true, ..self }.fine(),
                _ => self.refused(LoadError::SegmentData),
            }
        } else if ph.typ == PT_GNU_EH_FRAME {
            match ph.data {
                SegmentData::GnuEhFrameHeader => Segments {
                    eh_frame_header: Some(i),
                    ..self
                }.fine(),
                _ => self.refused(LoadError::SegmentData),
            }
        } else if ph.typ == PT_ARM_EXIDX {
            match ph.data {
                SegmentData::ArmExIdx => Segments { arm_ex_idx: Some(i), ..self }.fine(),
                _ => self.refused(LoadError::SegmentData),
            }
        } else {
            self.fine()
        }
    }

    /// The first `n` program headers.
    pub open spec fn headers(self, phs: Seq<ProgramHeader>, n: int, load_base: u64) -> SegmentRun
        decreases n,
    {
        if n <= 0 {
            self.fine()
        } else {
            let before = self.headers(phs, n - 1, load_base);
            match before.status {
                SegmentStatus::Fine => before.s.header(phs[n - 1], (n - 1) as usize, load_base),
                _ => before,
            }
        }
    }
}

proof fn lemma_headers_stuck(s: Segments, phs: Seq<ProgramHeader>, n: int, total: int, load_base: u64)
    requires
        0 <= n <= total,
        !(s.headers(phs, n, load_base).status is Fine),
    ensures
        s.headers(phs, total, load_base) == s.headers(phs, n, load_base),
    decreases total - n,
{
    if n < total {
        lemma_headers_stuck(s, phs, n + 1, total, load_base);
    }
}

/// What mapping has collected, besides memory itself.
pub struct SegmentState {
    pub regions: Vec<ModuleMemRegion>,
    pub last: Option<Alignment>,
    pub load_virtual_address: u64,
    pub dynamic: bool,
    pub eh_frame_header: Option<usize>,
    pub arm_ex_idx: Option<usize>,
}

impl SegmentState {
    pub open spec fn with(self, m: Machine, map: Map<u64, MemoryMap>) -> Segments {
        Segments {
            m,
            map,
            regions: self.regions@,
            last: self.last,
            load_virtual_address: self.load_virtual_address,
            dynamic: self.dynamic,
            eh_frame_header: self.eh_frame_header,
            arm_ex_idx: self.arm_ex_idx,
        }
    }

    /// Nothing was mapped yet.
    pub fn new() -> (s: SegmentState)
        ensures
            s.regions@.len() == 0,
            s.last is None,
            s.load_virtual_address == 0,
            !s.dynamic,
            s.eh_frame_header is None,
            s.arm_ex_idx is None,
    {
        SegmentState {
            regions: Vec::new(),
            last: None,
            load_virtual_address: 0,
            dynamic: false,
            eh_frame_header: None,
            arm_ex_idx: None,
        }
    }
}

/// Round a range out, map it and record it, if that can be done.
fn try_map_range(
    backend: &mut Backend,
    memory_map: &mut HashMap<u64, MemoryMap>,
    address: u64,
    size: u64,
    prot: u32,
    align: u64,
) -> (r: Option<Alignment>)
    requires
        can_align(address as int, size as int, align as int),
    ensures
        ({
            let (a, n) = aligned(address as int, size as int, align as int);
            if old(backend)@.can_map(a, n) {
                &&& r == Some(
                    Alignment { address: a as u64, size: n as u64, begin: 0, data_size: 0 },
                )
                &&& (r->0.address as int, r->0.size as int) == (a, n)
                &&& final(backend)@ == old(backend)@.map_pages(a, n, prot)
                &&& final(memory_map)@ == old(memory_map)@.insert(
                    a as u64,
                    MemoryMap { base: a as u64, size: n as u64, prot },
                )
            } else {
                &&& r is None
                &&& final(backend)@ == old(backend)@
                &&& final(memory_map)@ == old(memory_map)@
            }
        }),
{
    let a = align_addr(address, size, align);
    match backend.mem_map(a.address, a.size, prot) {
        Ok(_) => {},
        Err(_) => {
            return None;
        },
    }
    let _ = memory_map.insert(a.address, MemoryMap { base: a.address, size: a.size, prot });
    Some(a)
}

/// Round a range out, map it and record it.
pub fn map_range(
    backend: &mut Backend,
    memory_map: &mut HashMap<u64, MemoryMap>,
    address: u64,
    size: u64,
    prot: u32,
    align: u64,
) -> (a: Alignment)
    requires
        can_align(address as int, size as int, align as int),
        ({
            let (a, n) = aligned(address as int, size as int, align as int);
            old(backend)@.can_map(a, n)
        }),
    ensures
        (a.address as int, a.size as int) == aligned(address as int, size as int, align as int),
        a.begin == 0,
        a.data_size == 0,
        final(backend)@ == old(backend)@.map_pages(a.address as int, a.size as int, prot),
        final(memory_map)@ == old(memory_map)@.insert(
            a.address,
            MemoryMap { base: a.address, size: a.size, prot },
        ),
{
    try_map_range(backend, memory_map, address, size, prot, align).unwrap()
}

fn protection(flags: u32) -> (r: u32)
    ensures
        r == segment_prot(flags),
{
    let prot: u32 = get_segment_protection(flags);
    if prot == PERM_NONE {
        PERM_ALL
    } else {
        prot
    }
}

fn record_region(state: &mut SegmentState, ph: &ProgramHeader, begin: u64, a: Alignment)
    requires
        a.address + a.size <= u64::MAX,
    ensures
        forall|m: Machine, map: Map<u64, MemoryMap>|
            #![trigger final(state).with(m, map)]
            final(state).with(m, map) == old(state).with(m, map).record(
                *ph,
                begin as int,
                a.address as int,
                a.size as int,
            ),
        *final(state) == (SegmentState { regions: final(state).regions, ..*old(state) }),
{
    state.regions.push(
        ModuleMemRegion::new(
            begin,
            a.address,
            a.address + a.size,
            protection(ph.flags),
            from_bits_i64(ph.virtual_address),
        ),
    );
}

fn place_over(
    backend: &mut Backend,
    memory_map: &mut HashMap<u64, MemoryMap>,
    state: &mut SegmentState,
    ph: &ProgramHeader,
    begin: u64,
) -> (r: Result<(), LoadError>)
    requires
        ph.align <= i64::MAX,
        can_align(begin as int, ph.mem_size as int, segment_align(ph.align)),
        old(state).with(old(backend)@, old(memory_map)@).overlapped(
            floor_to(begin as int, segment_align(ph.align)),
        ),
    ensures
        ({
            let run = old(state).with(old(backend)@, old(memory_map)@).place_over(
                *ph,
                begin as int,
            );
            &&& final(state).with(final(backend)@, final(memory_map)@) == run.s
            &&& r == outcome(run.status)
        }),
{
    let align: u64 = max_u64(0x1000, ph.align);
    proof {
        lemma_floor(begin as int, align as int);
    }
    let check: u64 = begin - begin % align;
    let region = state.regions[state.regions.len() - 1];
    let over: u64 = region.end - check;
    let prot: u32 = protection(ph.flags);
    match backend.mem_protect(check, over, region.perms | prot) {
        Ok(_) => {},
        Err(_) => {
            return Err(LoadError::Misplaced);
        },
    }
    if ph.mem_size > over {
        let ghost (a, n) = aligned(begin + over, ph.mem_size - over, align as int);
        proof {
            lemma_floor(begin + over, align as int);
            lemma_floor(begin + ph.mem_size + align - 1, align as int);
        }
        let mut alignment = match try_map_range(
            backend,
            memory_map,
            begin + over,
            ph.mem_size - over,
            prot,
            align,
        ) {
            Some(alignment) => alignment,
            None => {
                return Err(LoadError::Misplaced);
            },
        };
        record_region(state, ph, begin, alignment);
        if let Some(l) = state.last {
            if l.data_size > u64::MAX - l.begin {
                return Err(LoadError::Misplaced);
            }
            if l.begin + l.data_size > begin {
                return Err(LoadError::SegmentOverlap);
            }
        }
        alignment.begin = begin;
        state.last = Some(alignment);
    }
    Ok(())
}

fn place_apart(
    backend: &mut Backend,
    memory_map: &mut HashMap<u64, MemoryMap>,
    state: &mut SegmentState,
    ph: &ProgramHeader,
    begin: u64,
) -> (r: Result<(), LoadError>)
    requires
        ph.align <= i64::MAX,
        can_align(begin as int, ph.mem_size as int, segment_align(ph.align)),
    ensures
        ({
            let run = old(state).with(old(backend)@, old(memory_map)@).place_apart(
                *ph,
                begin as int,
            );
            &&& final(state).with(final(backend)@, final(memory_map)@) == run.s
            &&& r == outcome(run.status)
        }),
{
    let align: u64 = max_u64(0x1000, ph.align);
    proof {
        lemma_floor(begin as int, align as int);
        lemma_floor(begin + ph.mem_size + align - 1, align as int);
    }
    let ghost start = state.with(backend@, memory_map@);
    let mut alignment = match try_map_range(
        backend,
        memory_map,
        begin,
        ph.mem_size,
        protection(ph.flags),
        align,
    ) {
        Some(alignment) => alignment,
        None => {
            return Err(LoadError::Misplaced);
        },
    };
    record_region(state, ph, begin, alignment);
    let ghost placed = start.map_range(
        begin as int,
        ph.mem_size as int,
        segment_prot(ph.flags),
        align as int,
    ).record(*ph, begin as int, alignment.address as int, alignment.size as int);
    assert(state.with(backend@, memory_map@) =~= placed);
    if let Some(l) = state.last {
        if l.size > u64::MAX - l.address {
            return Err(LoadError::Misplaced);
        }
        let base: u64 = l.address + l.size;
        let off: i128 = from_bits_i64(alignment.address) as i128 - from_bits_i64(base) as i128;
        if off > i64::MAX as i128 || off < i64::MIN as i128 {
            return Err(LoadError::Misplaced);
        }
        if off < 0 {
            return Err(LoadError::SegmentOrder);
        }
        if off > 0 {
            match backend.mem_map(base, off as u64, PERM_NONE) {
                Ok(_) => {},
                Err(_) => {
                    return Err(LoadError::Misplaced);
                },
            }
            let _ = memory_map.insert(
                base,
                MemoryMap { base, size: off as u64, prot: PERM_NONE },
            );
        }
    }
    alignment.begin = begin;
    state.last = Some(alignment);
    assert(state.with(backend@, memory_map@) =~= start.place_apart(*ph, begin as int).s);
    Ok(())
}

fn fill(
    backend: &mut Backend,
    state: &mut SegmentState,
    ph: &ProgramHeader,
    begin: u64,
    Ghost(map): Ghost<Map<u64, MemoryMap>>,
) -> (r: Result<(), LoadError>)
    ensures
        ({
            let run = old(state).with(old(backend)@, map).fill(*ph, begin as int);
            &&& final(state).with(final(backend)@, map) == run.s
            &&& r == outcome(run.status)
        }),
{
    match &ph.data {
        SegmentData::Load(bytes) => {
            match backend.mem_write(begin, bytes.as_slice()) {
                Ok(_) => {},
                Err(_) => {
                    return Err(LoadError::Misplaced);
                },
            }
            if protection(ph.flags) & PERM_EXEC != 0 {
                neutralize_pac_bti(backend, begin, bytes.len() as u64);
            }
            if let Some(l) = state.last {
                state.last = Some(Alignment { data_size: bytes.len() as u64, ..l });
            }
            Ok(())
        },
        _ => Err(LoadError::SegmentData),
    }
}

/// Map one loadable segment.
pub fn load_segment(
    backend: &mut Backend,
    memory_map: &mut HashMap<u64, MemoryMap>,
    state: &mut SegmentState,
    ph: &ProgramHeader,
    load_base: u64,
) -> (r: Result<(), LoadError>)
    ensures
        ({
            let run = old(state).with(old(backend)@, old(memory_map)@).load(*ph, load_base);
            &&& final(state).with(final(backend)@, final(memory_map)@) == run.s
            &&& r == outcome(run.status)
        }),
{
    if ph.virtual_address > u64::MAX - load_base || ph.align > i64::MAX as u64 {
        return Err(LoadError::Misplaced);
    }
    let begin: u64 = load_base + ph.virtual_address;
    let align: u64 = max_u64(0x1000, ph.align);
    if begin as u128 + ph.mem_size as u128 + align as u128 - 1 > u64::MAX as u128 {
        return Err(LoadError::Misplaced);
    }
    if state.load_virtual_address == 0 {
        state.load_virtual_address = begin;
    }
    let ghost s = state.with(backend@, memory_map@);
    proof {
        lemma_floor(begin as int, align as int);
    }
    let check: u64 = begin - begin % align;
    let mut overlapped = false;
    if state.regions.len() > 0 {
        let region = state.regions[state.regions.len() - 1];
        overlapped = region.begin <= check && check < region.end;
    }
    assert(overlapped == s.overlapped(floor_to(begin as int, segment_align(ph.align))));
    let placed = if overlapped {
        place_over(backend, memory_map, state, ph, begin)
    } else {
        place_apart(backend, memory_map, state, ph, begin)
    };
    match placed {
        Ok(_) => fill(backend, state, ph, begin, Ghost(memory_map@)),
        Err(e) => Err(e),
    }
}

/// Go through all program headers of an image: map the loadable segments and note
/// the special ones.
pub fn map_segments(
    backend: &mut Backend,
    memory_map: &mut HashMap<u64, MemoryMap>,
    state: &mut SegmentState,
    phs: &Vec<ProgramHeader>,
    load_base: u64,
) -> (r: Result<(), LoadError>)
    ensures
        ({
            let run = old(state).with(old(backend)@, old(memory_map)@).headers(
                phs@,
                phs@.len() as int,
                load_base,
            );
            &&& final(state).with(final(backend)@, final(memory_map)@) == run.s
            &&& r == outcome(run.status)
        }),
{
    let ghost start = state.with(backend@, memory_map@);
    let n: usize = phs.len();
    let mut i: usize = 0;
    while i < n
        invariant
            i <= n,
            n == phs@.len(),
            start == old(state).with(old(backend)@, old(memory_map)@),
            start.headers(phs@, i as int, load_base) == state.with(
                backend@,
                memory_map@,
            ).fine(),
        decreases n - i,
    {
        let ph = &phs[i];
        let ghost s = state.with(backend@, memory_map@);
        let ghost next = start.headers(phs@, i + 1, load_base);
        assert(next == s.header(*ph, i, load_base));
        proof {
            if !(next.status is Fine) {
                lemma_headers_stuck(start, phs@, i + 1, n as int, load_base);
            }
        }
        if ph.typ == PT_LOAD {
            match load_segment(backend, memory_map, state, ph, load_base) {
                Ok(_) => {},
                Err(e) => {
                    return Err(e);
                },
            }
        } else if ph.typ == PT_DYNAMIC {
            match &ph.data {
                SegmentData::DynamicStructure => {
                    state.dynamic = true;
                },
                _ => {
                    return Err(LoadError::SegmentData);
                },
            }
        } else if ph.typ == PT_GNU_EH_FRAME {
            match &ph.data {
                SegmentData::GnuEhFrameHeader => {
                    state.eh_frame_header = Some(i);
                },
                _ => {
                    return Err(LoadError::SegmentData);
                },
            }
        } else if ph.typ == PT_ARM_EXIDX {
            match &ph.data {
                SegmentData::ArmExIdx => {
                    state.arm_ex_idx = Some(i);
                },
                _ => {
                    return Err(LoadError::SegmentData);
                },
            }
        }
        i = i + 1;
    }
    Ok(())
}

/// A segment of an image stays inside the room that is set aside for the image, where
/// its boundary divides the image's.
pub proof fn law_segment_stays_inside(
    load_base: int,
    vaddr: int,
    mem_size: int,
    align: int,
    bound_high: int,
    base_align: int,
)
    requires
        0 < align,
        0 < base_align,
        base_align % align == 0,
        load_base % base_align == 0,
        0 <= load_base,
        0 <= vaddr,
        0 <= mem_size,
        vaddr + mem_size <= bound_high,
    ensures
        ({
            let (a, n) = aligned(load_base + vaddr, mem_size, align);
            load_base <= a && a + n <= load_base + ceil_to(bound_high, base_align)
        }),
{
    let (a, n) = aligned(load_base + vaddr, mem_size, align);
    let size = ceil_to(bound_high, base_align);
    lemma_floor(load_base + vaddr, align);
    lemma_floor(load_base + vaddr + mem_size + align - 1, align);
    lemma_floor(bound_high + base_align - 1, base_align);
    lemma_divides(base_align, align, load_base);
    lemma_divides(base_align, align, size);
    lemma_between(a, load_base, align);
    let end = load_base + size;
    assert(end % align == 0) by {
        vstd::arithmetic::div_mod::lemma_add_mod_noop(load_base, size, align);
        vstd::arithmetic::div_mod::lemma_small_mod(0, align as nat);
    }
    lemma_between(end, a + n, align);
}

/// What a multiple of a multiple divides.
proof fn lemma_divides(big: int, small: int, x: int)
    requires
        0 < small,
        0 < big,
        big % small == 0,
        x % big == 0,
    ensures
        x % small == 0,
{
    vstd::arithmetic::div_mod::lemma_fundamental_div_mod(x, big);
    vstd::arithmetic::div_mod::lemma_fundamental_div_mod(big, small);
    let q = x / big;
    let p = big / small;
    assert(x == small * (p * q)) by (nonlinear_arith)
        requires
            x == big * q,
            big == small * p,
    ;
    vstd::arithmetic::div_mod::lemma_mod_multiples_basic(p * q, small);
    assert((p * q) * small == small * (p * q)) by (nonlinear_arith);
}

/// A multiple that is more than one step below another is not above it by less than a step.
proof fn lemma_between(hi: int, lo: int, step: int)
    requires
        0 < step,
        hi % step == 0,
        lo % step == 0,
        lo < hi + step,
    ensures
        lo <= hi,
{
    vstd::arithmetic::div_mod::lemma_fundamental_div_mod(hi, step);
    vstd::arithmetic::div_mod::lemma_fundamental_div_mod(lo, step);
    let h = hi / step;
    let l = lo / step;
    assert(l <= h) by (nonlinear_arith)
        requires
            0 < step,
            hi == step * h,
            lo == step * l,
            lo < hi + step,
    ;
    assert(step * l <= step * h) by (nonlinear_arith)
        requires
            0 < step,
            l <= h,
    ;
}

/// The bytes of a segment as they stand in memory: where it is code, with the hints in
/// its whole words replaced.
pub open spec fn bytes_in_place(ph: ProgramHeader) -> Seq<u8> {
    let bytes = ph.data->Load_0@;
    let n = bytes.len() - bytes.len() % 4;
    if segment_prot(ph.flags) & PERM_EXEC != 0 {
        crate::memory::patch::neutralized(bytes.take(n)) + bytes.skip(n)
    } else {
        bytes
    }
}

/// Once a segment was filled, its bytes stand in memory: as they are in the file, or
/// with the hints replaced where the segment is code.
pub proof fn law_filled_segment_holds_its_bytes(s: Segments, ph: ProgramHeader, begin: int)
    requires
        s.fill(ph, begin).status is Fine,
        ph.data is Load,
    ensures
        s.fill(ph, begin).s.m.read(begin, ph.data->Load_0@.len()) == bytes_in_place(ph),
{
    let bytes = ph.data->Load_0@;
    let n = bytes.len() - bytes.len() % 4;
    let stored = s.m.write(begin, bytes);
    assert(stored.read(begin, bytes.len()) =~= bytes);
    assert(stored.read(begin, n as nat) =~= bytes.take(n));
    let clean = crate::memory::patch::neutralized(bytes.take(n));
    assert(stored.write(begin, clean).read(begin, bytes.len()) =~= clean + bytes.skip(n));
    assert(stored.mapped(begin, bytes.len() as int));
}

/// The page with this number holds a byte of `[begin, begin + size)`.
pub open spec fn page_touched(p: int, begin: int, size: int) -> bool {
    p * 0x1000 < begin + size && begin < (p + 1) * 0x1000
}

/// A page may be used as segment flags ask: bit 1 of its protection is for reading and goes
/// with flag 4, bit 2 is for writing and goes with flag 2, bit 4 is for executing and goes
/// with flag 1. Flags that name none of the three ask for all of them.
pub open spec fn access_asked(prot: u32, flags: u32) -> bool {
    &&& prot <= 7
    &&& (prot & 1 != 0) == (flags & 4 != 0 || flags & 7 == 0)
    &&& (prot & 2 != 0) == (flags & 2 != 0 || flags & 7 == 0)
    &&& (prot & 4 != 0) == (flags & 1 != 0 || flags & 7 == 0)
}

proof fn lemma_segment_prot(flags: u32)
    ensures
        access_asked(segment_prot(flags), flags),
{
    let prot = segment_prot(flags);
    assert(flags & 7 == 0 <==> (flags & 4 == 0 && flags & 2 == 0 && flags & 1 == 0)) by (
    bit_vector);
    assert(0u32 | 0 | 0 == 0 && 0u32 | 0 | 4 == 4 && 0u32 | 2 | 0 == 2 && 0u32 | 2 | 4 == 6 && 1u32
        | 0 | 0 == 1 && 1u32 | 0 | 4 == 5 && 1u32 | 2 | 0 == 3 && 1u32 | 2 | 4 == 7) by (
    bit_vector);
    assert(1u32 & 1 == 1 && 2u32 & 1 == 0 && 3u32 & 1 == 1 && 4u32 & 1 == 0 && 5u32 & 1 == 1 && 6u32
        & 1 == 0 && 7u32 & 1 == 1 && 1u32 & 2 == 0 && 2u32 & 2 == 2 && 3u32 & 2 == 2 && 4u32 & 2
        == 0 && 5u32 & 2 == 0 && 6u32 & 2 == 2 && 7u32 & 2 == 2 && 1u32 & 4 == 0 && 2u32 & 4 == 0
        && 3u32 & 4 == 0 && 4u32 & 4 == 4 && 5u32 & 4 == 4 && 6u32 & 4 == 4 && 7u32 & 4 == 4) by (
    bit_vector);
}

/// Where a segment that begins here is looked for in the newest region.
pub open spec fn first_boundary(ph: ProgramHeader, load_base: u64) -> int {
    let begin = load_base + ph.virtual_address;
    let step: int = if ph.align > 0x1000 {
        ph.align as int
    } else {
        0x1000
    };
    begin - begin % step
}

/// The segment begins in the newest region.
pub open spec fn begins_in_newest(s: Segments, ph: ProgramHeader, load_base: u64) -> bool {
    let at = first_boundary(ph, load_base);
    s.regions.len() > 0 && s.regions.last().begin <= at < s.regions.last().end
}

/// Storing a segment's bytes changes no protection and no record.
proof fn lemma_fill_keeps(s: Segments, ph: ProgramHeader, begin: int)
    requires
        s.fill(ph, begin).status is Fine,
    ensures
        s.fill(ph, begin).s.m.prot == s.m.prot,
        s.fill(ph, begin).s.m.mem.dom() == s.m.mem.dom(),
        s.fill(ph, begin).s.map == s.map,
        s.fill(ph, begin).s.regions == s.regions,
        ph.data is Load,
        forall|a: int|
            s.m.mem.dom().contains(a) && !(begin <= a < begin + ph.data->Load_0@.len())
                ==> #[trigger] s.fill(ph, begin).s.m.mem[a] == s.m.mem[a],
{
    let bytes = ph.data->Load_0@;
    let stored = s.m.write(begin, bytes);
    assert(stored.mem.dom() =~= s.m.mem.dom());
    assert(code_neutralized(stored, begin, bytes.len() as int).mem.dom() =~= s.m.mem.dom());
}

/// A segment that is mapped apart from the newest region can be used as its flags say. Every
/// page that holds one of its bytes has the protection that the flags name, and the record
/// of what is mapped has an entry around that page with the same protection. The segment's
/// region, too, has it. Pages that were mapped before keep their protection and their bytes.
#[verifier::rlimit(40)]
pub proof fn law_segment_protection(
    s: Segments,
    ph: ProgramHeader,
    load_base: u64,
    p: int,
    other: int,
    a: int,
)
    requires
        s.load(ph, load_base).status is Fine,
        !begins_in_newest(s, ph, load_base),
        page_touched(p, load_base + ph.virtual_address, ph.mem_size as int),
        s.m.prot.dom().contains(other),
        s.m.mem.dom().contains(a),
        forall|x: int| #[trigger] s.m.mem.dom().contains(x) ==> s.m.prot.dom().contains(x / 0x1000),
        ph.data is Load,
        ph.data->Load_0@.len() <= ph.mem_size,
    ensures
        ({
            let end = s.load(ph, load_base).s;
            &&& end.m.prot.dom().contains(p)
            &&& access_asked(end.m.prot[p], ph.flags)
            &&& exists|k: u64|
                {
                    &&& #[trigger] end.map.contains_key(k)
                    &&& end.map[k].base == k
                    &&& end.map[k].base <= p * 0x1000
                    &&& (p + 1) * 0x1000 <= end.map[k].base + end.map[k].size
                    &&& end.map[k].prot == end.m.prot[p]
                }
            &&& end.regions.len() == s.regions.len() + 1
            &&& end.regions.drop_last() == s.regions
            &&& access_asked(end.regions.last().perms, ph.flags)
            &&& end.regions.last().virtual_address == load_base + ph.virtual_address
            &&& end.regions.last().begin <= load_base + ph.virtual_address
            &&& load_base + ph.virtual_address + ph.mem_size <= end.regions.last().end
            &&& end.m.prot.dom().contains(other)
            &&& end.m.prot[other] == s.m.prot[other]
            &&& end.m.mem.dom().contains(a)
            &&& end.m.mem[a] == s.m.mem[a]
        }),
{
    let begin = load_base + ph.virtual_address;
    let align = segment_align(ph.align);
    let (lo, n) = aligned(begin, ph.mem_size as int, align);
    let step = Segments {
        load_virtual_address: if s.load_virtual_address == 0 {
            begin as u64
        } else {
            s.load_virtual_address
        },
        ..s
    };
    lemma_floor(begin, align);
    lemma_floor(begin + ph.mem_size + align - 1, align);
    lemma_segment_prot(ph.flags);
    let placed = step.place_apart(ph, begin);
    assert(s.load(ph, load_base) == placed.s.fill(ph, begin));
    lemma_fill_keeps(placed.s, ph, begin);
    let end = s.load(ph, load_base).s;
    let first = step.map_range(begin, ph.mem_size as int, segment_prot(ph.flags), align);
    assert(step.m.can_map(lo, n));
    assert(lo / 0x1000 <= p < (lo + n) / 0x1000);
    assert(first.m.prot.dom().contains(p) && first.m.prot[p] == segment_prot(ph.flags));
    assert(first.map.contains_key(lo as u64));
    assert(end.map.contains_key(lo as u64));
    assert(end.map[lo as u64].base == lo);
    assert(!(lo / 0x1000 <= other < (lo + n) / 0x1000));
    assert(end.regions.drop_last() =~= s.regions);
    assert(s.m.prot.dom().contains(a / 0x1000));
    assert(!(lo <= a < lo + n));
    assert(first.m.mem[a] == s.m.mem[a]);
    assert(first.m.prot.dom().contains(a / 0x1000));
    if let Some(l) = s.last {
        let base = l.address + l.size;
        let off = i64_of_bits(lo as u64) - i64_of_bits(base as u64);
        if off > 0 {
            assert(first.m.can_map(base, off));
            assert(!(base / 0x1000 <= a / 0x1000 < (base + off) / 0x1000));
            assert(!(base <= a < base + off));
        }
    }
    assert(placed.s.m.mem[a] == s.m.mem[a]);
}

/// A segment that begins in the newest region shares that region's tail: every page of the
/// tail may be used as the region's protection or the segment's flags say. The pages that
/// hold bytes of the segment beyond the tail have what the flags name.
#[verifier::rlimit(40)]
pub proof fn law_shared_segment_protection(s: Segments, ph: ProgramHeader, load_base: u64, p: int)
    requires
        s.load(ph, load_base).status is Fine,
        begins_in_newest(s, ph, load_base),
    ensures
        ({
            let end = s.load(ph, load_base).s;
            let begin = load_base + ph.virtual_address;
            let at = first_boundary(ph, load_base);
            let tail = s.regions.last().end - at;
            let was = s.regions.last().perms;
            let got = end.m.prot[p];
            &&& at <= p * 0x1000 < s.regions.last().end ==> {
                &&& end.m.prot.dom().contains(p)
                &&& (got & 1 != 0) == (was & 1 != 0 || ph.flags & 4 != 0 || ph.flags & 7 == 0)
                &&& (got & 2 != 0) == (was & 2 != 0 || ph.flags & 2 != 0 || ph.flags & 7 == 0)
                &&& (got & 4 != 0) == (was & 4 != 0 || ph.flags & 1 != 0 || ph.flags & 7 == 0)
            }
            &&& ph.mem_size > tail && page_touched(p, begin + tail, ph.mem_size - tail) ==> {
                &&& end.m.prot.dom().contains(p)
                &&& access_asked(got, ph.flags)
            }
            &&& s.m.prot.dom().contains(p) && !(at <= p * 0x1000 < s.regions.last().end) ==> {
                &&& end.m.prot.dom().contains(p)
                &&& got == s.m.prot[p]
            }
        }),
{
    let begin = load_base + ph.virtual_address;
    let align = segment_align(ph.align);
    let check = floor_to(begin, align);
    let over = s.regions.last().end - check;
    let step = Segments {
        load_virtual_address: if s.load_virtual_address == 0 {
            begin as u64
        } else {
            s.load_virtual_address
        },
        ..s
    };
    lemma_floor(begin, align);
    lemma_segment_prot(ph.flags);
    let placed = step.place_over(ph, begin);
    assert(s.load(ph, load_base) == placed.s.fill(ph, begin));
    lemma_fill_keeps(placed.s, ph, begin);
    let was = s.regions.last().perms;
    let prot = segment_prot(ph.flags);
    assert((was | prot) & 1 != 0 <==> (was & 1 != 0 || prot & 1 != 0)) by (bit_vector);
    assert((was | prot) & 2 != 0 <==> (was & 2 != 0 || prot & 2 != 0)) by (bit_vector);
    assert((was | prot) & 4 != 0 <==> (was & 4 != 0 || prot & 4 != 0)) by (bit_vector);
    assert(check % 0x1000 == 0 && over % 0x1000 == 0);
    let shared = step.m.protect_pages(check, over, was | prot);
    let inside = check / 0x1000 <= p < (check + over) / 0x1000;
    assert(inside <==> check <= p * 0x1000 < s.regions.last().end);
    assert(shared.prot.dom() =~= step.m.prot.dom());
    if inside {
        assert(step.m.prot.dom().contains(p));
        assert(shared.prot.dom().contains(p));
        assert(shared.prot[p] == was | prot);
    }
    if ph.mem_size > over {
        let (lo, n) = aligned(begin + over, ph.mem_size - over, align);
        lemma_floor(begin + over, align);
        lemma_floor(begin + ph.mem_size + align - 1, align);
        assert(Machine::whole_pages(lo, n));
        assert(inside ==> !(lo / 0x1000 <= p < (lo + n) / 0x1000));
        if page_touched(p, begin + over, ph.mem_size - over) {
            assert(lo / 0x1000 <= p < (lo + n) / 0x1000);
        }
    }
}

/// A gap between the segment before and a segment that is mapped apart is reserved: no page
/// of it can be read, written or executed.
#[verifier::rlimit(40)]
pub proof fn law_gap_is_reserved(s: Segments, ph: ProgramHeader, load_base: u64, p: int)
    requires
        s.load(ph, load_base).status is Fine,
        !begins_in_newest(s, ph, load_base),
        s.last is Some,
        s.last->0.address + s.last->0.size <= p * 0x1000,
        (p + 1) * 0x1000 <= first_boundary(ph, load_base),
        first_boundary(ph, load_base) < 0x8000_0000_0000_0000,
    ensures
        s.load(ph, load_base).s.m.prot.dom().contains(p),
        s.load(ph, load_base).s.m.prot[p] == 0,
{
    let begin = load_base + ph.virtual_address;
    let align = segment_align(ph.align);
    let step = Segments {
        load_virtual_address: if s.load_virtual_address == 0 {
            begin as u64
        } else {
            s.load_virtual_address
        },
        ..s
    };
    lemma_floor(begin, align);
    lemma_floor(begin + ph.mem_size + align - 1, align);
    let placed = step.place_apart(ph, begin);
    assert(s.load(ph, load_base) == placed.s.fill(ph, begin));
    lemma_fill_keeps(placed.s, ph, begin);
    let base = s.last->0.address + s.last->0.size;
    let lo = floor_to(begin, align);
    assert(i64_of_bits(lo as u64) - i64_of_bits(base as u64) == lo - base);
    assert(base % 0x1000 == 0);
    assert(base / 0x1000 <= p < (base + (lo - base)) / 0x1000);
}

/// The bytes of a segment that is mapped apart stand at the load base and its address, as
/// they are in the file or, in code, with the hints replaced; what the segment has beyond
/// them is zero.
#[verifier::rlimit(40)]
pub proof fn law_segment_contents(s: Segments, ph: ProgramHeader, load_base: u64, i: int)
    requires
        s.load(ph, load_base).status is Fine,
        !begins_in_newest(s, ph, load_base),
        0 <= i < ph.mem_size,
    ensures
        ({
            let end = s.load(ph, load_base).s;
            let at = load_base + ph.virtual_address + i;
            let bytes = ph.data->Load_0@;
            &&& ph.data is Load
            &&& end.m.mem.dom().contains(at)
            &&& end.m.mem[at] == if i >= bytes.len() {
                0
            } else if ph.flags & 1 != 0 || ph.flags & 7 == 0 {
                bytes_in_place(ph)[i]
            } else {
                bytes[i]
            }
        }),
{
    let begin = load_base + ph.virtual_address;
    let align = segment_align(ph.align);
    let (lo, n) = aligned(begin, ph.mem_size as int, align);
    let step = Segments {
        load_virtual_address: if s.load_virtual_address == 0 {
            begin as u64
        } else {
            s.load_virtual_address
        },
        ..s
    };
    lemma_floor(begin, align);
    lemma_floor(begin + ph.mem_size + align - 1, align);
    lemma_segment_prot(ph.flags);
    let placed = step.place_apart(ph, begin);
    assert(s.load(ph, load_base) == placed.s.fill(ph, begin));
    lemma_fill_keeps(placed.s, ph, begin);
    let first = step.map_range(begin, ph.mem_size as int, segment_prot(ph.flags), align);
    let at = begin + i;
    assert(lo <= at < lo + n);
    assert(first.m.mem.dom().contains(at) && first.m.mem[at] == 0);
    assert(placed.s.m.mem.dom().contains(at));
    assert(placed.s.m.mem[at] == 0);
    let bytes = ph.data->Load_0@;
    law_filled_segment_holds_its_bytes(placed.s, ph, begin);
    let end = s.load(ph, load_base).s;
    if i < bytes.len() {
        assert(end.m.read(begin, bytes.len())[i] == end.m.mem[at]);
    }
}

/// Every mapped byte lies on a mapped page.
pub open spec fn bytes_on_pages(m: Machine) -> bool {
    forall|x: int| #[trigger] m.mem.dom().contains(x) ==> m.prot.dom().contains(x / 0x1000)
}

/// The bytes that a header has stored take in this address.
pub open spec fn stores_at(ph: ProgramHeader, load_base: u64, x: int) -> bool {
    let begin = load_base + ph.virtual_address;
    ph.typ == 1 && ph.data is Load && begin <= x < begin + ph.data->Load_0@.len()
}

proof fn lemma_map_keeps(m: Machine, lo: int, n: int, prot: u32, x: int)
    requires
        bytes_on_pages(m),
        m.can_map(lo, n),
        m.mem.dom().contains(x),
    ensures
        bytes_on_pages(m.map_pages(lo, n, prot)),
        m.map_pages(lo, n, prot).mem.dom().contains(x),
        m.map_pages(lo, n, prot).mem[x] == m.mem[x],
{
    assert(m.prot.dom().contains(x / 0x1000));
    assert(!(lo <= x < lo + n));
    let m2 = m.map_pages(lo, n, prot);
    assert forall|y: int| #[trigger] m2.mem.dom().contains(y) implies m2.prot.dom().contains(
        y / 0x1000,
    ) by {
        if m.mem.dom().contains(y) {
            assert(m.prot.dom().contains(y / 0x1000));
        }
    }
}

/// A header leaves mapped bytes alone that it does not store itself.
#[verifier::rlimit(40)]
proof fn lemma_header_keeps(s: Segments, ph: ProgramHeader, i: usize, load_base: u64, x: int)
    requires
        s.header(ph, i, load_base).status is Fine,
        bytes_on_pages(s.m),
        s.m.mem.dom().contains(x),
    ensures
        ({
            let end = s.header(ph, i, load_base).s.m;
            &&& bytes_on_pages(end)
            &&& end.mem.dom().contains(x)
            &&& !stores_at(ph, load_base, x) ==> end.mem[x] == s.m.mem[x]
        }),
{
    if ph.typ == PT_LOAD {
        let begin = load_base + ph.virtual_address;
        let align = segment_align(ph.align);
        let step = Segments {
            load_virtual_address: if s.load_virtual_address == 0 {
                begin as u64
            } else {
                s.load_virtual_address
            },
            ..s
        };
        lemma_floor(begin, align);
        let over = step.overlapped(floor_to(begin, align));
        let placed = if over {
            step.place_over(ph, begin)
        } else {
            step.place_apart(ph, begin)
        };
        assert(s.load(ph, load_base) == placed.s.fill(ph, begin));
        lemma_fill_keeps(placed.s, ph, begin);
        if over {
            let check = floor_to(begin, align);
            let tail = s.regions.last().end - check;
            let shared = step.m.protect_pages(
                check,
                tail,
                s.regions.last().perms | segment_prot(ph.flags),
            );
            assert(shared.prot.dom() =~= s.m.prot.dom());
            assert(bytes_on_pages(shared));
            if ph.mem_size > tail {
                let (lo, n) = aligned(begin + tail, ph.mem_size - tail, align);
                lemma_map_keeps(shared, lo, n, segment_prot(ph.flags), x);
            }
        } else {
            let (lo, n) = aligned(begin, ph.mem_size as int, align);
            lemma_map_keeps(s.m, lo, n, segment_prot(ph.flags), x);
            let first = s.m.map_pages(lo, n, segment_prot(ph.flags));
            if let Some(l) = s.last {
                let base = l.address + l.size;
                let off = i64_of_bits(lo as u64) - i64_of_bits(base as u64);
                if off > 0 {
                    lemma_map_keeps(first, base, off, PERM_NONE, x);
                }
            }
        }
        let end = s.header(ph, i, load_base).s.m;
        assert(end.mem.dom() == placed.s.m.mem.dom());
        assert(bytes_on_pages(placed.s.m));
        assert(bytes_on_pages(end)) by {
            assert forall|y: int| #[trigger] end.mem.dom().contains(y) implies end.prot.dom().contains(
                y / 0x1000,
            ) by {
                assert(placed.s.m.mem.dom().contains(y));
            }
        }
    }
}

/// The machine's bytes stay on pages, also where nothing was mapped yet.
#[verifier::rlimit(40)]
proof fn lemma_header_pages(s: Segments, ph: ProgramHeader, i: usize, load_base: u64)
    requires
        s.header(ph, i, load_base).status is Fine,
        bytes_on_pages(s.m),
    ensures
        bytes_on_pages(s.header(ph, i, load_base).s.m),
{
    let end = s.header(ph, i, load_base).s.m;
    if ph.typ == PT_LOAD {
        let begin = load_base + ph.virtual_address;
        let align = segment_align(ph.align);
        let step = Segments {
            load_virtual_address: if s.load_virtual_address == 0 {
                begin as u64
            } else {
                s.load_virtual_address
            },
            ..s
        };
        lemma_floor(begin, align);
        let over = step.overlapped(floor_to(begin, align));
        let placed = if over {
            step.place_over(ph, begin)
        } else {
            step.place_apart(ph, begin)
        };
        assert(s.load(ph, load_base) == placed.s.fill(ph, begin));
        lemma_fill_keeps(placed.s, ph, begin);
        assert forall|y: int| #[trigger] end.mem.dom().contains(y) implies end.prot.dom().contains(
            y / 0x1000,
        ) by {
            assert(placed.s.m.mem.dom().contains(y));
            if s.m.mem.dom().contains(y) {
                lemma_header_keeps(s, ph, i, load_base, y);
            }
        }
    }
}

/// After all headers of an image were gone through, every loadable segment's bytes from the
/// file are in memory, at the load base and the segment's address: as they are in the file,
/// or with the hints replaced in code. That leaves out only bytes that the bytes of a later
/// segment cover.
#[verifier::rlimit(40)]
pub proof fn law_image_contents(
    s: Segments,
    phs: Seq<ProgramHeader>,
    n: int,
    load_base: u64,
    i: int,
    k: int,
)
    requires
        bytes_on_pages(s.m),
        s.headers(phs, n, load_base).status is Fine,
        0 <= i < n <= phs.len(),
        phs[i].typ == 1,
        0 <= k < phs[i].data->Load_0@.len(),
        forall|j: int|
            i < j < n ==> !#[trigger] stores_at(
                phs[j],
                load_base,
                load_base + phs[i].virtual_address + k,
            ),
    ensures
        ({
            let m = s.headers(phs, n, load_base).s.m;
            let x = load_base + phs[i].virtual_address + k;
            &&& phs[i].data is Load
            &&& m.mem.dom().contains(x)
            &&& m.mem[x] == if phs[i].flags & 1 != 0 || phs[i].flags & 7 == 0 {
                bytes_in_place(phs[i])[k]
            } else {
                phs[i].data->Load_0@[k]
            }
            &&& bytes_on_pages(m)
        }),
    decreases n,
{
    let before = s.headers(phs, n - 1, load_base);
    let ph = phs[n - 1];
    let x = load_base + phs[i].virtual_address + k;
    lemma_headers_pages(s, phs, n - 1, load_base);
    if i < n - 1 {
        law_image_contents(s, phs, n - 1, load_base, i, k);
        assert(!stores_at(ph, load_base, x));
        lemma_header_keeps(before.s, ph, (n - 1) as usize, load_base, x);
    } else {
        let begin = load_base + ph.virtual_address;
        let align = segment_align(ph.align);
        let step = Segments {
            load_virtual_address: if before.s.load_virtual_address == 0 {
                begin as u64
            } else {
                before.s.load_virtual_address
            },
            ..before.s
        };
        let placed = if step.overlapped(floor_to(begin, align)) {
            step.place_over(ph, begin)
        } else {
            step.place_apart(ph, begin)
        };
        assert(before.s.load(ph, load_base) == placed.s.fill(ph, begin));
        lemma_segment_prot(ph.flags);
        lemma_fill_keeps(placed.s, ph, begin);
        law_filled_segment_holds_its_bytes(placed.s, ph, begin);
        let end = before.s.load(ph, load_base).s.m;
        assert(end.read(begin, ph.data->Load_0@.len())[k] == end.mem[x]);
        lemma_header_pages(before.s, ph, (n - 1) as usize, load_base);
    }
}

proof fn lemma_headers_pages(s: Segments, phs: Seq<ProgramHeader>, n: int, load_base: u64)
    requires
        bytes_on_pages(s.m),
        s.headers(phs, n, load_base).status is Fine,
    ensures
        bytes_on_pages(s.headers(phs, n, load_base).s.m),
    decreases n,
{
    if n > 0 {
        lemma_headers_pages(s, phs, n - 1, load_base);
        lemma_header_pages(
            s.headers(phs, n - 1, load_base).s,
            phs[n - 1],
            (n - 1) as usize,
            load_base,
        );
    }
}

/// What is noted of the headers, besides what is mapped.
struct HeaderNotes {
    dynamic: bool,
    eh_frame_header: Option<usize>,
    load_virtual_address: u64,
}

/// What was noted so far.
spec fn header_notes(
    s: Segments,
    phs: Seq<ProgramHeader>,
    n: int,
    load_base: u64,
) -> HeaderNotes {
    let end = s.headers(phs, n, load_base).s;
    HeaderNotes {
        dynamic: end.dynamic,
        eh_frame_header: end.eh_frame_header,
        load_virtual_address: end.load_virtual_address,
    }
}

/// The first `n` headers could be mapped.
#[verifier::opaque]
spec fn headers_fine(s: Segments, phs: Seq<ProgramHeader>, n: int, load_base: u64) -> bool {
    s.headers(phs, n, load_base).status is Fine
}

proof fn lemma_notes_step(s: Segments, phs: Seq<ProgramHeader>, n: int, load_base: u64)
    requires
        headers_fine(s, phs, n, load_base),
        0 < n <= phs.len(),
        n <= usize::MAX,
    ensures
        headers_fine(s, phs, n - 1, load_base),
        ({
            let was = header_notes(s, phs, n - 1, load_base);
            let now = header_notes(s, phs, n, load_base);
            let typ = phs[n - 1].typ;
            &&& now.dynamic == (was.dynamic || typ == 2)
            &&& now.eh_frame_header == if typ == 0x6474e550 {
                Some((n - 1) as usize)
            } else {
                was.eh_frame_header
            }
            &&& now.load_virtual_address == if typ == 1 && was.load_virtual_address == 0 {
                load_base + phs[n - 1].virtual_address
            } else {
                was.load_virtual_address as int
            }
        }),
{
    reveal(headers_fine);
    let before = s.headers(phs, n - 1, load_base).s;
    let ph = phs[n - 1];
    lemma_header_notes(before, ph, (n - 1) as usize, load_base);
}

#[verifier::rlimit(40)]
proof fn lemma_header_notes(s: Segments, ph: ProgramHeader, i: usize, load_base: u64)
    requires
        s.header(ph, i, load_base).status is Fine,
    ensures
        ({
            let end = s.header(ph, i, load_base).s;
            &&& end.dynamic == (s.dynamic || ph.typ == 2)
            &&& end.eh_frame_header == if ph.typ == 0x6474e550 {
                Some(i)
            } else {
                s.eh_frame_header
            }
            &&& end.load_virtual_address == if ph.typ == 1 && s.load_virtual_address == 0 {
                load_base + ph.virtual_address
            } else {
                s.load_virtual_address as int
            }
        }),
{
    if ph.typ == PT_LOAD {
        let begin = load_base + ph.virtual_address;
        let step = Segments {
            load_virtual_address: if s.load_virtual_address == 0 {
                begin as u64
            } else {
                s.load_virtual_address
            },
            ..s
        };
        let placed = if step.overlapped(floor_to(begin, segment_align(ph.align))) {
            step.place_over(ph, begin)
        } else {
            step.place_apart(ph, begin)
        };
        assert(s.load(ph, load_base) == placed.s.fill(ph, begin));
        assert(placed.s.dynamic == s.dynamic);
        assert(placed.s.eh_frame_header == s.eh_frame_header);
        assert(placed.s.load_virtual_address == step.load_virtual_address);
    }
}

/// What an image's headers say besides its segments is noted: whether one of them has the
/// dynamic part, which has type 2; which is the last one with the frame table, which has
/// type 0x6474e550; and where the first loadable segment was put.
pub proof fn law_special_headers(s: Segments, phs: Seq<ProgramHeader>, n: int, load_base: u64)
    requires
        s.headers(phs, n, load_base).status is Fine,
        0 <= n <= phs.len(),
        n <= usize::MAX,
        0 < load_base,
        !s.dynamic,
        s.eh_frame_header is None,
        s.load_virtual_address == 0,
    ensures
        s.headers(phs, n, load_base).s.dynamic == exists|i: int|
            0 <= i < n && (#[trigger] phs[i]).typ == 2,
        match s.headers(phs, n, load_base).s.eh_frame_header {
            Some(k) => k < n && phs[k as int].typ == 0x6474e550 && forall|i: int|
                k < i < n ==> (#[trigger] phs[i]).typ != 0x6474e550,
            None => forall|i: int| 0 <= i < n ==> (#[trigger] phs[i]).typ != 0x6474e550,
        },
        forall|i: int|
            0 <= i < n && (#[trigger] phs[i]).typ == 1 && (forall|j: int|
                0 <= j < i ==> (#[trigger] phs[j]).typ != 1) ==> s.headers(
                phs,
                n,
                load_base,
            ).s.load_virtual_address == load_base + phs[i].virtual_address,
        (forall|i: int| 0 <= i < n ==> (#[trigger] phs[i]).typ != 1) ==> s.headers(
            phs,
            n,
            load_base,
        ).s.load_virtual_address == 0,
{
    reveal(headers_fine);
    assert(headers_fine(s, phs, n, load_base));
    assert(header_notes(s, phs, 0, load_base).dynamic == false);
    assert(header_notes(s, phs, 0, load_base).eh_frame_header is None);
    assert(header_notes(s, phs, 0, load_base).load_virtual_address == 0);
    lemma_notes(s, phs, n, load_base, header_notes(s, phs, 0, load_base));
}

proof fn lemma_notes(
    s: Segments,
    phs: Seq<ProgramHeader>,
    n: int,
    load_base: u64,
    none: HeaderNotes,
)
    requires
        headers_fine(s, phs, n, load_base),
        0 <= n <= phs.len(),
        n <= usize::MAX,
        0 < load_base,
        none == header_notes(s, phs, 0, load_base),
        none == (HeaderNotes { dynamic: false, eh_frame_header: None, load_virtual_address: 0 }),
    ensures
        ({
            let end = header_notes(s, phs, n, load_base);
            &&& end.dynamic == exists|i: int| 0 <= i < n && (#[trigger] phs[i]).typ == 2
            &&& match end.eh_frame_header {
                Some(k) => k < n && phs[k as int].typ == 0x6474e550 && forall|i: int|
                    k < i < n ==> (#[trigger] phs[i]).typ != 0x6474e550,
                None => forall|i: int| 0 <= i < n ==> (#[trigger] phs[i]).typ != 0x6474e550,
            }
            &&& forall|i: int|
                0 <= i < n && (#[trigger] phs[i]).typ == 1 && (forall|j: int|
                    0 <= j < i ==> (#[trigger] phs[j]).typ != 1) ==> end.load_virtual_address
                    == load_base + phs[i].virtual_address
            &&& (forall|i: int| 0 <= i < n ==> (#[trigger] phs[i]).typ != 1)
                ==> end.load_virtual_address == 0
        }),
    decreases n,
{
    if n > 0 {
        lemma_notes_step(s, phs, n, load_base);
        lemma_notes(s, phs, n - 1, load_base, none);
        let was = header_notes(s, phs, n - 1, load_base);
        let end = header_notes(s, phs, n, load_base);
        let typ = phs[n - 1].typ;
        if end.dynamic && typ != 2 {
            let i = choose|i: int| 0 <= i < n - 1 && (#[trigger] phs[i]).typ == 2;
            assert(0 <= i < n && phs[i].typ == 2);
        }
        assert forall|i: int|
            0 <= i < n && (#[trigger] phs[i]).typ == 1 && (forall|j: int|
                0 <= j < i ==> (#[trigger] phs[j]).typ != 1) implies end.load_virtual_address
            == load_base + phs[i].virtual_address by {
            if i == n - 1 {
                assert(was.load_virtual_address == 0);
            }
        }
    }
}

} // verus!
