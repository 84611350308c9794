//! Loading images and starting programs.
use std::collections::{HashMap, VecDeque};

use indexmap::IndexMap;
use rnidbg::backend::{
    Backend, BackendError, RegisterARM64, PERM_READ_EXEC, PERM_READ_WRITE,
};
use rnidbg::elf::{
    DynamicStructure, ElfFile, ElfSymbol, ProgramHeader, Relocation, SegmentData, SymbolEntry,
    SymbolTable, PT_ARM_EXIDX, PT_DYNAMIC, PT_GNU_EH_FRAME, PT_LOAD, R_AARCH64_ABS64,
    R_AARCH64_GLOB_DAT, R_AARCH64_IRELATIVE, R_AARCH64_JUMP_SLOT, R_AARCH64_RELATIVE,
    R_AARCH64_TLSDESC, R_AARCH64_TLS_DTPMOD, R_AARCH64_TLS_DTPREL, R_AARCH64_TLS_TPREL,
};
use rnidbg::emulator::dispatcher::ThreadDispatcher;
use rnidbg::emulator::state::AndroidEmulator;
use rnidbg::linux::entry::{EntryError, EntryRequest};
use rnidbg::linux::file_system::FileSystem;
use rnidbg::linux::init_fun::{AbsoluteInitFunction, InitFunction, LinuxInitFunction};
use rnidbg::linux::module::{InitStep, LinuxModule};
use rnidbg::linux::symbol::{ModuleSymbol, WEAK_BASE};
use rnidbg::linux::thread::ChildTable;
use rnidbg::memory::load::{check_header, get_base_name, image_extent, LoadStart, Loading};
use rnidbg::memory::loader::{AndroidElfLoader, GuestLayout, InitAction, InitCursor};
use rnidbg::memory::patch::{apply_relr, neutralize_pac_bti};
use rnidbg::memory::relocate::{
    elf_tls_tprel, ifunc_question, symbol_offset, SymbolAnswer, SymbolQuestion,
};
use rnidbg::memory::segments::{load_segment, map_range, LoadError, SegmentState};
use rnidbg::memory::svc_memory::SvcMemory;

const BASE: u64 = 0x4000_0000;

fn layout() -> GuestLayout {
    GuestLayout { stack_base: 0x7000_0000, stack_pages: 64, mmap_base: BASE }
}

fn loader() -> (Backend, AndroidElfLoader) {
    let mut b = Backend::new();
    let (l, _) = AndroidElfLoader::new(&mut b, layout(), 100, "app").unwrap();
    (b, l)
}

fn segment(flags: u32, virtual_address: u64, mem_size: u64, bytes: &[u8]) -> ProgramHeader {
    ProgramHeader {
        typ: PT_LOAD,
        flags,
        virtual_address,
        mem_size,
        align: 0x1000,
        data: SegmentData::Load(bytes.to_vec()),
    }
}

fn image(file_type: u16, headers: Vec<ProgramHeader>) -> ElfFile {
    ElfFile {
        version: 1,
        encoding: 1,
        object_size: 2,
        arch: 0xb7,
        file_type,
        entry_point: 0x40,
        ph_offset: 64,
        ph_entry_size: 56,
        num_ph: headers.len() as u16,
        program_headers: headers,
        section_headers: vec![1, 2],
    }
}

fn dynamic_header() -> ProgramHeader {
    ProgramHeader {
        typ: PT_DYNAMIC,
        flags: 6,
        virtual_address: 0,
        mem_size: 0,
        align: 8,
        data: SegmentData::DynamicStructure,
    }
}

fn dynamic() -> DynamicStructure {
    DynamicStructure {
        so_name: None,
        needed: vec![],
        relr_offset: 0,
        relr_size: 0,
        relocations: vec![],
        init: 0,
        init_array_offset: 0,
        init_array_size: 0,
        preinit_array_offset: 0,
        preinit_array_size: 0,
        symbols: SymbolTable { entries: vec![] },
    }
}

fn defined(name: &str, value: u64) -> SymbolEntry {
    SymbolEntry {
        name: name.to_string(),
        symbol: ElfSymbol { value, size: 8, info: 0x12, section: 1 },
    }
}

fn undefined(name: &str) -> SymbolEntry {
    SymbolEntry {
        name: name.to_string(),
        symbol: ElfSymbol { value: 0, size: 0, info: 0x12, section: 0 },
    }
}

fn no_answer() -> SymbolAnswer {
    SymbolAnswer { ifunc: 0, hooks: vec![], elsewhere: None }
}

fn reloc(offset: u64, typ: u32, addend: i64, symbol: Option<SymbolEntry>) -> Relocation {
    Relocation { offset, typ, addend, explicit_addend: true, symbol }
}

fn begin(
    b: &mut Backend,
    l: &mut AndroidElfLoader,
    elf: ElfFile,
    d: DynamicStructure,
    name: &str,
) -> Loading {
    match l.begin_load(b, elf, Some(d), name.to_string()) {
        Ok(LoadStart::Linking(loading)) => loading,
        _ => panic!("not linking"),
    }
}

#[test]
fn the_stack_and_the_first_thread_are_set_up() {
    let mut b = Backend::new();
    let (l, errno) = AndroidElfLoader::new(&mut b, layout(), 77, "app").unwrap();
    let tls = b.reg_read(RegisterARM64::TPIDR_EL0);
    assert_eq!(errno, tls + 16);
    assert_eq!(b.mem_read_u32(errno), Ok(0));
    assert_eq!(b.mem_read_u64(tls + 40), Ok(0xa5a5_a5a5_a5a5_a5a5));
    let thread = b.mem_read_u64(tls + 8).unwrap();
    assert_eq!(b.mem_read_u32(thread + 16), Ok(77));
    let argv = b.mem_read_u64(tls + 24).unwrap();
    assert_eq!(l.environ, argv + 16);
    let name_ptr = b.mem_read_u64(argv + 8).unwrap();
    let name = b.mem_read_u64(name_ptr).unwrap();
    assert_eq!(b.mem_read_c_string(name).unwrap(), "app");
    let envp = b.mem_read_u64(argv + 16).unwrap();
    let texts: Vec<String> = (0..4)
        .map(|i| b.mem_read_c_string(b.mem_read_u64(envp + 8 * i).unwrap()).unwrap())
        .collect();
    assert_eq!(
        texts,
        vec![
            "ANDROID_DATA=/data",
            "ANDROID_ROOT=/system",
            "PATH=/sbin:/vendor/bin:/system/sbin:/system/bin:/system/xbin",
            "NO_ADDR_COMPAT_LAYOUT_FIXUP=1",
        ]
    );
    assert_eq!(b.mem_read_u64(envp + 32), Ok(0));
    let auxv = b.mem_read_u64(argv + 24).unwrap();
    let words: Vec<u64> = (0..8).map(|i| b.mem_read_u64(auxv + 8 * i).unwrap()).collect();
    assert_eq!(words[0], 25);
    assert_eq!(b.mem_read_u64(words[1]), Ok(0xa5a5_a5a5_a5a5_a5a5));
    assert_eq!(&words[2..], &[6, 0x1000, 16, 0xfb, 0, 0]);
    assert_eq!(b.reg_read(RegisterARM64::SP) % 16, 0);
    assert_eq!(b.reg_read(RegisterARM64::SP), l.stack.sp);
    assert_eq!(l.stack.base, 0x7000_0000);
    b.mem_write_u64(tls + 24, 0).unwrap();
    l.restore_thread_argv(&mut b);
    assert_eq!(b.mem_read_u64(tls + 24), Ok(argv));
}

#[test]
fn the_stack_grows_down_with_texts() {
    let (mut b, mut l) = loader();
    let sp = l.stack.sp;
    let p = l.write_stack_string(&mut b, "hello").unwrap();
    assert_eq!(p, sp - 16);
    assert_eq!(b.mem_read_c_string(p).unwrap(), "hello");
    let frozen = bytes::Bytes::from_static(&[1, 2, 3]);
    let q = l.write_stack_bytes(&mut b, &frozen).unwrap();
    assert_eq!(q, sp - 32);
    assert_eq!(b.mem_read_as_vec(q, 3).unwrap(), vec![1, 2, 3]);
    assert_eq!(b.mem_read_c_string(p).unwrap(), "hello");
    assert_eq!(l.allocate_stack(&mut b, 8), sp - 40);
    l.set_stack_point(&mut b, sp);
    assert_eq!(b.reg_read(RegisterARM64::SP), sp);
}

#[test]
fn headers_are_checked() {
    let good = || image(3, vec![segment(5, 0, 0x1000, &[])]);
    assert_eq!(check_header(&good()), Ok(()));
    let mut e = good();
    e.version = 2;
    assert_eq!(check_header(&e), Err(LoadError::Version));
    let mut e = good();
    e.encoding = 2;
    assert_eq!(check_header(&e), Err(LoadError::Encoding));
    let mut e = good();
    e.object_size = 1;
    assert_eq!(check_header(&e), Err(LoadError::Class));
    let mut e = good();
    e.arch = 0x28;
    assert_eq!(check_header(&e), Err(LoadError::Machine));
    assert_eq!(check_header(&image(3, vec![])), Err(LoadError::NoProgramHeaders));
    let (mut b, mut l) = loader();
    let r = l.begin_load(&mut b, image(3, vec![]), None, "x".to_string());
    assert!(matches!(r, Err(LoadError::NoProgramHeaders)));
    assert_eq!(l.mmap_base, BASE);
}

#[test]
fn images_do_not_overlap() {
    let mut wide = segment(5, 0, 0x1234, &[]);
    wide.align = 0x10000;
    assert_eq!(image_extent(&image(3, vec![wide, segment(6, 0x3000, 0x10, &[])])), (0x3010, 0x10000));
    let (mut b, mut l) = loader();
    let r = l.begin_load(&mut b, image(2, vec![segment(5, 0, 0x1001, &[1])]), None, "a".to_string());
    assert!(matches!(r, Ok(LoadStart::Loaded(0))));
    assert_eq!(l.mmap_base, BASE + 0x2000);
    let mut wide = segment(5, 0, 0x1234, &[]);
    wide.align = 0x10000;
    let r = l.begin_load(&mut b, image(2, vec![wide]), None, "b".to_string());
    assert!(matches!(r, Ok(LoadStart::Loaded(1))));
    assert_eq!((l.list[1].base, l.list[1].size), (BASE + 0x10000, 0x10000));
    assert_eq!(l.mmap_base, BASE + 0x20000);
    assert_eq!(l.find_module_by_address(BASE + 0x1fff), Some(0));
    assert_eq!(l.find_module_by_address(BASE + 0x10000), Some(1));
    assert_eq!(l.find_module_by_address(BASE + 0x3000), None);
    assert_eq!(l.list[0].entry_point, 0x40);
    assert_eq!(l.modules.get("b"), Some(&1));
}

#[test]
fn segments_hold_their_bytes() {
    let (mut b, mut l) = loader();
    let code = [0x3f, 0x23, 0x03, 0xd5, 0xc0, 0x03, 0x5f, 0xd6, 0x3f];
    let headers = vec![segment(5, 0, 0x800, &code), segment(6, 0x3000, 0x1800, &code)];
    let r = l.begin_load(&mut b, image(2, headers), None, "a".to_string());
    assert!(r.is_ok());
    assert_eq!(
        b.mem_read_as_vec(BASE, 9).unwrap(),
        vec![0x1f, 0x20, 0x03, 0xd5, 0xc0, 0x03, 0x5f, 0xd6, 0x3f]
    );
    assert_eq!(b.mem_read_as_vec(BASE + 0x3000, 9).unwrap(), code.to_vec());
    assert!(b.is_mapped(BASE, 0x5000));
    let m = &l.list[0];
    assert_eq!(m.regions.len(), 2);
    assert_eq!((m.regions[1].begin, m.regions[1].end), (BASE + 0x3000, BASE + 0x5000));
    assert_eq!(m.regions[0].perms, PERM_READ_EXEC);
    assert_eq!(l.memory_map.get(&(BASE + 0x1000)).unwrap().size, 0x2000);
    l.list[0].unload(&mut b).unwrap();
    assert!(!b.is_mapped(BASE, 1));
    assert!(b.is_mapped(BASE + 0x1000, 1));
    assert!(l.list[0].unload(&mut b).is_err());
}

#[test]
fn segments_may_share_a_page() {
    let mut b = Backend::new();
    let mut map = HashMap::new();
    let mut s = SegmentState::new();
    load_segment(&mut b, &mut map, &mut s, &segment(5, 0, 0x1800, &[1]), BASE).unwrap();
    load_segment(&mut b, &mut map, &mut s, &segment(6, 0x1900, 0x100, &[7, 8]), BASE).unwrap();
    assert_eq!(s.regions.len(), 1);
    assert_eq!(b.mem_read_as_vec(BASE + 0x1900, 2).unwrap(), vec![7, 8]);
    assert_eq!(s.load_virtual_address, BASE);
}

#[test]
fn misplaced_segments_are_refused() {
    let mut b = Backend::new();
    let mut map = HashMap::new();
    let mut s = SegmentState::new();
    load_segment(&mut b, &mut map, &mut s, &segment(5, 0x5000, 0x1000, &[1]), BASE).unwrap();
    let r = load_segment(&mut b, &mut map, &mut s, &segment(5, 0x1000, 0x1000, &[1]), BASE);
    assert_eq!(r, Err(LoadError::SegmentOrder));
    let mut wrong = segment(5, 0x9000, 0x1000, &[]);
    wrong.data = SegmentData::Other;
    let r = load_segment(&mut b, &mut map, &mut s, &wrong, BASE);
    assert_eq!(r, Err(LoadError::SegmentData));
    let mut b = Backend::new();
    let mut map = HashMap::new();
    let mut s = SegmentState::new();
    load_segment(&mut b, &mut map, &mut s, &segment(5, 0, 0x1000, &[1; 0x900]), BASE).unwrap();
    let r = load_segment(&mut b, &mut map, &mut s, &segment(6, 0x800, 0x2000, &[1]), BASE);
    assert_eq!(r, Err(LoadError::SegmentOverlap));
}

#[test]
fn special_headers_are_noted() {
    let (mut b, mut l) = loader();
    let special = |typ: u32, data: SegmentData| ProgramHeader {
        typ,
        flags: 4,
        virtual_address: 0,
        mem_size: 0,
        align: 4,
        data,
    };
    let headers = vec![
        segment(5, 0, 0x1000, &[]),
        special(PT_GNU_EH_FRAME, SegmentData::GnuEhFrameHeader),
        special(PT_ARM_EXIDX, SegmentData::ArmExIdx),
        special(3, SegmentData::Other),
    ];
    assert!(l.begin_load(&mut b, image(2, headers), None, "a".to_string()).is_ok());
    assert_eq!((l.list[0].eh_frame_header, l.list[0].arm_ex_idx), (Some(1), Some(2)));
    for typ in [PT_GNU_EH_FRAME, PT_ARM_EXIDX, PT_DYNAMIC] {
        let headers = vec![special(typ, SegmentData::Other)];
        let r = l.begin_load(&mut b, image(2, headers), None, "b".to_string());
        assert!(matches!(r, Err(LoadError::SegmentData)));
    }
    let r = l.begin_load(&mut b, image(2, vec![special(3, SegmentData::Other)]), None, "b".to_string());
    assert!(matches!(r, Err(LoadError::NoLoadAddress)));
}

#[test]
fn hints_become_no_operation() {
    let mut b = Backend::new();
    b.mem_map(BASE, 0x1000, PERM_READ_WRITE).unwrap();
    let words = [0xd503_233fu32, 0xd503_245f, 0xd503_201f, 0xd503_203f, 0xd65f_03c0, 0xd503_23bf];
    for (i, w) in words.iter().enumerate() {
        b.mem_write_u32(BASE + 4 * i as u64, *w).unwrap();
    }
    neutralize_pac_bti(&mut b, BASE, 23);
    let after: Vec<u32> = (0..6).map(|i| b.mem_read_u32(BASE + 4 * i).unwrap()).collect();
    assert_eq!(
        after,
        vec![0xd503_201f, 0xd503_201f, 0xd503_201f, 0xd503_203f, 0xd65f_03c0, 0xd503_23bf]
    );
    neutralize_pac_bti(&mut b, BASE + 20, 4);
    assert_eq!(b.mem_read_u32(BASE + 20), Ok(0xd503_201f));
    neutralize_pac_bti(&mut b, 0x6000_0000, 4);
}

#[test]
fn hints_of_authentication_and_branch_targets_are_replaced() {
    let mut b = Backend::new();
    b.mem_map(BASE, 0x1000, PERM_READ_WRITE).unwrap();
    for n in 0..128u32 {
        b.mem_write_u32(BASE + 4 * n as u64, 0xd503_201f | (n << 5)).unwrap();
    }
    neutralize_pac_bti(&mut b, BASE, 512);
    let replaced: Vec<u32> = (1..128u32)
        .filter(|n| b.mem_read_u32(BASE + 4 * *n as u64) == Ok(0xd503_201f))
        .collect();
    let mut expected = vec![7, 8, 10, 12, 14];
    expected.extend(16..40);
    assert_eq!(replaced, expected);
    for n in 0..128u32 {
        let w = b.mem_read_u32(BASE + 4 * n as u64).unwrap();
        assert!(w == 0xd503_201f || w == 0xd503_201f | (n << 5));
    }
    b.mem_write_u32(BASE, 0xd503_211f).unwrap();
    neutralize_pac_bti(&mut b, BASE, 4);
    assert_eq!(b.mem_read_u32(BASE), Ok(0xd503_201f));
}

#[test]
fn only_some_relocations_ask_for_a_symbol() {
    let mut b = Backend::new();
    b.mem_map(BASE, 0x1000, PERM_READ_WRITE).unwrap();
    b.mem_write_u64(BASE + 0x100, 0x55).unwrap();
    let mut r = reloc(0x100, R_AARCH64_ABS64, 3, None);
    assert_eq!(symbol_offset(&b, &r, BASE), Ok(Some(3)));
    r.explicit_addend = false;
    assert_eq!(symbol_offset(&b, &r, BASE), Ok(Some(0x55)));
    r.offset = 0x2000;
    assert_eq!(symbol_offset(&b, &r, BASE), Err(BackendError::Unmapped));
    r.typ = R_AARCH64_GLOB_DAT;
    assert_eq!(symbol_offset(&b, &r, BASE), Ok(Some(3)));
    r.typ = R_AARCH64_RELATIVE;
    assert_eq!(symbol_offset(&b, &r, BASE), Ok(None));
    assert_eq!(ifunc_question(BASE, &r), None);
    r.typ = R_AARCH64_IRELATIVE;
    assert_eq!(symbol_offset(&b, &r, BASE), Ok(None));
    assert_eq!(ifunc_question(BASE, &r), Some(BASE + 3));
}

#[test]
fn packed_relocations_add_the_base() {
    let mut b = Backend::new();
    b.mem_map(BASE, 0x1000, PERM_READ_WRITE).unwrap();
    b.mem_write_u64(BASE + 0x800, 0x100).unwrap();
    b.mem_write_u64(BASE + 0x808, 0b1011).unwrap();
    b.mem_write_u64(BASE + 0x810, 0b11).unwrap();
    for (off, v) in [(0x100u64, 1u64), (0x108, 2), (0x110, 3), (0x118, 4), (0x300, 9)] {
        b.mem_write_u64(BASE + off, v).unwrap();
    }
    apply_relr(&mut b, BASE, 0x800, 24).unwrap();
    assert_eq!(b.mem_read_u64(BASE + 0x100), Ok(BASE + 1));
    assert_eq!(b.mem_read_u64(BASE + 0x108), Ok(BASE + 2));
    assert_eq!(b.mem_read_u64(BASE + 0x110), Ok(3));
    assert_eq!(b.mem_read_u64(BASE + 0x118), Ok(BASE + 4));
    assert_eq!(b.mem_read_u64(BASE + 0x300), Ok(BASE + 9));
    let unmapped = Err(LoadError::Memory(BackendError::Unmapped));
    assert_eq!(apply_relr(&mut b, BASE, 0x2000, 8), unmapped);
}

#[test]
fn packed_relocations_stay_in_the_address_space() {
    let mut b = Backend::new();
    b.mem_map(BASE, 0x1000, PERM_READ_WRITE).unwrap();
    assert_eq!(apply_relr(&mut b, BASE, u64::MAX, 8), Err(LoadError::Misplaced));
    b.mem_write_u64(BASE + 0x800, u64::MAX - 1).unwrap();
    assert_eq!(apply_relr(&mut b, BASE, 0x800, 8), Err(LoadError::Misplaced));
    b.mem_write_u64(BASE + 0x800, 0x900).unwrap();
    assert_eq!(apply_relr(&mut b, BASE, 0x800, 8), Ok(()));
    assert_eq!(apply_relr(&mut b, BASE, 0x800, 0), Ok(()));
}

#[test]
fn images_that_cannot_be_placed_are_told() {
    let (mut b, mut l) = loader();
    b.mem_map(BASE + 0x1000, 0x1000, PERM_READ_WRITE).unwrap();
    let taken = image(3, vec![segment(5, 0, 0x3000, &[1])]);
    let r = l.begin_load(&mut b, taken, None, "a".to_string());
    assert!(matches!(r, Err(LoadError::Misplaced)));
    assert_eq!(l.list.len(), 0);
    assert_eq!(l.mmap_base, BASE + 0x3000);
    let huge = image(3, vec![segment(5, u64::MAX - 0x10, 0x1000, &[1])]);
    let r = l.begin_load(&mut b, huge, None, "a".to_string());
    assert!(matches!(r, Err(LoadError::Misplaced)));
    assert_eq!(l.mmap_base, BASE + 0x3000);
    let long = image(3, vec![segment(5, 0, 0x1000, &[1; 0x1001])]);
    let r = l.begin_load(&mut b, long, None, "a".to_string());
    assert!(matches!(r, Err(LoadError::Misplaced)));
    let fine = image(3, vec![segment(5, 0, 0x1000, &[1])]);
    let r = l.begin_load(&mut b, fine, None, "a".to_string());
    assert!(matches!(r, Ok(LoadStart::Loaded(0))));
}

#[test]
fn needed_libraries_are_linked_in_order() {
    let (mut b, mut l) = loader();
    let mut d = dynamic();
    d.needed = vec!["libb.so".to_string(), "libz.so".to_string()];
    let headers = || vec![segment(5, 0, 0x1000, &[]), dynamic_header()];
    let mut loading = begin(&mut b, &mut l, image(3, headers()), d, "liba.so");
    assert_eq!(l.wanted_library(&loading), Some("libb.so".to_string()));
    assert_eq!(l.link_needed(&mut loading, None), Err(LoadError::NeededLibrary(0)));
    let lib = begin(&mut b, &mut l, image(3, headers()), dynamic(), "libb.so");
    let i = l.finish_load(&mut b, lib).unwrap();
    assert_eq!(l.wanted_library(&loading), None);
    l.link_needed(&mut loading, None).unwrap();
    assert_eq!(l.list[i].ref_cnt, 1);
    assert_eq!(loading.needed.get("libb"), Some(&i));
    assert_eq!(l.wanted_library(&loading), Some("libz.so".to_string()));
    let lib = begin(&mut b, &mut l, image(3, headers()), dynamic(), "other");
    let j = l.finish_load(&mut b, lib).unwrap();
    l.link_needed(&mut loading, Some(j)).unwrap();
    assert_eq!(loading.needed.get("libz"), Some(&j));
    assert_eq!(l.wanted_library(&loading), None);
    let k = l.finish_load(&mut b, loading).unwrap();
    assert_eq!(l.list[k].name, "liba.so");
    assert_eq!(get_base_name("libfekit.so"), "libfekit");
}

#[test]
fn relocations_store_their_words() {
    let (mut b, mut l) = loader();
    let mut d = dynamic();
    d.so_name = Some("libme.so".to_string());
    d.relocations = vec![
        reloc(0x100, R_AARCH64_RELATIVE, 0x20, None),
        reloc(0x108, R_AARCH64_IRELATIVE, 0x30, None),
        reloc(0x110, R_AARCH64_TLS_TPREL, 4, Some(defined("t", 8))),
        reloc(0x118, R_AARCH64_TLS_DTPMOD, 0, None),
        reloc(0x120, R_AARCH64_TLS_DTPREL, 4, Some(defined("t", 8))),
        reloc(0x128, R_AARCH64_TLSDESC, 4, Some(defined("t", 8))),
        reloc(0x138, 0, 4, None),
        reloc(0x138, 9999, 4, None),
        reloc(0x9000, R_AARCH64_RELATIVE, 0x20, None),
    ];
    let headers = vec![segment(6, 0, 0x1000, &[]), dynamic_header()];
    let mut loading = begin(&mut b, &mut l, image(3, headers), d, "file");
    assert_eq!(loading.so_name, "libme.so");
    for k in 0..8 {
        let answer = SymbolAnswer { ifunc: 0x5555, hooks: vec![], elsewhere: None };
        l.relocate(&mut b, &mut loading, k, answer).unwrap();
    }
    let r = l.relocate(&mut b, &mut loading, 8, no_answer());
    assert_eq!(r, Err(LoadError::Memory(BackendError::Unmapped)));
    let words: Vec<u64> = (0..8).map(|i| b.mem_read_u64(BASE + 0x100 + 8 * i).unwrap()).collect();
    assert_eq!(words, vec![BASE + 0x20, 0x5555, 0x10c, 1, 12, 0xfffc_0000, 0x10c, 0]);
    assert_eq!(
        b.mem_read_as_vec(0xfffc_0000, 8).unwrap(),
        vec![0x00, 0x04, 0x40, 0xf9, 0xc0, 0x03, 0x5f, 0xd6]
    );
    assert_eq!(l.ensure_tlsdesc_resolver(&mut b), 0xfffc_0000);
    assert_eq!(elf_tls_tprel(&None, -1), 0xff);
}

#[test]
fn symbols_are_resolved_to_addresses() {
    let (mut b, mut l) = loader();
    let mut ifunc = defined("i", 0x40);
    ifunc.symbol.info = 0x1a;
    let mut slot = reloc(0x118, R_AARCH64_ABS64, 77, Some(defined("own", 0x50)));
    slot.explicit_addend = false;
    let mut d = dynamic();
    d.relocations = vec![
        reloc(0x100, R_AARCH64_ABS64, 5, None),
        reloc(0x108, R_AARCH64_GLOB_DAT, 1, Some(defined("own", 0x50))),
        reloc(0x110, R_AARCH64_JUMP_SLOT, 0, Some(ifunc)),
        slot,
        reloc(0x120, R_AARCH64_JUMP_SLOT, 0, Some(undefined("far"))),
        reloc(0x128, R_AARCH64_JUMP_SLOT, 0, Some(undefined("gone"))),
        reloc(0x130, R_AARCH64_JUMP_SLOT, 0, Some(defined("hooked", 0x60))),
        reloc(0x138, R_AARCH64_JUMP_SLOT, 0, Some(defined("hooked", 0x60))),
    ];
    let headers = vec![segment(6, 0, 0x1000, &[]), dynamic_header()];
    let mut loading = begin(&mut b, &mut l, image(3, headers), d, "lib.so");
    b.mem_write_u64(BASE + 0x118, 3).unwrap();
    for k in 0..8 {
        let answer = match k {
            2 => SymbolAnswer { ifunc: 0x7777, hooks: vec![], elsewhere: None },
            4 => SymbolAnswer {
                ifunc: 0,
                hooks: vec![],
                elsewhere: Some(ModuleSymbol::new(
                    "lib.so",
                    WEAK_BASE,
                    &None,
                    BASE + 0x120,
                    "libfar.so",
                    0x8888,
                )),
            },
            6 => SymbolAnswer { ifunc: 0, hooks: vec![0, 0x9999], elsewhere: None },
            _ => no_answer(),
        };
        l.relocate(&mut b, &mut loading, k, answer).unwrap();
    }
    assert_eq!(loading.unresolved.len(), 1);
    let i = l.finish_load(&mut b, loading).unwrap();
    let words: Vec<u64> = (0..8).map(|k| b.mem_read_u64(BASE + 0x100 + 8 * k).unwrap()).collect();
    assert_eq!(
        words,
        vec![BASE + 5, BASE + 0x51, 0x7777, BASE + 0x53, 0x8888, 0, 0x9999, 0x9999]
    );
    assert_eq!(l.list[i].unresolved_symbol.len(), 1);
    assert_eq!(l.waiting_symbols(), vec![(i, 0)]);
}

#[test]
fn listeners_are_asked_once() {
    let (_, mut l) = loader();
    let s = Some(defined("f", 0x10));
    assert_eq!(l.symbol_question(BASE, &None, "a.so", 1), SymbolQuestion::Nothing);
    assert_eq!(l.symbol_question(BASE, &s, "a.so", 1), SymbolQuestion::Listeners(BASE + 0x11));
    assert_eq!(
        l.symbol_question(BASE, &Some(undefined("g")), "a.so", 1),
        SymbolQuestion::Elsewhere
    );
    let mut i = defined("f", 0x10);
    i.symbol.info = 10;
    assert_eq!(l.symbol_question(BASE, &Some(i), "a.so", 1), SymbolQuestion::Ifunc(BASE + 0x10));
    let answer = SymbolAnswer { ifunc: 0, hooks: vec![0x4242], elsewhere: None };
    let r = l.resolve_symbol(BASE, &s, 0x1000, "a.so", 1, answer).unwrap();
    assert_eq!((r.load_base, r.offset), (WEAK_BASE, 0x4242));
    assert_eq!(l.symbol_question(BASE, &s, "a.so", 1), SymbolQuestion::Nothing);
    let r = l.resolve_symbol(BASE, &s, 0x1000, "a.so", 1, no_answer()).unwrap();
    assert_eq!((r.load_base, r.offset), (WEAK_BASE, 0x4242));
    assert_eq!(l.symbol_question(BASE, &s, "b.so", 1), SymbolQuestion::Listeners(BASE + 0x11));
    assert!(l.resolve_symbol(BASE, &Some(undefined("g")), 0, "a.so", 0, no_answer()).is_none());
}

#[test]
fn initialisers_run_in_order() {
    let (mut b, mut l) = loader();
    let mut d = dynamic();
    d.init = 0x500;
    d.init_array_offset = 0x200;
    d.init_array_size = 32;
    let headers = vec![segment(6, 0, 0x1000, &[]), dynamic_header()];
    let loading = begin(&mut b, &mut l, image(3, headers), d, "lib.so");
    b.mem_write_u64(BASE + 0x200, BASE + 0x600).unwrap();
    b.mem_write_u64(BASE + 0x208, 0).unwrap();
    b.mem_write_u64(BASE + 0x210, u64::MAX).unwrap();
    b.mem_write_u64(BASE + 0x218, BASE + 0x700).unwrap();
    l.finish_load(&mut b, loading).unwrap();
    let mut cursor = InitCursor { at: 0, resumed: false };
    let mut ran = vec![];
    loop {
        let (action, next) = l.next_initialiser(&b, cursor, true, BASE, false).unwrap();
        cursor = next;
        match action {
            InitAction::Call(a) => ran.push(a),
            InitAction::Again => {}
            InitAction::Finished => break,
        }
    }
    assert_eq!(ran, vec![BASE + 0x500, BASE + 0x600, BASE + 0x700]);
    assert!(l.list[0].init_function_list.is_empty());
    l.retain_module(0);
    assert_eq!(l.list[0].ref_cnt, 1);
}

#[test]
fn waiting_modules_are_not_initialised() {
    let mut b = Backend::new();
    b.mem_map(BASE, 0x1000, PERM_READ_WRITE).unwrap();
    let init = || {
        let mut v = VecDeque::new();
        v.push_back(InitFunction::LINUX(LinuxInitFunction::new(BASE, "a".to_string(), 0x10)));
        v
    };
    let waiting = vec![ModuleSymbol::new("a", 0, &None, 0, "", 0)];
    let mut m = LinuxModule::new(
        BASE, BASE, 0x1000, "a".to_string(), None, waiting, init(), IndexMap::new(), vec![], None,
        None, None, None,
    );
    assert_eq!(m.call_init_functions(false, false, false, &b), Ok(InitStep::Done));
    assert_eq!(m.init_function_list.len(), 1);
    assert_eq!(m.call_init_functions(true, true, true, &b), Ok(InitStep::Done));
    assert_eq!(m.call_init_functions(true, false, false, &b), Ok(InitStep::Call(BASE + 0x10)));
    assert_eq!(m.call_init_functions(true, true, false, &b), Ok(InitStep::Done));
    let f = AbsoluteInitFunction::new(BASE, "a".to_string(), BASE + 0x100, &b).unwrap();
    assert_eq!((f.addr(), f.call(&b)), (0, Ok(None)));
    b.mem_write_u64(BASE + 0x100, 0x99).unwrap();
    assert_eq!(f.call(&b), Ok(Some(0x99)));
    let f = AbsoluteInitFunction::new(BASE, "a".to_string(), BASE + 0x100, &b).unwrap();
    b.mem_write_u64(BASE + 0x100, 0).unwrap();
    assert_eq!(f.call(&b), Ok(Some(0x99)));
    assert!(AbsoluteInitFunction::new(BASE, "a".to_string(), 0x6000_0000, &b).is_err());
    assert_eq!(LinuxInitFunction::new(BASE, "a".to_string(), 0).call(), None);
}

#[test]
fn the_c_library_brings_its_allocator() {
    let (mut b, mut l) = loader();
    let headers = || vec![segment(6, 0, 0x1000, &[]), dynamic_header()];
    let loading = begin(&mut b, &mut l, image(3, headers()), dynamic(), "libc.so");
    assert_eq!(l.finish_load(&mut b, loading), Err(LoadError::NoAllocator));
    let mut d = dynamic();
    d.symbols.entries = vec![defined("malloc", 0x10), defined("free", 0x20)];
    let loading = begin(&mut b, &mut l, image(3, headers()), d, "libc.so");
    let i = l.finish_load(&mut b, loading).unwrap();
    let base = l.list[i].base;
    assert_eq!(l.malloc.as_ref().unwrap().address(), base + 0x10);
    assert_eq!(l.free.as_ref().unwrap().address(), base + 0x20);
}

#[test]
fn unresolved_places_are_tried_again() {
    let (mut b, mut l) = loader();
    let mut d = dynamic();
    d.relocations = vec![reloc(0x100, R_AARCH64_JUMP_SLOT, 0, Some(undefined("far")))];
    let headers = vec![segment(6, 0, 0x1000, &[]), dynamic_header()];
    let mut loading = begin(&mut b, &mut l, image(3, headers), d, "lib.so");
    l.relocate(&mut b, &mut loading, 0, no_answer()).unwrap();
    let i = l.finish_load(&mut b, loading).unwrap();
    let found = ModuleSymbol::new("lib.so", WEAK_BASE, &None, BASE + 0x100, "x", 0x1234);
    l.retry_unresolved(&mut b, i, vec![Some(found)]);
    assert_eq!(b.mem_read_u64(BASE + 0x100), Ok(0x1234));
    let found = ModuleSymbol::new("lib.so", WEAK_BASE, &None, BASE + 0x100, "x", 0x5678);
    l.resolve_symbols(&mut b, i, vec![found]).unwrap();
    assert_eq!(b.mem_read_u64(BASE + 0x100), Ok(0x5678));
    let lost = ModuleSymbol::new("lib.so", WEAK_BASE, &None, 0x6000_0000, "x", 1);
    let seen = Some(undefined("seen"));
    let kept = ModuleSymbol::new("lib.so", WEAK_BASE, &seen, BASE + 0x100, "x", 9);
    let late = ModuleSymbol::new("lib.so", WEAK_BASE, &seen, BASE + 0x108, "x", 9);
    let r = l.resolve_symbols(&mut b, i, vec![kept, lost, late]);
    assert_eq!(r, Err(BackendError::Unmapped));
    assert_eq!(l.list[i].resolved_symbol.len(), 1);
    assert_eq!(l.list[i].resolved_symbol.get(0).relocation_addr, BASE + 0x100);
    assert_eq!(b.mem_read_u64(BASE + 0x108), Ok(0));
}

#[test]
fn a_program_takes_over_what_a_library_was_linked_to() {
    let (mut b, mut l) = loader();
    let mut d = dynamic();
    d.relocations = vec![
        reloc(0x100, R_AARCH64_GLOB_DAT, 2, Some(defined("hook_me", 0x30))),
        reloc(0x108, R_AARCH64_ABS64, 4, None),
    ];
    let headers = || vec![segment(6, 0, 0x1000, &[]), dynamic_header()];
    let mut loading = begin(&mut b, &mut l, image(3, headers()), d, "lib.so");
    for k in 0..2 {
        l.relocate(&mut b, &mut loading, k, no_answer()).unwrap();
    }
    let i = l.finish_load(&mut b, loading).unwrap();
    assert_eq!(b.mem_read_u64(BASE + 0x100), Ok(BASE + 0x32));
    assert_eq!(b.mem_read_u64(BASE + 0x108), Ok(BASE + 4));
    assert_eq!(l.list[i].resolved_symbol.len(), 1);
    assert_eq!(l.list[i].resolved_symbol.get(0).relocation_addr, BASE + 0x100);
    let mut d = dynamic();
    d.symbols.entries = vec![defined("hook_me", 0x70)];
    let loading = begin(&mut b, &mut l, image(2, headers()), d, "prog");
    l.finish_load(&mut b, loading).unwrap();
    assert_eq!(b.mem_read_u64(BASE + 0x100), Ok(BASE + 0x72));
    assert_eq!(l.list[i].resolved_symbol.len(), 0);
}

#[test]
fn resolved_places_are_remembered_once_for_each_symbol() {
    let (mut b, mut l) = loader();
    let mut d = dynamic();
    d.relocations = (0..3)
        .map(|k| reloc(0x100 + 8 * k, R_AARCH64_JUMP_SLOT, 0, Some(undefined("far"))))
        .collect();
    let headers = || vec![segment(6, 0, 0x1000, &[]), dynamic_header()];
    let mut loading = begin(&mut b, &mut l, image(3, headers()), d, "lib.so");
    for k in 0..3 {
        l.relocate(&mut b, &mut loading, k, no_answer()).unwrap();
    }
    let i = l.finish_load(&mut b, loading).unwrap();
    let far = Some(undefined("far"));
    let place = |at: u64| ModuleSymbol::new("lib.so", WEAK_BASE, &far, BASE + at, "x", 7);
    l.retry_unresolved(&mut b, i, vec![Some(place(0x100)), Some(place(0x108)), None]);
    assert_eq!(l.list[i].unresolved_symbol.len(), 2);
    assert_eq!(l.list[i].resolved_symbol.len(), 1);
    assert_eq!(l.list[i].resolved_symbol.get(0).relocation_addr, BASE + 0x108);
    let mut d = dynamic();
    d.symbols.entries = vec![defined("far", 0x40)];
    let mut program = image(2, headers());
    program.file_type = 2;
    let loading = begin(&mut b, &mut l, program, d, "prog");
    l.finish_load(&mut b, loading).unwrap();
    assert_eq!(l.list[i].resolved_symbol.len(), 0);
    assert_eq!(b.mem_read_u64(BASE + 0x100), Ok(7));
    assert_eq!(b.mem_read_u64(BASE + 0x108), Ok(7));
}

#[test]
fn symbols_are_found_by_name_and_address() {
    let table = |entries: Vec<SymbolEntry>| Some(SymbolTable { entries });
    let module = |name: &str, base: u64, t: Option<SymbolTable>, needed: IndexMap<String, usize>| {
        LinuxModule::new(
            base, base, 0x1000, name.to_string(), t, vec![], VecDeque::new(), needed, vec![], None,
            None, None, None,
        )
    };
    let dep = module("dep", 0x1000, table(vec![defined("f", 8), defined("g", 16)]), IndexMap::new());
    let mut needed = IndexMap::new();
    needed.insert("dep".to_string(), 0usize);
    let mut own = module("own", 0x2000, table(vec![defined("f", 0x20)]), needed);
    own.entry_point = 0x24;
    let list = vec![dep];
    assert_eq!(own.find_symbol_by_name(&list, "f", true).unwrap().address(), 0x2020);
    assert_eq!(own.find_symbol_by_name(&list, "g", true).unwrap().address(), 0x1010);
    assert!(own.find_symbol_by_name(&list, "g", false).is_err());
    assert!(own.find_symbol_by_name(&list, "h", true).is_err());
    assert!(own.get_elf_symbol_by_name("f").is_ok());
    assert!(own.get_elf_symbol_by_name("g").is_err());
    assert_eq!(own.find_symbol_by_closest_addr(0x2021).unwrap().name, "f");
    assert_eq!(own.find_symbol_by_closest_addr(0x2025).unwrap().name, "start");
    assert!(own.find_symbol_by_closest_addr(0x2030).is_err());
    assert!(own.find_symbol_by_closest_addr(0x1fff).is_err());
    assert_eq!(own.path("com.app:remote"), "/data/app/~~YuanShenZhenChaoHaoWan/com.app-0/lib/arm64/own");
    let libc = module("libc.so", 0, None, IndexMap::new());
    assert_eq!(libc.path("com.app"), "/system/lib64/libc.so");
}

#[test]
fn temporary_memory_is_given_back() {
    let (mut b, mut l) = loader();
    b.mem_map(0x5000_0000, 0x2000, PERM_READ_WRITE).unwrap();
    l.temp_memory.push((0x5000_0000, 0x2000));
    l.temp_memory.push((0x6000_0000, 0x1000));
    l.release_tmp_memory(&mut b);
    assert!(!b.is_mapped(0x5000_0000, 1));
    assert!(l.temp_memory.is_empty());
    let r = l.begin_load(&mut b, image(2, vec![segment(5, 0, 0x10, &[1])]), None, "a".to_string());
    assert!(r.is_ok());
    l.release_cached_library();
    let elf = l.list[0].elf_file.as_ref().unwrap();
    assert!(elf.program_headers.is_empty() && elf.section_headers.is_empty());
    assert_eq!(elf.num_ph, 1);
    l.add_hook_listeners(5);
    assert_eq!(l.hook_listeners, vec![5]);
    let a = l.mem_map(&mut b, 0x5000_0010, 0x10, 3, 0x1000);
    assert_eq!((a.address, a.size), (0x5000_0000, 0x1000));
    assert_eq!(l.memory_map.get(&0x5000_0000).unwrap().prot, 3);
    let mut map = HashMap::new();
    let a = map_range(&mut b, &mut map, 0x6000_0ff0, 0x20, 1, 0x1000);
    assert_eq!((a.address, a.size), (0x6000_0000, 0x2000));
    assert_eq!(image(2, vec![]).find_section_by_type(2), Some(1));
}

fn process() -> (Backend, AndroidEmulator) {
    let (mut b, mut memory) = loader();
    let headers = vec![segment(5, 0, 0x1000, &[0xc0, 0x03, 0x5f, 0xd6])];
    memory.begin_load(&mut b, image(2, headers), None, "hello".to_string()).unwrap();
    let e = AndroidEmulator {
        brk: 0,
        heap_base: 0x9000_0000,
        pid: 2667,
        ppid: 2427,
        errno: 0x6fff_0000,
        exit_status: None,
        exec_path: None,
        proc_name: "app".to_string(),
        base_path: "/img".to_string(),
        next_task_id: 3,
        file_system: FileSystem::new(),
        memory,
        thread_dispatcher: ThreadDispatcher::new(),
        svc_memory: SvcMemory::new(0x2000_0000, 0x1000),
        children: ChildTable { children: vec![] },
        stop: None,
        clock_start: None,
    };
    (b, e)
}

#[test]
fn a_program_starts_with_its_arguments() {
    let (mut b, mut e) = process();
    let args = vec!["-v".to_string(), "file".to_string()];
    let r: EntryRequest = match LinuxModule::call_entry(&mut b, &mut e, 0, &args) {
        Ok(r) => r,
        Err(_) => panic!("refused"),
    };
    assert_eq!(r.entry, BASE + 0x40);
    assert_eq!(b.reg_read(RegisterARM64::SP), r.sp);
    assert_eq!(b.mem_read_u32(r.sp), Ok(3));
    let argv: Vec<String> = (0..3)
        .map(|i| b.mem_read_c_string(b.mem_read_u64(r.sp + 8 + 8 * i).unwrap()).unwrap())
        .collect();
    assert_eq!(argv, vec!["app", "-v", "file"]);
    assert_eq!(b.mem_read_u64(r.sp + 32), Ok(0));
    let envp: Vec<String> = (0..3)
        .map(|i| b.mem_read_c_string(b.mem_read_u64(r.sp + 40 + 8 * i).unwrap()).unwrap())
        .collect();
    assert_eq!(
        envp,
        vec![
            "ANDROID_DATA=/data",
            "ANDROID_ROOT=/system",
            "PATH=/sbin:/vendor/bin:/system/sbin:/system/bin:/system/xbin",
        ]
    );
    assert_eq!(b.mem_read_u64(r.sp + 64), Ok(0));
    let auxv: Vec<(u64, u64)> = (0..14)
        .map(|i| {
            let at = r.sp + 72 + 16 * i;
            (b.mem_read_u64(at).unwrap(), b.mem_read_u64(at + 8).unwrap())
        })
        .collect();
    let random = auxv[12].1;
    assert_eq!(
        auxv,
        vec![
            (3, BASE + 64), (4, 56), (5, 1), (6, 0x1000), (7, 0), (9, BASE + 0x40), (11, 10261),
            (12, 10261), (13, 10261), (14, 10261), (16, 0xfb), (23, 0), (25, random), (0, 0),
        ]
    );
    assert_eq!(random, r.sp + 72 + 16 * 14);
    assert_eq!(b.mem_read_u64(random), Ok(0xa5a5_a5a5_a5a5_a5a5));
    assert_eq!(b.mem_read_u64(random + 8), Ok(0x5a5a_5a5a_5a5a_5a5a));
    assert_eq!(
        e.exec_path.as_deref(),
        Some("/data/app/~~YuanShenZhenChaoHaoWan/app-0/lib/arm64/hello")
    );
}

#[test]
fn a_program_without_an_entry_is_refused() {
    let (mut b, mut e) = process();
    e.memory.list[0].entry_point = 0;
    let r = LinuxModule::call_entry(&mut b, &mut e, 0, &vec![]);
    assert!(matches!(r, Err(EntryError::InvalidEntryPoint)));
    assert_eq!(LinuxModule::entry_status(Some(5), Some(9)), 5);
    assert_eq!(LinuxModule::entry_status(None, Some(0x1_0000_0009)), 9);
    assert_eq!(LinuxModule::entry_status(None, None), 1);
}

#[test]
fn a_program_without_stack_is_refused() {
    let (mut b, mut e) = process();
    e.memory.stack.sp = 0x1_0000;
    let r = LinuxModule::call_entry(&mut b, &mut e, 0, &vec![]);
    assert!(matches!(r, Err(EntryError::Memory(BackendError::Unmapped))));
}
