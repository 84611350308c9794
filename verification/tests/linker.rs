//! The dynamic linker, the functions of dynamic loading and the asset library.
use std::collections::VecDeque;

use indexmap::IndexMap;
use rnidbg::android::sdk::{bin_dir, default_sdk_root, lib64_dir, GUEST_HWCAP};
use rnidbg::android::virtual_library::dlfcn::{
    DlAddr, DlClose, DlError, DlOpen, DlSym, DlUnwindFindExidx, LoaderConst,
};
use rnidbg::android::virtual_library::ld64::{
    phdr_source, ArmLD64, LOADER_SHARED_GLOBALS_ADDR,
};
use rnidbg::android::virtual_library::lib_android::{
    android_stub, ensure_registered, host_library, SO_NAME,
};
use rnidbg::android::virtual_library::phdr::{phdr_records, DlIteratePhdr, RUNTIME_LIBRARY};
use rnidbg::backend::{Backend, BackendError, RegisterARM64, PERM_READ_WRITE};
use rnidbg::elf::{ElfFile, ElfSymbol, SymbolEntry, SymbolTable};
use rnidbg::emulator::dispatcher::ThreadDispatcher;
use rnidbg::emulator::state::AndroidEmulator;
use rnidbg::linux::file_system::FileSystem;
use rnidbg::linux::module::LinuxModule;
use rnidbg::linux::thread::ChildTable;
use rnidbg::memory::loader::{AndroidElfLoader, GuestLayout};
use rnidbg::memory::svc_memory::{SvcCallResult, SvcHandler, SvcMemory};

const DATA: u64 = 0x10_0000;
const STUBS: u64 = 0x2000_0000;

/// The guest's error number.
fn errno(b: &Backend, e: &AndroidEmulator) -> i32 {
    b.mem_read_u32(e.errno).unwrap() as i32
}

fn guest() -> (Backend, AndroidEmulator) {
    let mut b = Backend::new();
    b.mem_map(DATA, 0x4000, PERM_READ_WRITE).unwrap();
    b.mem_map(STUBS, 0x2000, PERM_READ_WRITE).unwrap();
    let layout = GuestLayout { stack_base: 0x7000_0000, stack_pages: 64, mmap_base: 0x4000_0000 };
    let (memory, errno) = AndroidElfLoader::new(&mut b, layout, 100, "com.app").unwrap();
    let e = AndroidEmulator {
        brk: 0,
        heap_base: 0x9000_0000,
        pid: 2667,
        ppid: 2427,
        errno,
        exit_status: None,
        exec_path: None,
        proc_name: "com.app".to_string(),
        base_path: "/img".to_string(),
        next_task_id: 3,
        file_system: FileSystem::new(),
        memory,
        thread_dispatcher: ThreadDispatcher::new(),
        svc_memory: SvcMemory::new(STUBS, 0x2000),
        children: ChildTable { children: vec![] },
        stop: None,
        clock_start: None,
    };
    (b, e)
}

fn module(name: &str, base: u64, symbols: Vec<(&str, u64)>) -> LinuxModule {
    let entries = symbols
        .iter()
        .map(|(n, v)| SymbolEntry {
            name: n.to_string(),
            symbol: ElfSymbol { value: *v, size: 0x10, info: 0x12, section: 1 },
        })
        .collect();
    let elf = ElfFile {
        version: 1,
        encoding: 1,
        object_size: 2,
        arch: 0xb7,
        file_type: 3,
        entry_point: 0x40,
        ph_offset: 64,
        ph_entry_size: 56,
        num_ph: 7,
        program_headers: vec![],
        section_headers: vec![],
    };
    LinuxModule::new(
        base,
        base,
        0x1000,
        name.to_string(),
        Some(SymbolTable { entries }),
        vec![],
        VecDeque::new(),
        IndexMap::new(),
        vec![],
        None,
        None,
        None,
        Some(elf),
    )
}

fn put_text(b: &mut Backend, addr: u64, text: &str) {
    b.mem_write(addr, text.as_bytes()).unwrap();
    b.mem_write(addr + text.len() as u64, &[0]).unwrap();
}

#[test]
fn the_shared_record_is_put_in_place() {
    let mut b = Backend::new();
    b.mem_map(STUBS, 0x1000, PERM_READ_WRITE).unwrap();
    b.mem_write(STUBS, &[9; 0x80]).unwrap();
    let mut svc = SvcMemory::new(STUBS, 0x1000);
    let ld = ArmLD64::new(&mut svc, &mut b).unwrap();
    assert_eq!(ld, ArmLD64 { error: STUBS, shared_globals: LOADER_SHARED_GLOBALS_ADDR });
    assert_eq!(svc.next, STUBS + 0x80);
    assert_eq!(b.mem_read_as_vec(STUBS, 0x80).unwrap(), vec![0; 0x80]);
    let g = LOADER_SHARED_GLOBALS_ADDR;
    assert_eq!(b.mem_read_u64(g + 0x418), Ok(g + 0x800));
    assert_eq!(b.mem_read_u64(g + 0x478), Ok(1));
    let table: Vec<u64> = (0..12).map(|i| b.mem_read_u64(g + 0x800 + 8 * i).unwrap()).collect();
    assert_eq!(
        table,
        vec![6, 0x1000, 16, GUEST_HWCAP, 23, 0, 25, g + 0x8c0, 15, g + 0x8d0, 0, 0]
    );
    assert_eq!(
        b.mem_read_as_vec(g + 0x8c0, 16).unwrap(),
        vec![
            0xa5, 0x5a, 0x3c, 0xc3, 0x12, 0x34, 0x56, 0x78, 0x9a, 0xbc, 0xde, 0xf0, 0x0f, 0xed,
            0xcb, 0xa9
        ]
    );
    assert_eq!(b.mem_read_c_string(g + 0x8d0).unwrap(), "aarch64");
    assert_eq!(b.mem_read_u64(0), Ok(0));
    assert!(b.is_mapped(0, 0x10000));
}

#[test]
fn the_shared_record_needs_its_page() {
    let mut b = Backend::new();
    b.mem_map(LOADER_SHARED_GLOBALS_ADDR, 0x1000, PERM_READ_WRITE).unwrap();
    let mut svc = SvcMemory::new(STUBS, 0x1000);
    assert!(ArmLD64::new(&mut svc, &mut b).is_err());
    assert_eq!(svc.next, STUBS);
    let mut b = Backend::new();
    assert_eq!(ArmLD64::new(&mut svc, &mut b), Err(BackendError::Unmapped));
    let mut b = Backend::new();
    b.mem_map(STUBS, 0x1000, PERM_READ_WRITE).unwrap();
    b.mem_map(0, 0x1000, PERM_READ_WRITE).unwrap();
    let mut svc = SvcMemory::new(STUBS, 0x1000);
    assert!(ArmLD64::new(&mut svc, &mut b).is_ok());
    assert!(!b.is_mapped(0x1000, 1));
}

#[test]
fn linker_functions_are_taken_over() {
    let ld = ArmLD64 { error: 0x5000, shared_globals: 0xfffd_0000 };
    let expected = [
        ("__loader_shared_globals", SvcHandler::LoaderConst(0xfffd_0000)),
        (
            "__loader_android_get_application_target_sdk_version",
            SvcHandler::LoaderConst(36),
        ),
        ("__loader_dlopen", SvcHandler::DlOpen(0x5000)),
        ("__loader_android_dlopen_ext", SvcHandler::DlOpen(0x5000)),
        ("__loader_dlerror", SvcHandler::DlError(0x5000)),
        ("__loader_dlclose", SvcHandler::DlClose(0x5000)),
        ("__loader_dlsym", SvcHandler::DlSym),
        ("__loader_dlvsym", SvcHandler::DlSym),
        ("__loader_dladdr", SvcHandler::DlAddr),
        ("__loader_dl_iterate_phdr", SvcHandler::DlIteratePhdr),
        ("__loader_anything", SvcHandler::LoaderConst(0)),
    ];
    for (name, handler) in expected {
        assert_eq!(ld.choose_handler("libc.so", name), Some(handler));
        assert_eq!(ld.choose_loader_handler(name), handler);
    }
    assert_eq!(ld.choose_handler("ld-android.so", "foo"), Some(SvcHandler::LoaderConst(0)));
    let expected = [
        ("dl_iterate_phdr", SvcHandler::DlIteratePhdr),
        ("dlerror", SvcHandler::DlError(0x5000)),
        ("dlclose", SvcHandler::DlClose(0x5000)),
        ("dlopen", SvcHandler::DlOpen(0x5000)),
        ("android_dlopen_ext", SvcHandler::DlOpen(0x5000)),
        ("dladdr", SvcHandler::DlAddr),
        ("dlsym", SvcHandler::DlSym),
        ("dlvsym", SvcHandler::DlSym),
        ("dl_unwind_find_exidx", SvcHandler::DlUnwindFindExidx),
        ("android_get_application_target_sdk_version", SvcHandler::LoaderConst(36)),
    ];
    for (name, handler) in expected {
        assert_eq!(ld.choose_handler("libdl.so", name), Some(handler));
        assert_eq!(ld.choose_handler("libc.so", name), None);
    }
    assert_eq!(ld.choose_handler("libdl.so", "foo"), None);
}

#[test]
fn stubs_trap_with_their_number() {
    let (mut b, mut e) = guest();
    let ld = ArmLD64 { error: DATA, shared_globals: 0xfffd_0000 };
    assert_eq!(ld.hook(&mut b, &mut e, "libc.so", "malloc", &[]), 0);
    assert_eq!(e.svc_memory.handlers.len(), 0);
    let plain = ld.hook(&mut b, &mut e, "libdl.so", "dlerror", &[]);
    assert_eq!(plain, STUBS);
    assert_eq!(b.mem_read_u32(plain), Ok(0xd400_0001));
    assert_eq!(b.mem_read_u32(plain + 4), Ok(0xd65f_03c0));
    let open = ld.hook(&mut b, &mut e, "libdl.so", "dlopen", &[]);
    assert_eq!(open, STUBS + 16);
    let code: Vec<u32> = (0..14).map(|i| b.mem_read_u32(open + 4 * i).unwrap()).collect();
    assert_eq!(
        code,
        vec![
            0xd10043ff, 0xa9007bfd, 0xd4000021, 0xf94003ed, 0x910023ff, 0xf10001bf, 0x54000060,
            0x10ffff9e, 0xd61f01a0, 0xf94003e0, 0x910023ff, 0xa9407bfd, 0x910043ff, 0xd65f03c0
        ]
    );
    let walk = ld.hook(&mut b, &mut e, "libc.so", "__loader_dl_iterate_phdr", &[1, 2, 3]);
    assert_eq!(walk, STUBS + 16 + 64);
    assert_eq!(b.mem_read_as_vec(walk, 3).unwrap(), vec![1, 2, 3]);
    assert_eq!(
        e.svc_memory.handlers,
        vec![SvcHandler::DlError(DATA), SvcHandler::DlOpen(DATA), SvcHandler::DlIteratePhdr]
    );
    let c = ld.hook_loader(&mut b, &mut e, "__loader_shared_globals", &[]);
    assert_eq!(b.mem_read_u32(c), Ok(0xd400_0061));
}

#[test]
fn the_walking_stub_has_its_numbers() {
    let text = phdr_source(0x1f, 0x8888);
    let lines: Vec<&str> = text.lines().map(|l| l.trim()).filter(|l| !l.is_empty()).collect();
    assert_eq!(lines[0], "sub sp, sp, #0x10");
    assert_eq!(lines[2], "svc #0x1f");
    assert_eq!(lines[3], "ldr x13, [sp]");
    assert!(lines.contains(&"mov x12, #0x1f"));
    assert!(lines.contains(&"mov x16, #0x8888"));
    assert_eq!(lines[lines.len() - 4], "svc #0");
    assert_eq!(lines[lines.len() - 1], "ret");
}

#[test]
fn opening_a_library_fails() {
    let (mut b, mut e) = guest();
    put_text(&mut b, DATA, "libx.so");
    b.reg_write(RegisterARM64::X0, DATA);
    b.reg_write(RegisterARM64::SP, DATA + 0x2000);
    b.mem_write(DATA + 0x1ff0, &[7; 16]).unwrap();
    let open = DlOpen(DATA + 0x100);
    assert_eq!(open.handle(&mut b, &e), SvcCallResult::RET(0));
    assert_eq!(b.mem_read_c_string(DATA + 0x100).unwrap(), "dlopen failed: libx.so");
    assert_eq!(errno(&b, &e), 2);
    assert_eq!(b.reg_read(RegisterARM64::SP), DATA + 0x1ff0);
    assert_eq!(b.mem_read_as_vec(DATA + 0x1ff0, 16).unwrap(), vec![0; 16]);
}

#[test]
fn one_library_is_silently_missing() {
    let (mut b, mut e) = guest();
    put_text(&mut b, DATA, "/system/lib64/libnetd_client.so");
    b.reg_write(RegisterARM64::X0, DATA);
    b.reg_write(RegisterARM64::SP, DATA + 0x2000);
    let open = DlOpen(DATA + 0x100);
    assert_eq!(open.handle(&mut b, &e), SvcCallResult::RET(0));
    assert_eq!(b.mem_read_u64(DATA + 0x100), Ok(0));
    assert_eq!(errno(&b, &e), 0);
    assert_eq!(b.reg_read(RegisterARM64::SP), DATA + 0x1ff0);
}

#[test]
fn simple_functions_of_dynamic_loading() {
    assert_eq!(LoaderConst { ret: -5 }.handle(), SvcCallResult::RET(-5));
    assert_eq!(DlError(0x77).handle(), SvcCallResult::RET(0x77));
    assert_eq!(DlClose(0x77).handle(), SvcCallResult::RET(0));
    assert_eq!(DlSym.handle(), SvcCallResult::RET(0));
    assert_eq!(DlUnwindFindExidx.handle(), SvcCallResult::RET(0));
    assert_eq!(android_stub(), SvcCallResult::RET(0));
}

#[test]
fn addresses_are_known_by_module_and_symbol() {
    let (mut b, mut e) = guest();
    e.memory.add_module("libc.so".to_string(), module("libc.so", 0x5000_0000, vec![("f", 0x20)]));
    b.reg_write(RegisterARM64::X0, 0x5000_0024);
    b.reg_write(RegisterARM64::X1, DATA);
    assert_eq!(DlAddr.room(&b, &e), Some("/system/lib64/libc.so".len() + 1 + 2));
    let block = DATA + 0x100;
    assert_eq!(DlAddr.handle(&mut b, &e, block), SvcCallResult::RET(1));
    let info: Vec<u64> = (0..4).map(|i| b.mem_read_u64(DATA + 8 * i).unwrap()).collect();
    assert_eq!(info, vec![block, 0x5000_0000, block + 22, 0x5000_0020]);
    assert_eq!(b.mem_read_c_string(info[0]).unwrap(), "/system/lib64/libc.so");
    assert_eq!(b.mem_read_c_string(info[2]).unwrap(), "f");
    e.memory.list[0].entry_point = 0x800;
    b.reg_write(RegisterARM64::X0, 0x5000_0500);
    assert_eq!(DlAddr.handle(&mut b, &e, block), SvcCallResult::RET(1));
    assert_eq!(b.mem_read_c_string(block + 22).unwrap(), "start");
    assert_eq!(b.mem_read_u64(DATA + 24), Ok(0x800));
    b.reg_write(RegisterARM64::X0, 0x6000_0000);
    assert_eq!(DlAddr.room(&b, &e), None);
    assert_eq!(DlAddr.handle(&mut b, &e, block), SvcCallResult::RET(0));
}

#[test]
fn modules_are_walked_from_the_last() {
    let (mut b, mut e) = guest();
    e.memory.add_module("libc.so".to_string(), module("libc.so", 0x5000_0000, vec![]));
    ensure_registered(&mut b, &mut e, false);
    e.memory.add_module("own.so".to_string(), module("own.so", 0x5100_0000, vec![]));
    let records = phdr_records(&e);
    let names: Vec<&str> = records.iter().map(|r| r.name.as_str()).collect();
    assert_eq!(
        names,
        vec![
            "/data/app/~~YuanShenZhenChaoHaoWan/com.app-0/lib/arm64/own.so",
            "/system/lib64/libc.so",
            RUNTIME_LIBRARY
        ]
    );
    assert_eq!((records[0].vaddr, records[0].phdr, records[0].phnum), (0x5100_0000, 0x5100_0040, 7));
    assert_eq!((records[2].vaddr, records[2].phdr, records[2].phnum), (0, 0, 0));
    b.reg_write(RegisterARM64::X0, 0xcb);
    b.reg_write(RegisterARM64::X1, 0xda);
    b.reg_write(RegisterARM64::SP, DATA + 0x3000);
    let table = DATA + 0x1000;
    let places = [Some(DATA), Some(DATA + 0x100), Some(DATA + 0x200)];
    let r = DlIteratePhdr.handle(&mut b, &e, Some(table), &places);
    assert_eq!(r, SvcCallResult::VOID);
    let sp = b.reg_read(RegisterARM64::SP);
    assert_eq!(sp, DATA + 0x3000 - 8 - 96);
    let stack: Vec<u64> = (0..13).map(|i| b.mem_read_u64(sp + 8 * i).unwrap()).collect();
    assert_eq!(
        stack,
        vec![
            0xcb, table + 128, 64, 0xda, 0xcb, table + 64, 64, 0xda, 0xcb, table, 64, 0xda, 0
        ]
    );
    assert_eq!(b.mem_read_u64(table), Ok(0x5100_0000));
    assert_eq!(b.mem_read_u64(table + 8), Ok(DATA));
    assert_eq!(b.mem_read_u64(table + 16), Ok(0x5100_0040));
    assert_eq!(b.mem_read_as_vec(table + 24, 2).unwrap(), vec![7, 0]);
    assert_eq!(b.mem_read_c_string(DATA + 0x200).unwrap(), RUNTIME_LIBRARY);
    assert_eq!(DlIteratePhdr.on_post_callback(), 0);
}

#[test]
fn walking_modules_needs_memory() {
    let (mut b, e) = guest();
    b.reg_write(RegisterARM64::SP, DATA + 0x3000);
    let r = DlIteratePhdr.handle(&mut b, &e, None, &[Some(DATA)]);
    assert_eq!(r, SvcCallResult::Fault);
    let r = DlIteratePhdr.handle(&mut b, &e, Some(DATA + 0x1000), &[None]);
    assert_eq!(r, SvcCallResult::Fault);
    assert_eq!(b.reg_read(RegisterARM64::SP), DATA + 0x3000);
}

#[test]
fn the_asset_library_is_registered_once() {
    let (mut b, mut e) = guest();
    assert_eq!(host_library(&e.base_path), "/img/system/lib64/libandroid.so");
    ensure_registered(&mut b, &mut e, true);
    assert!(e.memory.list.is_empty());
    ensure_registered(&mut b, &mut e, false);
    assert_eq!(e.memory.modules.get(SO_NAME), Some(&0));
    assert_eq!((e.memory.list[0].base, e.memory.list[0].size), (STUBS, 0x1000));
    assert_eq!(e.svc_memory.handlers, vec![SvcHandler::AndroidStub; 6]);
    assert_eq!(b.mem_read_u32(STUBS + 0x50), Ok(0xd400_00a1));
    ensure_registered(&mut b, &mut e, false);
    assert_eq!(e.memory.list.len(), 1);
}

#[test]
fn the_system_root_has_a_default() {
    assert_eq!(default_sdk_root(None), "./android/sdk36");
    assert_eq!(default_sdk_root(Some("/x".to_string())), "/x");
    assert_eq!(lib64_dir("/x"), "/x/system/lib64");
    assert_eq!(lib64_dir(""), "./android/sdk36/system/lib64");
    assert_eq!(bin_dir("/x"), "/x/system/bin");
    assert_eq!(bin_dir(""), "./android/sdk36/system/bin");
    let set: Vec<u32> = (0..64).filter(|i| (GUEST_HWCAP >> i) & 1 == 1).collect();
    assert_eq!(set, vec![0, 1, 3, 4, 5, 6, 7]);
}
