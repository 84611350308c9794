//! System properties and sleeping.
use rnidbg::android::virtual_library::libc::sleep::{
    ClockNanosleep, Nanosleep, Sigaction, Usleep,
};
use rnidbg::android::virtual_library::libc::system_properties::{
    default_system_property, pack_prop_info, write_prop_value, PropertyLookup, SystemPropertyFind,
    SystemPropertyGet, SystemPropertyRead,
};
use rnidbg::backend::{Backend, RegisterARM64, PERM_READ_WRITE};
use rnidbg::emulator::base_task::TaskStatus;
use rnidbg::emulator::dispatcher::{AbstractTask, ThreadDispatcher, ThreadStart};
use rnidbg::emulator::state::AndroidEmulator;
use rnidbg::linux::file_system::FileSystem;
use rnidbg::linux::thread::ChildTable;
use rnidbg::memory::loader::{AndroidElfLoader, GuestLayout};
use rnidbg::memory::svc_memory::{SvcCallResult, SvcMemory};

const DATA: u64 = 0x10_0000;

type Service = fn(&str) -> Option<String>;

fn no_service() -> Option<Service> {
    None
}

fn service(name: &str) -> Option<String> {
    match name {
        "ro.build.version.sdk" => Some("99".to_string()),
        "long" => Some("x".repeat(200)),
        "mine" => Some("own".to_string()),
        _ => None,
    }
}

fn with_service() -> Option<Service> {
    Some(service)
}

fn memory() -> Backend {
    let mut b = Backend::new();
    b.mem_map(DATA, 0x1000, PERM_READ_WRITE).unwrap();
    b
}

fn ask(b: &mut Backend, name: &str) {
    b.mem_write(DATA, name.as_bytes()).unwrap();
    b.mem_write(DATA + name.len() as u64, &[0]).unwrap();
    b.reg_write(RegisterARM64::X0, DATA);
    b.reg_write(RegisterARM64::X1, DATA + 0x400);
}

#[test]
fn every_guest_has_some_properties() {
    let expected = [
        ("ro.build.version.sdk", "36"),
        ("ro.product.first_api_level", "36"),
        ("ro.board.first_api_level", "36"),
        ("ro.vendor.api_level", "36"),
        ("ro.build.version.release", "16"),
        ("ro.build.version.security_patch", "2025-12-01"),
        ("ro.product.cpu.abi", "arm64-v8a"),
        ("ro.product.cpu.abilist", "arm64-v8a"),
        ("ro.debuggable", "0"),
        ("ro.secure", "1"),
        ("ro.boot.flash.locked", "1"),
        ("ro.kernel.qemu", ""),
        ("libc.debug.malloc", ""),
        ("ro.zygote", "zygote64"),
        ("ro.boot.verifiedbootstate", "green"),
        ("ro.boot.vbmeta.device_state", "locked"),
        ("sys.usb.state", "adb"),
    ];
    for (name, value) in expected {
        assert_eq!(default_system_property(name), Some(value));
    }
    assert_eq!(default_system_property("ro.unknown"), None);
}

#[test]
fn properties_are_got_by_name() {
    let mut b = memory();
    ask(&mut b, "ro.zygote");
    assert_eq!(SystemPropertyGet::new(no_service()).handle(&mut b), SvcCallResult::RET(8));
    assert_eq!(b.mem_read_c_string(DATA + 0x400).unwrap(), "zygote64");
    ask(&mut b, "ro.unknown");
    assert_eq!(SystemPropertyGet::new(no_service()).handle(&mut b), SvcCallResult::RET(0));
    assert_eq!(b.mem_read_c_string(DATA + 0x400).unwrap(), "");
    ask(&mut b, "ro.build.version.sdk");
    assert_eq!(SystemPropertyGet::new(with_service()).handle(&mut b), SvcCallResult::RET(2));
    assert_eq!(b.mem_read_c_string(DATA + 0x400).unwrap(), "99");
    ask(&mut b, "ro.zygote");
    assert_eq!(SystemPropertyGet::new(with_service()).handle(&mut b), SvcCallResult::RET(8));
    ask(&mut b, "long");
    assert_eq!(SystemPropertyGet::new(with_service()).handle(&mut b), SvcCallResult::RET(91));
    assert_eq!(b.mem_read_c_string(DATA + 0x400).unwrap(), "x".repeat(91));
}

#[test]
fn getting_properties_can_fault() {
    let mut b = memory();
    b.reg_write(RegisterARM64::X0, 0x6000_0000);
    assert_eq!(SystemPropertyGet::new(no_service()).handle(&mut b), SvcCallResult::Fault);
    ask(&mut b, "ro.zygote");
    b.reg_write(RegisterARM64::X1, 0x6000_0000);
    assert_eq!(SystemPropertyGet::new(no_service()).handle(&mut b), SvcCallResult::Fault);
    b.reg_write(RegisterARM64::X1, DATA + 0x1000 - 8);
    assert_eq!(SystemPropertyGet::new(no_service()).handle(&mut b), SvcCallResult::Fault);
    assert_eq!(b.mem_read_as_vec(DATA + 0x1000 - 8, 8).unwrap(), b"zygote64".to_vec());
    assert!(write_prop_value(&mut b, 0x6000_0000, "").is_err());
    assert!(write_prop_value(&mut b, DATA, "").is_ok());
}

#[test]
fn records_hold_a_serial_a_value_and_a_name() {
    let r = pack_prop_info("name", "val");
    assert_eq!(r.len(), 192);
    assert_eq!(&r[0..4], &[0, 0, 0, 3]);
    assert_eq!(&r[4..8], b"val\0");
    assert_eq!(&r[96..101], b"name\0");
    assert!(r[8..96].iter().all(|b| *b == 0) && r[101..].iter().all(|b| *b == 0));
    let r = pack_prop_info(&"n".repeat(120), &"v".repeat(120));
    assert_eq!(r[3], 91);
    assert_eq!((r[94], r[95], r[190], r[191]), (b'v', 0, b'n', 0));
}

#[test]
fn found_properties_read_back() {
    let mut b = memory();
    let find = SystemPropertyFind::new(with_service());
    ask(&mut b, "mine");
    let lookup = find.lookup(&b);
    assert!(matches!(lookup, PropertyLookup::Info(_)));
    let at = DATA + 0x800;
    assert_eq!(find.handle(&mut b, lookup, Some(at)), SvcCallResult::RET(at as i64));
    b.reg_write(RegisterARM64::X0, at);
    b.reg_write(RegisterARM64::X1, DATA + 0x100);
    b.reg_write(RegisterARM64::X2, DATA + 0x200);
    let read = SystemPropertyRead::new(no_service());
    assert_eq!(read.handle(&mut b), SvcCallResult::RET(3));
    assert_eq!(b.mem_read_c_string(DATA + 0x100).unwrap(), "mine");
    assert_eq!(b.mem_read_c_string(DATA + 0x200).unwrap(), "own");
    ask(&mut b, "long");
    let lookup = find.lookup(&b);
    find.handle(&mut b, lookup, Some(at));
    b.reg_write(RegisterARM64::X0, at);
    b.reg_write(RegisterARM64::X1, 0);
    b.reg_write(RegisterARM64::X2, DATA + 0x200);
    assert_eq!(read.handle(&mut b), SvcCallResult::RET(91));
    assert_eq!(b.mem_read_c_string(DATA + 0x200).unwrap(), "x".repeat(91));
    assert_eq!(b.mem_read_c_string(DATA + 0x100).unwrap(), "mine");
}

#[test]
fn unknown_properties_are_not_found() {
    let mut b = memory();
    let find = SystemPropertyFind::new(no_service());
    for name in ["ro.unknown", "debug.atrace.tags.enableflags"] {
        ask(&mut b, name);
        let lookup = find.lookup(&b);
        assert!(matches!(lookup, PropertyLookup::Absent));
        assert_eq!(find.handle(&mut b, lookup, None), SvcCallResult::RET(0));
    }
    b.reg_write(RegisterARM64::X0, 0x6000_0000);
    let lookup = find.lookup(&b);
    assert!(matches!(lookup, PropertyLookup::Fault));
    assert_eq!(find.handle(&mut b, lookup, Some(DATA)), SvcCallResult::Fault);
    ask(&mut b, "ro.secure");
    let lookup = find.lookup(&b);
    assert_eq!(find.handle(&mut b, lookup, None), SvcCallResult::Fault);
    let lookup = find.lookup(&b);
    assert_eq!(find.handle(&mut b, lookup, Some(0x6000_0000)), SvcCallResult::Fault);
}

#[test]
fn records_that_cannot_be_read_give_zero() {
    let mut b = memory();
    let read = SystemPropertyRead::new(no_service());
    for (pi, out) in [(0, DATA), (DATA, 0), (0x6000_0000, DATA), (DATA + 0xffc, DATA)] {
        b.reg_write(RegisterARM64::X0, pi);
        b.reg_write(RegisterARM64::X2, out);
        assert_eq!(read.handle(&mut b), SvcCallResult::RET(0));
    }
}

fn process() -> (Backend, AndroidEmulator) {
    let mut b = memory();
    let layout = GuestLayout { stack_base: 0x7000_0000, stack_pages: 64, mmap_base: 0x4000_0000 };
    let (memory, errno) = AndroidElfLoader::new(&mut b, layout, 100, "app").unwrap();
    let e = AndroidEmulator {
        brk: 0,
        heap_base: 0x9000_0000,
        pid: 2667,
        ppid: 2427,
        errno,
        exit_status: None,
        exec_path: None,
        proc_name: "app".to_string(),
        base_path: "/img".to_string(),
        next_task_id: 3,
        file_system: FileSystem::new(),
        memory,
        thread_dispatcher: ThreadDispatcher::new(),
        svc_memory: SvcMemory::new(0x2000_0000, 0x1000),
        children: ChildTable { children: vec![] },
        stop: None,
        clock_start: None,
    };
    (b, e)
}

#[test]
fn sleeps_end_at_once() {
    let (mut b, mut e) = process();
    b.mem_write(DATA, &[7; 0x40]).unwrap();
    b.reg_write(RegisterARM64::X1, DATA);
    b.reg_write(RegisterARM64::X2, DATA + 0x20);
    b.reg_write(RegisterARM64::X3, DATA + 0x10);
    assert_eq!(Usleep.handle(&mut b, &mut e), SvcCallResult::RET(0));
    assert_eq!(b.mem_read_as_vec(DATA, 4).unwrap(), vec![7; 4]);
    assert_eq!(Nanosleep.handle(&mut b, &mut e), SvcCallResult::RET(0));
    assert_eq!(b.mem_read_as_vec(DATA, 17).unwrap()[15..], [0, 7]);
    assert_eq!(ClockNanosleep.handle(&mut b, &mut e), SvcCallResult::RET(0));
    assert_eq!(b.mem_read_as_vec(DATA + 0x10, 17).unwrap()[15..], [0, 7]);
    assert_eq!(Sigaction.handle(&mut b, &e), SvcCallResult::RET(0));
    assert_eq!(b.mem_read_as_vec(DATA + 0x20, 32).unwrap(), vec![0; 32]);
    assert_eq!(e.stop, None);
}

#[test]
fn sleeps_give_way_to_other_tasks() {
    let (mut b, mut e) = process();
    assert!(!e.yield_to_other_threads());
    let start = ThreadStart { fn_ptr: 1, arg: 2, child_tid: 0, tls: 3, child_stack: 4 };
    e.thread_dispatcher.add_thread(AbstractTask::new_thread(1, start));
    assert_eq!(Usleep.handle(&mut b, &mut e), SvcCallResult::RET(0));
    assert_eq!(e.stop, None);
    e.thread_dispatcher.add_thread(AbstractTask::new_thread(2, start));
    assert_eq!(Usleep.handle(&mut b, &mut e), SvcCallResult::RET(0));
    assert_eq!(e.stop, Some(TaskStatus::R));
}
