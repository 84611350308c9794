//! The dynamic linker as the guest sees it.
//!
//! The device's own linker library holds nothing but a trap. The functions that the C
//! library expects there, and the record that both share, come from here.
use vstd::prelude::*;
use vstd::utf8::{is_ascii_chars, is_ascii_chars_encode_utf8};
use crate::android::sdk::{ANDROID_SDK, GUEST_HWCAP};
use crate::backend::{lemma_half_inside, Backend, BackendError, Machine, PERM_READ_WRITE};
use crate::emulator::state::AndroidEmulator;
use crate::le::{law_le32_round_trip, le32, le64, put_le64, put_zeros, zeros};
use crate::memory::stack::{c_bytes, c_string_bytes, leads_to, lemma_text_stands};
use crate::memory::svc_memory::{
    assemble_svc, law_plain_stub, law_trap_number, plain_stub, svc_insn, SvcHandler, SvcMemory,
};
use crate::memory::tls::{AT_HWCAP, AT_PAGESZ, AT_RANDOM};
use crate::num::{bits_of_i64, from_bits_i64, i64_of_bits};
use crate::outside::{buffer_bytes, buffer_freeze, buffer_new, buffer_put_u32_le, bytes_slice};
use crate::text::{begins_with, hex_text, hex_text_of, join3, starts_with, str_eq};

verus! {

/// Where the record stands that the linker shares with the C library.
pub const LOADER_SHARED_GLOBALS_ADDR: u64 = 0xfffd_0000;

pub const LOADER_SHARED_GLOBALS_SIZE: u64 = 0x1000;

/// The size of the message that `dlerror` shows.
pub const ERROR_SIZE: u64 = 0x80;

/// Low memory that is mapped so that a stray null pointer reads zeros.
pub const LOW_MEMORY_SIZE: u64 = 0x10000;

pub const AT_PLATFORM: u64 = 15;

pub const AT_SECURE: u64 = 23;

/// In the record: a pointer to the table of the auxiliary values.
pub const OFF_AUXV: u64 = 0x418;

/// In the record: the generation of the thread-local modules.
pub const OFF_TLS_GENERATION: u64 = 0x478;

pub const AUXV_TABLE_OFF: u64 = 0x800;

pub const AT_RANDOM_OFF: u64 = 0x8c0;

pub const AT_PLATFORM_OFF: u64 = 0x8d0;

/// The table of the auxiliary values, in a record at `base`.
pub open spec fn auxv_table(base: int) -> Seq<u8> {
    le64(AT_PAGESZ) + le64(0x1000) + le64(AT_HWCAP) + le64(GUEST_HWCAP) + le64(AT_SECURE) + le64(0)
        + le64(AT_RANDOM) + le64((base + AT_RANDOM_OFF) as u64) + le64(AT_PLATFORM) + le64(
        (base + AT_PLATFORM_OFF) as u64,
    ) + le64(0) + le64(0)
}

/// The sixteen bytes that stand for chance.
pub open spec fn random_bytes() -> Seq<u8> {
    seq![
        0xa5u8, 0x5a, 0x3c, 0xc3, 0x12, 0x34, 0x56, 0x78,
        0x9a, 0xbc, 0xde, 0xf0, 0x0f, 0xed, 0xcb, 0xa9,
    ]
}

/// The record that the linker shares with the C library, at `base`: all zeros but for
/// the auxiliary values, a pointer to them, and the generation, which starts at one.
#[verifier::opaque]
pub open spec fn shared_globals(base: int) -> Seq<u8> {
    zeros(OFF_AUXV as nat) + le64((base + AUXV_TABLE_OFF) as u64) + zeros(0x58) + le64(1) + zeros(
        0x380,
    ) + auxv_table(base) + zeros(0x60) + random_bytes() + c_bytes("aarch64"@) + zeros(0x728)
}

fn put_words(v: &mut Vec<u8>, a: u64, b: u64)
    ensures
        final(v)@ == old(v)@ + le64(a) + le64(b),
{
    v.extend_from_slice(put_le64(a).as_slice());
    v.extend_from_slice(put_le64(b).as_slice());
    assert(v@ =~= old(v)@ + le64(a) + le64(b));
}

fn make_auxv_table(base: u64) -> (v: Vec<u8>)
    requires
        base + 0x1000 <= u64::MAX,
    ensures
        v@ == auxv_table(base as int),
        v@.len() == 96,
{
    let mut v: Vec<u8> = Vec::new();
    put_words(&mut v, AT_PAGESZ, 0x1000);
    put_words(&mut v, AT_HWCAP, GUEST_HWCAP);
    put_words(&mut v, AT_SECURE, 0);
    put_words(&mut v, AT_RANDOM, base + AT_RANDOM_OFF);
    put_words(&mut v, AT_PLATFORM, base + AT_PLATFORM_OFF);
    put_words(&mut v, 0, 0);
    assert(v@ =~= auxv_table(base as int));
    v
}

/// The record that the linker shares with the C library, for the address `base`.
pub fn populate_shared_globals(base: u64) -> (v: Vec<u8>)
    requires
        base + 0x1000 <= u64::MAX,
    ensures
        v@ == shared_globals(base as int),
        v@.len() == LOADER_SHARED_GLOBALS_SIZE,
{
    proof {
        reveal(shared_globals);
        reveal_strlit("aarch64");
        assert(is_ascii_chars("aarch64"@));
        is_ascii_chars_encode_utf8("aarch64"@);
    }
    let chance: [u8; 16] = [
        0xa5, 0x5a, 0x3c, 0xc3, 0x12, 0x34, 0x56, 0x78,
        0x9a, 0xbc, 0xde, 0xf0, 0x0f, 0xed, 0xcb, 0xa9,
    ];
    assert(chance@ =~= random_bytes());
    let mut v = put_zeros(OFF_AUXV as usize);
    v.extend_from_slice(put_le64(base + AUXV_TABLE_OFF).as_slice());
    v.extend_from_slice(put_zeros(0x58).as_slice());
    v.extend_from_slice(put_le64(1).as_slice());
    v.extend_from_slice(put_zeros(0x380).as_slice());
    v.extend_from_slice(make_auxv_table(base).as_slice());
    v.extend_from_slice(put_zeros(0x60).as_slice());
    v.extend_from_slice(chance.as_slice());
    v.extend_from_slice(c_string_bytes("aarch64").as_slice());
    v.extend_from_slice(put_zeros(0x728).as_slice());
    assert(v@ =~= shared_globals(base as int));
    v
}

/// The dynamic linker: where its error message and the shared record stand.
#[derive(Clone, Copy, Debug, PartialEq, Eq, Structural)]
pub struct ArmLD64 {
    pub error: u64,
    pub shared_globals: u64,
}

/// The machine after the shared record was put in place, and low memory was mapped
/// where it was free.
pub open spec fn globals_placed(m: Machine) -> Machine {
    let page = m.map_pages(
        LOADER_SHARED_GLOBALS_ADDR as int,
        LOADER_SHARED_GLOBALS_SIZE as int,
        PERM_READ_WRITE,
    );
    let low = if page.can_map(0, LOW_MEMORY_SIZE as int) {
        page.map_pages(0, LOW_MEMORY_SIZE as int, PERM_READ_WRITE)
    } else {
        page
    };
    low.write(
        LOADER_SHARED_GLOBALS_ADDR as int,
        shared_globals(LOADER_SHARED_GLOBALS_ADDR as int),
    )
}

impl ArmLD64 {
    /// Put the shared record and the error message in place.
    pub fn new(svc_memory: &mut SvcMemory, backend: &mut Backend) -> (r: Result<
        ArmLD64,
        BackendError,
    >)
        requires
            old(svc_memory).has_room(ERROR_SIZE as int),
        ensures
            ({
                let m = old(backend)@;
                let error = old(svc_memory).next;
                let taken = SvcMemory { next: (error + ERROR_SIZE) as u64, ..*old(svc_memory) };
                if !m.can_map(LOADER_SHARED_GLOBALS_ADDR as int, LOADER_SHARED_GLOBALS_SIZE as int) {
                    &&& r == Err::<ArmLD64, BackendError>(BackendError::Mapped)
                    &&& final(backend)@ == m
                    &&& *final(svc_memory) == *old(svc_memory)
                } else if !globals_placed(m).mapped(error as int, ERROR_SIZE as int) {
                    &&& r == Err::<ArmLD64, BackendError>(BackendError::Unmapped)
                    &&& final(backend)@ == globals_placed(m)
                    &&& *final(svc_memory) == taken
                } else {
                    &&& r == Ok::<ArmLD64, BackendError>(
                        ArmLD64 { error, shared_globals: LOADER_SHARED_GLOBALS_ADDR },
                    )
                    &&& final(backend)@ == globals_placed(m).write(
                        error as int,
                        zeros(ERROR_SIZE as nat),
                    )
                    &&& *final(svc_memory) == taken
                }
            }),
    {
        match backend.mem_map(
            LOADER_SHARED_GLOBALS_ADDR,
            LOADER_SHARED_GLOBALS_SIZE,
            PERM_READ_WRITE,
        ) {
            Ok(_) => {},
            Err(e) => {
                return Err(e);
            },
        }
        let ghost page = backend@;
        let _low = backend.mem_map(0, LOW_MEMORY_SIZE, PERM_READ_WRITE);
        let globals = populate_shared_globals(LOADER_SHARED_GLOBALS_ADDR);
        backend.mem_write(LOADER_SHARED_GLOBALS_ADDR, globals.as_slice()).unwrap();
        let error: u64 = svc_memory.allocate(ERROR_SIZE);
        match backend.mem_write(error, put_zeros(ERROR_SIZE as usize).as_slice()) {
            Ok(_) => {},
            Err(e) => {
                return Err(e);
            },
        }
        Ok(ArmLD64 { error, shared_globals: LOADER_SHARED_GLOBALS_ADDR })
    }

    /// What stands in for a function of the linker library. Functions that are not
    /// known do nothing and give zero.
    pub open spec fn loader_handler(self, symbol: Seq<char>) -> SvcHandler {
        if symbol == "__loader_shared_globals"@ {
            SvcHandler::LoaderConst(i64_of_bits(self.shared_globals))
        } else if symbol == "__loader_android_get_application_target_sdk_version"@ {
            SvcHandler::LoaderConst(ANDROID_SDK as i64)
        } else if symbol == "__loader_dlopen"@ || symbol == "__loader_android_dlopen_ext"@ {
            SvcHandler::DlOpen(self.error)
        } else if symbol == "__loader_dlerror"@ {
            SvcHandler::DlError(self.error)
        } else if symbol == "__loader_dlclose"@ {
            SvcHandler::DlClose(self.error)
        } else if symbol == "__loader_dlsym"@ || symbol == "__loader_dlvsym"@ {
            SvcHandler::DlSym
        } else if symbol == "__loader_dladdr"@ {
            SvcHandler::DlAddr
        } else if symbol == "__loader_dl_iterate_phdr"@ {
            SvcHandler::DlIteratePhdr
        } else {
            SvcHandler::LoaderConst(0)
        }
    }

    /// What stands in for a function of the dynamic loading library, if anything does.
    pub open spec fn libdl_handler(self, symbol: Seq<char>) -> Option<SvcHandler> {
        if symbol == "dl_iterate_phdr"@ {
            Some(SvcHandler::DlIteratePhdr)
        } else if symbol == "dlerror"@ {
            Some(SvcHandler::DlError(self.error))
        } else if symbol == "dlclose"@ {
            Some(SvcHandler::DlClose(self.error))
        } else if symbol == "dlopen"@ || symbol == "android_dlopen_ext"@ {
            Some(SvcHandler::DlOpen(self.error))
        } else if symbol == "dladdr"@ {
            Some(SvcHandler::DlAddr)
        } else if symbol == "dlsym"@ || symbol == "dlvsym"@ {
            Some(SvcHandler::DlSym)
        } else if symbol == "dl_unwind_find_exidx"@ {
            Some(SvcHandler::DlUnwindFindExidx)
        } else if symbol == "android_get_application_target_sdk_version"@ {
            Some(SvcHandler::LoaderConst(ANDROID_SDK as i64))
        } else {
            None
        }
    }

    /// What stands in for a symbol of a library, if anything does.
    pub open spec fn handler_for(self, lib: Seq<char>, symbol: Seq<char>) -> Option<SvcHandler> {
        if lib == "ld-android.so"@ || begins_with(symbol, "__loader_"@) {
            Some(self.loader_handler(symbol))
        } else if lib == "libdl.so"@ {
            self.libdl_handler(symbol)
        } else {
            None
        }
    }

    /// What stands in for a function of the linker library.
    pub fn choose_loader_handler(&self, symbol_name: &str) -> (r: SvcHandler)
        ensures
            r == self.loader_handler(symbol_name@),
    {
        if str_eq(symbol_name, "__loader_shared_globals") {
            SvcHandler::LoaderConst(from_bits_i64(self.shared_globals))
        } else if str_eq(symbol_name, "__loader_android_get_application_target_sdk_version") {
            SvcHandler::LoaderConst(ANDROID_SDK as i64)
        } else if str_eq(symbol_name, "__loader_dlopen") || str_eq(
            symbol_name,
            "__loader_android_dlopen_ext",
        ) {
            SvcHandler::DlOpen(self.error)
        } else if str_eq(symbol_name, "__loader_dlerror") {
            SvcHandler::DlError(self.error)
        } else if str_eq(symbol_name, "__loader_dlclose") {
            SvcHandler::DlClose(self.error)
        } else if str_eq(symbol_name, "__loader_dlsym") || str_eq(symbol_name, "__loader_dlvsym") {
            SvcHandler::DlSym
        } else if str_eq(symbol_name, "__loader_dladdr") {
            SvcHandler::DlAddr
        } else if str_eq(symbol_name, "__loader_dl_iterate_phdr") {
            SvcHandler::DlIteratePhdr
        } else {
            SvcHandler::LoaderConst(0)
        }
    }

    fn choose_libdl_handler(&self, symbol_name: &str) -> (r: Option<SvcHandler>)
        ensures
            r == self.libdl_handler(symbol_name@),
    {
        if str_eq(symbol_name, "dl_iterate_phdr") {
            Some(SvcHandler::DlIteratePhdr)
        } else if str_eq(symbol_name, "dlerror") {
            Some(SvcHandler::DlError(self.error))
        } else if str_eq(symbol_name, "dlclose") {
            Some(SvcHandler::DlClose(self.error))
        } else if str_eq(symbol_name, "dlopen") || str_eq(symbol_name, "android_dlopen_ext") {
            Some(SvcHandler::DlOpen(self.error))
        } else if str_eq(symbol_name, "dladdr") {
            Some(SvcHandler::DlAddr)
        } else if str_eq(symbol_name, "dlsym") || str_eq(symbol_name, "dlvsym") {
            Some(SvcHandler::DlSym)
        } else if str_eq(symbol_name, "dl_unwind_find_exidx") {
            Some(SvcHandler::DlUnwindFindExidx)
        } else if str_eq(symbol_name, "android_get_application_target_sdk_version") {
            Some(SvcHandler::LoaderConst(ANDROID_SDK as i64))
        } else {
            None
        }
    }

    /// What stands in for a symbol of a library, if anything does.
    pub fn choose_handler(&self, lib_name: &str, symbol_name: &str) -> (r: Option<SvcHandler>)
        ensures
            r == self.handler_for(lib_name@, symbol_name@),
    {
        if str_eq(lib_name, "ld-android.so") || starts_with(symbol_name, "__loader_") {
            return Some(self.choose_loader_handler(symbol_name));
        }
        if !str_eq(lib_name, "libdl.so") {
            return None;
        }
        self.choose_libdl_handler(symbol_name)
    }

    /// Put a function of the linker library in place. Gives its address.
    pub fn hook_loader(
        &self,
        backend: &mut Backend,
        emulator: &mut AndroidEmulator,
        symbol_name: &str,
        assembled: &[u8],
    ) -> (r: u64)
        requires
            can_register(
                old(backend)@,
                old(emulator).svc_memory,
                self.loader_handler(symbol_name@),
                assembled@,
            ),
        ensures
            stub_placed(
                old(backend)@,
                *old(emulator),
                final(backend)@,
                *final(emulator),
                self.loader_handler(symbol_name@),
                assembled@,
                r,
            ),
    {
        let handler = self.choose_loader_handler(symbol_name);
        register(&mut emulator.svc_memory, backend, handler, assembled)
    }

    /// Put what stands in for a symbol in place. Gives its address, or zero where
    /// nothing stands in for it. `assembled` is the code of [`phdr_source`] for the
    /// next stub.
    pub fn hook(
        &self,
        backend: &mut Backend,
        emulator: &mut AndroidEmulator,
        lib_name: &str,
        symbol_name: &str,
        assembled: &[u8],
    ) -> (r: u64)
        requires
            self.handler_for(lib_name@, symbol_name@) matches Some(handler) ==> can_register(
                old(backend)@,
                old(emulator).svc_memory,
                handler,
                assembled@,
            ),
        ensures
            match self.handler_for(lib_name@, symbol_name@) {
                Some(handler) => stub_placed(
                    old(backend)@,
                    *old(emulator),
                    final(backend)@,
                    *final(emulator),
                    handler,
                    assembled@,
                    r,
                ),
                None => r == 0 && final(backend)@ == old(backend)@ && *final(emulator) == *old(emulator),
            },
    {
        if str_eq(lib_name, "ld-android.so") || starts_with(symbol_name, "__loader_") {
            return self.hook_loader(backend, emulator, symbol_name, assembled);
        }
        match self.choose_handler(lib_name, symbol_name) {
            Some(handler) => register(&mut emulator.svc_memory, backend, handler, assembled),
            None => 0,
        }
    }
}

pub const PHDR_ENTRY: &'static str = "sub sp, sp, #0x10
stp x29, x30, [sp]
svc #0x";

pub const PHDR_LOOP: &'static str = "
ldr x13, [sp]
add sp, sp, #0x8
cmp x13, #0
b.eq #0x58
ldr x0, [sp]
add sp, sp, #0x8
ldr x1, [sp]
add sp, sp, #0x8
ldr x2, [sp]
add sp, sp, #0x8
blr x13
cmp x0, #0
b.eq #0xc
ldr x13, [sp]
add sp, sp, #0x8
cmp x13, #0
b.eq #0x58
add sp, sp, #0x18
b 0x40
mov x8, #0
mov x12, #0x";

pub const PHDR_POST: &'static str = "
mov x16, #0x";

pub const PHDR_EXIT: &'static str = "
svc #0
ldp x29, x30, [sp]
add sp, sp, #0x10
ret";

/// The source text of the stub that walks the loaded modules. After the trap the stack
/// holds, for each module, a callback and its three arguments, up to a zero; the stub
/// calls back until a callback gives a number other than zero, and skips the rest.
pub open spec fn phdr_text(number: u32, post_callback: u32) -> Seq<char> {
    PHDR_ENTRY@ + hex_text_of(number as nat) + PHDR_LOOP@ + hex_text_of(number as nat) + PHDR_POST@
        + hex_text_of(post_callback as nat) + PHDR_EXIT@
}

/// The source text of the stub with this number that walks the loaded modules.
/// `post_callback` is the number of the system call that ends such a stub.
pub fn phdr_source(number: u32, post_callback: u32) -> (r: String)
    ensures
        r@ == phdr_text(number, post_callback),
{
    let n = hex_text(number as u64);
    let p = hex_text(post_callback as u64);
    let head = join3(PHDR_ENTRY, n.as_str(), PHDR_LOOP);
    let middle = join3(head.as_str(), n.as_str(), PHDR_POST);
    join3(middle.as_str(), p.as_str(), PHDR_EXIT)
}

/// The code of the stub that opens a library. After the trap the stack holds functions
/// to be called, up to a zero, and then the result.
pub open spec fn dlopen_stub(number: u32) -> Seq<u8> {
    le32(0xd10043ff)  // sub sp, sp, #0x10
     + le32(0xa9007bfd)  // stp x29, x30, [sp]
     + le32(svc_insn(number)) + le32(0xf94003ed)  // ldr x13, [sp]
     + le32(0x910023ff)  // add sp, sp, #0x8
     + le32(0xf10001bf)  // cmp x13, #0
     + le32(0x54000060)  // b.eq #0x24
     + le32(0x10ffff9e)  // adr lr, #-0xf
     + le32(0xd61f01a0)  // br x13
     + le32(0xf94003e0)  // ldr x0, [sp]
     + le32(0x910023ff)  // add sp, sp, #0x8
     + le32(0xa9407bfd)  // ldp x29, x30, [sp]
     + le32(0x910043ff)  // add sp, sp, #0x10
     + le32(0xd65f03c0)  // ret

}

/// The code of the stub with this number for a handler.
pub open spec fn stub_of(handler: SvcHandler, number: u32, assembled: Seq<u8>) -> Seq<u8> {
    match handler {
        SvcHandler::DlOpen(_) => dlopen_stub(number),
        SvcHandler::DlIteratePhdr => assembled,
        _ => plain_stub(number),
    }
}

/// There is room for the next stub.
pub open spec fn can_register(
    m: Machine,
    svc: SvcMemory,
    handler: SvcHandler,
    assembled: Seq<u8>,
) -> bool {
    let len = stub_of(handler, svc.handlers@.len() as u32, assembled).len() as int;
    &&& svc.handlers@.len() < 0x10000
    &&& len + 15 <= u64::MAX
    &&& svc.has_room(len)
    &&& m.mapped(svc.next as int, len)
}

/// A stub for a handler was put in place at `r`, and nothing else changed.
pub open spec fn stub_registered(
    m: Machine,
    svc: SvcMemory,
    m2: Machine,
    svc2: SvcMemory,
    handler: SvcHandler,
    assembled: Seq<u8>,
    r: u64,
) -> bool {
    let code = stub_of(handler, svc.handlers@.len() as u32, assembled);
    &&& r == svc.next
    &&& m2 == m.write(r as int, code)
    &&& svc2.handlers@ == svc.handlers@.push(handler)
    &&& svc2.next == svc.next + (code.len() + 15) / 16 * 16
    &&& svc2.end == svc.end
}

/// A stub for a handler was put in place at `r`, and nothing else of the process
/// changed.
pub open spec fn stub_placed(
    m: Machine,
    e: AndroidEmulator,
    m2: Machine,
    e2: AndroidEmulator,
    handler: SvcHandler,
    assembled: Seq<u8>,
    r: u64,
) -> bool {
    &&& stub_registered(m, e.svc_memory, m2, e2.svc_memory, handler, assembled, r)
    &&& e2 == (AndroidEmulator { svc_memory: e2.svc_memory, ..e })
}

/// Put the stub for opening libraries in place.
fn register_dlopen(svc_memory: &mut SvcMemory, backend: &mut Backend, handler: SvcHandler) -> (r:
    u64)
    requires
        handler is DlOpen,
        can_register(old(backend)@, *old(svc_memory), handler, Seq::empty()),
    ensures
        stub_registered(
            old(backend)@,
            *old(svc_memory),
            final(backend)@,
            *final(svc_memory),
            handler,
            Seq::empty(),
            r,
        ),
{
    let number: u32 = svc_memory.handlers.len() as u32;
    let mut buf = buffer_new();
    buffer_put_u32_le(&mut buf, 0xd10043ff);
    buffer_put_u32_le(&mut buf, 0xa9007bfd);
    buffer_put_u32_le(&mut buf, assemble_svc(number));
    buffer_put_u32_le(&mut buf, 0xf94003ed);
    buffer_put_u32_le(&mut buf, 0x910023ff);
    buffer_put_u32_le(&mut buf, 0xf10001bf);
    buffer_put_u32_le(&mut buf, 0x54000060);
    buffer_put_u32_le(&mut buf, 0x10ffff9e);
    buffer_put_u32_le(&mut buf, 0xd61f01a0);
    buffer_put_u32_le(&mut buf, 0xf94003e0);
    buffer_put_u32_le(&mut buf, 0x910023ff);
    buffer_put_u32_le(&mut buf, 0xa9407bfd);
    buffer_put_u32_le(&mut buf, 0x910043ff);
    buffer_put_u32_le(&mut buf, 0xd65f03c0);
    assert(buffer_bytes(buf) =~= dlopen_stub(number));
    let frozen = buffer_freeze(buf);
    svc_memory.register_code(backend, handler, bytes_slice(&frozen))
}

/// Put the stub for a handler in place. Gives its address.
pub fn register(
    svc_memory: &mut SvcMemory,
    backend: &mut Backend,
    handler: SvcHandler,
    assembled: &[u8],
) -> (r: u64)
    requires
        can_register(old(backend)@, *old(svc_memory), handler, assembled@),
    ensures
        stub_registered(
            old(backend)@,
            *old(svc_memory),
            final(backend)@,
            *final(svc_memory),
            handler,
            assembled@,
            r,
        ),
{
    match handler {
        SvcHandler::DlOpen(_) => register_dlopen(svc_memory, backend, handler),
        SvcHandler::DlIteratePhdr => svc_memory.register_code(backend, handler, assembled),
        _ => svc_memory.register_svc(backend, handler),
    }
}

/// Whatever the library, something stands in for a symbol of the linker's own names;
/// and nothing stands in for any other symbol of any other library than the linker
/// library and the dynamic loading library.
pub proof fn law_linker_names_are_taken_over(ld: ArmLD64, lib: Seq<char>, symbol: Seq<char>)
    ensures
        begins_with(symbol, "__loader_"@) ==> ld.handler_for(lib, symbol) == Some(
            ld.loader_handler(symbol),
        ),
        !begins_with(symbol, "__loader_"@) && lib != "ld-android.so"@ && lib != "libdl.so"@
            ==> ld.handler_for(lib, symbol) is None,
{
}

/// What the C library reads from the shared record: a pointer to the auxiliary values
/// at its place, the first auxiliary value (the size of a page), the hardware
/// capabilities, and a generation that is not zero.
pub proof fn law_shared_globals_read(m: Machine)
    requires
        m.can_map(LOADER_SHARED_GLOBALS_ADDR as int, LOADER_SHARED_GLOBALS_SIZE as int),
    ensures
        ({
            let base = LOADER_SHARED_GLOBALS_ADDR as int;
            let placed = globals_placed(m);
            let table = base + AUXV_TABLE_OFF;
            &&& placed.read_u64(base + OFF_AUXV) == Some(table as u64)
            &&& placed.read_u64(base + OFF_TLS_GENERATION) == Some(1u64)
            &&& placed.read_u64(table) == Some(AT_PAGESZ)
            &&& placed.read_u64(table + 8) == Some(0x1000u64)
            &&& placed.read_u64(table + 16) == Some(AT_HWCAP)
            &&& placed.read_u64(table + 24) == Some(GUEST_HWCAP)
        }),
{
    let base = LOADER_SHARED_GLOBALS_ADDR as int;
    let placed = globals_placed(m);
    let page = shared_globals(base);
    lemma_globals_length(base);
    lemma_globals_pointers(base);
    lemma_globals_table(base);
    assert(placed.mapped(base, page.len() as int));
    assert(forall|i: int| 0 <= i < page.len() ==> #[trigger] placed.mem[base + i] == page[i]);
    lemma_word_in_page(placed, base, page, OFF_AUXV as int, (base + AUXV_TABLE_OFF) as u64);
    lemma_word_in_page(placed, base, page, OFF_TLS_GENERATION as int, 1);
    lemma_word_in_page(placed, base, page, AUXV_TABLE_OFF as int, AT_PAGESZ);
    lemma_word_in_page(placed, base, page, AUXV_TABLE_OFF + 8, 0x1000);
    lemma_word_in_page(placed, base, page, AUXV_TABLE_OFF + 16, AT_HWCAP);
    lemma_word_in_page(placed, base, page, AUXV_TABLE_OFF + 24, GUEST_HWCAP);
}

proof fn lemma_globals_length(base: int)
    ensures
        shared_globals(base).len() == 0x1000,
{
    reveal(shared_globals);
    reveal_strlit("aarch64");
    is_ascii_chars_encode_utf8("aarch64"@);
}

proof fn lemma_globals_pointers(base: int)
    ensures
        shared_globals(base).subrange(OFF_AUXV as int, OFF_AUXV + 8) == le64(
            (base + AUXV_TABLE_OFF) as u64,
        ),
        shared_globals(base).subrange(OFF_TLS_GENERATION as int, OFF_TLS_GENERATION + 8) == le64(1),
{
    reveal(shared_globals);
    lemma_globals_length(base);
    assert(shared_globals(base).subrange(OFF_AUXV as int, OFF_AUXV + 8) =~= le64(
        (base + AUXV_TABLE_OFF) as u64,
    ));
    assert(shared_globals(base).subrange(OFF_TLS_GENERATION as int, OFF_TLS_GENERATION + 8)
        =~= le64(1));
}

proof fn lemma_globals_table(base: int)
    ensures
        ({
            let page = shared_globals(base);
            let at = AUXV_TABLE_OFF as int;
            &&& page.subrange(at, at + 8) == le64(AT_PAGESZ)
            &&& page.subrange(at + 8, at + 16) == le64(0x1000)
            &&& page.subrange(at + 16, at + 24) == le64(AT_HWCAP)
            &&& page.subrange(at + 24, at + 32) == le64(GUEST_HWCAP)
        }),
{
    reveal(shared_globals);
    lemma_globals_length(base);
    let page = shared_globals(base);
    let at = AUXV_TABLE_OFF as int;
    let table = auxv_table(base);
    assert(table.len() == 96);
    assert(page.subrange(at, at + 96) =~= table);
    assert(page.subrange(at, at + 8) =~= page.subrange(at, at + 96).subrange(0, 8));
    assert(page.subrange(at + 8, at + 16) =~= page.subrange(at, at + 96).subrange(8, 16));
    assert(page.subrange(at + 16, at + 24) =~= page.subrange(at, at + 96).subrange(16, 24));
    assert(page.subrange(at + 24, at + 32) =~= page.subrange(at, at + 96).subrange(24, 32));
    assert(table.subrange(0, 8) =~= le64(AT_PAGESZ));
    assert(table.subrange(8, 16) =~= le64(0x1000));
    assert(table.subrange(16, 24) =~= le64(AT_HWCAP));
    assert(table.subrange(24, 32) =~= le64(GUEST_HWCAP));
}

proof fn lemma_word_in_page(m: Machine, base: int, page: Seq<u8>, off: int, v: u64)
    requires
        0 <= off,
        off + 8 <= page.len(),
        page.subrange(off, off + 8) == le64(v),
        forall|i: int| 0 <= i < page.len() ==> #[trigger] m.mem[base + i] == page[i],
        m.mapped(base, page.len() as int),
    ensures
        m.read_u64(base + off) == Some(v),
{
    assert(m.read(base + off, 8) =~= le64(v)) by {
        assert forall|i: int| 0 <= i < 8 implies m.mem[base + off + i] == le64(v)[i] by {
            assert(m.mem[base + (off + i)] == page[off + i]);
            assert(page.subrange(off, off + 8)[i] == page[off + i]);
        }
    }
    crate::le::law_le64_round_trip(v);
}

/// The number in a stub's trap leads back to the stub's handler. A plain stub traps at once
/// and returns; the stub that opens libraries keeps the frame and the link register first.
pub proof fn law_stub_finds_its_handler(
    m: Machine,
    svc: SvcMemory,
    m2: Machine,
    svc2: SvcMemory,
    handler: SvcHandler,
    assembled: Seq<u8>,
    r: u64,
)
    requires
        can_register(m, svc, handler, assembled),
        stub_registered(m, svc, m2, svc2, handler, assembled, r),
        handler !is DlIteratePhdr,
    ensures
        ({
            let at: int = if handler is DlOpen {
                r + 8
            } else {
                r as int
            };
            &&& m2.read_u32(at) matches Some(w)
            &&& w & 0xffe0_001f == 0xd400_0001
            &&& (w >> 5u32) & 0xffff < svc2.handlers@.len()
            &&& svc2.handlers@[((w >> 5u32) & 0xffff) as int] == handler
            &&& !(handler is DlOpen) ==> m2.read_u32(r + 4) == Some(0xd65f_03c0u32)
            &&& handler is DlOpen ==> m2.read_u32(r + 52) == Some(0xd65f_03c0u32)
            &&& forall|i: int|
                0 <= i < svc.handlers@.len() ==> #[trigger] svc2.handlers@[i] == svc.handlers@[i]
        }),
{
    let number = svc.handlers@.len() as u32;
    law_trap_number(number);
    if handler is DlOpen {
        let code = dlopen_stub(number);
        law_le32_round_trip(svc_insn(number));
        law_le32_round_trip(0xd65f03c0);
        assert(code.len() == 56);
        lemma_half_inside(m, r as int, code, 8);
        lemma_half_inside(m, r as int, code, 52);
        assert(code.subrange(8, 12) =~= le32(svc_insn(number)));
        assert(code.subrange(52, 56) =~= le32(0xd65f03c0));
    } else {
        law_plain_stub(m, r as int, number);
    }
}

/// Each handler stands in for the functions that it is meant for and for no others: opening
/// for `dlopen` and its extension, looking up for `dlsym` and its versioned form, and so on.
/// Those that need the error message get its place.
pub proof fn law_handlers_by_name(ld: ArmLD64, symbol: Seq<char>)
    requires
        ld.shared_globals != 0,
    ensures
        ({
            let h = ld.loader_handler(symbol);
            &&& h matches SvcHandler::DlOpen(a) ==> a == ld.error && (symbol == "__loader_dlopen"@
                || symbol == "__loader_android_dlopen_ext"@)
            &&& h matches SvcHandler::DlError(a) ==> a == ld.error && symbol == "__loader_dlerror"@
            &&& h matches SvcHandler::DlClose(a) ==> symbol == "__loader_dlclose"@
            &&& h is DlSym ==> symbol == "__loader_dlsym"@ || symbol == "__loader_dlvsym"@
            &&& h is DlAddr ==> symbol == "__loader_dladdr"@
            &&& h is DlIteratePhdr ==> symbol == "__loader_dl_iterate_phdr"@
            &&& h == SvcHandler::LoaderConst(0) ==> symbol != "__loader_dlopen"@ && symbol
                != "__loader_android_dlopen_ext"@ && symbol != "__loader_dlerror"@ && symbol
                != "__loader_dlclose"@ && symbol != "__loader_dlsym"@ && symbol
                != "__loader_dlvsym"@ && symbol != "__loader_dladdr"@ && symbol
                != "__loader_dl_iterate_phdr"@ && symbol != "__loader_shared_globals"@
            &&& h matches SvcHandler::LoaderConst(v) ==> v == 0 || bits_of_i64(v)
                == ld.shared_globals && symbol == "__loader_shared_globals"@ || v == 36 && symbol
                == "__loader_android_get_application_target_sdk_version"@
        }),
        ({
            let h = ld.libdl_handler(symbol);
            &&& h matches Some(SvcHandler::DlOpen(a)) ==> a == ld.error && (symbol == "dlopen"@
                || symbol == "android_dlopen_ext"@)
            &&& h matches Some(SvcHandler::DlError(a)) ==> a == ld.error && symbol == "dlerror"@
            &&& h matches Some(SvcHandler::DlClose(a)) ==> symbol == "dlclose"@
            &&& h == Some(SvcHandler::DlSym) ==> symbol == "dlsym"@ || symbol == "dlvsym"@
            &&& h == Some(SvcHandler::DlAddr) ==> symbol == "dladdr"@
            &&& h == Some(SvcHandler::DlIteratePhdr) ==> symbol == "dl_iterate_phdr"@
            &&& h == Some(SvcHandler::DlUnwindFindExidx) ==> symbol == "dl_unwind_find_exidx"@
            &&& h matches Some(SvcHandler::LoaderConst(v)) ==> v == 36 && symbol
                == "android_get_application_target_sdk_version"@
            &&& h is None ==> symbol != "dlopen"@ && symbol != "android_dlopen_ext"@ && symbol
                != "dlerror"@ && symbol != "dlclose"@ && symbol != "dlsym"@ && symbol != "dlvsym"@
                && symbol != "dladdr"@ && symbol != "dl_iterate_phdr"@ && symbol
                != "dl_unwind_find_exidx"@
        }),
{
}

/// Where the C library looks in the shared record, by address: the pointer at 0x418 leads to
/// the auxiliary values, which give the page size under six, and under 25 and 15 the places
/// of the random bytes and of the platform's name; the generation at 0x478 is one.
#[verifier::rlimit(40)]
pub proof fn law_shared_record(m: Machine)
    requires
        m.can_map(0xfffd_0000, 0x1000),
    ensures
        ({
            let placed = globals_placed(m);
            &&& placed.read_u64(0xfffd_0418) == Some(0xfffd_0800u64)
            &&& placed.read_u64(0xfffd_0478) == Some(1u64)
            &&& placed.read_u64(0xfffd_0800) == Some(6u64)
            &&& placed.read_u64(0xfffd_0808) == Some(4096u64)
            &&& placed.read_u64(0xfffd_0810) == Some(16u64)
            &&& placed.read_u64(0xfffd_0830) == Some(25u64)
            &&& placed.read_u64(0xfffd_0838) == Some(0xfffd_08c0u64)
            &&& placed.read_u64(0xfffd_0840) == Some(15u64)
            &&& leads_to(placed, 0xfffd_0848, "aarch64"@)
            &&& placed.read_u64(0xfffd_0850) == Some(0u64)
            &&& placed.prot[0xfffd0] == 3
        }),
{
    let base = LOADER_SHARED_GLOBALS_ADDR as int;
    let placed = globals_placed(m);
    let page = shared_globals(base);
    law_shared_globals_read(m);
    lemma_globals_length(base);
    lemma_globals_rest(base);
    assert(placed.mapped(base, page.len() as int));
    assert(forall|i: int| 0 <= i < page.len() ==> #[trigger] placed.mem[base + i] == page[i]);
    lemma_word_in_page(placed, base, page, 0x830, 25);
    lemma_word_in_page(placed, base, page, 0x838, 0xfffd_08c0);
    lemma_word_in_page(placed, base, page, 0x840, 15);
    lemma_word_in_page(placed, base, page, 0x848, 0xfffd_08d0);
    lemma_word_in_page(placed, base, page, 0x850, 0);
    let text = c_bytes("aarch64"@);
    assert(placed.read(base + 0x8d0, text.len()) =~= text) by {
        assert forall|i: int| 0 <= i < text.len() implies #[trigger] placed.read(
            base + 0x8d0,
            text.len(),
        )[i] == text[i] by {
            assert(placed.mem[base + (0x8d0 + i)] == page[0x8d0 + i]);
            assert(page.subrange(0x8d0, 0x8d8)[i] == page[0x8d0 + i]);
        }
    }
    lemma_text_stands(placed, 0xfffd_08d0, "aarch64"@);
}

proof fn lemma_globals_rest(base: int)
    requires
        base == 0xfffd_0000,
    ensures
        ({
            let page = shared_globals(base);
            &&& page.len() == 0x1000
            &&& page.subrange(0x830, 0x838) == le64(25)
            &&& page.subrange(0x838, 0x840) == le64(0xfffd_08c0)
            &&& page.subrange(0x840, 0x848) == le64(15)
            &&& page.subrange(0x848, 0x850) == le64(0xfffd_08d0)
            &&& page.subrange(0x850, 0x858) == le64(0)
            &&& page.subrange(0x8d0, 0x8d8) == c_bytes("aarch64"@)
            &&& c_bytes("aarch64"@).len() == 8
        }),
{
    reveal(shared_globals);
    reveal_strlit("aarch64");
    is_ascii_chars_encode_utf8("aarch64"@);
    lemma_globals_length(base);
    let page = shared_globals(base);
    let table = auxv_table(base);
    assert(table.len() == 96);
    assert(page.subrange(0x800, 0x860) =~= table);
    assert(page.subrange(0x830, 0x838) =~= page.subrange(0x800, 0x860).subrange(48, 56));
    assert(page.subrange(0x838, 0x840) =~= page.subrange(0x800, 0x860).subrange(56, 64));
    assert(page.subrange(0x840, 0x848) =~= page.subrange(0x800, 0x860).subrange(64, 72));
    assert(page.subrange(0x848, 0x850) =~= page.subrange(0x800, 0x860).subrange(72, 80));
    assert(page.subrange(0x850, 0x858) =~= page.subrange(0x800, 0x860).subrange(80, 88));
    assert(table.subrange(48, 56) =~= le64(25));
    assert(table.subrange(56, 64) =~= le64(0xfffd_08c0));
    assert(table.subrange(64, 72) =~= le64(15));
    assert(table.subrange(72, 80) =~= le64(0xfffd_08d0));
    assert(table.subrange(80, 88) =~= le64(0));
    assert(page.subrange(0x8d0, 0x8d8) =~= c_bytes("aarch64"@));
}

} // verus!
