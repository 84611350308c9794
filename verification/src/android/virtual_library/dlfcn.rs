//! The functions of dynamic loading, as the traps of their stubs handle them.
use vstd::prelude::*;
use vstd::utf8::is_ascii_chars;
use crate::backend::{Backend, Machine, RegisterARM64};
use crate::elf::{first_covering, law_first_symbols, ElfSymbol};
use crate::emulator::state::AndroidEmulator;
use crate::le::{le64, put_le64, un_le64};
use crate::linux::errno::{errno_number, Errno};
use crate::linux::module::{path_of, LinuxModule};
use crate::memory::loader::{law_module_for_address, module_holding};
use crate::memory::stack::{c_bytes, c_string_bytes, leads_to, lemma_text_stands, text_stands};
use crate::memory::svc_memory::SvcCallResult;
use crate::num::{from_bits_i64, i64_of_bits};
use crate::outside::index_entries;
use crate::text::{ends_with, finishes_with, join2};

verus! {

/// A fixed number.
pub struct LoaderConst {
    pub ret: i64,
}

impl LoaderConst {
    pub fn handle(&self) -> (r: SvcCallResult)
        ensures
            r == SvcCallResult::RET(self.ret),
    {
        SvcCallResult::RET(self.ret)
    }
}

/// Shows the last error: the address of its message.
pub struct DlError(pub u64);

impl DlError {
    pub fn handle(&self) -> (r: SvcCallResult)
        ensures
            r == SvcCallResult::RET(i64_of_bits(self.0)),
    {
        SvcCallResult::RET(from_bits_i64(self.0))
    }
}

/// Closes a library: always done.
pub struct DlClose(pub u64);

impl DlClose {
    pub fn handle(&self) -> (r: SvcCallResult)
        ensures
            r == SvcCallResult::RET(0),
    {
        SvcCallResult::RET(0)
    }
}

/// Looks a symbol up: none is ever there.
pub struct DlSym;

impl DlSym {
    pub fn handle(&self) -> (r: SvcCallResult)
        ensures
            r == SvcCallResult::RET(0),
    {
        SvcCallResult::RET(0)
    }
}

/// Finds unwinding tables: none are ever there.
pub struct DlUnwindFindExidx;

impl DlUnwindFindExidx {
    pub fn handle(&self) -> (r: SvcCallResult)
        ensures
            r == SvcCallResult::RET(0),
    {
        SvcCallResult::RET(0)
    }
}

/// Opens a library, which always fails. Holds the address of the error message.
pub struct DlOpen(pub u64);

/// The message of a failed opening.
pub open spec fn dlopen_message(name: Seq<char>) -> Seq<char> {
    "dlopen failed: "@ + name
}

/// The machine after the stub was told that no function is to be called and that the
/// result is zero.
pub open spec fn nothing_opened(m: Machine) -> Machine {
    let sp = m.reg(RegisterARM64::SP);
    m.write(sp - 8, le64(0)).write(sp - 16, le64(0)).set_reg(
        RegisterARM64::SP,
        (sp - 16) as u64,
    )
}

/// The machine after an opening of the library `name` failed. The error message stands at
/// `at`.
pub open spec fn opening_refused(m: Machine, e: AndroidEmulator, name: Seq<char>, at: u64) -> Machine {
    let noent = errno_number(Errno::ENOENT) as int;
    if !is_ascii_chars(name) {
        e.errno_told(nothing_opened(m), noent)
    } else if finishes_with(name, "libnetd_client.so"@) {
        nothing_opened(m)
    } else {
        e.errno_told(
            nothing_opened(m.try_write(at as int, c_bytes(dlopen_message(name)))),
            noent,
        )
    }
}

impl DlOpen {
    /// Open the library whose name is at `X0`. One library is silently not there; for
    /// every other name an error number is set, and where the name is plain text the
    /// message too.
    pub fn handle(&self, backend: &mut Backend, emulator: &AndroidEmulator) -> (r:
        SvcCallResult)
        requires
            old(backend)@.c_text(old(backend)@.reg(RegisterARM64::X0) as int) is Some,
            old(backend)@.reg(RegisterARM64::SP) >= 16,
            old(backend)@.mapped(old(backend)@.reg(RegisterARM64::SP) - 16, 16),
        ensures
            r == SvcCallResult::RET(0),
            final(backend)@ == opening_refused(
                old(backend)@,
                *emulator,
                old(backend)@.c_text(old(backend)@.reg(RegisterARM64::X0) as int)->0,
                self.0,
            ),
    {
        let name = backend.mem_read_c_string(backend.reg_read(RegisterARM64::X0)).unwrap();
        let sp: u64 = backend.reg_read(RegisterARM64::SP);
        let ghost m = backend@;
        let plain = name.as_str().is_ascii();
        let silent = plain && ends_with(name.as_str(), "libnetd_client.so");
        if plain && !silent {
            let message = join2("dlopen failed: ", name.as_str());
            let text = c_string_bytes(message.as_str());
            backend.mem_try_write(self.0, text.as_slice());
        }
        let ghost m1 = backend@;
        assert(m1.mem.dom() =~= m.mem.dom());
        backend.mem_write(sp - 8, put_le64(0).as_slice()).unwrap();
        assert(backend@.mem.dom() =~= m.mem.dom());
        backend.mem_write(sp - 16, put_le64(0).as_slice()).unwrap();
        backend.reg_write(RegisterARM64::SP, sp - 16);
        if !silent {
            emulator.set_errno(backend, Errno::ENOENT.as_i32());
        }
        SvcCallResult::RET(0)
    }
}

/// What is known of an address: the module's path and place, and the symbol's name and
/// place.
pub struct AddressInfo {
    pub path: Seq<char>,
    pub base: u64,
    pub name: Seq<char>,
    pub addr: u64,
}

/// The symbol of a module that holds an address, and the name it goes by.
pub open spec fn closest_symbol(m: LinuxModule, addr: u64) -> Option<(Seq<char>, ElfSymbol)> {
    match m.dynsym {
        Some(table) if addr >= m.base => match first_covering(
            table.entries@,
            (addr - m.base) as u64,
            0,
        ) {
            Some(i) => {
                let e = table.entries@[i];
                Some(
                    (
                        if addr >= m.base + m.entry_point && m.entry_point > e.symbol.value {
                            "start"@
                        } else {
                            e.name@
                        },
                        e.symbol,
                    ),
                )
            },
            None => None,
        },
        _ => None,
    }
}

/// What is known of an address that lies in a module. Where no symbol holds it, the
/// module's entry stands for one.
pub open spec fn address_info(e: AndroidEmulator, addr: u64) -> Option<AddressInfo> {
    match module_holding(index_entries(e.memory.modules), e.memory.list@, addr, 0) {
        None => None,
        Some(i) => {
            let m = e.memory.list@[i as int];
            let path = path_of(m.name@, e.proc_name@);
            match closest_symbol(m, addr) {
                Some((name, symbol)) => Some(
                    AddressInfo {
                        path,
                        base: m.virtual_base,
                        name,
                        addr: (m.base + symbol.value) as u64,
                    },
                ),
                None => Some(
                    AddressInfo {
                        path,
                        base: m.virtual_base,
                        name: "start"@,
                        addr: m.entry_point,
                    },
                ),
            }
        },
    }
}

/// The bytes of two texts one after the other, each with a zero after it.
pub open spec fn two_texts(a: Seq<char>, b: Seq<char>) -> Seq<u8> {
    c_bytes(a) + c_bytes(b)
}

/// The record that the guest gets of an address, where the texts stand at `block`.
pub open spec fn dl_info(info: AddressInfo, block: int) -> Seq<u8> {
    le64(block as u64) + le64(info.base) + le64(
        (block + c_bytes(info.path).len()) as u64,
    ) + le64(info.addr)
}

/// The machine after the guest was told what is known of an address: the record goes to
/// `at`, its texts to `block`.
pub open spec fn address_told(m: Machine, info: AddressInfo, at: int, block: int) -> Machine {
    m.write(block, two_texts(info.path, info.name)).write(at, dl_info(info, block))
}

/// Says what is known of an address.
pub struct DlAddr;

/// What is known of an address.
struct KnownAddress {
    path: String,
    base: u64,
    name: String,
    addr: u64,
}

/// Every module that holds the address has its entry in the address space.
pub open spec fn entry_fits(e: AndroidEmulator, addr: u64) -> bool {
    module_holding(index_entries(e.memory.modules), e.memory.list@, addr, 0) matches Some(i)
        ==> e.memory.list@[i as int].base + e.memory.list@[i as int].entry_point <= u64::MAX
}

fn look_address_up(emulator: &AndroidEmulator, addr: u64) -> (r: Option<KnownAddress>)
    requires
        emulator.wf(),
        entry_fits(*emulator, addr),
    ensures
        match address_info(*emulator, addr) {
            Some(info) => {
                &&& r matches Some(k)
                &&& k.path@ == info.path
                &&& k.base == info.base
                &&& k.name@ == info.name
                &&& k.addr == info.addr
            },
            None => r is None,
        },
{
    let i: usize = match emulator.memory.find_module_by_address(addr) {
        Some(i) => i,
        None => {
            return None;
        },
    };
    let module = &emulator.memory.list[i];
    let path = module.path(emulator.proc_name.as_str());
    match module.find_symbol_by_closest_addr(addr) {
        Ok(symbol) => Some(
            KnownAddress {
                path,
                base: module.virtual_base,
                addr: symbol.address(),
                name: symbol.name,
            },
        ),
        Err(_) => Some(
            KnownAddress {
                path,
                base: module.virtual_base,
                name: "start".to_owned(),
                addr: module.entry_point,
            },
        ),
    }
}

impl DlAddr {
    /// How many bytes of guest memory the texts for the address in `X0` need; none
    /// where nothing is known of it.
    pub fn room(&self, backend: &Backend, emulator: &AndroidEmulator) -> (r: Option<usize>)
        requires
            emulator.wf(),
            entry_fits(*emulator, backend@.reg(RegisterARM64::X0)),
            address_info(*emulator, backend@.reg(RegisterARM64::X0)) matches Some(info)
                ==> two_texts(info.path, info.name).len() <= usize::MAX,
        ensures
            match address_info(*emulator, backend@.reg(RegisterARM64::X0)) {
                Some(info) => r == Some(two_texts(info.path, info.name).len() as usize),
                None => r is None,
            },
    {
        match look_address_up(emulator, backend.reg_read(RegisterARM64::X0)) {
            Some(k) => {
                let a: usize = k.path.as_str().as_bytes().len();
                let b: usize = k.name.as_str().as_bytes().len();
                Some(a + 1 + b + 1)
            },
            None => None,
        }
    }

    /// Say what is known of the address in `X0`: the record goes to `X1`, and its texts
    /// to `block`, which has room for them. Gives one where something is known.
    pub fn handle(&self, backend: &mut Backend, emulator: &AndroidEmulator, block: u64) -> (r:
        SvcCallResult)
        requires
            emulator.wf(),
            entry_fits(*emulator, old(backend)@.reg(RegisterARM64::X0)),
            address_info(*emulator, old(backend)@.reg(RegisterARM64::X0)) matches Some(info) ==> {
                let texts = two_texts(info.path, info.name);
                &&& block + texts.len() <= u64::MAX
                &&& old(backend)@.mapped(block as int, texts.len() as int)
                &&& old(backend)@.mapped(old(backend)@.reg(RegisterARM64::X1) as int, 32)
            },
        ensures
            ({
                let m = old(backend)@;
                match address_info(*emulator, m.reg(RegisterARM64::X0)) {
                    Some(info) => {
                        &&& r == SvcCallResult::RET(1)
                        &&& final(backend)@ == address_told(
                            m,
                            info,
                            m.reg(RegisterARM64::X1) as int,
                            block as int,
                        )
                    },
                    None => r == SvcCallResult::RET(0) && final(backend)@ == m,
                }
            }),
    {
        let addr: u64 = backend.reg_read(RegisterARM64::X0);
        let info_ptr: u64 = backend.reg_read(RegisterARM64::X1);
        let known = match look_address_up(emulator, addr) {
            Some(k) => k,
            None => {
                return SvcCallResult::RET(0);
            },
        };
        let ghost info = address_info(*emulator, addr)->0;
        let ghost m = backend@;
        let mut texts = c_string_bytes(known.path.as_str());
        let second: usize = texts.len();
        texts.extend_from_slice(c_string_bytes(known.name.as_str()).as_slice());
        assert(texts@ =~= two_texts(info.path, info.name));
        backend.mem_write(block, texts.as_slice()).unwrap();
        let mut record = put_le64(block);
        record.extend_from_slice(put_le64(known.base).as_slice());
        record.extend_from_slice(put_le64(block + second as u64).as_slice());
        record.extend_from_slice(put_le64(known.addr).as_slice());
        assert(record@ =~= dl_info(info, block as int));
        assert(backend@.mem.dom() =~= m.mem.dom());
        backend.mem_write(info_ptr, record.as_slice()).unwrap();
        SvcCallResult::RET(1)
    }
}

/// The record of an address, as the guest reads it: its first word leads to the module's path,
/// the second is the module's place, the third leads to the symbol's name and the fourth is
/// the symbol's place. Each text has a zero after it.
pub proof fn law_address_record(m: Machine, info: AddressInfo, at: int, block: int)
    requires
        ({
            let texts = two_texts(info.path, info.name);
            &&& 0 <= block
            &&& block + texts.len() <= u64::MAX
            &&& m.mapped(block, texts.len() as int)
            &&& m.mapped(at, 32)
            &&& at + 32 <= block || block + texts.len() <= at
        }),
    ensures
        ({
            let after = address_told(m, info, at, block);
            &&& leads_to(after, at, info.path)
            &&& after.read_u64(at + 8) == Some(info.base)
            &&& leads_to(after, at + 16, info.name)
            &&& after.read_u64(at + 24) == Some(info.addr)
            &&& after.regs == m.regs
        }),
{
    let texts = two_texts(info.path, info.name);
    let second = block + c_bytes(info.path).len();
    lemma_dl_info(info, block);
    lemma_record_told(m, texts, dl_info(info, block), at, block);
    lemma_two_texts(address_told(m, info, at, block), block, info.path, info.name);
}

/// The record's words and the texts after both were stored.
proof fn lemma_record_told(m: Machine, texts: Seq<u8>, data: Seq<u8>, at: int, block: int)
    requires
        m.mapped(block, texts.len() as int),
        m.mapped(at, 32),
        data.len() == 32,
        at + 32 <= block || block + texts.len() <= at,
    ensures
        ({
            let after = m.write(block, texts).write(at, data);
            &&& after.read_u64(at) == Some(un_le64(data.subrange(0, 8)))
            &&& after.read_u64(at + 8) == Some(un_le64(data.subrange(8, 16)))
            &&& after.read_u64(at + 16) == Some(un_le64(data.subrange(16, 24)))
            &&& after.read_u64(at + 24) == Some(un_le64(data.subrange(24, 32)))
            &&& after.read(block, texts.len()) == texts
            &&& after.regs == m.regs
        }),
{
    let m1 = m.write(block, texts);
    lemma_stored_apart(m, block, texts, at, data);
    crate::backend::lemma_word_inside(m1, at, data, 0);
    crate::backend::lemma_word_inside(m1, at, data, 8);
    crate::backend::lemma_word_inside(m1, at, data, 16);
    crate::backend::lemma_word_inside(m1, at, data, 24);
}

/// The words of a record.
proof fn lemma_dl_info(info: AddressInfo, block: int)
    ensures
        ({
            let data = dl_info(info, block);
            let second = (block + c_bytes(info.path).len()) as u64;
            &&& data.len() == 32
            &&& un_le64(data.subrange(0, 8)) == block as u64
            &&& un_le64(data.subrange(8, 16)) == info.base
            &&& un_le64(data.subrange(16, 24)) == second
            &&& un_le64(data.subrange(24, 32)) == info.addr
        }),
{
    let a = block as u64;
    let c = (block + c_bytes(info.path).len()) as u64;
    let data = dl_info(info, block);
    crate::le::law_le64_round_trip(a);
    crate::le::law_le64_round_trip(info.base);
    crate::le::law_le64_round_trip(c);
    crate::le::law_le64_round_trip(info.addr);
    assert(data.subrange(0, 8) =~= le64(a));
    assert(data.subrange(8, 16) =~= le64(info.base));
    assert(data.subrange(16, 24) =~= le64(c));
    assert(data.subrange(24, 32) =~= le64(info.addr));
}

/// Bytes that were stored stand after other bytes were stored apart from them.
proof fn lemma_stored_apart(m: Machine, block: int, texts: Seq<u8>, at: int, data: Seq<u8>)
    requires
        m.mapped(block, texts.len() as int),
        m.mapped(at, data.len() as int),
        at + data.len() <= block || block + texts.len() <= at,
    ensures
        m.write(block, texts).mapped(at, data.len() as int),
        m.write(block, texts).write(at, data).read(block, texts.len()) == texts,
        m.write(block, texts).write(at, data).regs == m.regs,
{
    let m1 = m.write(block, texts);
    let after = m1.write(at, data);
    crate::backend::law_write_then_read(m, block, texts, 0);
    assert(after.read(block, texts.len()) =~= texts) by {
        assert forall|i: int| 0 <= i < texts.len() implies #[trigger] after.read(
            block,
            texts.len(),
        )[i] == texts[i] by {
            assert(m.mem.dom().contains(block + i));
        }
    }
}

#[verifier::rlimit(40)]
proof fn lemma_two_texts(after: Machine, block: int, a: Seq<char>, b: Seq<char>)
    requires
        after.read(block, two_texts(a, b).len()) == two_texts(a, b),
    ensures
        text_stands(after, block, a),
        text_stands(after, block + c_bytes(a).len(), b),
{
    let texts = two_texts(a, b);
    let first = c_bytes(a);
    let last = c_bytes(b);
    let second = block + first.len();
    assert(after.read(block, first.len()) =~= first) by {
        assert forall|i: int| 0 <= i < first.len() implies #[trigger] after.read(
            block,
            first.len(),
        )[i] == first[i] by {
            assert(after.read(block, texts.len())[i] == texts[i]);
        }
    }
    assert(after.read(second, last.len()) =~= last) by {
        assert forall|i: int| 0 <= i < last.len() implies #[trigger] after.read(
            second,
            last.len(),
        )[i] == last[i] by {
            let k = i + first.len();
            assert(after.read(block, texts.len())[k] == texts[k]);
        }
    }
    lemma_text_stands(after, block, a);
    lemma_text_stands(after, second, b);
}

/// What is known of an address comes from the module that holds it: the module's place, and
/// the first of its symbols whose bytes hold the address, with the symbol's own place. Where
/// no symbol does, the module's entry stands for one. Of an address outside all modules
/// nothing is known.
pub proof fn law_known_address(e: AndroidEmulator, addr: u64)
    ensures
        ({
            let found = module_holding(
                index_entries(e.memory.modules),
                e.memory.list@,
                addr,
                0,
            );
            let m = e.memory.list@[found->0 as int];
            &&& found is None <==> address_info(e, addr) is None
            &&& address_info(e, addr) matches Some(info) ==> {
                &&& m.base <= addr < m.base + m.size
                &&& info.base == m.virtual_base
                &&& info.path == path_of(m.name@, e.proc_name@)
                &&& m.dynsym is None ==> info.name == "start"@ && info.addr == m.entry_point
                &&& m.dynsym matches Some(table) ==> {
                    ||| info.name == "start"@ && info.addr == m.entry_point && forall|j: int|
                        0 <= j < table.entries@.len() ==> addr - m.base < (
                        #[trigger] table.entries@[j]).symbol.value
                            || table.entries@[j].symbol.value + table.entries@[j].symbol.size
                            <= addr - m.base
                    ||| exists|j: int|
                        0 <= j < table.entries@.len() && (#[trigger] table.entries@[j]).symbol.value
                            <= addr - m.base < table.entries@[j].symbol.value
                            + table.entries@[j].symbol.size && info.addr == m.base
                            + table.entries@[j].symbol.value && (info.name
                            == table.entries@[j].name@ || info.name == "start"@)
                }
            }
        }),
{
    law_module_for_address(index_entries(e.memory.modules), e.memory.list@, addr);
    let found = module_holding(index_entries(e.memory.modules), e.memory.list@, addr, 0);
    if let Some(i) = found {
        let m = e.memory.list@[i as int];
        if let Some(table) = m.dynsym {
            law_first_symbols(table.entries@, Seq::empty(), (addr - m.base) as u64);
        }
    }
}

/// A library is never opened: the stub finds two zero words on the stack, one for the function
/// that it is to call and one for the result. The guest's error number is two (no such file),
/// and the message says which library it was; one library is silently not there.
#[verifier::rlimit(40)]
pub proof fn law_failed_opening(b: Backend, e: AndroidEmulator, name: Seq<char>, at: u64)
    requires
        ({
            let m = b@;
            let sp = m.reg(RegisterARM64::SP);
            let text = c_bytes("dlopen failed: "@ + name);
            &&& sp >= 16
            &&& m.mapped(sp - 16, 16)
            &&& e.errno + 4 <= sp - 16 || sp <= e.errno
            &&& at + text.len() <= sp - 16 || sp <= at
            &&& at + text.len() <= e.errno || e.errno + 4 <= at
            &&& m.mapped(at as int, text.len() as int)
            &&& m.mapped(e.errno as int, 4)
        }),
    ensures
        ({
            let m = b@;
            let after = opening_refused(m, e, name, at);
            let sp = after.reg(RegisterARM64::SP) as int;
            &&& sp == m.reg(RegisterARM64::SP) - 16
            &&& after.read_u64(sp) == Some(0u64)
            &&& after.read_u64(sp + 8) == Some(0u64)
            &&& is_ascii_chars(name) && !finishes_with(name, "libnetd_client.so"@)
                ==> after.read_u32(e.errno as int) == Some(2u32) && text_stands(
                after,
                at as int,
                "dlopen failed: "@ + name,
            )
            &&& is_ascii_chars(name) && finishes_with(name, "libnetd_client.so"@)
                ==> after.read_u32(e.errno as int) == m.read_u32(e.errno as int)
        }),
{
    b.reg_slots();
    let m = b@;
    let sp = m.reg(RegisterARM64::SP) as int;
    let text = c_bytes("dlopen failed: "@ + name);
    let silent = is_ascii_chars(name) && finishes_with(name, "libnetd_client.so"@);
    let m1 = if is_ascii_chars(name) && !silent {
        m.try_write(at as int, text)
    } else {
        m
    };
    let zero = le64(0);
    let number = crate::le::le_i32(2);
    let m2 = m1.write(sp - 8, zero);
    let m3 = m2.write(sp - 16, zero);
    let m4 = m3.set_reg(RegisterARM64::SP, (sp - 16) as u64);
    assert(m4 == nothing_opened(m1));
    let after = opening_refused(m, e, name, at);
    crate::le::law_le64_round_trip(0);
    crate::le::law_le32_round_trip(2);
    assert(m1.mem.dom() =~= m.mem.dom());
    assert(m2.mem.dom() =~= m.mem.dom());
    assert(m3.mem.dom() =~= m.mem.dom());
    assert(m1.mapped(sp - 8, 8) && m2.mapped(sp - 16, 8)) by {
        assert forall|a: int| sp - 16 <= a < sp implies m.mem.dom().contains(a) by {}
    }
    crate::backend::lemma_word_stored(m1, sp - 8, 0);
    crate::backend::lemma_word_stored(m2, sp - 16, 0);
    crate::backend::lemma_word_apart(m2, sp - 16, zero, sp - 8);
    assert(m4.read_u64(sp - 16) == m3.read_u64(sp - 16));
    assert(m4.read_u64(sp - 8) == m3.read_u64(sp - 8));
    crate::backend::lemma_half_apart(m1, sp - 8, zero, e.errno as int);
    crate::backend::lemma_half_apart(m2, sp - 16, zero, e.errno as int);
    assert(m4.read_u32(e.errno as int) == m3.read_u32(e.errno as int));
    if silent {
        assert(after == m4);
    } else {
        assert(after == m4.try_write(e.errno as int, number));
        assert(m4.mapped(e.errno as int, 4));
        crate::backend::lemma_word_apart(m4, e.errno as int, number, sp - 16);
        crate::backend::lemma_word_apart(m4, e.errno as int, number, sp - 8);
        crate::backend::lemma_half_inside(m4, e.errno as int, number, 0);
        assert(number.subrange(0, 4) =~= number);
        if is_ascii_chars(name) {
            crate::backend::law_write_then_read(m, at as int, text, 0);
            assert(after.read(at as int, text.len()) =~= text) by {
                assert forall|i: int| 0 <= i < text.len() implies #[trigger] after.read(
                    at as int,
                    text.len(),
                )[i] == text[i] by {
                    assert(m.mem.dom().contains(at + i));
                    assert(m1.read(at as int, text.len())[i] == text[i]);
                }
            }
            lemma_text_stands(after, at as int, "dlopen failed: "@ + name);
        }
    }
}

} // verus!
