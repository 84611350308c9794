//! System properties.
//!
//! A property that the guest has found is a record of 192 bytes: a serial number,
//! whose high byte is the length of the value, the value at 4 and the name at 96, both
//! padded with zeros.
use vstd::prelude::*;
use vstd::utf8::encode_utf8;
use crate::backend::{
    law_pages_hold_their_bytes, Backend, BackendError, Machine, RegisterARM64,
};
use crate::le::{le32, put_le32, put_zeros, zeros};
use crate::memory::svc_memory::SvcCallResult;
use crate::num::{from_bits_i64, i64_of_bits, min_int};
use crate::text::str_eq;

verus! {

/// The most bytes that a value has.
pub const PROP_VALUE_LIMIT: usize = 91;

/// The most bytes that a name has in a record.
pub const PROP_NAME_LIMIT: usize = 95;

/// The size of a property record.
pub const PROP_INFO_SIZE: usize = 192;

/// The first bytes of a text, at most `limit`.
pub open spec fn cut_bytes(s: Seq<char>, limit: int) -> Seq<u8> {
    encode_utf8(s).take(min_int(encode_utf8(s).len() as int, limit))
}

fn cut(s: &str, limit: usize) -> (r: Vec<u8>)
    ensures
        r@ == cut_bytes(s@, limit as int),
        r@.len() <= limit,
{
    let bytes = s.as_bytes();
    let n: usize = if bytes.len() < limit {
        bytes.len()
    } else {
        limit
    };
    let mut r: Vec<u8> = Vec::new();
    r.extend_from_slice(vstd::slice::slice_subrange(bytes, 0, n));
    assert(r@ =~= cut_bytes(s@, limit as int));
    r
}

/// Bytes padded with zeros to a length.
pub open spec fn padded(s: Seq<u8>, n: int) -> Seq<u8> {
    s + zeros((n - s.len()) as nat)
}

/// The record of a property.
pub open spec fn prop_info(name: Seq<char>, value: Seq<char>) -> Seq<u8> {
    let v = cut_bytes(value, PROP_VALUE_LIMIT as int);
    le32((v.len() as u32) << 24u32) + padded(v, 92) + padded(
        cut_bytes(name, PROP_NAME_LIMIT as int),
        96,
    )
}

/// The record of a property.
pub fn pack_prop_info(name: &str, value: &str) -> (r: Vec<u8>)
    ensures
        r@ == prop_info(name@, value@),
        r@.len() == PROP_INFO_SIZE,
{
    let v = cut(value, PROP_VALUE_LIMIT);
    let n = cut(name, PROP_NAME_LIMIT);
    let vlen: usize = v.len();
    let nlen: usize = n.len();
    let mut r = put_le32((vlen as u32) << 24u32);
    r.extend_from_slice(v.as_slice());
    r.extend_from_slice(put_zeros(92 - vlen).as_slice());
    r.extend_from_slice(n.as_slice());
    r.extend_from_slice(put_zeros(96 - nlen).as_slice());
    assert(r@ =~= prop_info(name@, value@));
    r
}

/// The properties that every guest has.
pub open spec fn default_property(name: Seq<char>) -> Option<Seq<char>> {
    if name == "ro.build.version.sdk"@ || name == "ro.product.first_api_level"@ || name
        == "ro.board.first_api_level"@ || name == "ro.vendor.api_level"@ {
        Some("36"@)
    } else if name == "ro.build.version.release"@ {
        Some("16"@)
    } else if name == "ro.build.version.security_patch"@ {
        Some("2025-12-01"@)
    } else if name == "ro.product.cpu.abi"@ || name == "ro.product.cpu.abilist"@ {
        Some("arm64-v8a"@)
    } else if name == "ro.debuggable"@ {
        Some("0"@)
    } else if name == "ro.secure"@ || name == "ro.boot.flash.locked"@ {
        Some("1"@)
    } else if name == "ro.kernel.qemu"@ || name == "libc.debug.malloc"@ {
        Some(""@)
    } else if name == "ro.zygote"@ {
        Some("zygote64"@)
    } else if name == "ro.boot.verifiedbootstate"@ {
        Some("green"@)
    } else if name == "ro.boot.vbmeta.device_state"@ {
        Some("locked"@)
    } else if name == "sys.usb.state"@ {
        Some("adb"@)
    } else {
        None
    }
}

/// The value of a property that every guest has.
pub fn default_system_property(name: &str) -> (r: Option<&'static str>)
    ensures
        match r {
            Some(v) => default_property(name@) == Some(v@),
            None => default_property(name@) is None,
        },
{
    if str_eq(name, "ro.build.version.sdk") || str_eq(name, "ro.product.first_api_level") || str_eq(
        name,
        "ro.board.first_api_level",
    ) || str_eq(name, "ro.vendor.api_level") {
        Some("36")
    } else if str_eq(name, "ro.build.version.release") {
        Some("16")
    } else if str_eq(name, "ro.build.version.security_patch") {
        Some("2025-12-01")
    } else if str_eq(name, "ro.product.cpu.abi") || str_eq(name, "ro.product.cpu.abilist") {
        Some("arm64-v8a")
    } else if str_eq(name, "ro.debuggable") {
        Some("0")
    } else if str_eq(name, "ro.secure") || str_eq(name, "ro.boot.flash.locked") {
        Some("1")
    } else if str_eq(name, "ro.kernel.qemu") || str_eq(name, "libc.debug.malloc") {
        Some("")
    } else if str_eq(name, "ro.zygote") {
        Some("zygote64")
    } else if str_eq(name, "ro.boot.verifiedbootstate") {
        Some("green")
    } else if str_eq(name, "ro.boot.vbmeta.device_state") {
        Some("locked")
    } else if str_eq(name, "sys.usb.state") {
        Some("adb")
    } else {
        None
    }
}

/// The value of a property, where a service answered `reply`: the service goes before
/// what every guest has.
pub open spec fn property_of(name: Seq<char>, reply: Option<String>) -> Option<Seq<char>> {
    match reply {
        Some(v) => Some(v@),
        None => default_property(name),
    }
}

fn choose_property(name: &str, reply: Option<String>) -> (r: Option<String>)
    ensures
        match r {
            Some(v) => property_of(name@, reply) == Some(v@),
            None => property_of(name@, reply) is None,
        },
{
    match reply {
        Some(v) => Some(v),
        None => match default_system_property(name) {
            Some(v) => Some(v.to_owned()),
            None => None,
        },
    }
}

/// Both parts of a value, and the zero after it, can be stored.
pub open spec fn value_fits(m: Machine, addr: int, value: Seq<char>) -> bool {
    m.mapped(addr, cut_bytes(value, PROP_VALUE_LIMIT as int).len() as int + 1)
}

/// The machine after a value was stored with a zero after it. Where only the zero has
/// no room, the value is stored all the same.
pub open spec fn value_stored(m: Machine, addr: int, value: Seq<char>) -> Machine {
    let v = cut_bytes(value, PROP_VALUE_LIMIT as int);
    if m.mapped(addr, v.len() as int) {
        m.write(addr, v).try_write(addr + v.len(), seq![0u8])
    } else {
        m
    }
}

/// Store a value with a zero after it.
pub fn write_prop_value(backend: &mut Backend, addr: u64, value: &str) -> (r: Result<
    (),
    BackendError,
>)
    ensures
        final(backend)@ == value_stored(old(backend)@, addr as int, value@),
        r is Ok <==> value_fits(old(backend)@, addr as int, value@),
        r matches Err(e) ==> e == BackendError::Unmapped,
{
    let v = cut(value, PROP_VALUE_LIMIT);
    let n: u64 = v.len() as u64;
    let ghost m = backend@;
    proof {
        assert(m.mapped(addr as int, n + 1) <==> m.mapped(addr as int, n as int) && m.mapped(
            addr + n,
            1,
        )) by {
            if m.mapped(addr as int, n as int) && m.mapped(addr + n, 1) {
                assert forall|a: int| addr <= a < addr + n + 1 implies m.mem.dom().contains(a) by {
                    if a < addr + n {
                    } else {
                        assert(addr + n <= a < addr + n + 1);
                    }
                }
            }
        }
    }
    backend.mem_write(addr, v.as_slice())?;
    if n > u64::MAX - addr {
        proof {
            law_pages_hold_their_bytes(*old(backend), addr + n);
        }
        return Err(BackendError::Unmapped);
    }
    let mut zero: Vec<u8> = Vec::new();
    zero.push(0);
    assert(zero@ =~= seq![0u8]);
    assert(m.write(addr as int, v@).mem.dom() =~= m.mem.dom());
    backend.mem_write(addr + n, zero.as_slice())
}

/// Properties by name, asked of a service first. A service gives nothing where it
/// knows no such property.
pub struct SystemPropertyGet<F>(pub Option<F>);

pub struct SystemPropertyFind<F>(pub Option<F>);

pub struct SystemPropertyRead<F>(pub Option<F>);

/// A service can be asked for every name.
pub open spec fn service_ready<F: Fn(&str) -> Option<String>>(service: Option<F>) -> bool {
    service matches Some(f) ==> forall|name: &str| #[trigger] call_requires(f, (name,))
}

/// `reply` is what a service may answer when it is asked for a name.
pub open spec fn service_replied<F: Fn(&str) -> Option<String>>(
    service: Option<F>,
    name: Seq<char>,
    reply: Option<String>,
) -> bool {
    match service {
        Some(f) => exists|n: &str| n@ == name && #[trigger] call_ensures(f, (n,), reply),
        None => reply is None,
    }
}

fn ask_service<F: Fn(&str) -> Option<String>>(service: &Option<F>, name: &str) -> (r: Option<
    String,
>)
    requires
        service_ready(*service),
    ensures
        service_replied(*service, name@, r),
{
    match service {
        Some(f) => {
            let r = f(name);
            assert(call_ensures(*f, (name,), r));
            r
        },
        None => None,
    }
}

/// The name at the address in `X0`, if it can be read.
pub open spec fn asked_name(m: Machine) -> Option<Seq<char>> {
    m.c_text(m.reg(RegisterARM64::X0) as int)
}

/// The value of a property for the guest that asks by name: no value is empty.
pub open spec fn value_or_empty(name: Seq<char>, reply: Option<String>) -> Seq<char> {
    match property_of(name, reply) {
        Some(v) => v,
        None => Seq::empty(),
    }
}

/// What getting a property comes to, where the service answered `reply`.
pub open spec fn property_got(
    m: Machine,
    m2: Machine,
    r: SvcCallResult,
    reply: Option<String>,
) -> bool {
    let value = value_or_empty(asked_name(m)->0, reply);
    let at = m.reg(RegisterARM64::X1) as int;
    &&& m2 == value_stored(m, at, value)
    &&& r == if value_fits(m, at, value) {
        SvcCallResult::RET(cut_bytes(value, PROP_VALUE_LIMIT as int).len() as i64)
    } else {
        SvcCallResult::Fault
    }
}

/// Store the value of the property `name` at `X1` and give its length.
pub fn tell_property(backend: &mut Backend, name: &str, reply: Option<String>) -> (r: SvcCallResult)
    requires
        asked_name(old(backend)@) == Some(name@),
    ensures
        property_got(old(backend)@, final(backend)@, r, reply),
{
    let at: u64 = backend.reg_read(RegisterARM64::X1);
    let value = match choose_property(name, reply) {
        Some(v) => v,
        None => {
            proof {
                reveal_strlit("");
                assert(""@ =~= Seq::<char>::empty());
            }
            "".to_owned()
        },
    };
    if write_prop_value(backend, at, value.as_str()).is_err() {
        return SvcCallResult::Fault;
    }
    let len: usize = value.as_str().as_bytes().len();
    SvcCallResult::RET(
        if len < PROP_VALUE_LIMIT {
            len as i64
        } else {
            91
        },
    )
}

impl<F: Fn(&str) -> Option<String>> SystemPropertyGet<F> {
    pub fn new(service: Option<F>) -> (r: Self)
        ensures
            r.0 == service,
    {
        SystemPropertyGet(service)
    }

    /// Get the property whose name is at `X0`.
    pub fn handle(&self, backend: &mut Backend) -> (r: SvcCallResult)
        requires
            service_ready(self.0),
        ensures
            match asked_name(old(backend)@) {
                None => r == SvcCallResult::Fault && final(backend)@ == old(backend)@,
                Some(name) => exists|reply: Option<String>|
                    service_replied(self.0, name, reply) && #[trigger] property_got(
                        old(backend)@,
                        final(backend)@,
                        r,
                        reply,
                    ),
            },
    {
        let name = match backend.mem_read_c_string(backend.reg_read(RegisterARM64::X0)) {
            Ok(name) => name,
            Err(_) => {
                return SvcCallResult::Fault;
            },
        };
        let reply = ask_service(&self.0, name.as_str());
        tell_property(backend, name.as_str(), reply)
    }
}

/// The property that no guest finds.
pub const HIDDEN_PROPERTY: &'static str = "debug.atrace.tags.enableflags";

/// What looking a property up gives.
pub enum PropertyLookup {
    /// The name cannot be read.
    Fault,
    /// There is no such property.
    Absent,
    /// The record of the property, which needs a place in guest memory.
    Info(Vec<u8>),
}

/// What looking a property up gives, where the service answered `reply`.
pub open spec fn looked_up(m: Machine, r: PropertyLookup, reply: Option<String>) -> bool {
    match property_of(asked_name(m)->0, reply) {
        Some(value) => r matches PropertyLookup::Info(info) && info@ == prop_info(
            asked_name(m)->0,
            value,
        ),
        None => r is Absent,
    }
}

/// Look the property `name` up.
pub fn lookup_property(backend: &Backend, name: &str, reply: Option<String>) -> (r: PropertyLookup)
    requires
        asked_name(backend@) == Some(name@),
    ensures
        looked_up(backend@, r, reply),
{
    match choose_property(name, reply) {
        Some(value) => PropertyLookup::Info(pack_prop_info(name, value.as_str())),
        None => PropertyLookup::Absent,
    }
}

/// What finding a property comes to: the place of its record, or zero. `block` is the
/// place for the record, where there is one.
pub open spec fn property_found(
    m: Machine,
    m2: Machine,
    lookup: PropertyLookup,
    block: Option<u64>,
    r: SvcCallResult,
) -> bool {
    match lookup {
        PropertyLookup::Fault => r == SvcCallResult::Fault && m2 == m,
        PropertyLookup::Absent => r == SvcCallResult::RET(0) && m2 == m,
        PropertyLookup::Info(info) => match block {
            Some(at) if m.mapped(at as int, info@.len() as int) => {
                &&& r == SvcCallResult::RET(i64_of_bits(at))
                &&& m2 == m.write(at as int, info@)
            },
            _ => r == SvcCallResult::Fault && m2 == m,
        },
    }
}

impl<F: Fn(&str) -> Option<String>> SystemPropertyFind<F> {
    pub fn new(service: Option<F>) -> (r: Self)
        ensures
            r.0 == service,
    {
        SystemPropertyFind(service)
    }

    /// Look up the property whose name is at `X0`.
    pub fn lookup(&self, backend: &Backend) -> (r: PropertyLookup)
        requires
            service_ready(self.0),
        ensures
            match asked_name(backend@) {
                None => r is Fault,
                Some(name) => if name == HIDDEN_PROPERTY@ {
                    r is Absent
                } else {
                    exists|reply: Option<String>|
                        service_replied(self.0, name, reply) && #[trigger] looked_up(
                            backend@,
                            r,
                            reply,
                        )
                },
            },
    {
        let name = match backend.mem_read_c_string(backend.reg_read(RegisterARM64::X0)) {
            Ok(name) => name,
            Err(_) => {
                return PropertyLookup::Fault;
            },
        };
        if str_eq(name.as_str(), HIDDEN_PROPERTY) {
            return PropertyLookup::Absent;
        }
        let reply = ask_service(&self.0, name.as_str());
        lookup_property(backend, name.as_str(), reply)
    }

    /// Answer with what was looked up. Its record goes to `block`.
    pub fn handle(&self, backend: &mut Backend, lookup: PropertyLookup, block: Option<u64>) -> (r:
        SvcCallResult)
        ensures
            property_found(old(backend)@, final(backend)@, lookup, block, r),
    {
        match lookup {
            PropertyLookup::Fault => SvcCallResult::Fault,
            PropertyLookup::Absent => SvcCallResult::RET(0),
            PropertyLookup::Info(info) => match block {
                Some(at) => {
                    if backend.mem_write(at, info.as_slice()).is_err() {
                        return SvcCallResult::Fault;
                    }
                    SvcCallResult::RET(from_bits_i64(at))
                },
                None => SvcCallResult::Fault,
            },
        }
    }
}

/// The length of the value in a record: the high byte of its serial number.
pub open spec fn serial_length(m: Machine, pi: int) -> int {
    min_int((m.read_u32(pi)->0 >> 24u32) as int, PROP_VALUE_LIMIT as int)
}

/// The value in the record at `pi` can be read.
pub open spec fn record_readable(m: Machine, pi: int) -> bool {
    m.mapped(pi, 4) && m.mapped(pi + 4, serial_length(m, pi) + 1)
}

/// The machine after the record at `pi` was read: the value with what follows it goes
/// to `value_out`, and the first bytes of the name to `name_out`, where that is an
/// address.
pub open spec fn record_read(m: Machine, pi: int, name_out: int, value_out: int) -> Machine {
    let m1 = m.try_write(value_out, m.read(pi + 4, (serial_length(m, pi) + 1) as nat));
    if name_out != 0 && m1.mapped(pi + 96, 32) {
        m1.try_write(name_out, m1.read(pi + 96, 32))
    } else {
        m1
    }
}

impl<F: Fn(&str) -> Option<String>> SystemPropertyRead<F> {
    pub fn new(service: Option<F>) -> (r: Self)
        ensures
            r.0 == service,
    {
        SystemPropertyRead(service)
    }

    /// Read the record at `X0`: its value goes to `X2` and its name to `X1`.
    pub fn handle(&self, backend: &mut Backend) -> (r: SvcCallResult)
        ensures
            ({
                let m = old(backend)@;
                let pi = m.reg(RegisterARM64::X0) as int;
                let name_out = m.reg(RegisterARM64::X1) as int;
                let value_out = m.reg(RegisterARM64::X2) as int;
                if pi == 0 || value_out == 0 || !record_readable(m, pi) {
                    r == SvcCallResult::RET(0) && final(backend)@ == m
                } else {
                    &&& r == SvcCallResult::RET(serial_length(m, pi) as i64)
                    &&& final(backend)@ == record_read(m, pi, name_out, value_out)
                }
            }),
    {
        let pi: u64 = backend.reg_read(RegisterARM64::X0);
        let name_out: u64 = backend.reg_read(RegisterARM64::X1);
        let value_out: u64 = backend.reg_read(RegisterARM64::X2);
        if pi == 0 || value_out == 0 {
            return SvcCallResult::RET(0);
        }
        let serial: u32 = match backend.mem_read_u32(pi) {
            Ok(v) => v,
            Err(_) => {
                return SvcCallResult::RET(0);
            },
        };
        proof {
            law_pages_hold_their_bytes(*old(backend), pi + 4);
            law_pages_hold_their_bytes(*old(backend), pi + 96);
        }
        if pi > u64::MAX - 4 {
            return SvcCallResult::RET(0);
        }
        let high: u32 = serial >> 24u32;
        let vlen: u64 = if high < 91 {
            high as u64
        } else {
            91
        };
        let value = match backend.mem_read_as_vec(pi + 4, vlen + 1) {
            Ok(v) => v,
            Err(_) => {
                return SvcCallResult::RET(0);
            },
        };
        backend.mem_try_write(value_out, value.as_slice());
        assert(backend@.mem.dom().contains(pi + 96) ==> pi + 96 <= u64::MAX);
        assert(backend@.mapped(pi + 96, 32) ==> backend@.mem.dom().contains(pi + 96));
        if name_out != 0 && pi <= u64::MAX - 96 {
            if let Ok(name) = backend.mem_read_as_vec(pi + 96, 32) {
                backend.mem_try_write(name_out, name.as_slice());
            }
        }
        SvcCallResult::RET(vlen as i64)
    }
}

/// Reading a property that was found gives back its value and the value's length, for
/// a value of at most [`PROP_VALUE_LIMIT`] bytes; of a longer one it gives the first
/// bytes. Where a name is asked for and the value does not go over the record's name, it
/// also gives back the name with a zero after it, for a name of less than 32 bytes; of a
/// longer one it gives the first 32 bytes.
pub proof fn law_found_property_reads_back(
    m: Machine,
    at: int,
    name: Seq<char>,
    value: Seq<char>,
    name_out: int,
    value_out: int,
)
    requires
        m.mapped(at, PROP_INFO_SIZE as int),
        m.mapped(value_out, 92),
        name_out == 0 || name_out + 32 <= value_out || value_out + 92 <= name_out,
    ensures
        ({
            let v = cut_bytes(value, PROP_VALUE_LIMIT as int);
            let found = m.write(at, prop_info(name, value));
            &&& record_readable(found, at)
            &&& serial_length(found, at) == v.len()
            &&& record_read(found, at, name_out, value_out).read(value_out, v.len()) == v
            &&& record_read(found, at, name_out, value_out).mem[value_out + v.len()] == 0
            &&& encode_utf8(value).len() <= PROP_VALUE_LIMIT ==> v == encode_utf8(value)
            &&& name_out != 0 && m.mapped(name_out, 32) && (value_out + 92 <= at + 96 || at + 128
                <= value_out) ==> {
                let told = record_read(found, at, name_out, value_out).read(name_out, 32);
                let bytes = encode_utf8(name);
                &&& bytes.len() < 32 ==> told == padded(bytes, 32)
                &&& bytes.len() >= 32 ==> told == bytes.take(32)
            }
        }),
{
    let v = cut_bytes(value, PROP_VALUE_LIMIT as int);
    let info = prop_info(name, value);
    let found = m.write(at, info);
    let n: u32 = v.len() as u32;
    let serial: u32 = n << 24u32;
    assert(n <= 91 ==> (n << 24u32) >> 24u32 == n) by (bit_vector);
    assert(info.len() == 192);
    assert(info.take(4) =~= le32(serial));
    assert(found.mem.dom() =~= m.mem.dom());
    assert(found.read(at, 4) =~= le32(serial));
    crate::le::law_le32_round_trip(serial);
    assert(found.read_u32(at) == Some(serial));
    assert(found.read(at + 4, (v.len() + 1) as nat) =~= v.push(0u8)) by {
        assert forall|i: int| 0 <= i < v.len() + 1 implies found.read(
            at + 4,
            (v.len() + 1) as nat,
        )[i] == v.push(0u8)[i] by {
            assert(info[4 + i] == padded(v, 92)[i]);
        }
    }
    let data = v.push(0u8);
    let m1 = found.try_write(value_out, data);
    assert(m1.mem.dom() =~= m.mem.dom());
    let m2 = record_read(found, at, name_out, value_out);
    assert forall|i: int| 0 <= i <= v.len() implies m2.mem[value_out + i] == data[i] by {
        assert(found.mem.dom().contains(value_out + i));
    }
    assert(m2.read(value_out, v.len()) =~= v);
    if encode_utf8(value).len() <= PROP_VALUE_LIMIT {
        assert(v =~= encode_utf8(value));
    }
    if name_out != 0 && m.mapped(name_out, 32) && (value_out + 92 <= at + 96 || at + 128
        <= value_out) {
        let bytes = encode_utf8(name);
        let field = padded(cut_bytes(name, PROP_NAME_LIMIT as int), 96);
        assert(m1.mapped(at + 96, 32)) by {
            assert forall|a: int| at + 96 <= a < at + 128 implies m1.mem.dom().contains(a) by {
                assert(m.mem.dom().contains(a));
            }
        }
        assert(m1.mapped(name_out, 32)) by {
            assert forall|a: int| name_out <= a < name_out + 32 implies m1.mem.dom().contains(a) by {
                assert(m.mem.dom().contains(a));
            }
        }
        assert(m1.read(at + 96, 32) =~= field.take(32)) by {
            assert forall|i: int| 0 <= i < 32 implies m1.read(at + 96, 32)[i] == field[i] by {
                assert(info[96 + i] == field[i]);
                assert(found.mem[at + (96 + i)] == info[96 + i]);
            }
        }
        assert(m2.read(name_out, 32) =~= field.take(32));
        if bytes.len() < 32 {
            assert(field.take(32) =~= padded(bytes, 32));
        } else {
            assert(field.take(32) =~= bytes.take(32));
        }
    }
}

/// A guest that asks for a property gets its value with a zero after it, and the value's
/// length; of a value of more than 91 bytes it gets the first 91. What a service answered goes
/// before what every guest has, and a property that neither knows is empty. No byte outside
/// the 92 that the guest holds ready is touched.
#[verifier::rlimit(40)]
pub proof fn law_got_property(m: Machine, m2: Machine, r: SvcCallResult, reply: Option<String>)
    requires
        asked_name(m) is Some,
        property_got(m, m2, r, reply),
        m.mapped(m.reg(RegisterARM64::X1) as int, 92),
    ensures
        ({
            let at = m.reg(RegisterARM64::X1) as int;
            let bytes = encode_utf8(
                match reply {
                    Some(v) => v@,
                    None => match default_property(asked_name(m)->0) {
                        Some(v) => v,
                        None => Seq::empty(),
                    },
                },
            );
            let n: int = if bytes.len() < 91 {
                bytes.len() as int
            } else {
                91
            };
            &&& r == SvcCallResult::RET(n as i64)
            &&& m2.read(at, n as nat) == bytes.take(n)
            &&& m2.mem[at + n] == 0
            &&& m2.regs == m.regs
            &&& forall|a: int|
                m.mem.dom().contains(a) && (a < at || at + 92 <= a) ==> #[trigger] m2.mem[a]
                    == m.mem[a]
        }),
{
    let at = m.reg(RegisterARM64::X1) as int;
    let value = value_or_empty(asked_name(m)->0, reply);
    let v = cut_bytes(value, 91);
    assert(m.mapped(at, v.len() as int));
    let m1 = m.write(at, v);
    crate::backend::law_write_then_read(m, at, v, at);
    assert(m1.mapped(at + v.len(), 1)) by {
        assert(m.mem.dom().contains(at + v.len()));
    }
    assert(m2 == m1.write(at + v.len(), seq![0u8]));
    assert(m2.read(at, v.len()) =~= v) by {
        assert forall|i: int| 0 <= i < v.len() implies #[trigger] m2.read(at, v.len())[i] == v[i] by {
            assert(m1.read(at, v.len())[i] == v[i]);
            assert(m.mem.dom().contains(at + i));
        }
    }
    assert(m1.mem.dom().contains(at + v.len()));
    assert forall|a: int| m.mem.dom().contains(a) && (a < at || at + 92 <= a) implies #[trigger] m2.mem[a]
        == m.mem[a] by {
        assert(m1.mem[a] == m.mem[a]);
    }
}

/// What every guest is told: the four API levels are 36, the release is 16, the processor is
/// `arm64-v8a`, the device is secure, locked and not debuggable, and so on. No other property
/// is there.
pub proof fn law_default_properties(name: Seq<char>)
    ensures
        ({
            let v = default_property(name);
            &&& v == Some("36"@) <==> (name == "ro.build.version.sdk"@ || name
                == "ro.product.first_api_level"@ || name == "ro.board.first_api_level"@ || name
                == "ro.vendor.api_level"@)
            &&& v == Some("16"@) ==> name == "ro.build.version.release"@
            &&& v == Some("2025-12-01"@) ==> name == "ro.build.version.security_patch"@
            &&& v == Some("arm64-v8a"@) ==> (name == "ro.product.cpu.abi"@ || name
                == "ro.product.cpu.abilist"@)
            &&& v == Some("0"@) ==> name == "ro.debuggable"@
            &&& v == Some("1"@) ==> (name == "ro.secure"@ || name == "ro.boot.flash.locked"@)
            &&& v == Some(""@) ==> (name == "ro.kernel.qemu"@ || name == "libc.debug.malloc"@)
            &&& v == Some("zygote64"@) ==> name == "ro.zygote"@
            &&& v == Some("green"@) ==> name == "ro.boot.verifiedbootstate"@
            &&& v == Some("locked"@) ==> name == "ro.boot.vbmeta.device_state"@
            &&& v == Some("adb"@) ==> name == "sys.usb.state"@
            &&& name == "ro.build.version.release"@ || name == "ro.build.version.security_patch"@
                || name == "ro.product.cpu.abi"@ || name == "ro.product.cpu.abilist"@ || name
                == "ro.debuggable"@ || name == "ro.secure"@ || name == "ro.boot.flash.locked"@
                || name == "ro.kernel.qemu"@ || name == "libc.debug.malloc"@ || name
                == "ro.zygote"@ || name == "ro.boot.verifiedbootstate"@ || name
                == "ro.boot.vbmeta.device_state"@ || name == "sys.usb.state"@ ==> v is Some
            &&& v matches Some(s) ==> s == "36"@ || s == "16"@ || s == "2025-12-01"@ || s
                == "arm64-v8a"@ || s == "0"@ || s == "1"@ || s == ""@ || s == "zygote64"@ || s
                == "green"@ || s == "locked"@ || s == "adb"@
        }),
{
    reveal_strlit("36");
    reveal_strlit("16");
    reveal_strlit("2025-12-01");
    reveal_strlit("arm64-v8a");
    reveal_strlit("0");
    reveal_strlit("1");
    reveal_strlit("");
    reveal_strlit("zygote64");
    reveal_strlit("green");
    reveal_strlit("locked");
    reveal_strlit("adb");
    assert("36"@[0] == '3' && "16"@[0] == '1' && "0"@[0] == '0' && "1"@[0] == '1');
    assert("36"@.len() == 2 && "16"@.len() == 2 && "2025-12-01"@.len() == 10 && "arm64-v8a"@.len()
        == 9);
    assert("0"@.len() == 1 && "1"@.len() == 1 && ""@.len() == 0 && "zygote64"@.len() == 8);
    assert("green"@.len() == 5 && "locked"@.len() == 6 && "adb"@.len() == 3);
}

/// A property that is found is shown by the place of its record, which the guest can hand
/// back to read it; a property that is not there is shown by zero.
pub proof fn law_found_property(
    m: Machine,
    m2: Machine,
    lookup: PropertyLookup,
    block: u64,
    r: SvcCallResult,
)
    requires
        property_found(m, m2, lookup, Some(block), r),
    ensures
        lookup is Absent ==> r == SvcCallResult::RET(0) && m2 == m,
        lookup is Fault ==> r == SvcCallResult::Fault && m2 == m,
        lookup matches PropertyLookup::Info(info) ==> m.mapped(block as int, info@.len() as int)
            ==> {
            &&& r matches SvcCallResult::RET(p) && crate::num::bits_of_i64(p) == block
            &&& m2.read(block as int, info@.len()) == info@
        },
{
    if let PropertyLookup::Info(info) = lookup {
        if m.mapped(block as int, info@.len() as int) {
            crate::backend::law_write_then_read(m, block as int, info@, 0);
        }
    }
}

/// What looking a property up gives: the record of the value that a service answered, or else
/// of the value that every guest has, or nothing. The record is of 192 bytes: the value's
/// length in the fourth byte, the value from the fifth on, and the name from byte 96 on.
#[verifier::rlimit(40)]
pub proof fn law_looked_up_property(m: Machine, r: PropertyLookup, reply: Option<String>)
    requires
        looked_up(m, r, reply),
        asked_name(m) is Some,
    ensures
        ({
            let name = asked_name(m)->0;
            let value = match reply {
                Some(v) => Some(v@),
                None => default_property(name),
            };
            &&& value is None <==> r is Absent
            &&& value matches Some(v) ==> {
                &&& r matches PropertyLookup::Info(info)
                &&& info@.len() == 192
                &&& encode_utf8(v).len() <= 91 ==> info@[3] == encode_utf8(v).len() && info@.subrange(
                    4,
                    4 + encode_utf8(v).len() as int,
                ) == encode_utf8(v) && info@[4 + encode_utf8(v).len() as int] == 0
                &&& encode_utf8(name).len() <= 95 ==> info@.subrange(
                    96,
                    96 + encode_utf8(name).len() as int,
                ) == encode_utf8(name) && info@[96 + encode_utf8(name).len() as int] == 0
            }
        }),
{
    let name = asked_name(m)->0;
    if let Some(v) = property_of(name, reply) {
        let info = prop_info(name, v);
        let cut_value = cut_bytes(v, 91);
        let cut_name = cut_bytes(name, 95);
        let n: u32 = cut_value.len() as u32;
        assert(n <= 91 ==> (n << 24u32) / 0x100_0000 == n) by (bit_vector);
        assert(info.len() == 192);
        assert(info[3] == le32(n << 24u32)[3]);
        if encode_utf8(v).len() <= 91 {
            assert(cut_value =~= encode_utf8(v));
            assert(info.subrange(4, 4 + encode_utf8(v).len() as int) =~= encode_utf8(v));
            assert(info[4 + encode_utf8(v).len() as int] == 0);
        }
        if encode_utf8(name).len() <= 95 {
            assert(cut_name =~= encode_utf8(name));
            assert(info.subrange(96, 96 + encode_utf8(name).len() as int) =~= encode_utf8(name));
            assert(info[96 + encode_utf8(name).len() as int] == 0);
        }
    }
}

} // verus!
