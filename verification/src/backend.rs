//! The guest machine: AArch64 registers and paged memory.
//!
//! A CPU core runs on this state between two calls of the library. Everything the
//! runtime itself does to the guest goes through the methods here.
use vstd::prelude::*;
use std::collections::HashMap;
use crate::le::{get_le32, get_le64, le16, le32, le64, le_i32, put_le16, put_le32, put_le64, put_le_i32, un_le32, un_le64};
use crate::text::utf8_text;
use vstd::utf8::{decode_utf8, valid_utf8};
use crate::num::{address_limit, bits_of_i64, from_bits_i32, from_bits_i64, i32_of_bits, i64_of_bits, low32, to_bits_i64, to_low32};

verus! {

broadcast use vstd::std_specs::hash::group_hash_axioms;

/// Size of a guest page.
pub const PAGE_ALIGN: u64 = 0x1000;

/// Memory protection bits.
pub const PERM_NONE: u32 = 0;

pub const PERM_READ: u32 = 1;

pub const PERM_WRITE: u32 = 2;

pub const PERM_EXEC: u32 = 4;

pub const PERM_READ_WRITE: u32 = 3;

pub const PERM_READ_EXEC: u32 = 5;

pub const PERM_ALL: u32 = 7;

/// The registers that the runtime reads and writes.
#[derive(Clone, Copy, Debug, PartialEq, Eq, Structural)]
#[allow(non_camel_case_types)]
pub enum RegisterARM64 {
    X0,
    X1,
    X2,
    X3,
    X4,
    X5,
    X6,
    X7,
    X8,
    X9,
    X10,
    X11,
    X12,
    X13,
    X14,
    X15,
    X16,
    X17,
    X18,
    X19,
    X20,
    X21,
    X22,
    X23,
    X24,
    X25,
    X26,
    X27,
    X28,
    X29,
    LR,
    XZR,
    SP,
    PC,
    NZCV,
    TPIDR_EL0,
}

/// Number of register slots that hold a value. `XZR` has none.
pub const REG_SLOTS: usize = 35;

/// The slot of a register; `REG_SLOTS` for the zero register.
pub open spec fn slot_of(r: RegisterARM64) -> int {
    match r {
        RegisterARM64::X0 => 0,
        RegisterARM64::X1 => 1,
        RegisterARM64::X2 => 2,
        RegisterARM64::X3 => 3,
        RegisterARM64::X4 => 4,
        RegisterARM64::X5 => 5,
        RegisterARM64::X6 => 6,
        RegisterARM64::X7 => 7,
        RegisterARM64::X8 => 8,
        RegisterARM64::X9 => 9,
        RegisterARM64::X10 => 10,
        RegisterARM64::X11 => 11,
        RegisterARM64::X12 => 12,
        RegisterARM64::X13 => 13,
        RegisterARM64::X14 => 14,
        RegisterARM64::X15 => 15,
        RegisterARM64::X16 => 16,
        RegisterARM64::X17 => 17,
        RegisterARM64::X18 => 18,
        RegisterARM64::X19 => 19,
        RegisterARM64::X20 => 20,
        RegisterARM64::X21 => 21,
        RegisterARM64::X22 => 22,
        RegisterARM64::X23 => 23,
        RegisterARM64::X24 => 24,
        RegisterARM64::X25 => 25,
        RegisterARM64::X26 => 26,
        RegisterARM64::X27 => 27,
        RegisterARM64::X28 => 28,
        RegisterARM64::X29 => 29,
        RegisterARM64::LR => 30,
        RegisterARM64::SP => 31,
        RegisterARM64::PC => 32,
        RegisterARM64::NZCV => 33,
        RegisterARM64::TPIDR_EL0 => 34,
        RegisterARM64::XZR => 35,
    }
}

fn slot(r: RegisterARM64) -> (i: usize)
    ensures
        i == slot_of(r),
{
    match r {
        RegisterARM64::X0 => 0,
        RegisterARM64::X1 => 1,
        RegisterARM64::X2 => 2,
        RegisterARM64::X3 => 3,
        RegisterARM64::X4 => 4,
        RegisterARM64::X5 => 5,
        RegisterARM64::X6 => 6,
        RegisterARM64::X7 => 7,
        RegisterARM64::X8 => 8,
        RegisterARM64::X9 => 9,
        RegisterARM64::X10 => 10,
        RegisterARM64::X11 => 11,
        RegisterARM64::X12 => 12,
        RegisterARM64::X13 => 13,
        RegisterARM64::X14 => 14,
        RegisterARM64::X15 => 15,
        RegisterARM64::X16 => 16,
        RegisterARM64::X17 => 17,
        RegisterARM64::X18 => 18,
        RegisterARM64::X19 => 19,
        RegisterARM64::X20 => 20,
        RegisterARM64::X21 => 21,
        RegisterARM64::X22 => 22,
        RegisterARM64::X23 => 23,
        RegisterARM64::X24 => 24,
        RegisterARM64::X25 => 25,
        RegisterARM64::X26 => 26,
        RegisterARM64::X27 => 27,
        RegisterARM64::X28 => 28,
        RegisterARM64::X29 => 29,
        RegisterARM64::LR => 30,
        RegisterARM64::SP => 31,
        RegisterARM64::PC => 32,
        RegisterARM64::NZCV => 33,
        RegisterARM64::TPIDR_EL0 => 34,
        RegisterARM64::XZR => 35,
    }
}

/// Why a memory operation was refused.
#[derive(Clone, Copy, Debug, PartialEq, Eq, Structural)]
pub enum BackendError {
    /// The address or the size is not a multiple of the page size, the size is
    /// zero, or the range leaves the address space.
    Range,
    /// A page of the range is mapped already.
    Mapped,
    /// A byte or a page of the range is not mapped.
    Unmapped,
    /// The bytes are no UTF-8 text.
    Encoding,
}

/// The state of the guest machine as contracts speak of it: register slots, the
/// bytes of the mapped addresses, and the protection of each mapped page, by page
/// number.
#[verifier::ext_equal]
pub struct Machine {
    pub regs: Seq<u64>,
    pub mem: Map<int, u8>,
    pub prot: Map<int, u32>,
}

impl Machine {
    /// The value of a register.
    pub open spec fn reg(self, r: RegisterARM64) -> u64 {
        if slot_of(r) < REG_SLOTS {
            self.regs[slot_of(r)]
        } else {
            0
        }
    }

    /// The machine after a register was written. Writes to the zero register are lost.
    pub open spec fn set_reg(self, r: RegisterARM64, v: u64) -> Machine {
        if slot_of(r) < REG_SLOTS {
            Machine { regs: self.regs.update(slot_of(r), v), ..self }
        } else {
            self
        }
    }

    /// A register's value as a signed number.
    pub open spec fn reg_i64(self, r: RegisterARM64) -> i64 {
        i64_of_bits(self.reg(r))
    }

    /// The low half of a register.
    pub open spec fn reg_u32(self, r: RegisterARM64) -> u32 {
        low32(self.reg(r))
    }

    /// The low half of a register as a signed number.
    pub open spec fn reg_i32(self, r: RegisterARM64) -> i32 {
        i32_of_bits(low32(self.reg(r)))
    }

    /// The machine after the result register got a signed value.
    pub open spec fn ret(self, v: int) -> Machine {
        self.set_reg(RegisterARM64::X0, bits_of_i64(v as i64))
    }

    /// Every address of `[addr, addr + len)` is mapped.
    pub open spec fn mapped(self, addr: int, len: int) -> bool {
        forall|a: int| addr <= a < addr + len ==> self.mem.dom().contains(a)
    }

    /// The bytes at `[addr, addr + len)`.
    pub open spec fn read(self, addr: int, len: nat) -> Seq<u8> {
        Seq::new(len, |i: int| self.mem[addr + i])
    }

    /// The machine after `data` was stored at `addr`.
    pub open spec fn write(self, addr: int, data: Seq<u8>) -> Machine {
        Machine {
            mem: Map::new(
                |a: int| self.mem.dom().contains(a),
                |a: int|
                    if addr <= a < addr + data.len() {
                        data[a - addr]
                    } else {
                        self.mem[a]
                    },
            ),
            ..self
        }
    }

    /// The machine after `data` was stored at `addr` where that range is mapped, and
    /// nothing happened where it is not.
    pub open spec fn try_write(self, addr: int, data: Seq<u8>) -> Machine {
        if self.mapped(addr, data.len() as int) {
            self.write(addr, data)
        } else {
            self
        }
    }

    pub open spec fn read_u64(self, addr: int) -> Option<u64> {
        if self.mapped(addr, 8) {
            Some(un_le64(self.read(addr, 8)))
        } else {
            None
        }
    }

    pub open spec fn read_u32(self, addr: int) -> Option<u32> {
        if self.mapped(addr, 4) {
            Some(un_le32(self.read(addr, 4)))
        } else {
            None
        }
    }

    /// `[addr, addr + size)` is a nonempty run of whole pages of the address space.
    pub open spec fn whole_pages(addr: int, size: int) -> bool {
        &&& addr % 0x1000 == 0
        &&& size % 0x1000 == 0
        &&& size > 0
        &&& addr + size <= address_limit()
    }

    /// No page of the range is mapped.
    pub open spec fn free(self, addr: int, size: int) -> bool {
        forall|p: int|
            addr / 0x1000 <= p < (addr + size) / 0x1000 ==> !self.prot.dom().contains(p)
    }

    /// Every page of the range is mapped.
    pub open spec fn held(self, addr: int, size: int) -> bool {
        forall|p: int| addr / 0x1000 <= p < (addr + size) / 0x1000 ==> self.prot.dom().contains(p)
    }

    /// The machine after zeroed pages were mapped.
    pub open spec fn map_pages(self, addr: int, size: int, perms: u32) -> Machine {
        Machine {
            mem: Map::new(
                |a: int| self.mem.dom().contains(a) || addr <= a < addr + size,
                |a: int|
                    if addr <= a < addr + size {
                        0u8
                    } else {
                        self.mem[a]
                    },
            ),
            prot: Map::new(
                |p: int|
                    self.prot.dom().contains(p) || addr / 0x1000 <= p < (addr + size) / 0x1000,
                |p: int|
                    if addr / 0x1000 <= p < (addr + size) / 0x1000 {
                        perms
                    } else {
                        self.prot[p]
                    },
            ),
            ..self
        }
    }

    /// The machine after pages were unmapped.
    pub open spec fn unmap_pages(self, addr: int, size: int) -> Machine {
        Machine {
            mem: Map::new(
                |a: int| self.mem.dom().contains(a) && !(addr <= a < addr + size),
                |a: int| self.mem[a],
            ),
            prot: Map::new(
                |p: int|
                    self.prot.dom().contains(p) && !(addr / 0x1000 <= p < (addr + size) / 0x1000),
                |p: int| self.prot[p],
            ),
            ..self
        }
    }

    /// The machine after the protection of pages was changed.
    pub open spec fn protect_pages(self, addr: int, size: int, perms: u32) -> Machine {
        Machine {
            prot: Map::new(
                |p: int| self.prot.dom().contains(p),
                |p: int|
                    if addr / 0x1000 <= p < (addr + size) / 0x1000 {
                        perms
                    } else {
                        self.prot[p]
                    },
            ),
            ..self
        }
    }

    /// The range can be mapped.
    pub open spec fn can_map(self, addr: int, size: int) -> bool {
        Self::whole_pages(addr, size) && self.free(addr, size)
    }

    /// The range can be unmapped or have its protection changed.
    pub open spec fn can_change(self, addr: int, size: int) -> bool {
        Self::whole_pages(addr, size) && self.held(addr, size)
    }

    /// A run of `len` nonzero mapped bytes at `addr`, and a zero byte after it.
    pub open spec fn has_c_string(self, addr: int, len: nat) -> bool {
        &&& self.mapped(addr, len as int + 1)
        &&& self.mem[addr + len] == 0
        &&& forall|a: int| addr <= a < addr + len ==> self.mem[a] != 0
    }

    /// The bytes of the zero-terminated string at `addr`, without the terminator.
    pub open spec fn c_string(self, addr: int) -> Option<Seq<u8>> {
        if exists|n: nat| self.has_c_string(addr, n) {
            Some(self.read(addr, choose|n: nat| self.has_c_string(addr, n)))
        } else {
            None
        }
    }

    /// The text of the zero-terminated string at `addr`.
    pub open spec fn c_text(self, addr: int) -> Option<Seq<char>> {
        match self.c_string(addr) {
            Some(b) if valid_utf8(b) => Some(decode_utf8(b)),
            _ => None,
        }
    }
}

pub struct Page {
    perms: u32,
    data: [u8; 4096],
}

/// Register values that were put aside.
#[derive(Clone, Copy)]
pub struct Context {
    pub regs: [u64; 35],
}

/// Registers and memory of the guest.
pub struct Backend {
    regs: [u64; 35],
    pages: HashMap<u64, Box<Page>>,
}

impl View for Backend {
    type V = Machine;

    closed spec fn view(&self) -> Machine {
        Machine {
            regs: self.regs@,
            mem: Map::new(
                |a: int| 0 <= a < address_limit() && self.pages@.contains_key((a / 0x1000) as u64),
                |a: int| self.pages@[(a / 0x1000) as u64].data@[a % 0x1000],
            ),
            prot: Map::new(
                |p: int| 0 <= p < 0x10_0000_0000_0000 && self.pages@.contains_key(p as u64),
                |p: int| self.pages@[p as u64].perms,
            ),
        }
    }
}

impl Backend {
    /// A machine with zeroed registers and no memory.
    pub fn new() -> (b: Backend)
        ensures
            b@.regs == Seq::new(35, |i: int| 0u64),
            b@.mem.dom() == Set::<int>::empty(),
            b@.prot.dom() == Set::<int>::empty(),
    {
        let b = Backend { regs: [0;35], pages: HashMap::new() };
        assert(b@.regs =~= Seq::new(35, |i: int| 0u64));
        assert(b@.mem.dom() =~= Set::<int>::empty());
        assert(b@.prot.dom() =~= Set::<int>::empty());
        b
    }

    /// There is one slot for each register.
    pub proof fn reg_slots(&self)
        ensures
            self@.regs.len() == REG_SLOTS,
    {
    }

    pub fn reg_read(&self, r: RegisterARM64) -> (v: u64)
        ensures
            v == self@.reg(r),
    {
        let i: usize = slot(r);
        if i < REG_SLOTS {
            self.regs[i]
        } else {
            0
        }
    }

    /// Keep the registers in `context`.
    pub fn context_save(&self, context: &mut Context)
        ensures
            final(context).regs@ == self@.regs,
    {
        context.regs = self.regs;
    }

    /// Put the registers back from `context`.
    pub fn context_restore(&mut self, context: &Context)
        ensures
            final(self)@ == (Machine { regs: context.regs@, ..old(self)@ }),
    {
        self.regs = context.regs;
        assert(self@ =~= (Machine { regs: context.regs@, ..old(self)@ }));
    }

    /// A context that holds zeroes.
    pub fn context_alloc() -> (c: Context)
        ensures
            c.regs@ == Seq::new(35, |i: int| 0u64),
    {
        let c = Context { regs: [0;35] };
        assert(c.regs@ =~= Seq::new(35, |i: int| 0u64));
        c
    }

    pub fn reg_read_i64(&self, r: RegisterARM64) -> (v: i64)
        ensures
            v == self@.reg_i64(r),
    {
        from_bits_i64(self.reg_read(r))
    }

    pub fn reg_read_u32(&self, r: RegisterARM64) -> (v: u32)
        ensures
            v == self@.reg_u32(r),
    {
        to_low32(self.reg_read(r))
    }

    pub fn reg_read_i32(&self, r: RegisterARM64) -> (v: i32)
        ensures
            v == self@.reg_i32(r),
    {
        from_bits_i32(to_low32(self.reg_read(r)))
    }

    pub fn reg_write(&mut self, r: RegisterARM64, v: u64)
        ensures
            final(self)@ == old(self)@.set_reg(r, v),
    {
        let i: usize = slot(r);
        if i < REG_SLOTS {
            self.regs[i] = v;
        }
        assert(self@ =~= old(self)@.set_reg(r, v));
    }

    /// Write a signed value to a register.
    pub fn reg_write_i64(&mut self, r: RegisterARM64, v: i64)
        ensures
            final(self)@ == old(self)@.set_reg(r, bits_of_i64(v)),
    {
        self.reg_write(r, to_bits_i64(v))
    }

    /// Whether every address of the range is mapped.
    pub fn is_mapped(&self, addr: u64, len: u64) -> (b: bool)
        ensures
            b == self@.mapped(addr as int, len as int),
    {
        if len == 0 {
            return true;
        }
        if len - 1 > u64::MAX - addr {
            assert(!self@.mem.dom().contains(address_limit()));
            return false;
        }
        let first: u64 = addr / PAGE_ALIGN;
        let last: u64 = (addr + (len - 1)) / PAGE_ALIGN;
        let mut p: u64 = first;
        while p < last
            invariant
                first <= p <= last,
                first == addr / 0x1000,
                last == (addr + (len - 1)) / 0x1000,
                0 < len,
                addr + len <= address_limit(),
                forall|q: u64| first <= q < p ==> self.pages@.contains_key(q),
            decreases last - p,
        {
            if !self.pages.contains_key(&p) {
                proof {
                    let a = if p == first { addr as int } else { p * 0x1000 };
                    assert(a / 0x1000 == p);
                    assert(!self@.mem.dom().contains(a));
                }
                return false;
            }
            p = p + 1;
        }
        if !self.pages.contains_key(&last) {
            proof {
                let a = addr + (len - 1);
                assert(a / 0x1000 == last);
                assert(!self@.mem.dom().contains(a));
            }
            return false;
        }
        assert forall|a: int| addr <= a < addr + len implies self@.mem.dom().contains(a) by {
            let q = (a / 0x1000) as u64;
            assert(first <= q <= last);
            assert(self.pages@.contains_key(q));
        }
        true
    }

    fn byte(&self, a: u64) -> (b: u8)
        requires
            self@.mem.dom().contains(a as int),
        ensures
            b == self@.mem[a as int],
    {
        match self.pages.get(&(a / PAGE_ALIGN)) {
            Some(page) => page.data[(a % PAGE_ALIGN) as usize],
            None => 0,
        }
    }

    fn set_byte(&mut self, a: u64, b: u8)
        requires
            old(self)@.mem.dom().contains(a as int),
        ensures
            final(self)@ == old(self)@.write(a as int, seq![b]),
    {
        let p: u64 = a / PAGE_ALIGN;
        let removed = self.pages.remove(&p);
        if let Some(mut page) = removed {
            page.data[(a % PAGE_ALIGN) as usize] = b;
            self.pages.insert(p, page);
        }
        proof {
            let want = old(self)@.write(a as int, seq![b]);
            assert(self@.prot =~= want.prot);
            assert(self@.mem.dom() =~= want.mem.dom());
            assert forall|x: int| want.mem.dom().contains(x) implies self@.mem[x] == want.mem[x] by {
                if x / 0x1000 == a / 0x1000 && x != a {
                    assert(x % 0x1000 != a % 0x1000);
                }
            }
            assert(self@.mem =~= want.mem);
            assert(self@ =~= want);
        }
    }

    /// The bytes of a mapped range.
    pub fn mem_read_as_vec(&self, addr: u64, len: u64) -> (r: Result<Vec<u8>, BackendError>)
        ensures
            match r {
                Ok(v) => self@.mapped(addr as int, len as int) && v@ == self@.read(
                    addr as int,
                    len as nat,
                ),
                Err(e) => !self@.mapped(addr as int, len as int) && e == BackendError::Unmapped,
            },
    {
        if !self.is_mapped(addr, len) {
            return Err(BackendError::Unmapped);
        }
        let mut v: Vec<u8> = Vec::new();
        let mut i: u64 = 0;
        while i < len
            invariant
                i <= len,
                self@.mapped(addr as int, len as int),
                v@ == self@.read(addr as int, i as nat),
            decreases len - i,
        {
            assert(self@.mem.dom().contains(addr + i));
            let b = self.byte(addr + i);
            v.push(b);
            i = i + 1;
            assert(v@ =~= self@.read(addr as int, i as nat));
        }
        Ok(v)
    }

    /// Store bytes. Nothing is stored unless the whole range is mapped.
    pub fn mem_write(&mut self, addr: u64, data: &[u8]) -> (r: Result<(), BackendError>)
        ensures
            match r {
                Ok(_) => old(self)@.mapped(addr as int, data@.len() as int),
                Err(e) => !old(self)@.mapped(addr as int, data@.len() as int) && e
                    == BackendError::Unmapped,
            },
            final(self)@ == old(self)@.try_write(addr as int, data@),
    {
        if !self.is_mapped(addr, data.len() as u64) {
            return Err(BackendError::Unmapped);
        }
        let mut i: usize = 0;
        assert(self@ =~= old(self)@.write(addr as int, data@.take(0)));
        while i < data.len()
            invariant
                i <= data@.len(),
                old(self)@.mapped(addr as int, data@.len() as int),
                self@ == old(self)@.write(addr as int, data@.take(i as int)),
            decreases data@.len() - i,
        {
            let ghost prev = self@;
            assert(old(self)@.mem.dom().contains(addr + i));
            self.set_byte(addr + i as u64, data[i]);
            i = i + 1;
            assert(self@ =~= old(self)@.write(addr as int, data@.take(i as int)));
        }
        assert(data@.take(i as int) =~= data@);
        Ok(())
    }

    /// Store bytes where the range is mapped; a failure is of no consequence.
    pub fn mem_try_write(&mut self, addr: u64, data: &[u8])
        ensures
            final(self)@ == old(self)@.try_write(addr as int, data@),
    {
        let _ = self.mem_write(addr, data);
    }

    pub fn mem_write_u64(&mut self, addr: u64, v: u64) -> (r: Result<(), BackendError>)
        ensures
            r is Ok <==> old(self)@.mapped(addr as int, 8),
            r is Err ==> r == Err::<(), BackendError>(BackendError::Unmapped),
            final(self)@ == old(self)@.try_write(addr as int, le64(v)),
    {
        let bytes = put_le64(v);
        self.mem_write(addr, bytes.as_slice())
    }

    pub fn mem_write_u16(&mut self, addr: u64, v: u16) -> (r: Result<(), BackendError>)
        ensures
            r is Ok <==> old(self)@.mapped(addr as int, 2),
            r is Err ==> r == Err::<(), BackendError>(BackendError::Unmapped),
            final(self)@ == old(self)@.try_write(addr as int, le16(v)),
    {
        let bytes = put_le16(v);
        self.mem_write(addr, bytes.as_slice())
    }

    pub fn mem_write_u32(&mut self, addr: u64, v: u32) -> (r: Result<(), BackendError>)
        ensures
            r is Ok <==> old(self)@.mapped(addr as int, 4),
            r is Err ==> r == Err::<(), BackendError>(BackendError::Unmapped),
            final(self)@ == old(self)@.try_write(addr as int, le32(v)),
    {
        let bytes = put_le32(v);
        self.mem_write(addr, bytes.as_slice())
    }

    pub fn mem_write_i32(&mut self, addr: u64, v: i32) -> (r: Result<(), BackendError>)
        ensures
            r is Ok <==> old(self)@.mapped(addr as int, 4),
            r is Err ==> r == Err::<(), BackendError>(BackendError::Unmapped),
            final(self)@ == old(self)@.try_write(addr as int, le_i32(v)),
    {
        let bytes = put_le_i32(v);
        self.mem_write(addr, bytes.as_slice())
    }

    pub fn mem_read_u64(&self, addr: u64) -> (r: Result<u64, BackendError>)
        ensures
            match r {
                Ok(v) => self@.read_u64(addr as int) == Some(v),
                Err(e) => self@.read_u64(addr as int) is None && e == BackendError::Unmapped,
            },
    {
        match self.mem_read_as_vec(addr, 8) {
            Ok(v) => Ok(get_le64(v.as_slice())),
            Err(e) => Err(e),
        }
    }

    pub fn mem_read_u32(&self, addr: u64) -> (r: Result<u32, BackendError>)
        ensures
            match r {
                Ok(v) => self@.read_u32(addr as int) == Some(v),
                Err(e) => self@.read_u32(addr as int) is None && e == BackendError::Unmapped,
            },
    {
        match self.mem_read_as_vec(addr, 4) {
            Ok(v) => Ok(get_le32(v.as_slice())),
            Err(e) => Err(e),
        }
    }

    /// Map zeroed pages. Nothing is mapped unless the whole range is free.
    pub fn mem_map(&mut self, addr: u64, size: u64, perms: u32) -> (r: Result<(), BackendError>)
        ensures
            r is Ok <==> old(self)@.can_map(addr as int, size as int),
            r == Err::<(), BackendError>(BackendError::Range) <==> !Machine::whole_pages(
                addr as int,
                size as int,
            ),
            r is Err ==> r->Err_0 == BackendError::Range || r->Err_0 == BackendError::Mapped,
            r is Ok ==> final(self)@ == old(self)@.map_pages(addr as int, size as int, perms),
            r is Err ==> final(self)@ == old(self)@,
    {
        if addr % PAGE_ALIGN != 0 || size % PAGE_ALIGN != 0 || size == 0 || size - 1 > u64::MAX
            - addr {
            return Err(BackendError::Range);
        }
        let first: u64 = addr / PAGE_ALIGN;
        let end: u64 = first + size / PAGE_ALIGN;
        assert(end == (addr + size) / 0x1000);
        let mut p: u64 = first;
        while p < end
            invariant
                first <= p <= end,
                end <= 0x10_0000_0000_0000,
                first == addr / 0x1000,
                end == (addr + size) / 0x1000,
                Machine::whole_pages(addr as int, size as int),
                forall|q: int| first <= q < p ==> !self@.prot.dom().contains(q),
            decreases end - p,
        {
            if self.pages.contains_key(&p) {
                assert(self@.prot.dom().contains(p as int));
                return Err(BackendError::Mapped);
            }
            p = p + 1;
        }
        let ghost start = self@;
        p = first;
        assert(self@ =~= start.map_pages(addr as int, 0, perms));
        while p < end
            invariant
                first <= p <= end,
                end <= 0x10_0000_0000_0000,
                addr % 0x1000 == 0,
                first == addr / 0x1000,
                end == (addr + size) / 0x1000,
                self@ == start.map_pages(addr as int, (p - first) * 0x1000, perms),
            decreases end - p,
        {
            let ghost before = self@;
            let ghost old_pages = self.pages@;
            let data: [u8; 4096] = [0;4096];
            self.pages.insert(p, Box::new(Page { perms, data }));
            proof {
                let want = start.map_pages(addr as int, (p + 1 - first) * 0x1000, perms);
                assert((addr + (p - first) * 0x1000) / 0x1000 == p);
                assert((addr + (p + 1 - first) * 0x1000) / 0x1000 == p + 1);
                assert(self.pages@.dom() =~= old_pages.dom().insert(p));
                assert(self@.prot.dom() =~= before.prot.dom().insert(p as int));
                assert forall|q: int| #[trigger]
                    self@.prot.dom().contains(q) == want.prot.dom().contains(q) by {
                    assert(before.prot.dom().contains(q) || !before.prot.dom().contains(q));
                    if 0 <= q < 0x10_0000_0000_0000 {
                        assert((q as u64) as int == q);
                    }
                }
                assert forall|q: int| want.prot.dom().contains(q) implies #[trigger] self@.prot[q]
                    == want.prot[q] by {
                    if q != p {
                        assert(before.prot.dom().contains(q));
                        assert(self@.prot[q] == before.prot[q]);
                    }
                }
                assert(self@.prot =~= want.prot);
                assert forall|a: int| self@.mem.dom().contains(a) == want.mem.dom().contains(a) by {
                    assert(before.mem.dom().contains(a) <==> (0 <= a < address_limit()
                        && old_pages.contains_key((a / 0x1000) as u64)));
                    if 0 <= a < address_limit() {
                        assert(((a / 0x1000) as u64) as int == a / 0x1000);
                    }
                    if a / 0x1000 == p {
                        assert(p * 0x1000 <= a < (p + 1) * 0x1000);
                    }
                }
                assert forall|a: int| want.mem.dom().contains(a) implies self@.mem[a]
                    == want.mem[a] by {
                    if a / 0x1000 == p {
                        assert(p * 0x1000 <= a < (p + 1) * 0x1000);
                        assert(data@[a % 0x1000] == 0);
                    } else {
                        assert(before.mem.dom().contains(a));
                        assert(self@.mem[a] == before.mem[a]);
                    }
                }
                assert(self@.mem =~= want.mem);
                assert(self@ =~= want);
            }
            p = p + 1;
        }
        assert((end - first) * 0x1000 == size);
        Ok(())
    }

    /// Unmap pages. Nothing is unmapped unless the whole range is mapped.
    pub fn mem_unmap(&mut self, addr: u64, size: u64) -> (r: Result<(), BackendError>)
        ensures
            r is Ok <==> old(self)@.can_change(addr as int, size as int),
            r == Err::<(), BackendError>(BackendError::Range) <==> !Machine::whole_pages(
                addr as int,
                size as int,
            ),
            r is Err ==> r->Err_0 == BackendError::Range || r->Err_0 == BackendError::Unmapped,
            r is Ok ==> final(self)@ == old(self)@.unmap_pages(addr as int, size as int),
            r is Err ==> final(self)@ == old(self)@,
    {
        if let Err(e) = self.check_held(addr, size) {
            return Err(e);
        }
        let first: u64 = addr / PAGE_ALIGN;
        let end: u64 = first + size / PAGE_ALIGN;
        let ghost start = self@;
        let mut p: u64 = first;
        assert(self@ =~= start.unmap_pages(addr as int, 0));
        while p < end
            invariant
                first <= p <= end,
                end <= 0x10_0000_0000_0000,
                addr % 0x1000 == 0,
                first == addr / 0x1000,
                end == (addr + size) / 0x1000,
                self@ == start.unmap_pages(addr as int, (p - first) * 0x1000),
            decreases end - p,
        {
            let ghost before = self@;
            let ghost old_pages = self.pages@;
            let _ = self.pages.remove(&p);
            proof {
                let want = start.unmap_pages(addr as int, (p + 1 - first) * 0x1000);
                assert((addr + (p - first) * 0x1000) / 0x1000 == p);
                assert((addr + (p + 1 - first) * 0x1000) / 0x1000 == p + 1);
                assert(self.pages@.dom() =~= old_pages.dom().remove(p));
                assert(self@.prot.dom() =~= before.prot.dom().remove(p as int));
                assert forall|q: int| #[trigger]
                    self@.prot.dom().contains(q) == want.prot.dom().contains(q) by {
                    assert(before.prot.dom().contains(q) || !before.prot.dom().contains(q));
                    if 0 <= q < 0x10_0000_0000_0000 {
                        assert((q as u64) as int == q);
                    }
                }
                assert forall|q: int| want.prot.dom().contains(q) implies #[trigger] self@.prot[q]
                    == want.prot[q] by {
                    if q != p {
                        assert(before.prot.dom().contains(q));
                        assert(self@.prot[q] == before.prot[q]);
                    }
                }
                assert(self@.prot =~= want.prot);
                assert forall|a: int| self@.mem.dom().contains(a) == want.mem.dom().contains(a) by {
                    assert(before.mem.dom().contains(a) <==> (0 <= a < address_limit()
                        && old_pages.contains_key((a / 0x1000) as u64)));
                    if 0 <= a < address_limit() {
                        assert(((a / 0x1000) as u64) as int == a / 0x1000);
                    }
                    if a / 0x1000 == p {
                        assert(p * 0x1000 <= a < (p + 1) * 0x1000);
                    }
                }
                assert forall|a: int| want.mem.dom().contains(a) implies self@.mem[a]
                    == want.mem[a] by {
                    assert(before.mem.dom().contains(a));
                    assert(self@.mem[a] == before.mem[a]);
                }
                assert(self@.mem =~= want.mem);
                assert(self@ =~= want);
            }
            p = p + 1;
        }
        assert((end - first) * 0x1000 == size);
        Ok(())
    }

    /// Change the protection of pages. Nothing changes unless the whole range is mapped.
    pub fn mem_protect(&mut self, addr: u64, size: u64, perms: u32) -> (r: Result<(), BackendError>)
        ensures
            r is Ok <==> old(self)@.can_change(addr as int, size as int),
            r == Err::<(), BackendError>(BackendError::Range) <==> !Machine::whole_pages(
                addr as int,
                size as int,
            ),
            r is Err ==> r->Err_0 == BackendError::Range || r->Err_0 == BackendError::Unmapped,
            r is Ok ==> final(self)@ == old(self)@.protect_pages(addr as int, size as int, perms),
            r is Err ==> final(self)@ == old(self)@,
    {
        if let Err(e) = self.check_held(addr, size) {
            return Err(e);
        }
        let first: u64 = addr / PAGE_ALIGN;
        let end: u64 = first + size / PAGE_ALIGN;
        let ghost start = self@;
        let mut p: u64 = first;
        assert(self@ =~= start.protect_pages(addr as int, 0, perms));
        while p < end
            invariant
                first <= p <= end,
                end <= 0x10_0000_0000_0000,
                addr % 0x1000 == 0,
                first == addr / 0x1000,
                end == (addr + size) / 0x1000,
                self@ == start.protect_pages(addr as int, (p - first) * 0x1000, perms),
            decreases end - p,
        {
            let ghost before = self@;
            let ghost old_pages = self.pages@;
            let removed = self.pages.remove(&p);
            if let Some(mut page) = removed {
                page.perms = perms;
                self.pages.insert(p, page);
            }
            proof {
                let want = start.protect_pages(addr as int, (p + 1 - first) * 0x1000, perms);
                assert((addr + (p - first) * 0x1000) / 0x1000 == p);
                assert((addr + (p + 1 - first) * 0x1000) / 0x1000 == p + 1);
                assert(self.pages@.dom() =~= old_pages.dom());
                assert(start.prot.dom() =~= before.prot.dom());
                assert(self@.prot.dom() =~= before.prot.dom());
                assert forall|q: int| #[trigger]
                    self@.prot.dom().contains(q) == want.prot.dom().contains(q) by {
                    assert(before.prot.dom().contains(q) || !before.prot.dom().contains(q));
                    if 0 <= q < 0x10_0000_0000_0000 {
                        assert((q as u64) as int == q);
                    }
                }
                assert forall|q: int| want.prot.dom().contains(q) implies #[trigger] self@.prot[q]
                    == want.prot[q] by {
                    if q != p {
                        assert(before.prot.dom().contains(q));
                        assert(self@.prot[q] == before.prot[q]);
                    }
                }
                assert(self@.prot =~= want.prot);
                assert(self@.mem =~= before.mem);
                assert(self@ =~= want);
            }
            p = p + 1;
        }
        assert((end - first) * 0x1000 == size);
        Ok(())
    }

    fn check_held(&self, addr: u64, size: u64) -> (r: Result<(), BackendError>)
        ensures
            r is Ok <==> self@.can_change(addr as int, size as int),
            r is Ok ==> addr / PAGE_ALIGN + size / PAGE_ALIGN == (addr + size) / 0x1000,
            r == Err::<(), BackendError>(BackendError::Range) <==> !Machine::whole_pages(
                addr as int,
                size as int,
            ),
            r is Err ==> r->Err_0 == BackendError::Range || r->Err_0 == BackendError::Unmapped,
    {
        if addr % PAGE_ALIGN != 0 || size % PAGE_ALIGN != 0 || size == 0 || size - 1 > u64::MAX
            - addr {
            return Err(BackendError::Range);
        }
        let first: u64 = addr / PAGE_ALIGN;
        let end: u64 = first + size / PAGE_ALIGN;
        let mut p: u64 = first;
        while p < end
            invariant
                first <= p <= end,
                end <= 0x10_0000_0000_0000,
                first == addr / 0x1000,
                end == (addr + size) / 0x1000,
                Machine::whole_pages(addr as int, size as int),
                forall|q: int| first <= q < p ==> self@.prot.dom().contains(q),
            decreases end - p,
        {
            if !self.pages.contains_key(&p) {
                assert(!self@.prot.dom().contains(p as int));
                return Err(BackendError::Unmapped);
            }
            p = p + 1;
        }
        Ok(())
    }

    /// The text of a zero-terminated string.
    pub fn mem_read_c_string(&self, addr: u64) -> (r: Result<String, BackendError>)
        ensures
            match r {
                Ok(s) => self@.c_text(addr as int) == Some(s@),
                Err(e) => self@.c_text(addr as int) is None && (e == BackendError::Unmapped
                    <==> self@.c_string(addr as int) is None) && (e == BackendError::Encoding
                    <==> self@.c_string(addr as int) is Some),
            },
    {
        let mut v: Vec<u8> = Vec::new();
        let mut a: u64 = addr;
        loop
            invariant
                addr <= a,
                v@ == self@.read(addr as int, (a - addr) as nat),
                self@.mapped(addr as int, a - addr),
                forall|x: int| addr <= x < a ==> self@.mem[x] != 0,
            decreases u64::MAX - a,
        {
            if !self.is_mapped(a, 1) {
                proof {
                    assert(!self@.mem.dom().contains(a as int));
                    assert forall|n: nat| !self@.has_c_string(addr as int, n) by {
                        if self@.has_c_string(addr as int, n) {
                            if addr + n < a {
                                assert(self@.mem[addr + n] != 0);
                            } else {
                                assert(self@.mem.dom().contains(a as int));
                            }
                        }
                    }
                }
                return Err(BackendError::Unmapped);
            }
            assert(self@.mem.dom().contains(a as int));
            let b = self.byte(a);
            if b == 0 {
                proof {
                    let n = (a - addr) as nat;
                    assert(self@.has_c_string(addr as int, n));
                    let m = choose|m: nat| self@.has_c_string(addr as int, m);
                    assert(self@.has_c_string(addr as int, m));
                    if m < n {
                        assert(self@.mem[addr + m] != 0);
                    }
                    if n < m {
                        assert(self@.mem[addr + n] != 0);
                    }
                    assert(self@.c_string(addr as int) == Some(v@));
                }
                return match utf8_text(v) {
                    Some(s) => Ok(s),
                    None => Err(BackendError::Encoding),
                };
            }
            if a == u64::MAX {
                proof {
                    assert(!self@.mem.dom().contains(address_limit()));
                    assert forall|n: nat| !self@.has_c_string(addr as int, n) by {
                        if self@.has_c_string(addr as int, n) {
                            if addr + n <= a {
                                assert(self@.mem[addr + n] != 0);
                            } else {
                                assert(self@.mem.dom().contains(address_limit()));
                            }
                        }
                    }
                }
                return Err(BackendError::Unmapped);
            }
            v.push(b);
            a = a + 1;
            assert(v@ =~= self@.read(addr as int, (a - addr) as nat));
        }
    }
}

/// Every byte of a mapped page is mapped, and no byte of another page.
pub proof fn law_pages_hold_their_bytes(b: Backend, a: int)
    ensures
        b@.mem.dom().contains(a) <==> (0 <= a < address_limit() && b@.prot.dom().contains(
            a / 0x1000,
        )),
{
    if 0 <= a < address_limit() {
        assert(((a / 0x1000) as u64) as int == a / 0x1000);
    }
}

/// A write is read back, and leaves every byte outside its range alone.
pub proof fn law_write_then_read(m: Machine, addr: int, data: Seq<u8>, other: int)
    requires
        m.mapped(addr, data.len() as int),
    ensures
        m.write(addr, data).read(addr, data.len()) == data,
        m.write(addr, data).mem.dom() == m.mem.dom(),
        m.mem.dom().contains(other) && !(addr <= other < addr + data.len()) ==> m.write(
            addr,
            data,
        ).mem[other] == m.mem[other],
{
    assert forall|i: int| 0 <= i < data.len() implies #[trigger] m.mem.dom().contains(
        addr + i,
    ) by {}
    assert(m.write(addr, data).read(addr, data.len()) =~= data);
    assert(m.write(addr, data).mem.dom() =~= m.mem.dom());
}

/// A word that was stored is read back.
pub proof fn lemma_word_stored(m: Machine, addr: int, v: u64)
    requires
        m.mapped(addr, 8),
    ensures
        m.write(addr, le64(v)).read_u64(addr) == Some(v),
{
    crate::le::law_le64_round_trip(v);
    lemma_bytes_stored(m, addr, le64(v));
}

proof fn lemma_bytes_stored(m: Machine, addr: int, data: Seq<u8>)
    requires
        m.mapped(addr, 8),
        data.len() == 8,
    ensures
        m.write(addr, data).mapped(addr, 8),
        m.write(addr, data).read(addr, 8) == data,
{
    law_write_then_read(m, addr, data, addr);
}

/// A word inside what is stored is read back.
pub proof fn lemma_word_inside(m: Machine, addr: int, data: Seq<u8>, k: int)
    requires
        m.mapped(addr, data.len() as int),
        0 <= k,
        k + 8 <= data.len(),
    ensures
        m.write(addr, data).read_u64(addr + k) == Some(un_le64(data.subrange(k, k + 8))),
{
    law_write_then_read(m, addr, data, addr);
    let w = m.write(addr, data);
    assert(w.read(addr + k, 8) =~= data.subrange(k, k + 8)) by {
        assert forall|i: int| 0 <= i < 8 implies #[trigger] w.read(addr + k, 8)[i] == data[k + i] by {
            assert(m.mem.dom().contains(addr + k + i));
        }
    }
    assert(w.mapped(addr + k, 8));
}

/// A half word inside what is stored is read back.
pub proof fn lemma_half_inside(m: Machine, addr: int, data: Seq<u8>, k: int)
    requires
        m.mapped(addr, data.len() as int),
        0 <= k,
        k + 4 <= data.len(),
    ensures
        m.write(addr, data).read_u32(addr + k) == Some(un_le32(data.subrange(k, k + 4))),
{
    law_write_then_read(m, addr, data, addr);
    let w = m.write(addr, data);
    assert(w.read(addr + k, 4) =~= data.subrange(k, k + 4)) by {
        assert forall|i: int| 0 <= i < 4 implies #[trigger] w.read(addr + k, 4)[i] == data[k + i] by {
            assert(m.mem.dom().contains(addr + k + i));
        }
    }
    assert(w.mapped(addr + k, 4));
}

/// A half word that is apart from what is stored stays.
pub proof fn lemma_half_apart(m: Machine, addr: int, data: Seq<u8>, x: int)
    requires
        addr + data.len() <= x || x + 4 <= addr,
    ensures
        m.try_write(addr, data).read_u32(x) == m.read_u32(x),
{
    if m.mapped(addr, data.len() as int) {
        let w = m.write(addr, data);
        law_write_then_read(m, addr, data, x);
        assert(w.mapped(x, 4) == m.mapped(x, 4));
        if m.mapped(x, 4) {
            assert forall|i: int| 0 <= i < 4 implies w.read(x, 4)[i] == m.read(x, 4)[i] by {
                assert(m.mem.dom().contains(x + i));
            }
            assert(w.read(x, 4) =~= m.read(x, 4));
        }
    }
}

/// A word that is apart from what is stored stays.
pub proof fn lemma_word_apart(m: Machine, addr: int, data: Seq<u8>, x: int)
    requires
        addr + data.len() <= x || x + 8 <= addr,
    ensures
        m.try_write(addr, data).read_u64(x) == m.read_u64(x),
{
    if m.mapped(addr, data.len() as int) {
        let w = m.write(addr, data);
        law_write_then_read(m, addr, data, x);
        assert(w.mapped(x, 8) == m.mapped(x, 8));
        if m.mapped(x, 8) {
            assert forall|i: int| 0 <= i < 8 implies w.read(x, 8)[i] == m.read(x, 8)[i] by {
                assert(m.mem.dom().contains(x + i));
            }
            assert(w.read(x, 8) =~= m.read(x, 8));
        }
    }
}

/// Unmapping what was just mapped gives the machine back.
pub proof fn law_map_then_unmap(b: Backend, addr: int, size: int, perms: u32)
    requires
        b@.can_map(addr, size),
    ensures
        b@.map_pages(addr, size, perms).can_change(addr, size),
        b@.map_pages(addr, size, perms).unmap_pages(addr, size) == b@,
{
    let m = b@.map_pages(addr, size, perms).unmap_pages(addr, size);
    assert forall|a: int| b@.mem.dom().contains(a) implies !(addr <= a < addr + size) by {
        law_pages_hold_their_bytes(b, a);
    }
    assert(m.mem =~= b@.mem);
    assert(m.prot =~= b@.prot);
}

/// A register that was written holds what was written, and no other register and no memory
/// changes. The zero register takes nothing and reads as zero.
pub proof fn law_registers_are_apart(b: Backend, r: RegisterARM64, other: RegisterARM64, v: u64)
    ensures
        ({
            let after = b@.set_reg(r, v);
            &&& r != RegisterARM64::XZR ==> after.reg(r) == v
            &&& other != r ==> after.reg(other) == b@.reg(other)
            &&& after.reg(RegisterARM64::XZR) == 0
            &&& after.mem == b@.mem && after.prot == b@.prot
        }),
{
    b.reg_slots();
}

} // verus!
