//! Symbols of loaded modules, and places that wait for a symbol's address.
use vstd::prelude::*;
use crate::backend::{Backend, BackendError};
use crate::elf::{ElfSymbol, SymbolEntry};
use crate::le::le64;
use crate::num::{address_limit, bits_of_i64, to_bits_i64};

verus! {

/// The load base of a symbol whose offset is the whole address.
pub const WEAK_BASE: i64 = -1;

/// A symbol of a loaded module.
pub struct LinuxSymbol {
    pub name: String,
    pub symbol: ElfSymbol,
    pub base: u64,
    pub module_name: String,
}

impl LinuxSymbol {
    /// Where the symbol stands in guest memory.
    pub open spec fn addr(self) -> int {
        self.base + self.symbol.value
    }

    pub fn address(&self) -> (r: u64)
        requires
            self.addr() <= u64::MAX,
        ensures
            r == self.addr(),
    {
        self.base + self.symbol.value
    }
}

/// A place that is to get the address of a symbol.
pub struct ModuleSymbol {
    pub so_name: String,
    pub load_base: i64,
    pub symbol: Option<SymbolEntry>,
    pub relocation_addr: u64,
    pub to_so_name: String,
    pub offset: u64,
}

/// A `ModuleSymbol` as contracts speak of it.
pub struct SymbolRef {
    pub so_name: Seq<char>,
    pub load_base: i64,
    pub symbol: Option<(Seq<char>, ElfSymbol)>,
    pub relocation_addr: u64,
    pub to_so_name: Seq<char>,
    pub offset: u64,
}

/// A symbol with its name as contracts speak of it.
pub open spec fn entry_view(e: Option<SymbolEntry>) -> Option<(Seq<char>, ElfSymbol)> {
    match e {
        Some(e) => Some((e.name@, e.symbol)),
        None => None,
    }
}

impl View for ModuleSymbol {
    type V = SymbolRef;

    open spec fn view(&self) -> SymbolRef {
        SymbolRef {
            so_name: self.so_name@,
            load_base: self.load_base,
            symbol: entry_view(self.symbol),
            relocation_addr: self.relocation_addr,
            to_so_name: self.to_so_name@,
            offset: self.offset,
        }
    }
}

/// The views of a sequence of places.
pub open spec fn symbol_refs(s: Seq<ModuleSymbol>) -> Seq<SymbolRef> {
    Seq::new(s.len(), |i: int| s[i]@)
}

impl SymbolRef {
    /// The address that the place gets: the offset alone for a resolved address, else
    /// the load base, the symbol's value and the offset, added up in 64 bits.
    pub open spec fn target(self) -> u64 {
        if self.load_base == WEAK_BASE {
            self.offset
        } else {
            let value: int = match self.symbol {
                Some((_, s)) => s.value as int,
                None => 0,
            };
            ((bits_of_i64(self.load_base) + value + self.offset) % address_limit()) as u64
        }
    }
}

/// The same symbol with its name once more.
pub fn copy_entry(e: &Option<SymbolEntry>) -> (r: Option<SymbolEntry>)
    ensures
        entry_view(r) == entry_view(*e),
{
    match e {
        Some(e) => Some(e.copy()),
        None => None,
    }
}

impl ModuleSymbol {
    pub fn new(
        so_name: &str,
        load_base: i64,
        symbol: &Option<SymbolEntry>,
        relocation_addr: u64,
        to_so_name: &str,
        offset: u64,
    ) -> (r: ModuleSymbol)
        ensures
            r@ == (SymbolRef {
                so_name: so_name@,
                load_base,
                symbol: entry_view(*symbol),
                relocation_addr,
                to_so_name: to_so_name@,
                offset,
            }),
    {
        ModuleSymbol {
            so_name: so_name.to_owned(),
            load_base,
            symbol: copy_entry(symbol),
            relocation_addr,
            to_so_name: to_so_name.to_owned(),
            offset,
        }
    }

    /// Store the address at its place.
    pub fn relocation(&self, backend: &mut Backend) -> (r: Result<(), BackendError>)
        ensures
            r is Ok <==> old(backend)@.mapped(self.relocation_addr as int, 8),
            r is Err ==> r == Err::<(), BackendError>(BackendError::Unmapped),
            final(backend)@ == old(backend)@.try_write(
                self.relocation_addr as int,
                le64(self@.target()),
            ),
    {
        let value: u64 = if self.load_base == WEAK_BASE {
            self.offset
        } else {
            let v: u64 = match &self.symbol {
                Some(e) => e.symbol.value,
                None => 0,
            };
            let sum: u128 = to_bits_i64(self.load_base) as u128 + v as u128 + self.offset as u128;
            (sum % 0x1_0000_0000_0000_0000u128) as u64
        };
        backend.mem_write_u64(self.relocation_addr, value)
    }
}

/// A place whose address is resolved gets exactly that address, whatever the symbol.
pub proof fn law_resolved_address_is_stored(s: SymbolRef)
    requires
        s.load_base == WEAK_BASE,
    ensures
        s.target() == s.offset,
{
}

/// A place with a load base gets the sum of the base, the symbol's value and the offset; where
/// no symbol is known, the sum of the base and the offset. A symbol that moves by some bytes
/// moves the address by as many.
pub proof fn law_place_gets_the_sum(s: SymbolRef, base: u64)
    requires
        base < 0x8000_0000_0000_0000,
        s.load_base == base,
        base + s.offset + (match s.symbol {
            Some((_, e)) => e.value as int,
            None => 0,
        }) <= u64::MAX,
    ensures
        s.symbol matches Some((_, e)) ==> s.target() == base + e.value + s.offset,
        s.symbol is None ==> s.target() == base + s.offset,
{
}

} // verus!
