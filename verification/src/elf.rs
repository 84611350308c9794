//! The parts of an ELF image that the loader reads.
use vstd::prelude::*;
use crate::text::str_eq;

verus! {

pub const PT_LOAD: u32 = 1;

pub const PT_DYNAMIC: u32 = 2;

pub const PT_GNU_EH_FRAME: u32 = 0x6474e550;

pub const PT_ARM_EXIDX: u32 = 0x70000001;

pub const SHT_SYMTAB: u32 = 2;

pub const R_ARM_ABS32: u32 = 2;

pub const R_ARM_COPY: u32 = 20;

pub const R_ARM_GLOB_DAT: u32 = 21;

pub const R_ARM_JUMP_SLOT: u32 = 22;

pub const R_AARCH64_ABS64: u32 = 257;

pub const R_AARCH64_COPY: u32 = 1024;

pub const R_AARCH64_GLOB_DAT: u32 = 1025;

pub const R_AARCH64_JUMP_SLOT: u32 = 1026;

pub const R_AARCH64_RELATIVE: u32 = 1027;

pub const R_AARCH64_TLS_DTPMOD: u32 = 1028;

pub const R_AARCH64_TLS_DTPREL: u32 = 1029;

pub const R_AARCH64_TLS_TPREL: u32 = 1030;

pub const R_AARCH64_TLSDESC: u32 = 1031;

pub const R_AARCH64_IRELATIVE: u32 = 1032;

/// What a program header's contents were parsed as.
pub enum SegmentData {
    Load(Vec<u8>),
    DynamicStructure,
    GnuEhFrameHeader,
    ArmExIdx,
    Other,
}

pub struct ProgramHeader {
    pub typ: u32,
    pub flags: u32,
    pub virtual_address: u64,
    pub mem_size: u64,
    pub align: u64,
    pub data: SegmentData,
}

/// A symbol of a symbol table.
#[derive(Clone, Copy, Debug, PartialEq, Eq, Structural)]
pub struct ElfSymbol {
    pub value: u64,
    pub size: u64,
    pub info: u8,
    pub section: u16,
}

impl ElfSymbol {
    /// The symbol has no section: it is defined elsewhere.
    pub open spec fn undefined(self) -> bool {
        self.section == 0
    }

    /// The symbol is a GNU indirect function.
    pub open spec fn gnu_ifunc(self) -> bool {
        self.info % 16 == 10
    }

    /// The symbol's bytes hold the address `addr`, relative to the image.
    pub open spec fn covers(self, addr: u64) -> bool {
        self.value <= addr < self.value + self.size
    }

    pub fn is_undefined(&self) -> (r: bool)
        ensures
            r == self.undefined(),
    {
        self.section == 0
    }

    pub fn is_gnu_ifunc(&self) -> (r: bool)
        ensures
            r == self.gnu_ifunc(),
    {
        self.info % 16 == 10
    }
}

/// A symbol with its name.
pub struct SymbolEntry {
    pub name: String,
    pub symbol: ElfSymbol,
}

impl SymbolEntry {
    /// The same name and symbol once more.
    pub fn copy(&self) -> (r: SymbolEntry)
        ensures
            r.name@ == self.name@,
            r.symbol == self.symbol,
    {
        SymbolEntry { name: self.name.as_str().to_owned(), symbol: self.symbol }
    }
}

pub struct SymbolTable {
    pub entries: Vec<SymbolEntry>,
}

/// The first entry from `from` on with this name.
pub open spec fn first_named(entries: Seq<SymbolEntry>, name: Seq<char>, from: int) -> Option<
    ElfSymbol,
>
    decreases entries.len() - from,
{
    if from < 0 || from >= entries.len() {
        None
    } else if entries[from].name@ == name {
        Some(entries[from].symbol)
    } else {
        first_named(entries, name, from + 1)
    }
}

/// The position of the first entry from `from` on that holds this address.
pub open spec fn first_covering(entries: Seq<SymbolEntry>, addr: u64, from: int) -> Option<int>
    decreases entries.len() - from,
{
    if from < 0 || from >= entries.len() {
        None
    } else if entries[from].symbol.covers(addr) {
        Some(from)
    } else {
        first_covering(entries, addr, from + 1)
    }
}

/// A found entry stands in the table and holds the address.
pub proof fn lemma_first_covering(entries: Seq<SymbolEntry>, addr: u64, from: int)
    requires
        0 <= from,
    ensures
        first_covering(entries, addr, from) matches Some(i) ==> from <= i < entries.len()
            && entries[i].symbol.covers(addr),
    decreases entries.len() - from,
{
    if from < entries.len() && !entries[from].symbol.covers(addr) {
        lemma_first_covering(entries, addr, from + 1);
    }
}

impl SymbolTable {
    /// The first symbol with this name.
    pub fn get_elf_symbol_by_name(&self, name: &str) -> (r: Option<ElfSymbol>)
        ensures
            r == first_named(self.entries@, name@, 0),
    {
        let mut i: usize = 0;
        while i < self.entries.len()
            invariant
                i <= self.entries@.len(),
                first_named(self.entries@, name@, 0) == first_named(
                    self.entries@,
                    name@,
                    i as int,
                ),
            decreases self.entries@.len() - i,
        {
            if str_eq(self.entries[i].name.as_str(), name) {
                return Some(self.entries[i].symbol);
            }
            i = i + 1;
        }
        None
    }

    /// The first symbol that holds this address, relative to the image.
    pub fn get_elf_symbol_by_addr(&self, addr: u64) -> (r: Option<usize>)
        ensures
            match r {
                Some(i) => first_covering(self.entries@, addr, 0) == Some(i as int) && i
                    < self.entries@.len(),
                None => first_covering(self.entries@, addr, 0) is None,
            },
    {
        let mut i: usize = 0;
        while i < self.entries.len()
            invariant
                i <= self.entries@.len(),
                first_covering(self.entries@, addr, 0) == first_covering(
                    self.entries@,
                    addr,
                    i as int,
                ),
            decreases self.entries@.len() - i,
        {
            let s = self.entries[i].symbol;
            if s.value <= addr && addr - s.value < s.size {
                return Some(i);
            }
            i = i + 1;
        }
        None
    }
}

/// One entry of a relocation table.
pub struct Relocation {
    pub offset: u64,
    pub typ: u32,
    pub addend: i64,
    /// Whether the entry carries its addend, or the relocated slot does.
    pub explicit_addend: bool,
    pub symbol: Option<SymbolEntry>,
}

pub struct DynamicStructure {
    /// The name the image gives itself.
    pub so_name: Option<String>,
    pub needed: Vec<String>,
    pub relr_offset: u64,
    pub relr_size: u32,
    pub relocations: Vec<Relocation>,
    pub init: u64,
    pub init_array_offset: u64,
    pub init_array_size: u32,
    pub preinit_array_offset: u64,
    pub preinit_array_size: u32,
    pub symbols: SymbolTable,
}

pub struct ElfFile {
    pub version: u8,
    pub encoding: u8,
    pub object_size: u8,
    pub arch: u16,
    pub file_type: u16,
    pub entry_point: u64,
    pub ph_offset: u64,
    pub ph_entry_size: u16,
    pub num_ph: u16,
    pub program_headers: Vec<ProgramHeader>,
    /// The type of each section.
    pub section_headers: Vec<u32>,
}

impl ElfFile {
    /// There are as many program headers as the image says.
    pub open spec fn wf(self) -> bool {
        self.program_headers@.len() == self.num_ph
    }

    /// The first section of a type.
    pub fn find_section_by_type(&self, typ: u32) -> (r: Option<usize>)
        ensures
            match r {
                Some(i) => {
                    &&& i < self.section_headers@.len()
                    &&& self.section_headers@[i as int] == typ
                    &&& forall|j: int| 0 <= j < i ==> self.section_headers@[j] != typ
                },
                None => forall|j: int|
                    0 <= j < self.section_headers@.len() ==> self.section_headers@[j] != typ,
            },
    {
        let mut i: usize = 0;
        while i < self.section_headers.len()
            invariant
                i <= self.section_headers@.len(),
                forall|j: int| 0 <= j < i ==> self.section_headers@[j] != typ,
            decreases self.section_headers@.len() - i,
        {
            if self.section_headers[i] == typ {
                return Some(i);
            }
            i = i + 1;
        }
        None
    }
}

/// Looking a name up gives the first symbol of the table that has it, or nothing where no
/// symbol has it; looking an address up gives the first symbol whose bytes hold it.
pub proof fn law_first_symbols(entries: Seq<SymbolEntry>, name: Seq<char>, addr: u64)
    ensures
        match first_named(entries, name, 0) {
            Some(s) => exists|i: int|
                0 <= i < entries.len() && (#[trigger] entries[i]).name@ == name && entries[i].symbol
                    == s && forall|j: int| 0 <= j < i ==> (#[trigger] entries[j]).name@ != name,
            None => forall|i: int| 0 <= i < entries.len() ==> (#[trigger] entries[i]).name@ != name,
        },
        match first_covering(entries, addr, 0) {
            Some(i) => {
                &&& 0 <= i < entries.len()
                &&& entries[i].symbol.value <= addr
                &&& addr < entries[i].symbol.value + entries[i].symbol.size
                &&& forall|j: int|
                    0 <= j < i ==> addr < (#[trigger] entries[j]).symbol.value || entries[j].symbol.value
                        + entries[j].symbol.size <= addr
            },
            None => forall|j: int|
                0 <= j < entries.len() ==> addr < (#[trigger] entries[j]).symbol.value
                    || entries[j].symbol.value + entries[j].symbol.size <= addr,
        },
{
    lemma_first_named(entries, name, 0);
    lemma_covering_order(entries, addr, 0);
}

/// The first of the entries from `from` on, said without recursion.
pub proof fn lemma_first_named(entries: Seq<SymbolEntry>, name: Seq<char>, from: int)
    requires
        0 <= from <= entries.len(),
    ensures
        match first_named(entries, name, from) {
            Some(s) => exists|i: int|
                from <= i < entries.len() && (#[trigger] entries[i]).name@ == name
                    && entries[i].symbol == s && forall|j: int|
                    from <= j < i ==> (#[trigger] entries[j]).name@ != name,
            None => forall|i: int|
                from <= i < entries.len() ==> (#[trigger] entries[i]).name@ != name,
        },
    decreases entries.len() - from,
{
    if from < entries.len() {
        if entries[from].name@ == name {
            assert(entries[from].symbol == first_named(entries, name, from)->0);
        } else {
            lemma_first_named(entries, name, from + 1);
            if let Some(s) = first_named(entries, name, from + 1) {
                let i = choose|i: int|
                    from + 1 <= i < entries.len() && (#[trigger] entries[i]).name@ == name
                        && entries[i].symbol == s && forall|j: int|
                        from + 1 <= j < i ==> (#[trigger] entries[j]).name@ != name;
                assert(entries[i].symbol == s);
            }
        }
    }
}

proof fn lemma_covering_order(entries: Seq<SymbolEntry>, addr: u64, from: int)
    requires
        0 <= from <= entries.len(),
    ensures
        match first_covering(entries, addr, from) {
            Some(i) => {
                &&& from <= i < entries.len()
                &&& entries[i].symbol.covers(addr)
                &&& forall|j: int| from <= j < i ==> !(#[trigger] entries[j]).symbol.covers(addr)
            },
            None => forall|j: int|
                from <= j < entries.len() ==> !(#[trigger] entries[j]).symbol.covers(addr),
        },
    decreases entries.len() - from,
{
    if from < entries.len() && !entries[from].symbol.covers(addr) {
        lemma_covering_order(entries, addr, from + 1);
    }
}

} // verus!
