//! Changes to a mapped image before it runs: instruction hints that the processor
//! core does not know, and packed relative relocations.
use vstd::prelude::*;
use crate::backend::{
    law_write_then_read, lemma_word_apart, lemma_word_stored, Backend, BackendError, Machine,
};
use crate::le::{get_le32, le32, le64, put_le32, un_le32};
use crate::memory::segments::LoadError;
use crate::num::address_limit;

verus! {

pub const NOP: u32 = 0xd503201f;

pub const HINT_MASK: u32 = 0xfffff01f;

/// The number of a hint instruction.
pub open spec fn hint_number(insn: u32) -> u32 {
    (insn >> 5) & 0x7f
}

/// The hint is among the instructions of pointer authentication and branch targets, or in
/// one of the three blocks of eight that hold most of them: `xpaclri`; `pacia1716`,
/// `pacib1716`, `autia1716` and `autib1716`; and all hints from 16 to 39. That takes in some
/// barriers, which the processor core does not need.
pub open spec fn is_dropped_hint(n: u32) -> bool {
    n == 7 || n == 8 || n == 10 || n == 12 || n == 14 || 16 <= n <= 39
}

/// The word is a hint instruction that a `nop` takes the place of.
pub open spec fn is_dropped(insn: u32) -> bool {
    insn & HINT_MASK == NOP && is_dropped_hint(hint_number(insn))
}

/// The word that starts at position `4 * k`.
pub open spec fn word_at(code: Seq<u8>, k: int) -> u32 {
    un_le32(code.subrange(4 * k, 4 * k + 4))
}

/// The code with each such hint replaced by a `nop`.
pub open spec fn neutralized(code: Seq<u8>) -> Seq<u8> {
    Seq::new(
        code.len(),
        |i: int|
            if is_dropped(word_at(code, i / 4)) {
                le32(NOP)[i % 4]
            } else {
                code[i]
            },
    )
}

/// The machine after the hints in `[addr, addr + size)` were replaced; a rest shorter
/// than a word, and a range that is not mapped, stay as they are.
pub open spec fn code_neutralized(m: Machine, addr: int, size: int) -> Machine {
    let n = size - size % 4;
    if m.mapped(addr, n) {
        m.write(addr, neutralized(m.read(addr, n as nat)))
    } else {
        m
    }
}

/// Replace pointer-authentication and branch-target hints by `nop`. The processor
/// core has neither, and the Android 16 start-up code is full of them.
pub fn neutralize_pac_bti(backend: &mut Backend, addr: u64, size: u64)
    ensures
        final(backend)@ == code_neutralized(old(backend)@, addr as int, size as int),
{
    let n: u64 = size - size % 4;
    let code = match backend.mem_read_as_vec(addr, n) {
        Ok(v) => v,
        Err(_) => {
            return ;
        },
    };
    let ghost start = code@;
    assert(start =~= backend@.read(addr as int, n as nat));
    let nop = put_le32(NOP);
    let mut out: Vec<u8> = Vec::new();
    let mut i: usize = 0;
    let len: usize = code.len();
    while i < len
        invariant
            len == code@.len(),
            len % 4 == 0,
            i % 4 == 0,
            i <= len,
            nop@ == le32(NOP),
            out@.len() == i,
            forall|j: int| 0 <= j < i ==> #[trigger] out@[j] == neutralized(code@)[j],
        decreases len - i,
    {
        let w = vstd::slice::slice_subrange(code.as_slice(), i, i + 4);
        let insn: u32 = get_le32(w);
        let ghost k = i as int / 4;
        assert(w@ =~= code@.subrange(4 * k, 4 * k + 4));
        let number: u32 = (insn >> 5) & 0x7f;
        let dropped = number == 7 || number == 8 || number == 10 || number == 12 || number == 14
            || (number >= 16 && number <= 39);
        let hint = insn & HINT_MASK == NOP && dropped;
        let mut j: usize = 0;
        while j < 4
            invariant
                len == code@.len(),
                i + 4 <= len,
                i % 4 == 0,
                k == i as int / 4,
                j <= 4,
                nop@ == le32(NOP),
                hint == is_dropped(word_at(code@, k)),
                out@.len() == i + j,
                forall|l: int| 0 <= l < i + j ==> #[trigger] out@[l] == neutralized(code@)[l],
            decreases 4 - j,
        {
            assert((i + j) / 4 == k && (i + j) % 4 == j);
            if hint {
                out.push(nop[j]);
            } else {
                out.push(code[i + j]);
            }
            j = j + 1;
        }
        i = i + 4;
    }
    assert(out@ =~= neutralized(start));
    backend.mem_try_write(addr, out.as_slice());
}

/// Replacing hints leaves every other instruction alone, leaves no such hint behind,
/// and doing it again changes nothing.
pub proof fn law_neutralized_code(code: Seq<u8>, k: int)
    requires
        code.len() % 4 == 0,
        0 <= k < code.len() / 4,
    ensures
        neutralized(code).len() == code.len(),
        word_at(neutralized(code), k) == if is_dropped(word_at(code, k)) {
            NOP
        } else {
            word_at(code, k)
        },
        !is_dropped(word_at(neutralized(code), k)),
        neutralized(neutralized(code)) == neutralized(code),
{
    lemma_neutralized_word(code, k);
    let once = neutralized(code);
    let twice = neutralized(once);
    assert forall|i: int| 0 <= i < code.len() implies twice[i] == once[i] by {
        lemma_neutralized_word(code, i / 4);
    }
    assert(twice =~= once);
}

proof fn lemma_neutralized_word(code: Seq<u8>, k: int)
    requires
        code.len() % 4 == 0,
        0 <= k < code.len() / 4,
    ensures
        word_at(neutralized(code), k) == if is_dropped(word_at(code, k)) {
            NOP
        } else {
            word_at(code, k)
        },
        !is_dropped(word_at(neutralized(code), k)),
{
    assert((0xd503201fu32 >> 5) & 0x7f == 0) by (bit_vector);
    let w = neutralized(code).subrange(4 * k, 4 * k + 4);
    if is_dropped(word_at(code, k)) {
        assert(w =~= le32(NOP)) by {
            assert forall|j: int| 0 <= j < 4 implies w[j] == le32(NOP)[j] by {
                assert((4 * k + j) / 4 == k && (4 * k + j) % 4 == j);
            }
        }
        crate::le::law_le32_round_trip(NOP);
    } else {
        assert(w =~= code.subrange(4 * k, 4 * k + 4)) by {
            assert forall|j: int| 0 <= j < 4 implies w[j] == code[4 * k + j] by {
                assert((4 * k + j) / 4 == k && (4 * k + j) % 4 == j);
            }
        }
    }
}

/// How far packed relative relocations were applied: the machine, the next place that
/// a bitmap speaks of, and whether all places were mapped so far. `fits` says that no
/// address so far left the address space.
#[verifier::ext_equal]
pub struct RelrRun {
    pub m: Machine,
    pub at: int,
    pub ok: bool,
    pub fits: bool,
}

impl RelrRun {
    /// The load base is added to the word at `loc`.
    pub open spec fn bump(self, loc: int, load_base: u64) -> RelrRun {
        if !self.ok || !self.fits {
            self
        } else if loc > u64::MAX {
            RelrRun { fits: false, ..self }
        } else {
            match self.m.read_u64(loc) {
                Some(v) => RelrRun {
                    m: self.m.write(loc, le64(((v + load_base) % address_limit()) as u64)),
                    ..self
                },
                None => RelrRun { ok: false, ..self },
            }
        }
    }

    /// The first `n` bits of a bitmap entry are applied: bit `i + 1` of the entry
    /// stands for the `i`th word from `at` on.
    pub open spec fn bits(self, entry: u64, n: int, load_base: u64) -> RelrRun
        decreases n,
    {
        if n <= 0 {
            self
        } else {
            let before = self.bits(entry, n - 1, load_base);
            if (entry >> (n as u64)) & 1 != 0 {
                before.bump(self.at + (n - 1) * 8, load_base)
            } else {
                before
            }
        }
    }

    /// The place moves on.
    pub open spec fn moved(self, to: int) -> RelrRun {
        if !self.ok || !self.fits {
            self
        } else if to > u64::MAX {
            RelrRun { fits: false, ..self }
        } else {
            RelrRun { at: to, ..self }
        }
    }

    /// One entry is applied. An even entry is the address of a word, relative to the
    /// load base; an odd one is a bitmap of the 63 words that follow.
    pub open spec fn entry(self, entry: u64, load_base: u64) -> RelrRun {
        if entry % 2 == 0 {
            let loc = load_base + entry;
            self.moved(loc).bump(loc, load_base).moved(loc + 8)
        } else {
            self.bits(entry, 63, load_base).moved(self.at + 504)
        }
    }

    /// The first `n` entries of the table at `table` are applied.
    pub open spec fn entries(self, table: int, n: int, load_base: u64) -> RelrRun
        decreases n,
    {
        if n <= 0 {
            self
        } else {
            let before = self.entries(table, n - 1, load_base);
            let addr = table + (n - 1) * 8;
            if !before.ok || !before.fits {
                before
            } else if addr > u64::MAX {
                RelrRun { fits: false, ..before }
            } else {
                match before.m.read_u64(addr) {
                    Some(e) => before.entry(e, load_base),
                    None => RelrRun { ok: false, ..before },
                }
            }
        }
    }
}

/// Before any entry was applied.
pub open spec fn relr_start(m: Machine) -> RelrRun {
    RelrRun { m, at: 0, ok: true, fits: true }
}

/// All packed relative relocations of an image at `load_base` are applied; their table
/// stands at `relr_vaddr` in the image.
pub open spec fn relr_applied(m: Machine, load_base: u64, relr_vaddr: u64, relr_size: u32) -> RelrRun {
    if load_base + relr_vaddr > u64::MAX {
        RelrRun { fits: false, ..relr_start(m) }
    } else {
        relr_start(m).entries(load_base + relr_vaddr, relr_size as int / 8, load_base)
    }
}

/// Once an address left the address space, or a place was not mapped, nothing more
/// happens.
pub proof fn lemma_bits_stuck(s: RelrRun, entry: u64, n: int, load_base: u64)
    requires
        0 <= n,
        !s.bits(entry, n, load_base).ok || !s.bits(entry, n, load_base).fits,
        n <= 63,
    ensures
        s.bits(entry, 63, load_base) == s.bits(entry, n, load_base),
    decreases 63 - n,
{
    if n < 63 {
        lemma_bits_stuck(s, entry, n + 1, load_base);
    }
}

pub proof fn lemma_entries_stuck(s: RelrRun, table: int, n: int, total: int, load_base: u64)
    requires
        0 <= n <= total,
        !s.entries(table, n, load_base).ok || !s.entries(table, n, load_base).fits,
    ensures
        s.entries(table, total, load_base) == s.entries(table, n, load_base),
    decreases total - n,
{
    if n < total {
        lemma_entries_stuck(s, table, n + 1, total, load_base);
    }
}

fn bump(backend: &mut Backend, loc: u64, load_base: u64) -> (r: Result<(), BackendError>)
    ensures
        ({
            let s = RelrRun { m: old(backend)@, at: 0, ok: true, fits: true }.bump(
                loc as int,
                load_base,
            );
            &&& final(backend)@ == s.m
            &&& s.ok == (r is Ok)
            &&& s.fits
        }),
        r is Err ==> r == Err::<(), BackendError>(BackendError::Unmapped),
{
    match backend.mem_read_u64(loc) {
        Ok(v) => {
            let sum: u128 = v as u128 + load_base as u128;
            let val: u64 = (sum % 0x1_0000_0000_0000_0000u128) as u64;
            backend.mem_write_u64(loc, val)
        },
        Err(e) => Err(e),
    }
}

/// Apply the packed relative relocations of an image.
pub fn apply_relr(backend: &mut Backend, load_base: u64, relr_vaddr: u64, relr_size: u32) -> (r:
    Result<(), LoadError>)
    ensures
        ({
            let end = relr_applied(old(backend)@, load_base, relr_vaddr, relr_size);
            &&& final(backend)@ == end.m
            &&& r == if !end.fits {
                Err(LoadError::Misplaced)
            } else if !end.ok {
                Err(LoadError::Memory(BackendError::Unmapped))
            } else {
                Ok::<(), LoadError>(())
            }
        }),
{
    if relr_vaddr > u64::MAX - load_base {
        return Err(LoadError::Misplaced);
    }
    let table: u64 = load_base + relr_vaddr;
    let count: u64 = relr_size as u64 / 8;
    let ghost start = relr_start(backend@);
    let mut at: u64 = 0;
    let mut i: u64 = 0;
    while i < count
        invariant
            i <= count,
            count == relr_size as int / 8,
            table == load_base + relr_vaddr,
            start == relr_start(old(backend)@),
            ({
                let s = start.entries(table as int, i as int, load_base);
                s.ok && s.fits && s.m == backend@ && s.at == at
            }),
        decreases count - i,
    {
        let ghost s = start.entries(table as int, i as int, load_base);
        let ghost next = start.entries(table as int, i + 1, load_base);
        proof {
            if !next.ok || !next.fits {
                lemma_entries_stuck(start, table as int, i + 1, count as int, load_base);
            }
        }
        if i * 8 > u64::MAX - table {
            return Err(LoadError::Misplaced);
        }
        let entry: u64 = match backend.mem_read_u64(table + i * 8) {
            Ok(e) => e,
            Err(e) => {
                return Err(LoadError::Memory(e));
            },
        };
        assert(next == s.entry(entry, load_base));
        assert(entry & 1 == entry % 2) by (bit_vector);
        if entry & 1 == 0 {
            if entry > u64::MAX - load_base {
                return Err(LoadError::Misplaced);
            }
            at = load_base + entry;
            match bump(backend, at, load_base) {
                Ok(_) => {},
                Err(e) => {
                    return Err(LoadError::Memory(e));
                },
            }
            if at > u64::MAX - 8 {
                return Err(LoadError::Misplaced);
            }
            at = at + 8;
        } else {
            let mut idx: u64 = 0;
            while idx < 63
                invariant
                    idx <= 63,
                    i < count,
                    count == relr_size as int / 8,
                    table == load_base + relr_vaddr,
                    start == relr_start(old(backend)@),
                    s.ok && s.fits && s.at == at,
                    next == s.bits(entry, 63, load_base).moved(s.at + 504),
                    next == start.entries(table as int, i + 1, load_base),
                    !next.ok || !next.fits ==> start.entries(
                        table as int,
                        count as int,
                        load_base,
                    ) == next,
                    ({
                        let b = s.bits(entry, idx as int, load_base);
                        b.ok && b.fits && b.m == backend@ && b.at == at
                    }),
                decreases 63 - idx,
            {
                let ghost b = s.bits(entry, idx + 1, load_base);
                proof {
                    if !b.ok || !b.fits {
                        lemma_bits_stuck(s, entry, idx + 1, load_base);
                    }
                }
                if (entry >> (idx + 1)) & 1 != 0 {
                    if idx * 8 > u64::MAX - at {
                        return Err(LoadError::Misplaced);
                    }
                    match bump(backend, at + idx * 8, load_base) {
                        Ok(_) => {},
                        Err(e) => {
                            return Err(LoadError::Memory(e));
                        },
                    }
                }
                idx = idx + 1;
            }
            if at > u64::MAX - 504 {
                return Err(LoadError::Misplaced);
            }
            at = at + 504;
        }
        i = i + 1;
    }
    Ok(())
}

/// Adding the load base to a word changes that word and no other byte.
proof fn lemma_bumped(s: RelrRun, loc: int, load_base: u64, x: int)
    requires
        s.ok,
        s.fits,
        s.bump(loc, load_base).ok,
        s.bump(loc, load_base).fits,
    ensures
        s.m.read_u64(loc) is Some,
        s.bump(loc, load_base).m.read_u64(loc) == Some(
            ((s.m.read_u64(loc)->0 + load_base) % 0x1_0000_0000_0000_0000) as u64,
        ),
        s.bump(loc, load_base).at == s.at,
        loc + 8 <= x || x + 8 <= loc ==> s.bump(loc, load_base).m.read_u64(x) == s.m.read_u64(x),
        s.bump(loc, load_base).m.mem.dom() == s.m.mem.dom(),
        s.bump(loc, load_base).m.prot == s.m.prot,
        s.bump(loc, load_base).m.regs == s.m.regs,
        forall|a: int|
            s.m.mem.dom().contains(a) && !(loc <= a < loc + 8) ==> #[trigger] s.bump(
                loc,
                load_base,
            ).m.mem[a] == s.m.mem[a],
{
    let v = s.m.read_u64(loc)->0;
    let sum = ((v + load_base) % address_limit()) as u64;
    assert(le64(sum).len() == 8);
    lemma_word_stored(s.m, loc, sum);
    law_write_then_read(s.m, loc, le64(sum), loc);
    if loc + 8 <= x || x + 8 <= loc {
        lemma_word_apart(s.m, loc, le64(sum), x);
    }
}

proof fn lemma_bits(s: RelrRun, entry: u64, n: int, load_base: u64, i: int)
    requires
        s.ok,
        s.fits,
        0 <= n <= 63,
        s.bits(entry, n, load_base).ok,
        s.bits(entry, n, load_base).fits,
        0 <= i < 63,
    ensures
        ({
            let end = s.bits(entry, n, load_base);
            let x = s.at + 8 * i;
            &&& end.at == s.at
            &&& end.m.mem.dom() == s.m.mem.dom()
            &&& end.m.prot == s.m.prot
            &&& end.m.regs == s.m.regs
            &&& i < n && (entry >> ((i + 1) as u64)) & 1 != 0 ==> s.m.read_u64(x) is Some
                && end.m.read_u64(x) == Some(
                ((s.m.read_u64(x)->0 + load_base) % 0x1_0000_0000_0000_0000) as u64,
            )
            &&& !(i < n && (entry >> ((i + 1) as u64)) & 1 != 0) ==> end.m.read_u64(x)
                == s.m.read_u64(x)
            &&& forall|a: int|
                s.m.mem.dom().contains(a) && !(s.at <= a < s.at + 8 * n) ==> #[trigger] end.m.mem[a]
                    == s.m.mem[a]
        }),
    decreases n,
{
    if n > 0 {
        let before = s.bits(entry, n - 1, load_base);
        assert(before.ok && before.fits);
        lemma_bits(s, entry, n - 1, load_base, i);
        if (entry >> (n as u64)) & 1 != 0 {
            let loc = s.at + (n - 1) * 8;
            lemma_bumped(before, loc, load_base, s.at + 8 * i);
        }
    }
}

/// A bitmap entry of the packed relocations speaks of the 63 words from the current place
/// on. After it, each of these words has the load base added, in 64 bits, exactly where its
/// bit of the entry is set: bit 1 for the first word, bit 63 for the last. The words whose
/// bits are clear, and all bytes elsewhere, stay as they are; the place moves on by 63 words.
pub proof fn law_relr_bitmap(s: RelrRun, entry: u64, load_base: u64, i: int, a: int)
    requires
        s.ok,
        s.fits,
        entry % 2 == 1,
        s.entry(entry, load_base).ok,
        s.entry(entry, load_base).fits,
        0 <= i < 63,
    ensures
        ({
            let end = s.entry(entry, load_base);
            let x = s.at + 8 * i;
            &&& (entry >> ((i + 1) as u64)) & 1 == 1 ==> s.m.read_u64(x) is Some
                && end.m.read_u64(x) == Some(
                ((s.m.read_u64(x)->0 + load_base) % 0x1_0000_0000_0000_0000) as u64,
            )
            &&& (entry >> ((i + 1) as u64)) & 1 == 0 ==> end.m.read_u64(x) == s.m.read_u64(x)
            &&& s.m.mem.dom().contains(a) && !(s.at <= a < s.at + 504) ==> end.m.mem[a]
                == s.m.mem[a]
            &&& end.m.mem.dom() == s.m.mem.dom()
            &&& end.m.prot == s.m.prot
            &&& end.m.regs == s.m.regs
            &&& end.at == s.at + 504
        }),
{
    let bits = s.bits(entry, 63, load_base);
    assert(bits.ok && bits.fits);
    lemma_bits(s, entry, 63, load_base, i);
}

/// An even entry of the packed relocations is the address of one word, counted from the
/// load base. That word has the load base added, in 64 bits; all other bytes stay as they
/// are, and the place moves to the word after it.
pub proof fn law_relr_address(s: RelrRun, entry: u64, load_base: u64, a: int)
    requires
        s.ok,
        s.fits,
        entry % 2 == 0,
        s.entry(entry, load_base).ok,
        s.entry(entry, load_base).fits,
    ensures
        ({
            let end = s.entry(entry, load_base);
            let x = load_base + entry;
            &&& s.m.read_u64(x) is Some
            &&& end.m.read_u64(x) == Some(
                ((s.m.read_u64(x)->0 + load_base) % 0x1_0000_0000_0000_0000) as u64,
            )
            &&& s.m.mem.dom().contains(a) && !(x <= a < x + 8) ==> end.m.mem[a] == s.m.mem[a]
            &&& end.m.mem.dom() == s.m.mem.dom()
            &&& end.m.prot == s.m.prot
            &&& end.m.regs == s.m.regs
            &&& end.at == x + 8
        }),
{
    let x = load_base + entry;
    let there = s.moved(x);
    lemma_bumped(there, x, load_base, x);
}

/// The table of packed relocations is applied entry by entry, from its start at the load
/// base and the table's address on. With eight bytes more of it, the next entry is read
/// where those eight bytes stand and applied to what came of the entries before. Without
/// any entry nothing happens, and where all went well, all went well before.
pub proof fn law_relr_table(m: Machine, load_base: u64, relr_vaddr: u64, relr_size: u32)
    requires
        relr_size % 8 == 0,
        relr_size + 8 <= u32::MAX,
        load_base + relr_vaddr <= u64::MAX,
    ensures
        relr_applied(m, load_base, relr_vaddr, 0) == (RelrRun { m, at: 0, ok: true, fits: true }),
        ({
            let before = relr_applied(m, load_base, relr_vaddr, relr_size);
            let after = relr_applied(m, load_base, relr_vaddr, (relr_size + 8) as u32);
            after.ok && after.fits ==> {
                &&& before.ok
                &&& before.fits
                &&& before.m.read_u64(load_base + relr_vaddr + relr_size) matches Some(entry)
                &&& after == before.entry(entry, load_base)
            }
        }),
{
    let table = load_base + relr_vaddr;
    let n = relr_size as int / 8;
    let before = relr_start(m).entries(table, n, load_base);
    let after = relr_start(m).entries(table, n + 1, load_base);
    assert((relr_size + 8) as u32 as int / 8 == n + 1);
    assert(8 * n == relr_size);
    assert(table + (n + 1 - 1) * 8 == load_base + relr_vaddr + relr_size);
}

/// Which instructions a `nop` takes the place of: the hints with the numbers 7, 8, 10, 12
/// and 14, and those from 16 to 39. A hint has its number in bits 5 to 11, and the bits of
/// `nop` elsewhere. No other hint and no other instruction is replaced.
pub proof fn law_dropped_hints(insn: u32, n: u32)
    requires
        n < 128,
    ensures
        is_dropped(0xd503201fu32 | (n << 5)) <==> (n == 7 || n == 8 || n == 10 || n == 12 || n == 14
            || (16 <= n && n <= 39)),
        is_dropped(insn) ==> insn == 0xd503201fu32 | (((insn >> 5) & 0x7f) << 5),
        !is_dropped(NOP),
{
    assert((0xd503201fu32 | (n << 5)) & 0xfffff01f == 0xd503201f && ((0xd503201fu32 | (n << 5))
        >> 5) & 0x7f == n) by (bit_vector)
        requires
            n < 128,
    ;
    assert(insn & 0xfffff01f == 0xd503201f ==> insn == 0xd503201fu32 | (((insn >> 5) & 0x7f) << 5))
        by (bit_vector);
    assert((0xd503201fu32 >> 5) & 0x7f == 0) by (bit_vector);
}

} // verus!
