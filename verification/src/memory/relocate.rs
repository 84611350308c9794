//! Relocating an image, and taking it into the list of modules.
use vstd::prelude::*;
use crate::backend::{
    law_write_then_read, lemma_word_apart, lemma_word_stored, Backend, BackendError, Machine,
};
use crate::elf::{
    ElfSymbol, Relocation, SymbolEntry, R_AARCH64_ABS64, R_AARCH64_COPY, R_AARCH64_GLOB_DAT,
    R_AARCH64_IRELATIVE, R_AARCH64_JUMP_SLOT, R_AARCH64_RELATIVE, R_AARCH64_TLSDESC,
    R_AARCH64_TLS_DTPMOD, R_AARCH64_TLS_DTPREL, R_AARCH64_TLS_TPREL, R_ARM_ABS32, R_ARM_COPY,
    R_ARM_GLOB_DAT, R_ARM_JUMP_SLOT,
};
use crate::le::le64;
use crate::linux::symbol::{entry_view, symbol_refs, ModuleSymbol, SymbolRef, WEAK_BASE};
use crate::memory::load::Loading;
use crate::memory::loader::{stub_installed, AndroidElfLoader, HookEntry, TLSDESC_STUB};
use crate::memory::segments::LoadError;
use crate::num::{
    address_limit, bits_of_i64, from_bits_i64, i64_of_bits, to_bits_i64,
};
use crate::text::{join3, str_eq};

verus! {

/// Bytes from the thread pointer to the first byte of ELF thread-local data. The
/// slots of the C library take the low offsets.
pub const ELF_TLS_TPREL_BIAS: i64 = 0x100;

/// The value of a symbol, as a signed number; zero for none.
pub open spec fn signed_value(symbol: Option<SymbolEntry>) -> i64 {
    match symbol {
        Some(e) => i64_of_bits(e.symbol.value),
        None => 0,
    }
}

/// The offset of thread-local data from the thread pointer.
pub open spec fn tprel(symbol: Option<SymbolEntry>, addend: i64) -> int {
    ELF_TLS_TPREL_BIAS + signed_value(symbol) + addend
}

/// The offset can be worked out in 64 bits.
pub open spec fn tprel_fits(symbol: Option<SymbolEntry>, addend: i64) -> bool {
    &&& ELF_TLS_TPREL_BIAS + signed_value(symbol) <= i64::MAX
    &&& i64::MIN <= tprel(symbol, addend) <= i64::MAX
}

pub fn elf_tls_tprel(symbol: &Option<SymbolEntry>, addend: i64) -> (r: i64)
    requires
        tprel_fits(*symbol, addend),
    ensures
        r == tprel(*symbol, addend),
{
    let v: i64 = match symbol {
        Some(e) => from_bits_i64(e.symbol.value),
        None => 0,
    };
    ELF_TLS_TPREL_BIAS + v + addend
}

/// What one relocation asks for.
pub enum RelocWork {
    Nothing,
    /// Store these words, in order.
    Words(Seq<(int, u64)>),
    /// Find the symbol; the number is to be added to its address.
    Symbol(u64),
    /// The slot that holds the addend is not mapped.
    Unreadable,
    /// The loader has no answer to it.
    Unsupported,
}

/// The work of a relocation for an image at `load_base`. `ifunc` is what an indirect
/// function resolved to, `stub` the TLS descriptor stub.
pub open spec fn reloc_work(
    m: Machine,
    r: Relocation,
    load_base: u64,
    ifunc: u64,
    stub: u64,
) -> RelocWork {
    let addr = load_base + r.offset;
    if r.typ == R_AARCH64_ABS64 {
        if r.explicit_addend {
            RelocWork::Symbol(bits_of_i64(r.addend))
        } else {
            match m.read_u64(addr) {
                Some(v) => RelocWork::Symbol(v),
                None => RelocWork::Unreadable,
            }
        }
    } else if r.typ == R_AARCH64_RELATIVE {
        if signed_value(r.symbol) != 0 {
            RelocWork::Unsupported
        } else {
            RelocWork::Words(seq![(addr, (load_base + bits_of_i64(r.addend)) as u64)])
        }
    } else if r.typ == R_AARCH64_GLOB_DAT || r.typ == R_AARCH64_JUMP_SLOT {
        RelocWork::Symbol(bits_of_i64(r.addend))
    } else if r.typ == R_AARCH64_IRELATIVE {
        RelocWork::Words(seq![(addr, ifunc)])
    } else if r.typ == R_AARCH64_TLS_TPREL {
        RelocWork::Words(seq![(addr, bits_of_i64(tprel(r.symbol, r.addend) as i64))])
    } else if r.typ == R_AARCH64_TLS_DTPMOD {
        RelocWork::Words(seq![(addr, 1u64)])
    } else if r.typ == R_AARCH64_TLS_DTPREL {
        RelocWork::Words(seq![(addr, bits_of_i64((signed_value(r.symbol) + r.addend) as i64))])
    } else if r.typ == R_AARCH64_TLSDESC {
        RelocWork::Words(
            seq![(addr, stub), (addr + 8, bits_of_i64(tprel(r.symbol, r.addend) as i64))],
        )
    } else if r.typ == R_AARCH64_COPY || r.typ == R_ARM_GLOB_DAT || r.typ == R_ARM_JUMP_SLOT
        || r.typ == R_ARM_COPY || r.typ == R_ARM_ABS32 {
        RelocWork::Unsupported
    } else {
        RelocWork::Nothing
    }
}

/// Where the resolver stands that picks the address to store, if the relocation asks for
/// one.
pub fn ifunc_question(load_base: u64, rel: &Relocation) -> (r: Option<u64>)
    requires
        reloc_fits(*rel, load_base),
    ensures
        r == if rel.typ == R_AARCH64_IRELATIVE {
            Some((load_base + bits_of_i64(rel.addend)) as u64)
        } else {
            None
        },
{
    if rel.typ == R_AARCH64_IRELATIVE {
        return Some(load_base + to_bits_i64(rel.addend));
    }
    None
}

/// What is to be added to the symbol's address, if the relocation asks for a symbol.
pub fn symbol_offset(backend: &Backend, r: &Relocation, load_base: u64) -> (o: Result<
    Option<u64>,
    BackendError,
>)
    requires
        load_base + r.offset <= u64::MAX,
    ensures
        o == match reloc_work(backend@, *r, load_base, 0, 0) {
            RelocWork::Symbol(offset) => Ok::<Option<u64>, BackendError>(Some(offset)),
            RelocWork::Unreadable => Err(BackendError::Unmapped),
            _ => Ok(None),
        },
{
    if r.typ == R_AARCH64_ABS64 {
        if r.explicit_addend {
            return Ok(Some(to_bits_i64(r.addend)));
        }
        return match backend.mem_read_u64(load_base + r.offset) {
            Ok(v) => Ok(Some(v)),
            Err(e) => Err(e),
        };
    }
    if r.typ == R_AARCH64_GLOB_DAT || r.typ == R_AARCH64_JUMP_SLOT {
        return Ok(Some(to_bits_i64(r.addend)));
    }
    Ok(None)
}

/// The loader can carry the relocation out: it is of a supported kind, and all sums
/// stay in 64 bits.
pub open spec fn reloc_fits(r: Relocation, load_base: u64) -> bool {
    r.typ != 0 ==> {
        &&& load_base + r.offset <= u64::MAX
        &&& r.typ == R_AARCH64_RELATIVE ==> signed_value(r.symbol) == 0 && load_base
            + bits_of_i64(r.addend) <= u64::MAX
        &&& r.typ == R_AARCH64_IRELATIVE ==> load_base + bits_of_i64(r.addend) <= u64::MAX
        &&& r.typ == R_AARCH64_TLS_TPREL || r.typ == R_AARCH64_TLSDESC ==> tprel_fits(
            r.symbol,
            r.addend,
        )
        &&& r.typ == R_AARCH64_TLSDESC ==> load_base + r.offset + 8 <= u64::MAX
        &&& r.typ == R_AARCH64_TLS_DTPREL ==> i64::MIN <= signed_value(r.symbol) + r.addend
            <= i64::MAX
        &&& r.typ != R_AARCH64_COPY
        &&& r.typ != R_ARM_GLOB_DAT
        &&& r.typ != R_ARM_JUMP_SLOT
        &&& r.typ != R_ARM_COPY
        &&& r.typ != R_ARM_ABS32
    }
}

/// The machine after the first `n` words were stored, and whether all could be.
pub open spec fn words_stored(m: Machine, words: Seq<(int, u64)>, n: int) -> (Machine, bool)
    decreases n,
{
    if n <= 0 {
        (m, true)
    } else {
        let (before, ok) = words_stored(m, words, n - 1);
        if !ok {
            (before, false)
        } else {
            (
                before.try_write(words[n - 1].0, le64(words[n - 1].1)),
                before.mapped(words[n - 1].0, 8),
            )
        }
    }
}

/// What the loader asks about a symbol before it relocates.
#[derive(Clone, Copy, Debug, PartialEq, Eq, Structural)]
pub enum SymbolQuestion {
    /// Nothing.
    Nothing,
    /// Which implementation does the indirect function at this address pick?
    Ifunc(u64),
    /// Does a listener replace the symbol that is at this address?
    Listeners(u64),
    /// Do the needed modules have the symbol?
    Elsewhere,
}

/// The answers. Only the one that was asked for is looked at.
pub struct SymbolAnswer {
    pub ifunc: u64,
    /// What each listener said, in their order; zero is no.
    pub hooks: Vec<u64>,
    pub elsewhere: Option<ModuleSymbol>,
}

/// The first address that a listener gave, from the `k`th on.
pub open spec fn first_hook(hooks: Seq<u64>, k: int) -> Option<u64>
    decreases hooks.len() - k,
{
    if k < 0 || k >= hooks.len() {
        None
    } else if hooks[k] > 0 {
        Some(hooks[k])
    } else {
        first_hook(hooks, k + 1)
    }
}

/// The replacement that is kept under a key, from the `k`th on.
pub open spec fn cached_hook(cache: Seq<HookEntry>, key: Seq<char>, k: int) -> Option<u64>
    decreases cache.len() - k,
{
    if k < 0 || k >= cache.len() {
        None
    } else if cache[k].key@ == key {
        Some(cache[k].hook)
    } else {
        cached_hook(cache, key, k + 1)
    }
}

/// The key of a symbol of a library.
pub open spec fn hook_key(so_name: Seq<char>, symbol: Seq<char>) -> Seq<char> {
    so_name + "#"@ + symbol
}

/// What a place that refers to `symbol` is resolved to.
pub open spec fn resolution(
    cache: Seq<HookEntry>,
    load_base: u64,
    symbol: Option<(Seq<char>, ElfSymbol)>,
    relocation_addr: u64,
    so_name: Seq<char>,
    offset: u64,
    answer: SymbolAnswer,
) -> Option<SymbolRef> {
    let own = SymbolRef {
        so_name,
        load_base: i64_of_bits(load_base),
        symbol,
        relocation_addr,
        to_so_name: so_name,
        offset,
    };
    match symbol {
        None => Some(own),
        Some((name, s)) => if s.undefined() {
            match answer.elsewhere {
                Some(e) => Some(e@),
                None => None,
            }
        } else if s.gnu_ifunc() {
            Some(SymbolRef { load_base: WEAK_BASE, offset: answer.ifunc, ..own })
        } else {
            match cached_hook(cache, hook_key(so_name, name), 0) {
                Some(hook) => Some(SymbolRef { load_base: WEAK_BASE, offset: hook, ..own }),
                None => match first_hook(answer.hooks@, 0) {
                    Some(hook) => Some(SymbolRef { load_base: WEAK_BASE, offset: hook, ..own }),
                    None => Some(own),
                },
            }
        },
    }
}

/// A listener's answer that is new and is to be kept.
pub open spec fn new_hook(
    cache: Seq<HookEntry>,
    symbol: Option<(Seq<char>, ElfSymbol)>,
    so_name: Seq<char>,
    answer: SymbolAnswer,
) -> Option<u64> {
    match symbol {
        Some((name, s)) if !s.undefined() && !s.gnu_ifunc() && cached_hook(
            cache,
            hook_key(so_name, name),
            0,
        ) is None => first_hook(answer.hooks@, 0),
        _ => None,
    }
}

/// A listener's new answer is kept, and nothing else changes.
pub open spec fn hook_kept(
    before: Seq<HookEntry>,
    after: Seq<HookEntry>,
    symbol: Option<(Seq<char>, ElfSymbol)>,
    so_name: Seq<char>,
    answer: SymbolAnswer,
) -> bool {
    match new_hook(before, symbol, so_name, answer) {
        Some(hook) => {
            &&& after.len() == before.len() + 1
            &&& after.drop_last() == before
            &&& after.last().hook == hook
            &&& after.last().key@ == hook_key(so_name, (symbol->0).0)
        },
        None => after == before,
    }
}

/// What relocation `k` adds to its symbol's address, if it asks for a symbol.
pub open spec fn asked_offset(
    s: AndroidElfLoader,
    m: Machine,
    l: Loading,
    k: usize,
    answer: SymbolAnswer,
) -> Option<u64> {
    let rel = l.dynamic.relocations@[k as int];
    match reloc_work(s.prepared(m, rel.typ), rel, l.load_base, answer.ifunc, s.stub()) {
        RelocWork::Symbol(offset) => Some(offset),
        _ => None,
    }
}

/// Relocation `k` of an image was carried out: from the loader `s`, the machine `m0` and the
/// image `l` it led to `s2`, `m2` and `l2`.
pub open spec fn relocated(
    s: AndroidElfLoader,
    m0: Machine,
    l: Loading,
    k: usize,
    answer: SymbolAnswer,
    s2: AndroidElfLoader,
    m2: Machine,
    l2: Loading,
    r: Result<(), LoadError>,
) -> bool {
    let rel = l.dynamic.relocations@[k as int];
    let m = s.prepared(m0, rel.typ);
    let work = reloc_work(m, rel, l.load_base, answer.ifunc, s.stub());
    let addr = (l.load_base + rel.offset) as u64;
    let so_name = l.so_name@;
    &&& s2 == (AndroidElfLoader {
        cache_hook: s2.cache_hook,
        tlsdesc_resolver: if rel.typ == R_AARCH64_TLSDESC {
            Some(s.stub())
        } else {
            s.tlsdesc_resolver
        },
        ..s
    })
    &&& l2 == (Loading { unresolved: l2.unresolved, resolved: l2.resolved, ..l })
    &&& match work {
        RelocWork::Words(words) => {
            let (end, ok) = words_stored(m, words, words.len() as int);
            &&& m2 == end
            &&& ok == (r is Ok)
            &&& s2.cache_hook == s.cache_hook
            &&& l2.unresolved@ == l.unresolved@
            &&& l2.resolved@ == l.resolved@
        },
        RelocWork::Symbol(offset) => {
            let found = resolution(
                s.cache_hook@,
                l.load_base,
                entry_view(rel.symbol),
                addr,
                so_name,
                offset,
                answer,
            );
            &&& r is Ok
            &&& m2 == m
            &&& hook_kept(
                s.cache_hook@,
                s2.cache_hook@,
                entry_view(rel.symbol),
                so_name,
                answer,
            )
            &&& match found {
                Some(found_ref) => {
                    &&& symbol_refs(l2.resolved@) == symbol_refs(l.resolved@).push(found_ref)
                    &&& l2.unresolved@ == l.unresolved@
                },
                None => {
                    &&& symbol_refs(l2.unresolved@) == symbol_refs(l.unresolved@).push(
                        SymbolRef {
                            so_name,
                            load_base: i64_of_bits(l.load_base),
                            symbol: entry_view(rel.symbol),
                            relocation_addr: addr,
                            to_so_name: Seq::empty(),
                            offset,
                        },
                    )
                    &&& l2.resolved@ == l.resolved@
                },
            }
        },
        _ => {
            &&& (r is Err) == (work is Unreadable)
            &&& m2 == m
            &&& s2.cache_hook == s.cache_hook
            &&& l2.unresolved@ == l.unresolved@
            &&& l2.resolved@ == l.resolved@
        },
    }
}

fn find_cached(cache: &Vec<HookEntry>, key: &str) -> (r: Option<u64>)
    ensures
        r == cached_hook(cache@, key@, 0),
{
    let mut k: usize = 0;
    while k < cache.len()
        invariant
            k <= cache@.len(),
            cached_hook(cache@, key@, 0) == cached_hook(cache@, key@, k as int),
        decreases cache@.len() - k,
    {
        if str_eq(cache[k].key.as_str(), key) {
            return Some(cache[k].hook);
        }
        k = k + 1;
    }
    None
}

fn find_hook(hooks: &Vec<u64>) -> (r: Option<u64>)
    ensures
        r == first_hook(hooks@, 0),
{
    let mut k: usize = 0;
    while k < hooks.len()
        invariant
            k <= hooks@.len(),
            first_hook(hooks@, 0) == first_hook(hooks@, k as int),
        decreases hooks@.len() - k,
    {
        if hooks[k] > 0 {
            return Some(hooks[k]);
        }
        k = k + 1;
    }
    None
}

/// The sum of three addresses in 64 bits.
fn wrapping_sum(a: u64, b: u64, c: u64) -> (r: u64)
    ensures
        r == (a + b + c) % address_limit(),
{
    let sum: u128 = a as u128 + b as u128 + c as u128;
    (sum % 0x1_0000_0000_0000_0000u128) as u64
}

impl AndroidElfLoader {
    /// What has to be known before a symbol is resolved.
    pub open spec fn question(
        self,
        load_base: u64,
        symbol: Option<(Seq<char>, ElfSymbol)>,
        so_name: Seq<char>,
        offset: u64,
    ) -> SymbolQuestion {
        match symbol {
            None => SymbolQuestion::Nothing,
            Some((name, s)) => if s.undefined() {
                SymbolQuestion::Elsewhere
            } else if s.gnu_ifunc() {
                SymbolQuestion::Ifunc(((load_base + s.value) % address_limit()) as u64)
            } else if cached_hook(self.cache_hook@, hook_key(so_name, name), 0) is Some {
                SymbolQuestion::Nothing
            } else {
                SymbolQuestion::Listeners(((load_base + s.value + offset) % address_limit()) as u64)
            },
        }
    }

    pub fn symbol_question(
        &self,
        load_base: u64,
        symbol: &Option<SymbolEntry>,
        so_name: &str,
        offset: u64,
    ) -> (q: SymbolQuestion)
        ensures
            q == self.question(load_base, entry_view(*symbol), so_name@, offset),
    {
        match symbol {
            None => SymbolQuestion::Nothing,
            Some(e) => {
                if e.symbol.is_undefined() {
                    return SymbolQuestion::Elsewhere;
                }
                if e.symbol.is_gnu_ifunc() {
                    return SymbolQuestion::Ifunc(wrapping_sum(load_base, e.symbol.value, 0));
                }
                let key = join3(so_name, "#", e.name.as_str());
                if find_cached(&self.cache_hook, key.as_str()).is_some() {
                    return SymbolQuestion::Nothing;
                }
                SymbolQuestion::Listeners(wrapping_sum(load_base, e.symbol.value, offset))
            },
        }
    }

    /// Resolve a place that refers to a symbol. A symbol that the image defines may be
    /// replaced by a listener, which is then remembered; one that it does not define
    /// is what the needed modules have.
    pub fn resolve_symbol(
        &mut self,
        load_base: u64,
        symbol: &Option<SymbolEntry>,
        relocation_addr: u64,
        so_name: &str,
        offset: u64,
        answer: SymbolAnswer,
    ) -> (r: Option<ModuleSymbol>)
        ensures
            match resolution(
                old(self).cache_hook@,
                load_base,
                entry_view(*symbol),
                relocation_addr,
                so_name@,
                offset,
                answer,
            ) {
                Some(s) => r matches Some(p) && p@ == s,
                None => r is None,
            },
            hook_kept(
                old(self).cache_hook@,
                final(self).cache_hook@,
                entry_view(*symbol),
                so_name@,
                answer,
            ),
            *final(self) == (AndroidElfLoader {
                cache_hook: final(self).cache_hook,
                ..*old(self)
            }),
    {
        let base: i64 = from_bits_i64(load_base);
        match symbol {
            None => Some(
                ModuleSymbol::new(so_name, base, symbol, relocation_addr, so_name, offset),
            ),
            Some(e) => {
                if e.symbol.is_undefined() {
                    return answer.elsewhere;
                }
                if e.symbol.is_gnu_ifunc() {
                    return Some(
                        ModuleSymbol::new(
                            so_name,
                            WEAK_BASE,
                            symbol,
                            relocation_addr,
                            so_name,
                            answer.ifunc,
                        ),
                    );
                }
                let key = join3(so_name, "#", e.name.as_str());
                if let Some(hook) = find_cached(&self.cache_hook, key.as_str()) {
                    return Some(
                        ModuleSymbol::new(
                            so_name,
                            WEAK_BASE,
                            symbol,
                            relocation_addr,
                            so_name,
                            hook,
                        ),
                    );
                }
                if let Some(hook) = find_hook(&answer.hooks) {
                    self.cache_hook.push(HookEntry { key, hook });
                    assert(self.cache_hook@.drop_last() =~= old(self).cache_hook@);
                    return Some(
                        ModuleSymbol::new(
                            so_name,
                            WEAK_BASE,
                            symbol,
                            relocation_addr,
                            so_name,
                            hook,
                        ),
                    );
                }
                Some(ModuleSymbol::new(so_name, base, symbol, relocation_addr, so_name, offset))
            },
        }
    }

    /// The machine and the stub address after a relocation of this type got what it
    /// needs.
    pub open spec fn prepared(self, m: Machine, typ: u32) -> Machine {
        if typ == R_AARCH64_TLSDESC && self.tlsdesc_resolver is None {
            stub_installed(m)
        } else {
            m
        }
    }

    /// Where the TLS descriptor stub is, or will be.
    pub open spec fn stub(self) -> u64 {
        match self.tlsdesc_resolver {
            Some(addr) => addr,
            None => TLSDESC_STUB,
        }
    }

    /// Carry out relocation `k` of an image.
    pub fn relocate(
        &mut self,
        backend: &mut Backend,
        loading: &mut Loading,
        k: usize,
        answer: SymbolAnswer,
    ) -> (r: Result<(), LoadError>)
        requires
            k < old(loading).dynamic.relocations@.len(),
            reloc_fits(old(loading).dynamic.relocations@[k as int], old(loading).load_base),
        ensures
            relocated(
                *old(self),
                old(backend)@,
                *old(loading),
                k,
                answer,
                *final(self),
                final(backend)@,
                *final(loading),
                r,
            ),
            r is Err ==> r == Err::<(), LoadError>(LoadError::Memory(BackendError::Unmapped)),
    {
        let rel = &loading.dynamic.relocations[k];
        let load_base: u64 = loading.load_base;
        let typ: u32 = rel.typ;
        if typ == 0 {
            return Ok(());
        }
        let addr: u64 = load_base + rel.offset;
        let ghost m = self.prepared(backend@, typ);
        let ghost work = reloc_work(m, *rel, load_base, answer.ifunc, self.stub());
        let asked = match symbol_offset(backend, rel, load_base) {
            Ok(asked) => asked,
            Err(e) => {
                return Err(LoadError::Memory(e));
            },
        };
        let offset: u64;
        if let Some(o) = asked {
            offset = o;
        } else if typ == R_AARCH64_RELATIVE {
            return store_word(backend, addr, load_base + to_bits_i64(rel.addend));
        } else if typ == R_AARCH64_IRELATIVE {
            return store_word(backend, addr, answer.ifunc);
        } else if typ == R_AARCH64_TLS_TPREL {
            let v: i64 = elf_tls_tprel(&rel.symbol, rel.addend);
            return store_word(backend, addr, to_bits_i64(v));
        } else if typ == R_AARCH64_TLS_DTPMOD {
            return store_word(backend, addr, 1);
        } else if typ == R_AARCH64_TLS_DTPREL {
            let v: i64 = match &rel.symbol {
                Some(e) => from_bits_i64(e.symbol.value),
                None => 0,
            };
            return store_word(backend, addr, to_bits_i64(v + rel.addend));
        } else if typ == R_AARCH64_TLSDESC {
            let v: i64 = elf_tls_tprel(&rel.symbol, rel.addend);
            let stub: u64 = self.ensure_tlsdesc_resolver(backend);
            return store_two(backend, addr, stub, addr + 8, to_bits_i64(v));
        } else {
            return Ok(());
        }
        assert(work == RelocWork::Symbol(offset));
        match self.resolve_symbol(
            load_base,
            &rel.symbol,
            addr,
            loading.so_name.as_str(),
            offset,
            answer,
        ) {
            Some(s) => {
                loading.resolved.push(s);
                assert(symbol_refs(loading.resolved@) =~= symbol_refs(
                    old(loading).resolved@,
                ).push(s@));
            },
            None => {
                let s = ModuleSymbol::new(
                    loading.so_name.as_str(),
                    from_bits_i64(load_base),
                    &rel.symbol,
                    addr,
                    "",
                    offset,
                );
                proof {
                    reveal_strlit("");
                    assert(""@ =~= Seq::<char>::empty());
                }
                loading.unresolved.push(s);
                assert(symbol_refs(loading.unresolved@) =~= symbol_refs(
                    old(loading).unresolved@,
                ).push(s@));
            },
        }
        Ok(())
    }
}

fn store_word(backend: &mut Backend, addr: u64, v: u64) -> (r: Result<(), LoadError>)
    ensures
        ({
            let words = seq![(addr as int, v)];
            let (end, ok) = words_stored(old(backend)@, words, words.len() as int);
            final(backend)@ == end && ok == (r is Ok)
        }),
        r is Err ==> r == Err::<(), LoadError>(LoadError::Memory(BackendError::Unmapped)),
{
    proof {
        reveal_with_fuel(words_stored, 2);
    }
    match backend.mem_write_u64(addr, v) {
        Ok(_) => Ok(()),
        Err(e) => Err(LoadError::Memory(e)),
    }
}

fn store_two(backend: &mut Backend, a: u64, v: u64, b: u64, w: u64) -> (r: Result<(), LoadError>)
    ensures
        ({
            let words = seq![(a as int, v), (b as int, w)];
            let (end, ok) = words_stored(old(backend)@, words, words.len() as int);
            final(backend)@ == end && ok == (r is Ok)
        }),
        r is Err ==> r == Err::<(), LoadError>(LoadError::Memory(BackendError::Unmapped)),
{
    proof {
        reveal_with_fuel(words_stored, 3);
    }
    match backend.mem_write_u64(a, v) {
        Ok(_) => match backend.mem_write_u64(b, w) {
            Ok(_) => Ok(()),
            Err(e) => Err(LoadError::Memory(e)),
        },
        Err(e) => Err(LoadError::Memory(e)),
    }
}

/// A symbol that a listener replaced stays replaced: whoever refers to it later gets
/// the same address, and no listener is asked again.
pub proof fn law_hook_is_remembered(
    before: AndroidElfLoader,
    after: AndroidElfLoader,
    load_base: u64,
    symbol: (Seq<char>, ElfSymbol),
    so_name: Seq<char>,
    offset: u64,
    answer: SymbolAnswer,
    hook: u64,
    addr: u64,
    later: SymbolAnswer,
)
    requires
        new_hook(before.cache_hook@, Some(symbol), so_name, answer) == Some(hook),
        hook_kept(before.cache_hook@, after.cache_hook@, Some(symbol), so_name, answer),
    ensures
        after.question(load_base, Some(symbol), so_name, offset) == SymbolQuestion::Nothing,
        resolution(
            after.cache_hook@,
            load_base,
            Some(symbol),
            addr,
            so_name,
            offset,
            later,
        ) matches Some(s) && s.target() == hook,
{
    let key = hook_key(so_name, symbol.0);
    lemma_cached_after_push(before.cache_hook@, after.cache_hook@, key, 0);
}

proof fn lemma_cached_after_push(
    before: Seq<HookEntry>,
    after: Seq<HookEntry>,
    key: Seq<char>,
    k: int,
)
    requires
        0 <= k <= before.len(),
        after.len() == before.len() + 1,
        after.drop_last() == before,
        after.last().key@ == key,
        cached_hook(before, key, k) is None,
    ensures
        cached_hook(after, key, k) == Some(after.last().hook),
    decreases before.len() - k,
{
    if k < before.len() {
        assert(after[k] == after.drop_last()[k]);
        lemma_cached_after_push(before, after, key, k + 1);
    }
}

/// What storing one word leaves.
proof fn lemma_one_word(m: Machine, x: int, v: u64, a: int)
    requires
        words_stored(m, seq![(x, v)], 1).1,
    ensures
        words_stored(m, seq![(x, v)], 1).0.read_u64(x) == Some(v),
        m.mem.dom().contains(a) && !(x <= a < x + 8) ==> words_stored(m, seq![(x, v)], 1).0.mem[a]
            == m.mem[a],
{
    reveal_with_fuel(words_stored, 2);
    assert(le64(v).len() == 8);
    lemma_word_stored(m, x, v);
    law_write_then_read(m, x, le64(v), a);
}

/// What storing two words in a row leaves.
proof fn lemma_two_words(m: Machine, x: int, v: u64, w: u64)
    requires
        words_stored(m, seq![(x, v), (x + 8, w)], 2).1,
    ensures
        words_stored(m, seq![(x, v), (x + 8, w)], 2).0.read_u64(x) == Some(v),
        words_stored(m, seq![(x, v), (x + 8, w)], 2).0.read_u64(x + 8) == Some(w),
{
    reveal_with_fuel(words_stored, 3);
    assert(le64(v).len() == 8);
    assert(le64(w).len() == 8);
    lemma_word_stored(m, x, v);
    let first = m.write(x, le64(v));
    lemma_word_stored(first, x + 8, w);
    lemma_word_apart(first, x + 8, le64(w), x);
}

/// What a relocation that needs no symbol's address stores, at the load base and its
/// offset. Type 1027 is the load base and the addend. Type 1032 is what the indirect function
/// picked. Types 1030 and 1029 are the value of the symbol and the addend, the first of them
/// 0x100 further on, where thread-local data begins. Type 1028 is the module number 1. Type
/// 1031 is two words, the address of the descriptor stub and what type 1030 would store. No
/// place waits for a symbol afterwards that did not wait before, and type 0 does nothing.
pub proof fn law_relocated_words(
    s: AndroidElfLoader,
    m0: Machine,
    l: Loading,
    k: usize,
    answer: SymbolAnswer,
    s2: AndroidElfLoader,
    m2: Machine,
    l2: Loading,
    a: int,
)
    requires
        k < l.dynamic.relocations@.len(),
        relocated(s, m0, l, k, answer, s2, m2, l2, Ok(())),
        reloc_fits(l.dynamic.relocations@[k as int], l.load_base),
    ensures
        ({
            let rel = l.dynamic.relocations@[k as int];
            let x = l.load_base + rel.offset;
            let value: int = match rel.symbol {
                Some(e) => i64_of_bits(e.symbol.value) as int,
                None => 0,
            };
            let single = rel.typ == 1027 || rel.typ == 1028 || rel.typ == 1029 || rel.typ == 1030
                || rel.typ == 1032;
            &&& rel.typ == 1027 ==> m2.read_u64(x) == Some(
                ((l.load_base + bits_of_i64(rel.addend)) % 0x1_0000_0000_0000_0000) as u64,
            )
            &&& rel.typ == 1032 ==> m2.read_u64(x) == Some(answer.ifunc)
            &&& rel.typ == 1028 ==> m2.read_u64(x) == Some(1u64)
            &&& rel.typ == 1029 ==> m2.read_u64(x) == Some(
                bits_of_i64((value + rel.addend) as i64),
            )
            &&& rel.typ == 1030 ==> m2.read_u64(x) == Some(
                bits_of_i64((0x100 + value + rel.addend) as i64),
            )
            &&& rel.typ == 1031 ==> {
                &&& s2.tlsdesc_resolver is Some
                &&& s.tlsdesc_resolver is Some ==> s2.tlsdesc_resolver == s.tlsdesc_resolver
                &&& s.tlsdesc_resolver is None ==> s2.tlsdesc_resolver == Some(0xfffc_0000u64)
                &&& m2.read_u64(x) == s2.tlsdesc_resolver
                &&& m2.read_u64(x + 8) == Some(
                    bits_of_i64((0x100 + value + rel.addend) as i64),
                )
            }
            &&& single ==> {
                &&& m0.mem.dom().contains(a) && !(x <= a < x + 8) ==> m2.mem[a] == m0.mem[a]
                &&& s2.tlsdesc_resolver == s.tlsdesc_resolver
            }
            &&& single || rel.typ == 1031 || rel.typ == 0 ==> {
                &&& l2.resolved@ == l.resolved@
                &&& l2.unresolved@ == l.unresolved@
                &&& s2.cache_hook == s.cache_hook
            }
            &&& rel.typ == 0 ==> m2 == m0
        }),
{
    let rel = l.dynamic.relocations@[k as int];
    let x = l.load_base + rel.offset;
    let m = s.prepared(m0, rel.typ);
    match reloc_work(m, rel, l.load_base, answer.ifunc, s.stub()) {
        RelocWork::Words(words) => {
            if rel.typ == 1031 {
                assert(words =~= seq![(x, words[0].1), (x + 8, words[1].1)]);
                lemma_two_words(m, x, words[0].1, words[1].1);
            } else {
                assert(words =~= seq![(x, words[0].1)]);
                lemma_one_word(m, x, words[0].1, a);
            }
        },
        _ => {},
    }
}

/// What a relocation of type 257, 1025 or 1026 does: it stores nothing yet, and leaves one
/// more place, at the load base and its offset. A symbol that the image defines, or no symbol
/// at all, gives the place the load base, the symbol's value and the addend; with an indirect
/// function it is what that picked, and with a listener's answer, old or new, it is that
/// answer. A symbol that the image lacks is what the modules elsewhere have, or else the
/// place is among those that wait.
pub proof fn law_symbol_places(
    s: AndroidElfLoader,
    m0: Machine,
    l: Loading,
    k: usize,
    answer: SymbolAnswer,
    s2: AndroidElfLoader,
    m2: Machine,
    l2: Loading,
    r: Result<(), LoadError>,
)
    requires
        k < l.dynamic.relocations@.len(),
        relocated(s, m0, l, k, answer, s2, m2, l2, r),
        reloc_fits(l.dynamic.relocations@[k as int], l.load_base),
        l.load_base < 0x8000_0000_0000_0000,
        ({
            let typ = l.dynamic.relocations@[k as int].typ;
            typ == 1025 || typ == 1026 || typ == 257
                && l.dynamic.relocations@[k as int].explicit_addend
        }),
    ensures
        ({
            let rel = l.dynamic.relocations@[k as int];
            let x = l.load_base + rel.offset;
            let addend = bits_of_i64(rel.addend);
            let placed = l2.resolved@.last()@;
            let waiting = l2.unresolved@.last()@;
            &&& r is Ok
            &&& m2 == m0
            &&& match rel.symbol {
                None => {
                    &&& l2.resolved@.len() == l.resolved@.len() + 1
                    &&& l2.unresolved@ == l.unresolved@
                    &&& placed.relocation_addr == x
                    &&& placed.target() == (l.load_base + addend) % 0x1_0000_0000_0000_0000
                },
                Some(e) => if e.symbol.section == 0 {
                    match answer.elsewhere {
                        Some(found) => {
                            &&& l2.resolved@.len() == l.resolved@.len() + 1
                            &&& l2.unresolved@ == l.unresolved@
                            &&& placed == found@
                        },
                        None => {
                            &&& l2.resolved@ == l.resolved@
                            &&& l2.unresolved@.len() == l.unresolved@.len() + 1
                            &&& waiting.relocation_addr == x
                            &&& waiting.symbol == Some((e.name@, e.symbol))
                            &&& waiting.offset == addend
                        },
                    }
                } else {
                    let kept = cached_hook(s.cache_hook@, l.so_name@ + "#"@ + e.name@, 0);
                    let new = first_hook(answer.hooks@, 0);
                    &&& l2.resolved@.len() == l.resolved@.len() + 1
                    &&& l2.unresolved@ == l.unresolved@
                    &&& placed.relocation_addr == x
                    &&& placed.symbol == Some((e.name@, e.symbol))
                    &&& if e.symbol.info % 16 == 10 {
                        placed.target() == answer.ifunc
                    } else if kept is Some {
                        placed.target() == kept->0
                    } else if new is Some {
                        placed.target() == new->0
                    } else {
                        placed.target() == (l.load_base + e.symbol.value + addend)
                            % 0x1_0000_0000_0000_0000
                    }
                },
            }
        }),
{
    let rel = l.dynamic.relocations@[k as int];
    let refs = symbol_refs(l2.resolved@);
    let refs0 = symbol_refs(l.resolved@);
    if refs.len() > 0 {
        assert(refs.last() == l2.resolved@.last()@);
    }
    let waits = symbol_refs(l2.unresolved@);
    if waits.len() > 0 {
        assert(waits.last() == l2.unresolved@.last()@);
    }
    assert(refs0.len() == l.resolved@.len());
    assert(refs.len() == l2.resolved@.len());
    assert(waits.len() == l2.unresolved@.len());
    assert(symbol_refs(l.unresolved@).len() == l.unresolved@.len());
}

/// The first answer of a listener that is not zero counts, and so does the first answer that
/// is kept under a key.
pub proof fn law_first_answers(hooks: Seq<u64>, cache: Seq<HookEntry>, key: Seq<char>)
    ensures
        match first_hook(hooks, 0) {
            Some(h) => h != 0 && exists|i: int|
                0 <= i < hooks.len() && hooks[i] == h && forall|j: int|
                    0 <= j < i ==> #[trigger] hooks[j] == 0,
            None => forall|i: int| 0 <= i < hooks.len() ==> #[trigger] hooks[i] == 0,
        },
        match cached_hook(cache, key, 0) {
            Some(h) => exists|i: int|
                0 <= i < cache.len() && (#[trigger] cache[i]).hook == h && cache[i].key@ == key,
            None => forall|i: int| 0 <= i < cache.len() ==> (#[trigger] cache[i]).key@ != key,
        },
{
    lemma_first_hook(hooks, 0);
    lemma_cached_hook(cache, key, 0);
}

proof fn lemma_first_hook(hooks: Seq<u64>, k: int)
    requires
        0 <= k <= hooks.len(),
    ensures
        match first_hook(hooks, k) {
            Some(h) => h != 0 && exists|i: int|
                k <= i < hooks.len() && hooks[i] == h && forall|j: int|
                    k <= j < i ==> #[trigger] hooks[j] == 0,
            None => forall|i: int| k <= i < hooks.len() ==> #[trigger] hooks[i] == 0,
        },
    decreases hooks.len() - k,
{
    if k < hooks.len() {
        if hooks[k] > 0 {
            assert(k <= k < hooks.len() && hooks[k] == first_hook(hooks, k)->0);
        } else {
            lemma_first_hook(hooks, k + 1);
            if let Some(h) = first_hook(hooks, k + 1) {
                let i = choose|i: int|
                    k + 1 <= i < hooks.len() && hooks[i] == h && forall|j: int|
                        k + 1 <= j < i ==> #[trigger] hooks[j] == 0;
                assert(k <= i < hooks.len() && hooks[i] == h);
            }
        }
    }
}

proof fn lemma_cached_hook(cache: Seq<HookEntry>, key: Seq<char>, k: int)
    requires
        0 <= k <= cache.len(),
    ensures
        match cached_hook(cache, key, k) {
            Some(h) => exists|i: int|
                k <= i < cache.len() && (#[trigger] cache[i]).hook == h && cache[i].key@ == key,
            None => forall|i: int| k <= i < cache.len() ==> (#[trigger] cache[i]).key@ != key,
        },
    decreases cache.len() - k,
{
    if k < cache.len() {
        if cache[k].key@ == key {
            assert(cache[k].hook == cached_hook(cache, key, k)->0);
        } else {
            lemma_cached_hook(cache, key, k + 1);
        }
    }
}

/// What the loader asks about a symbol is enough: answers that agree on what was asked lead
/// to the same place. It asks for nothing where there is no symbol; where the image lacks the
/// symbol, it asks for what others have; an indirect function is asked at the load base and
/// its value; and listeners are told the address that the place would get without them.
pub proof fn law_question_is_enough(
    s: AndroidElfLoader,
    load_base: u64,
    symbol: Option<(Seq<char>, ElfSymbol)>,
    addr: u64,
    so_name: Seq<char>,
    offset: u64,
    one: SymbolAnswer,
    two: SymbolAnswer,
)
    requires
        load_base < 0x8000_0000_0000_0000,
    ensures
        ({
            let a = resolution(s.cache_hook@, load_base, symbol, addr, so_name, offset, one);
            let b = resolution(s.cache_hook@, load_base, symbol, addr, so_name, offset, two);
            match s.question(load_base, symbol, so_name, offset) {
                SymbolQuestion::Nothing => a == b && a is Some,
                SymbolQuestion::Ifunc(at) => {
                    &&& one.ifunc == two.ifunc ==> a == b
                    &&& symbol is Some
                    &&& at == (load_base + (symbol->0).1.value) % 0x1_0000_0000_0000_0000
                },
                SymbolQuestion::Listeners(at) => {
                    &&& one.hooks@ == two.hooks@ ==> a == b
                    &&& symbol is Some
                    &&& at == (load_base + (symbol->0).1.value + offset) % 0x1_0000_0000_0000_0000
                    &&& first_hook(one.hooks@, 0) is None ==> a is Some && (a->0).target() == at
                },
                SymbolQuestion::Elsewhere => {
                    &&& one.elsewhere == two.elsewhere ==> a == b
                    &&& symbol is Some
                    &&& (symbol->0).1.section == 0
                },
            }
        }),
{
}

/// Thread-local data stands 256 bytes above the thread pointer: a symbol's offset from there
/// is 256, its value and the addend; without a symbol, 256 and the addend.
pub proof fn law_tls_offset(e: SymbolEntry, addend: i64)
    requires
        e.symbol.value < 0x8000_0000_0000_0000,
    ensures
        tprel(Some(e), addend) == 256 + e.symbol.value + addend,
        tprel(None, addend) == 256 + addend,
{
}

/// Listeners are heard for a symbol that is defined, that is no choice among implementations,
/// and for which none was heard before: the first answer that is not zero is new then. In all
/// other cases no answer is.
pub proof fn law_listeners_are_heard_once(
    cache: Seq<HookEntry>,
    symbol: (Seq<char>, ElfSymbol),
    so_name: Seq<char>,
    answer: SymbolAnswer,
    i: int,
)
    requires
        0 <= i < answer.hooks@.len(),
        answer.hooks@[i] != 0,
        forall|j: int| 0 <= j < i ==> #[trigger] answer.hooks@[j] == 0,
    ensures
        ({
            let heard = new_hook(cache, Some(symbol), so_name, answer);
            let known = cached_hook(cache, hook_key(so_name, symbol.0), 0) is Some;
            &&& symbol.1.undefined() || symbol.1.gnu_ifunc() || known ==> heard is None
            &&& !symbol.1.undefined() && !symbol.1.gnu_ifunc() && !known ==> heard == Some(
                answer.hooks@[i],
            )
            &&& new_hook(cache, None, so_name, answer) is None
        }),
{
    lemma_first_hook(answer.hooks@, 0);
    let h = first_hook(answer.hooks@, 0);
    assert(answer.hooks@[i] != 0);
    if let Some(v) = h {
        let k = choose|k: int|
            0 <= k < answer.hooks@.len() && answer.hooks@[k] == v && forall|j: int|
                0 <= j < k ==> #[trigger] answer.hooks@[j] == 0;
        assert(k == i);
    }
}

} // verus!
