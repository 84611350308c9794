//! Walking the loaded modules.
//!
//! For each module the guest's callback gets a record of 64 bytes: the module's place,
//! its name, its program headers and their number. The trap puts the records, and on
//! the stack the calls that the stub then makes.
use vstd::prelude::*;
use crate::backend::{
    law_write_then_read, lemma_word_apart, lemma_word_stored, Backend, Machine, RegisterARM64,
};
use crate::emulator::state::AndroidEmulator;
use crate::le::{le16, le64, put_le16, put_le64};
use crate::linux::module::{path_of, LinuxModule};
use crate::memory::stack::{c_bytes, c_string_bytes, leads_to, lemma_text_stands};
use crate::memory::svc_memory::SvcCallResult;
use crate::num::address_limit;
use crate::outside::{index_at, index_entries, index_len};

verus! {

/// The size of a record.
pub const RECORD_SIZE: u64 = 64;

/// The module that every guest sees although it is not there.
pub const RUNTIME_LIBRARY: &'static str = "/apex/com.android.art/lib64/libart.so";

/// What the guest is told of a module.
pub struct PhdrRecord {
    pub name: String,
    pub vaddr: u64,
    pub phdr: u64,
    pub phnum: u16,
}

/// A record as contracts speak of it.
pub struct RecordView {
    pub name: Seq<char>,
    pub vaddr: u64,
    pub phdr: u64,
    pub phnum: u16,
}

impl View for PhdrRecord {
    type V = RecordView;

    open spec fn view(&self) -> RecordView {
        RecordView { name: self.name@, vaddr: self.vaddr, phdr: self.phdr, phnum: self.phnum }
    }
}

/// What the records of a list say.
pub open spec fn record_views(s: Seq<PhdrRecord>) -> Seq<RecordView> {
    Seq::new(s.len(), |i: int| s[i]@)
}

/// What the guest is told of a module with an image.
pub open spec fn image_record(m: LinuxModule, proc_name: Seq<char>) -> RecordView {
    RecordView {
        name: path_of(m.name@, proc_name),
        vaddr: m.base,
        phdr: (m.base + m.elf_file->0.ph_offset) as u64,
        phnum: m.elf_file->0.num_ph,
    }
}

/// The modules with an image among the first `k` names, the last first.
pub open spec fn image_records(
    entries: Seq<(Seq<char>, usize)>,
    list: Seq<LinuxModule>,
    proc_name: Seq<char>,
    k: int,
) -> Seq<RecordView>
    decreases k,
{
    if k <= 0 {
        Seq::empty()
    } else {
        let m = list[entries[k - 1].1 as int];
        let rest = image_records(entries, list, proc_name, k - 1);
        if m.elf_file is Some {
            seq![image_record(m, proc_name)] + rest
        } else {
            rest
        }
    }
}

/// What the guest is told of all modules: those with an image, the last loaded first,
/// and then the one that is not there.
pub open spec fn all_records(e: AndroidEmulator) -> Seq<RecordView> {
    let entries = index_entries(e.memory.modules);
    image_records(entries, e.memory.list@, e.proc_name@, entries.len() as int).push(
        RecordView { name: RUNTIME_LIBRARY@, vaddr: 0, phdr: 0, phnum: 0 },
    )
}

/// The program headers of all images stand in the address space.
pub open spec fn headers_fit(e: AndroidEmulator) -> bool {
    forall|i: int|
        0 <= i < e.memory.list@.len() && (#[trigger] e.memory.list@[i]).elf_file is Some
            ==> e.memory.list@[i].base + e.memory.list@[i].elf_file->0.ph_offset <= u64::MAX
}

/// What the guest is told of all modules.
pub fn phdr_records(emulator: &AndroidEmulator) -> (r: Vec<PhdrRecord>)
    requires
        emulator.wf(),
        headers_fit(*emulator),
    ensures
        record_views(r@) == all_records(*emulator),
{
    let ghost entries = index_entries(emulator.memory.modules);
    let ghost list = emulator.memory.list@;
    let ghost proc_name = emulator.proc_name@;
    let mut r: Vec<PhdrRecord> = Vec::new();
    let n: usize = index_len(&emulator.memory.modules);
    let mut k: usize = n;
    assert(record_views(r@) + image_records(entries, list, proc_name, n as int) =~= image_records(
        entries,
        list,
        proc_name,
        n as int,
    ));
    while k > 0
        invariant
            k <= n,
            n == entries.len(),
            emulator.wf(),
            headers_fit(*emulator),
            entries == index_entries(emulator.memory.modules),
            list == emulator.memory.list@,
            proc_name == emulator.proc_name@,
            record_views(r@) + image_records(entries, list, proc_name, k as int) == image_records(
                entries,
                list,
                proc_name,
                n as int,
            ),
        decreases k,
    {
        let ghost before = record_views(r@);
        let (_, i) = index_at(&emulator.memory.modules, k - 1).unwrap();
        assert(entries[k - 1].1 < list.len());
        let module = &emulator.memory.list[i];
        if let Some(elf) = &module.elf_file {
            let record = PhdrRecord {
                name: module.path(emulator.proc_name.as_str()),
                vaddr: module.base,
                phdr: module.base + elf.ph_offset,
                phnum: elf.num_ph,
            };
            let ghost seen = record@;
            r.push(record);
            proof {
                assert(record_views(r@) =~= before.push(seen));
                assert(before.push(seen) + image_records(entries, list, proc_name, k - 1) =~= before
                    + image_records(entries, list, proc_name, k as int));
            }
        }
        k = k - 1;
    }
    assert(record_views(r@) =~= image_records(entries, list, proc_name, n as int));
    let ghost before = record_views(r@);
    r.push(PhdrRecord { name: RUNTIME_LIBRARY.to_owned(), vaddr: 0, phdr: 0, phnum: 0 });
    assert(record_views(r@) =~= all_records(*emulator));
    r
}

/// The machine and the stack while records are put; `ok` says that every store had
/// room.
pub struct PhdrRun {
    pub m: Machine,
    pub sp: int,
    pub ok: bool,
}

impl PhdrRun {
    /// `data` was stored at `addr`.
    pub open spec fn put(self, addr: int, data: Seq<u8>) -> PhdrRun {
        PhdrRun {
            m: self.m.write(addr, data),
            ok: self.ok && 0 <= addr && addr + data.len() <= address_limit() && self.m.mapped(
                addr,
                data.len() as int,
            ),
            ..self
        }
    }

    /// A word was put on the stack.
    pub open spec fn push(self, v: u64) -> PhdrRun {
        PhdrRun { sp: self.sp - 8, ..self }.put(self.sp - 8, le64(v))
    }

    /// The record of a module was put at `ptr`, and the call for it on the stack.
    #[verifier::opaque]
    pub open spec fn told_of(
        self,
        record: RecordView,
        ptr: int,
        name: u64,
        cb: u64,
        data: u64,
    ) -> PhdrRun {
        self.put(name as int, c_bytes(record.name)).put(ptr, le64(record.vaddr)).put(
            ptr + 8,
            le64(name),
        ).put(ptr + 16, le64(record.phdr)).put(ptr + 24, le16(record.phnum)).push(data).push(
            RECORD_SIZE,
        ).push(ptr as u64).push(cb)
    }
}

/// The first `n` records were put. `table` is the place of the records, and `names`
/// has the places of the names.
pub open spec fn phdr_run(
    m: Machine,
    records: Seq<RecordView>,
    table: u64,
    names: Seq<Option<u64>>,
    n: int,
) -> PhdrRun
    decreases n,
{
    if n <= 0 {
        PhdrRun { m, sp: m.reg(RegisterARM64::SP) as int, ok: true }.push(0)
    } else {
        phdr_run(m, records, table, names, n - 1).told_of(
            records[n - 1],
            table + (n - 1) * 64,
            names[n - 1]->0,
            m.reg(RegisterARM64::X0),
            m.reg(RegisterARM64::X1),
        )
    }
}

proof fn lemma_run_ok(
    m: Machine,
    records: Seq<RecordView>,
    table: u64,
    names: Seq<Option<u64>>,
    k: int,
    n: int,
)
    requires
        0 <= k <= n,
        phdr_run(m, records, table, names, n).ok,
    ensures
        phdr_run(m, records, table, names, k).ok,
    decreases n - k,
{
    reveal(PhdrRun::told_of);
    if k < n {
        lemma_run_ok(m, records, table, names, k, n - 1);
    }
}

/// For how many of the first `n` records there is a place for the name, before the
/// first without one.
pub open spec fn named_records(names: Seq<Option<u64>>, n: int) -> int
    decreases n,
{
    if n <= 0 {
        0
    } else {
        let before = named_records(names, n - 1);
        if before == n - 1 && names[n - 1] is Some {
            n
        } else {
            before
        }
    }
}

proof fn lemma_named_records(names: Seq<Option<u64>>, k: int, n: int)
    requires
        0 <= k <= n,
    ensures
        0 <= named_records(names, n) <= n,
        named_records(names, k) < k ==> named_records(names, n) == named_records(names, k),
        named_records(names, k) <= named_records(names, n),
    decreases n - k, n,
{
    if k < n {
        lemma_named_records(names, k, n - 1);
    } else if n > 0 {
        lemma_named_records(names, n - 1, n - 1);
    }
}

/// Walks the loaded modules.
pub struct DlIteratePhdr;

fn store(backend: &mut Backend, addr: u64, data: &[u8])
    requires
        old(backend)@.mapped(addr as int, data@.len() as int),
    ensures
        final(backend)@ == old(backend)@.write(addr as int, data@),
{
    backend.mem_write(addr, data).unwrap();
}

/// Put the record of one module and the call for it.
fn tell_of(
    backend: &mut Backend,
    record: &PhdrRecord,
    ptr: u64,
    name: u64,
    cb: u64,
    data: u64,
    sp: u64,
) -> (r: u64)
    requires
        (PhdrRun { m: old(backend)@, sp: sp as int, ok: true }).told_of(
            record@,
            ptr as int,
            name,
            cb,
            data,
        ).ok,
    ensures
        (PhdrRun { m: final(backend)@, sp: r as int, ok: true }) == (PhdrRun {
            m: old(backend)@,
            sp: sp as int,
            ok: true,
        }).told_of(record@, ptr as int, name, cb, data),
{
    proof {
        reveal(PhdrRun::told_of);
    }
    let text = c_string_bytes(record.name.as_str());
    store(backend, name, text.as_slice());
    store(backend, ptr, put_le64(record.vaddr).as_slice());
    store(backend, ptr + 8, put_le64(name).as_slice());
    store(backend, ptr + 16, put_le64(record.phdr).as_slice());
    store(backend, ptr + 24, put_le16(record.phnum).as_slice());
    store(backend, sp - 8, put_le64(data).as_slice());
    store(backend, sp - 16, put_le64(RECORD_SIZE).as_slice());
    store(backend, sp - 24, put_le64(ptr).as_slice());
    store(backend, sp - 32, put_le64(cb).as_slice());
    sp - 32
}

impl DlIteratePhdr {
    /// Prepare the calls of the callback in `X0` with the data in `X1`, one for each
    /// module. `table` is a place for all records, and `names` has a place for each
    /// name, where there is one.
    pub fn handle(
        &self,
        backend: &mut Backend,
        emulator: &AndroidEmulator,
        table: Option<u64>,
        names: &[Option<u64>],
    ) -> (r: SvcCallResult)
        requires
            emulator.wf(),
            headers_fit(*emulator),
            names@.len() == all_records(*emulator).len(),
            table matches Some(at) ==> phdr_run(
                old(backend)@,
                all_records(*emulator),
                at,
                names@,
                named_records(names@, names@.len() as int),
            ).ok,
        ensures
            ({
                let m = old(backend)@;
                let n = names@.len() as int;
                let k = named_records(names@, n);
                match table {
                    None => r == SvcCallResult::Fault && final(backend)@ == m,
                    Some(at) => {
                        let run = phdr_run(m, all_records(*emulator), at, names@, k);
                        if k < n {
                            r == SvcCallResult::Fault && final(backend)@ == run.m
                        } else {
                            &&& r == SvcCallResult::VOID
                            &&& final(backend)@ == run.m.set_reg(
                                RegisterARM64::SP,
                                run.sp as u64,
                            )
                        }
                    },
                }
            }),
    {
        let ghost m = backend@;
        let ghost all = all_records(*emulator);
        let ghost n_all = names@.len() as int;
        let ghost served = named_records(names@, n_all);
        let cb: u64 = backend.reg_read(RegisterARM64::X0);
        let data: u64 = backend.reg_read(RegisterARM64::X1);
        let records = phdr_records(emulator);
        let at: u64 = match table {
            Some(at) => at,
            None => {
                return SvcCallResult::Fault;
            },
        };
        proof {
            lemma_named_records(names@, 0, n_all);
            lemma_run_ok(m, all, at, names@, 0, served);
        }
        let mut sp: u64 = backend.reg_read(RegisterARM64::SP) - 8;
        store(backend, sp, put_le64(0).as_slice());
        let n: usize = records.len();
        let mut i: usize = 0;
        while i < n
            invariant
                i <= n,
                n == records@.len(),
                n == names@.len(),
                n_all == n,
                record_views(records@) == all,
                served == named_records(names@, n_all),
                m.reg(RegisterARM64::X0) == cb,
                m.reg(RegisterARM64::X1) == data,
                phdr_run(m, all, at, names@, served).ok,
                named_records(names@, i as int) == i,
                (PhdrRun { m: backend@, sp: sp as int, ok: true }) == phdr_run(
                    m,
                    all,
                    at,
                    names@,
                    i as int,
                ),
                table == Some(at),
                m == old(backend)@,
                all == all_records(*emulator),
            decreases n - i,
        {
            proof {
                lemma_named_records(names@, i + 1, n_all);
            }
            let name: u64 = match names[i] {
                Some(name) => name,
                None => {
                    return SvcCallResult::Fault;
                },
            };
            proof {
                lemma_run_ok(m, all, at, names@, i + 1, served);
                reveal(PhdrRun::told_of);
                assert(all[i as int] == records@[i as int]@);
            }
            let ptr: u64 = at + 64 * (i as u64);
            sp = tell_of(backend, &records[i], ptr, name, cb, data, sp);
            i = i + 1;
        }
        backend.reg_write(RegisterARM64::SP, sp);
        SvcCallResult::VOID
    }

    /// After the callbacks the guest gets zero.
    pub fn on_post_callback(&self) -> (r: u64)
        ensures
            r == 0,
    {
        0
    }
}

/// After all records were put, the stack begins with the call for the last of them: the
/// callback, the record's place, its size and the guest's data.
pub proof fn law_last_record_is_called_first(
    m: Machine,
    records: Seq<RecordView>,
    table: u64,
    names: Seq<Option<u64>>,
    n: int,
)
    requires
        n > 0,
        phdr_run(m, records, table, names, n).ok,
    ensures
        ({
            let run = phdr_run(m, records, table, names, n);
            &&& run.sp == m.reg(RegisterARM64::SP) - 8 - 32 * n
            &&& run.m.read_u64(run.sp) == Some(m.reg(RegisterARM64::X0))
            &&& run.m.read_u64(run.sp + 8) == Some((table + (n - 1) * 64) as u64)
            &&& run.m.read_u64(run.sp + 16) == Some(RECORD_SIZE)
            &&& run.m.read_u64(run.sp + 24) == Some(m.reg(RegisterARM64::X1))
        }),
{
    reveal(PhdrRun::told_of);
    let before = phdr_run(m, records, table, names, n - 1);
    let ptr = table + (n - 1) * 64;
    let name = names[n - 1]->0;
    let cb = m.reg(RegisterARM64::X0);
    let data = m.reg(RegisterARM64::X1);
    let record = records[n - 1];
    lemma_stack_depth(m, records, table, names, n);
    let told = before.put(name as int, c_bytes(record.name)).put(ptr, le64(record.vaddr)).put(
        ptr + 8,
        le64(name),
    ).put(ptr + 16, le64(record.phdr)).put(ptr + 24, le16(record.phnum));
    lemma_four_on_top(told, data, RECORD_SIZE, ptr as u64, cb);
}

proof fn lemma_stack_depth(
    m: Machine,
    records: Seq<RecordView>,
    table: u64,
    names: Seq<Option<u64>>,
    n: int,
)
    requires
        n >= 0,
    ensures
        phdr_run(m, records, table, names, n).sp == m.reg(RegisterARM64::SP) - 8 - 32 * n,
    decreases n,
{
    reveal(PhdrRun::told_of);
    if n > 0 {
        lemma_stack_depth(m, records, table, names, n - 1);
    }
}

/// A pushed word is read back, and words above it stay.
proof fn lemma_push(run: PhdrRun, v: u64, x: int)
    requires
        run.push(v).ok,
        x >= run.sp,
    ensures
        run.push(v).m.read_u64(run.sp - 8) == Some(v),
        run.push(v).m.read_u64(x) == run.m.read_u64(x),
{
    assert(le64(v).len() == 8);
    lemma_word_stored(run.m, run.sp - 8, v);
    lemma_word_apart(run.m, run.sp - 8, le64(v), x);
}

proof fn lemma_four_on_top(run: PhdrRun, a: u64, b: u64, c: u64, d: u64)
    requires
        run.push(a).push(b).push(c).push(d).ok,
    ensures
        ({
            let top = run.push(a).push(b).push(c).push(d);
            &&& top.m.read_u64(top.sp) == Some(d)
            &&& top.m.read_u64(top.sp + 8) == Some(c)
            &&& top.m.read_u64(top.sp + 16) == Some(b)
            &&& top.m.read_u64(top.sp + 24) == Some(a)
        }),
{
    let sp = run.sp;
    let one = run.push(a);
    let two = one.push(b);
    let three = two.push(c);
    lemma_push(run, a, sp);
    lemma_push(one, b, sp - 8);
    lemma_push(two, c, sp - 8);
    lemma_push(two, c, sp - 16);
    lemma_push(three, d, sp - 8);
    lemma_push(three, d, sp - 16);
    lemma_push(three, d, sp - 24);
}

/// A byte is not among those that telling of a record stores.
spec fn untouched(run: PhdrRun, record: RecordView, ptr: int, name: int, a: int) -> bool {
    &&& a < run.sp - 32 || run.sp <= a
    &&& a < name || name + c_bytes(record.name).len() <= a
    &&& a < ptr || ptr + 26 <= a
}

proof fn lemma_put_keeps(run: PhdrRun, addr: int, data: Seq<u8>, a: int)
    requires
        run.put(addr, data).ok,
        a < addr || addr + data.len() <= a,
    ensures
        run.put(addr, data).m.mem.dom() == run.m.mem.dom(),
        run.m.mem.dom().contains(a) ==> run.put(addr, data).m.mem[a] == run.m.mem[a],
        run.put(addr, data).m.regs == run.m.regs,
{
    law_write_then_read(run.m, addr, data, a);
}

/// Telling of a record leaves every byte alone that it does not store.
proof fn lemma_told_keeps(
    run: PhdrRun,
    record: RecordView,
    ptr: int,
    name: u64,
    cb: u64,
    data: u64,
    a: int,
)
    requires
        run.told_of(record, ptr, name, cb, data).ok,
        untouched(run, record, ptr, name as int, a),
    ensures
        run.told_of(record, ptr, name, cb, data).m.mem.dom() == run.m.mem.dom(),
        run.m.mem.dom().contains(a) ==> run.told_of(record, ptr, name, cb, data).m.mem[a]
            == run.m.mem[a],
{
    let text = c_bytes(record.name);
    let r1 = run.put(name as int, text);
    let r5 = r1.put(ptr, le64(record.vaddr)).put(ptr + 8, le64(name)).put(
        ptr + 16,
        le64(record.phdr),
    ).put(ptr + 24, le16(record.phnum));
    let end = run.told_of(record, ptr, name, cb, data);
    assert(end == r5.push(data).push(RECORD_SIZE).push(ptr as u64).push(cb) && r5.ok && r1.ok
        && r5.sp == run.sp) by {
        reveal(PhdrRun::told_of);
    }
    lemma_put_keeps(run, name as int, text, a);
    lemma_record_agrees(r1, record, ptr, name, a, a + 1);
    lemma_pushes_keep(r5, data, RECORD_SIZE, ptr as u64, cb, a);
    assert(r1.m.mem.dom() == r5.m.mem.dom() && (r1.m.mem.dom().contains(a) ==> r1.m.mem[a]
        == r5.m.mem[a])) by {
        reveal(agree);
    }
}

/// Bytes that none of the later steps stores stay.
proof fn lemma_walk_keeps(
    m: Machine,
    records: Seq<RecordView>,
    table: u64,
    names: Seq<Option<u64>>,
    k: int,
    n: int,
    a: int,
)
    requires
        0 <= k <= n,
        phdr_run(m, records, table, names, n).ok,
        a < m.reg(RegisterARM64::SP) - 8 - 32 * n || m.reg(RegisterARM64::SP) - 8 - 32 * k <= a,
        forall|i: int|
            k <= i < n ==> a < (#[trigger] names[i])->0 || names[i]->0 + c_bytes(
                records[i].name,
            ).len() <= a,
        a < table + 64 * k || table + 64 * n <= a,
    ensures
        phdr_run(m, records, table, names, n).m.mem.dom() == phdr_run(
            m,
            records,
            table,
            names,
            k,
        ).m.mem.dom(),
        phdr_run(m, records, table, names, k).m.mem.dom().contains(a) ==> phdr_run(
            m,
            records,
            table,
            names,
            n,
        ).m.mem[a] == phdr_run(m, records, table, names, k).m.mem[a],
    decreases n - k,
{
    if k < n {
        lemma_run_ok(m, records, table, names, n - 1, n);
        lemma_walk_keeps(m, records, table, names, k, n - 1, a);
        let before = phdr_run(m, records, table, names, n - 1);
        lemma_stack_depth(m, records, table, names, n - 1);
        assert(names[n - 1] == names[n - 1]);
        lemma_told_keeps(
            before,
            records[n - 1],
            table + (n - 1) * 64,
            names[n - 1]->0,
            m.reg(RegisterARM64::X0),
            m.reg(RegisterARM64::X1),
            a,
        );
    }
}

/// Two machines have the same bytes mapped, and hold the same from `lo` up to `hi`.
#[verifier::opaque]
spec fn agree(a: Machine, b: Machine, lo: int, hi: int) -> bool {
    &&& a.mem.dom() == b.mem.dom()
    &&& forall|i: int|
        lo <= i < hi && a.mem.dom().contains(i) ==> #[trigger] a.mem[i] == b.mem[i]
}

proof fn lemma_word_stays(a: Machine, b: Machine, lo: int, hi: int, x: int)
    requires
        agree(a, b, lo, hi),
        lo <= x,
        x + 8 <= hi,
    ensures
        a.read_u64(x) == b.read_u64(x),
{
    reveal(agree);
    assert(a.mapped(x, 8) == b.mapped(x, 8));
    if a.mapped(x, 8) {
        assert(a.read(x, 8) =~= b.read(x, 8)) by {
            assert forall|i: int| 0 <= i < 8 implies #[trigger] a.read(x, 8)[i] == b.read(x, 8)[i] by {
                assert(a.mem.dom().contains(x + i));
                assert(a.mem[x + i] == b.mem[x + i]);
            }
        }
    }
}

proof fn lemma_byte_stays(a: Machine, b: Machine, lo: int, hi: int, x: int)
    requires
        agree(a, b, lo, hi),
        lo <= x < hi,
        a.mem.dom().contains(x),
    ensures
        b.mem.dom().contains(x),
        a.mem[x] == b.mem[x],
{
    reveal(agree);
}

proof fn lemma_text_stays(a: Machine, b: Machine, at: int, text: Seq<u8>)
    requires
        agree(a, b, at, at + text.len()),
        a.mapped(at, text.len() as int),
        a.read(at, text.len()) == text,
    ensures
        b.mapped(at, text.len() as int),
        b.read(at, text.len()) == text,
{
    reveal(agree);
    assert(b.read(at, text.len()) =~= a.read(at, text.len())) by {
        assert forall|i: int| 0 <= i < text.len() implies #[trigger] b.read(at, text.len())[i]
            == a.read(at, text.len())[i] by {
            assert(a.mem.dom().contains(at + i));
            assert(a.mem[at + i] == b.mem[at + i]);
        }
    }
}

/// The bytes of a range that none of the later steps stores stay.
proof fn lemma_walk_agrees(
    m: Machine,
    records: Seq<RecordView>,
    table: u64,
    names: Seq<Option<u64>>,
    k: int,
    n: int,
    lo: int,
    hi: int,
)
    requires
        0 <= k <= n,
        lo <= hi,
        phdr_run(m, records, table, names, n).ok,
        hi <= m.reg(RegisterARM64::SP) - 8 - 32 * n || m.reg(RegisterARM64::SP) - 8 - 32 * k <= lo,
        forall|i: int|
            k <= i < n ==> hi <= (#[trigger] names[i])->0 || names[i]->0 + c_bytes(
                records[i].name,
            ).len() <= lo,
        hi <= table + 64 * k || table + 64 * n <= lo,
    ensures
        agree(
            phdr_run(m, records, table, names, k).m,
            phdr_run(m, records, table, names, n).m,
            lo,
            hi,
        ),
{
    reveal(agree);
    let a = phdr_run(m, records, table, names, k).m;
    let b = phdr_run(m, records, table, names, n).m;
    if lo < hi {
        lemma_walk_keeps(m, records, table, names, k, n, lo);
        assert forall|x: int| lo <= x < hi && a.mem.dom().contains(x) implies #[trigger] a.mem[x]
            == b.mem[x] by {
            lemma_walk_keeps(m, records, table, names, k, n, x);
        }
    } else {
        lemma_walk_domain(m, records, table, names, k, n);
    }
}

proof fn lemma_walk_domain(
    m: Machine,
    records: Seq<RecordView>,
    table: u64,
    names: Seq<Option<u64>>,
    k: int,
    n: int,
)
    requires
        0 <= k <= n,
        phdr_run(m, records, table, names, n).ok,
    ensures
        phdr_run(m, records, table, names, k).m.mem.dom() == phdr_run(
            m,
            records,
            table,
            names,
            n,
        ).m.mem.dom(),
    decreases n - k,
{
    if k < n {
        lemma_run_ok(m, records, table, names, n - 1, n);
        lemma_walk_domain(m, records, table, names, k, n - 1);
        lemma_told_domain(
            phdr_run(m, records, table, names, n - 1),
            records[n - 1],
            table + (n - 1) * 64,
            names[n - 1]->0,
            m.reg(RegisterARM64::X0),
            m.reg(RegisterARM64::X1),
        );
    }
}

proof fn lemma_told_domain(
    run: PhdrRun,
    record: RecordView,
    ptr: int,
    name: u64,
    cb: u64,
    data: u64,
)
    requires
        run.told_of(record, ptr, name, cb, data).ok,
    ensures
        run.told_of(record, ptr, name, cb, data).m.mem.dom() == run.m.mem.dom(),
{
    reveal(PhdrRun::told_of);
    let r5 = run.put(name as int, c_bytes(record.name)).put(ptr, le64(record.vaddr)).put(
        ptr + 8,
        le64(name),
    ).put(ptr + 16, le64(record.phdr)).put(ptr + 24, le16(record.phnum));
    lemma_pushes_keep(r5, data, RECORD_SIZE, ptr as u64, cb, run.sp);
    let r1 = run.put(name as int, c_bytes(record.name));
    let r2 = r1.put(ptr, le64(record.vaddr));
    let r3 = r2.put(ptr + 8, le64(name));
    let r4 = r3.put(ptr + 16, le64(record.phdr));
    lemma_put_keeps(run, name as int, c_bytes(record.name), name - 1);
    lemma_put_keeps(r1, ptr, le64(record.vaddr), ptr - 1);
    lemma_put_keeps(r2, ptr + 8, le64(name), ptr);
    lemma_put_keeps(r3, ptr + 16, le64(record.phdr), ptr);
    lemma_put_keeps(r4, ptr + 24, le16(record.phnum), ptr);
}

/// The stack, the records and the names that a walk stores are apart from each other.
pub open spec fn walk_apart(
    m: Machine,
    records: Seq<RecordView>,
    table: u64,
    names: Seq<Option<u64>>,
    n: int,
) -> bool {
    let top = m.reg(RegisterARM64::SP);
    let low = top - 8 - 32 * n;
    &&& table + 64 * n <= low || top <= table
    &&& forall|i: int|
        0 <= i < n ==> (#[trigger] names[i])->0 + c_bytes(records[i].name).len() <= low || top
            <= names[i]->0
    &&& forall|i: int|
        0 <= i < n ==> (#[trigger] names[i])->0 + c_bytes(records[i].name).len() <= table || table
            + 64 * n <= names[i]->0
    &&& forall|i: int, j: int|
        0 <= i < j < n ==> (#[trigger] names[i])->0 + c_bytes(records[i].name).len() <= (
        #[trigger] names[j])->0 || names[j]->0 + c_bytes(records[j].name).len() <= names[i]->0
}

/// After a walk was prepared the stack holds a call for every module, the last one on top:
/// the callback, the place of the module's record, the record's size and the guest's data.
/// Below the first call stands a zero, which ends them.
pub proof fn law_every_module_is_called(
    m: Machine,
    records: Seq<RecordView>,
    table: u64,
    names: Seq<Option<u64>>,
    n: int,
    j: int,
)
    requires
        0 <= j < n,
        phdr_run(m, records, table, names, n).ok,
        walk_apart(m, records, table, names, n),
    ensures
        ({
            let run = phdr_run(m, records, table, names, n);
            let top = m.reg(RegisterARM64::SP);
            let call = top - 8 - 32 * (j + 1);
            &&& run.sp == top - 8 - 32 * n
            &&& run.m.read_u64(call) == Some(m.reg(RegisterARM64::X0))
            &&& run.m.read_u64(call + 8) == Some((table + 64 * j) as u64)
            &&& run.m.read_u64(call + 16) == Some(64u64)
            &&& run.m.read_u64(call + 24) == Some(m.reg(RegisterARM64::X1))
            &&& run.m.read_u64(top - 8) == Some(0u64)
        }),
{
    let run = phdr_run(m, records, table, names, n);
    let then = phdr_run(m, records, table, names, j + 1);
    let first = phdr_run(m, records, table, names, 0);
    let top = m.reg(RegisterARM64::SP);
    let call = top - 8 - 32 * (j + 1);
    lemma_run_ok(m, records, table, names, j + 1, n);
    lemma_run_ok(m, records, table, names, 0, n);
    lemma_stack_depth(m, records, table, names, n);
    law_last_record_is_called_first(m, records, table, names, j + 1);
    lemma_push(PhdrRun { m, sp: top as int, ok: true }, 0, top as int);
    lemma_walk_agrees(m, records, table, names, j + 1, n, call, top as int);
    lemma_walk_agrees(m, records, table, names, 0, n, top - 8, top as int);
    lemma_word_stays(then.m, run.m, call, top as int, call);
    lemma_word_stays(then.m, run.m, call, top as int, call + 8);
    lemma_word_stays(then.m, run.m, call, top as int, call + 16);
    lemma_word_stays(then.m, run.m, call, top as int, call + 24);
    lemma_word_stays(first.m, run.m, top - 8, top as int, top - 8);
}

/// The record of a module, where the walk says that it stands: the module's place, a pointer
/// to its name with a zero after it, the place of its program headers, and their number in
/// two bytes.
#[verifier::rlimit(40)]
pub proof fn law_every_record_reads_back(
    m: Machine,
    records: Seq<RecordView>,
    table: u64,
    names: Seq<Option<u64>>,
    n: int,
    j: int,
)
    requires
        0 <= j < n,
        phdr_run(m, records, table, names, n).ok,
        walk_apart(m, records, table, names, n),
    ensures
        ({
            let end = phdr_run(m, records, table, names, n).m;
            let at = table + 64 * j;
            &&& end.read_u64(at) == Some(records[j].vaddr)
            &&& leads_to(end, at + 8, records[j].name)
            &&& end.read_u64(at + 16) == Some(records[j].phdr)
            &&& end.mem[at + 24] + 256 * end.mem[at + 25] == records[j].phnum
        }),
{
    let run = phdr_run(m, records, table, names, n);
    let then = phdr_run(m, records, table, names, j + 1);
    let before = phdr_run(m, records, table, names, j);
    let at = table + 64 * j;
    let name = names[j]->0;
    let text = c_bytes(records[j].name);
    lemma_run_ok(m, records, table, names, j + 1, n);
    lemma_stack_depth(m, records, table, names, j);
    lemma_record_stored(
        before,
        records[j],
        at,
        name,
        m.reg(RegisterARM64::X0),
        m.reg(RegisterARM64::X1),
    );
    lemma_walk_agrees(m, records, table, names, j + 1, n, at, at + 64);
    lemma_walk_agrees(m, records, table, names, j + 1, n, name as int, name + text.len());
    lemma_word_stays(then.m, run.m, at, at + 64, at);
    lemma_word_stays(then.m, run.m, at, at + 64, at + 8);
    lemma_word_stays(then.m, run.m, at, at + 64, at + 16);
    lemma_byte_stays(then.m, run.m, at, at + 64, at + 24);
    lemma_byte_stays(then.m, run.m, at, at + 64, at + 25);
    lemma_text_stays(then.m, run.m, name as int, text);
    lemma_text_stands(run.m, name as int, records[j].name);
}

/// What telling of one record leaves in memory.
#[verifier::rlimit(40)]
proof fn lemma_record_stored(
    run: PhdrRun,
    record: RecordView,
    ptr: int,
    name: u64,
    cb: u64,
    data: u64,
)
    requires
        run.told_of(record, ptr, name, cb, data).ok,
        ptr + 64 <= run.sp - 32 || run.sp <= ptr,
        name + c_bytes(record.name).len() <= run.sp - 32 || run.sp <= name,
        name + c_bytes(record.name).len() <= ptr || ptr + 64 <= name,
    ensures
        ({
            let end = run.told_of(record, ptr, name, cb, data).m;
            let text = c_bytes(record.name);
            &&& end.read_u64(ptr) == Some(record.vaddr)
            &&& end.read_u64(ptr + 8) == Some(name)
            &&& end.read_u64(ptr + 16) == Some(record.phdr)
            &&& end.mem.dom().contains(ptr + 24) && end.mem.dom().contains(ptr + 25)
            &&& end.mem[ptr + 24] + 256 * end.mem[ptr + 25] == record.phnum
            &&& end.mapped(name as int, text.len() as int)
            &&& end.read(name as int, text.len()) == text
        }),
{
    let text = c_bytes(record.name);
    let r1 = run.put(name as int, text);
    let r2 = r1.put(ptr, le64(record.vaddr));
    let r3 = r2.put(ptr + 8, le64(name));
    let r4 = r3.put(ptr + 16, le64(record.phdr));
    let r5 = r4.put(ptr + 24, le16(record.phnum));
    let end = run.told_of(record, ptr, name, cb, data);
    assert(end == r5.push(data).push(RECORD_SIZE).push(ptr as u64).push(cb)) by {
        reveal(PhdrRun::told_of);
    }
    assert(r5.ok && r1.ok && r5.sp == run.sp);
    lemma_record_words(r1, record, ptr, name);
    lemma_text_put(run, name as int, text);
    lemma_record_agrees(r1, record, ptr, name, name as int, name + text.len());
    lemma_text_stays(r1.m, r5.m, name as int, text);
    lemma_pushes_agree(r5, data, RECORD_SIZE, ptr as u64, cb, ptr, ptr + 64);
    lemma_pushes_agree(r5, data, RECORD_SIZE, ptr as u64, cb, name as int, name + text.len());
    lemma_word_stays(r5.m, end.m, ptr, ptr + 64, ptr);
    lemma_word_stays(r5.m, end.m, ptr, ptr + 64, ptr + 8);
    lemma_word_stays(r5.m, end.m, ptr, ptr + 64, ptr + 16);
    lemma_byte_stays(r5.m, end.m, ptr, ptr + 64, ptr + 24);
    lemma_byte_stays(r5.m, end.m, ptr, ptr + 64, ptr + 25);
    lemma_text_stays(r5.m, end.m, name as int, text);
}

proof fn lemma_text_put(run: PhdrRun, at: int, text: Seq<u8>)
    requires
        run.put(at, text).ok,
    ensures
        run.put(at, text).m.mapped(at, text.len() as int),
        run.put(at, text).m.read(at, text.len()) == text,
        run.put(at, text).m.mem.dom() == run.m.mem.dom(),
{
    law_write_then_read(run.m, at, text, at);
}

proof fn lemma_record_agrees(
    run: PhdrRun,
    record: RecordView,
    ptr: int,
    name: u64,
    lo: int,
    hi: int,
)
    requires
        run.put(ptr, le64(record.vaddr)).put(ptr + 8, le64(name)).put(
            ptr + 16,
            le64(record.phdr),
        ).put(ptr + 24, le16(record.phnum)).ok,
        hi <= ptr || ptr + 26 <= lo,
    ensures
        agree(
            run.m,
            run.put(ptr, le64(record.vaddr)).put(ptr + 8, le64(name)).put(
                ptr + 16,
                le64(record.phdr),
            ).put(ptr + 24, le16(record.phnum)).m,
            lo,
            hi,
        ),
{
    reveal(agree);
    let r2 = run.put(ptr, le64(record.vaddr));
    let r3 = r2.put(ptr + 8, le64(name));
    let r4 = r3.put(ptr + 16, le64(record.phdr));
    let r5 = r4.put(ptr + 24, le16(record.phnum));
    lemma_put_keeps(run, ptr, le64(record.vaddr), ptr - 1);
    lemma_put_keeps(r2, ptr + 8, le64(name), ptr);
    lemma_put_keeps(r3, ptr + 16, le64(record.phdr), ptr);
    lemma_put_keeps(r4, ptr + 24, le16(record.phnum), ptr);
    assert forall|a: int| lo <= a < hi && run.m.mem.dom().contains(a) implies #[trigger] run.m.mem[a]
        == r5.m.mem[a] by {
        lemma_put_keeps(run, ptr, le64(record.vaddr), a);
        lemma_put_keeps(r2, ptr + 8, le64(name), a);
        lemma_put_keeps(r3, ptr + 16, le64(record.phdr), a);
        lemma_put_keeps(r4, ptr + 24, le16(record.phnum), a);
    }
}

proof fn lemma_record_words(run: PhdrRun, record: RecordView, ptr: int, name: u64)
    requires
        run.put(ptr, le64(record.vaddr)).put(ptr + 8, le64(name)).put(
            ptr + 16,
            le64(record.phdr),
        ).put(ptr + 24, le16(record.phnum)).ok,
    ensures
        ({
            let end = run.put(ptr, le64(record.vaddr)).put(ptr + 8, le64(name)).put(
                ptr + 16,
                le64(record.phdr),
            ).put(ptr + 24, le16(record.phnum)).m;
            &&& end.read_u64(ptr) == Some(record.vaddr)
            &&& end.read_u64(ptr + 8) == Some(name)
            &&& end.read_u64(ptr + 16) == Some(record.phdr)
            &&& end.mem.dom().contains(ptr + 24) && end.mem.dom().contains(ptr + 25)
            &&& end.mem[ptr + 24] + 256 * end.mem[ptr + 25] == record.phnum
        }),
{
    let r2 = run.put(ptr, le64(record.vaddr));
    let r3 = r2.put(ptr + 8, le64(name));
    let r4 = r3.put(ptr + 16, le64(record.phdr));
    let r5 = r4.put(ptr + 24, le16(record.phnum));
    lemma_word_stored(run.m, ptr, record.vaddr);
    lemma_word_stored(r2.m, ptr + 8, name);
    lemma_word_stored(r3.m, ptr + 16, record.phdr);
    lemma_word_apart(r2.m, ptr + 8, le64(name), ptr);
    lemma_word_apart(r3.m, ptr + 16, le64(record.phdr), ptr);
    lemma_word_apart(r3.m, ptr + 16, le64(record.phdr), ptr + 8);
    lemma_word_apart(r4.m, ptr + 24, le16(record.phnum), ptr);
    lemma_word_apart(r4.m, ptr + 24, le16(record.phnum), ptr + 8);
    lemma_word_apart(r4.m, ptr + 24, le16(record.phnum), ptr + 16);
    lemma_text_put(r4, ptr + 24, le16(record.phnum));
    let two = r5.m.read(ptr + 24, 2);
    assert(two[0] == r5.m.mem[ptr + 24] && two[1] == r5.m.mem[ptr + 24 + 1]);
    assert(r5.m.mapped(ptr + 24, 2));
}

proof fn lemma_pushes_agree(run: PhdrRun, a: u64, b: u64, c: u64, d: u64, lo: int, hi: int)
    requires
        run.push(a).push(b).push(c).push(d).ok,
        hi <= run.sp - 32 || run.sp <= lo,
    ensures
        agree(run.m, run.push(a).push(b).push(c).push(d).m, lo, hi),
{
    reveal(agree);
    let end = run.push(a).push(b).push(c).push(d);
    lemma_pushes_keep(run, a, b, c, d, run.sp);
    assert forall|x: int| lo <= x < hi && run.m.mem.dom().contains(x) implies #[trigger] run.m.mem[x]
        == end.m.mem[x] by {
        lemma_pushes_keep(run, a, b, c, d, x);
    }
}

proof fn lemma_pushes_keep(run: PhdrRun, a: u64, b: u64, c: u64, d: u64, x: int)
    requires
        run.push(a).push(b).push(c).push(d).ok,
        x < run.sp - 32 || run.sp <= x,
    ensures
        run.push(a).push(b).push(c).push(d).m.mem.dom() == run.m.mem.dom(),
        run.m.mem.dom().contains(x) ==> run.push(a).push(b).push(c).push(d).m.mem[x]
            == run.m.mem[x],
{
    let r1 = run.push(a);
    let r2 = r1.push(b);
    let r3 = r2.push(c);
    lemma_put_keeps(PhdrRun { sp: run.sp - 8, ..run }, run.sp - 8, le64(a), x);
    lemma_put_keeps(PhdrRun { sp: r1.sp - 8, ..r1 }, r1.sp - 8, le64(b), x);
    lemma_put_keeps(PhdrRun { sp: r2.sp - 8, ..r2 }, r2.sp - 8, le64(c), x);
    lemma_put_keeps(PhdrRun { sp: r3.sp - 8, ..r3 }, r3.sp - 8, le64(d), x);
}

/// The guest is told of every named module with an image and of no other, under its path, at
/// its base, with the headers at their offset from there; a module that comes later by name
/// is told of earlier. The last record is the runtime's library, of which nothing but the
/// name is told.
pub proof fn law_told_modules(e: AndroidEmulator, k: int, i: int)
    requires
        headers_fit(e),
        forall|q: int|
            0 <= q < index_entries(e.memory.modules).len() ==> (#[trigger] index_entries(
                e.memory.modules,
            )[q]).1 < e.memory.list@.len(),
    ensures
        ({
            let entries = index_entries(e.memory.modules);
            let records = all_records(e);
            let n = records.len() - 1;
            &&& records.last().name == "/apex/com.android.art/lib64/libart.so"@
            &&& records.last().vaddr == 0 && records.last().phdr == 0 && records.last().phnum == 0
            &&& 0 <= k < entries.len() && e.memory.list@[entries[k].1 as int].elf_file is Some
                ==> exists|p: int| 0 <= p < n && tells_of(#[trigger] records[p], e, k)
            &&& 0 <= i < n ==> exists|q: int|
                0 <= q < entries.len() && #[trigger] tells_of(records[i], e, q)
        }),
{
    let entries = index_entries(e.memory.modules);
    let records = all_records(e);
    let images = image_records(entries, e.memory.list@, e.proc_name@, entries.len() as int);
    if 0 <= k < entries.len() && e.memory.list@[entries[k].1 as int].elf_file is Some {
        let p = lemma_image_listed(e, k, entries.len() as int);
        assert(records[p] == images[p]);
    }
    if 0 <= i < images.len() {
        let q = lemma_listed_image(e, i, entries.len() as int);
        assert(records[i] == images[i]);
        assert(tells_of(records[i], e, q));
    }
}

/// The record is that of the module under name number `k`.
pub open spec fn tells_of(r: RecordView, e: AndroidEmulator, k: int) -> bool {
    let m = e.memory.list@[index_entries(e.memory.modules)[k].1 as int];
    &&& m.elf_file matches Some(f)
    &&& r.name == path_of(m.name@, e.proc_name@)
    &&& r.vaddr == m.base
    &&& r.phdr == m.base + f.ph_offset
    &&& r.phnum == f.num_ph
}

proof fn lemma_image_listed(e: AndroidEmulator, k: int, n: int) -> (p: int)
    requires
        headers_fit(e),
        0 <= k < n <= index_entries(e.memory.modules).len(),
        index_entries(e.memory.modules)[k].1 < e.memory.list@.len(),
        e.memory.list@[index_entries(e.memory.modules)[k].1 as int].elf_file is Some,
    ensures
        ({
            let images = image_records(
                index_entries(e.memory.modules),
                e.memory.list@,
                e.proc_name@,
                n,
            );
            0 <= p < images.len() && tells_of(images[p], e, k)
        }),
    decreases n,
{
    let entries = index_entries(e.memory.modules);
    if k == n - 1 {
        0
    } else {
        let p = lemma_image_listed(e, k, n - 1);
        if e.memory.list@[entries[n - 1].1 as int].elf_file is Some {
            p + 1
        } else {
            p
        }
    }
}

proof fn lemma_listed_image(e: AndroidEmulator, i: int, n: int) -> (q: int)
    requires
        headers_fit(e),
        0 <= n <= index_entries(e.memory.modules).len(),
        forall|q: int|
            0 <= q < index_entries(e.memory.modules).len() ==> (#[trigger] index_entries(
                e.memory.modules,
            )[q]).1 < e.memory.list@.len(),
        0 <= i < image_records(
            index_entries(e.memory.modules),
            e.memory.list@,
            e.proc_name@,
            n,
        ).len(),
    ensures
        0 <= q < n,
        tells_of(
            image_records(index_entries(e.memory.modules), e.memory.list@, e.proc_name@, n)[i],
            e,
            q,
        ),
    decreases n,
{
    let entries = index_entries(e.memory.modules);
    if n <= 0 {
        0
    } else if e.memory.list@[entries[n - 1].1 as int].elf_file is Some {
        if i == 0 {
            n - 1
        } else {
            lemma_listed_image(e, i - 1, n - 1)
        }
    } else {
        lemma_listed_image(e, i, n - 1)
    }
}

/// The records that are told of are those before the first without a place for its name: all
/// where every name has one.
pub proof fn law_served_records(names: Seq<Option<u64>>, i: int)
    requires
        0 <= i < names.len(),
    ensures
        ({
            let k = named_records(names, names.len() as int);
            &&& 0 <= k <= names.len()
            &&& i < k ==> names[i] is Some
            &&& k < names.len() ==> names[k] is None
        }),
{
    lemma_served(names, names.len() as int);
}

proof fn lemma_served(names: Seq<Option<u64>>, n: int)
    requires
        0 <= n <= names.len(),
    ensures
        0 <= named_records(names, n) <= n,
        forall|i: int| 0 <= i < named_records(names, n) ==> #[trigger] names[i] is Some,
        named_records(names, n) < n ==> names[named_records(names, n)] is None,
    decreases n,
{
    if n > 0 {
        lemma_served(names, n - 1);
    }
}

} // verus!
