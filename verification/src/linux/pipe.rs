//! In-memory pipes. Both ends of a pipe work on the same buffer.
use vstd::prelude::*;
use crate::backend::Backend;
use crate::linux::file_system::{O_KNOWN, O_RDONLY, O_WRONLY, SeekResult, S_IFCHR, S_IRUSR, S_IWUSR};
use crate::num::{from_bits_i32, i32_of_bits, low32, min_int, to_low32};

verus! {

/// The bytes written to a pipe, and how many of them were read.
pub struct Pipe {
    pub buf: Vec<u8>,
    pub read_pos: usize,
}

impl Pipe {
    /// The bytes that were written and not read yet.
    pub open spec fn unread(self) -> Seq<u8> {
        if self.read_pos <= self.buf@.len() {
            self.buf@.skip(self.read_pos as int)
        } else {
            Seq::empty()
        }
    }

    /// This pipe with `n` more bytes read.
    pub open spec fn advanced(self, n: int) -> Pipe {
        Pipe { read_pos: (self.read_pos + n) as usize, ..self }
    }
}

/// The pipes of a process. A pipe is known by its position.
pub struct PipeTable {
    pub pipes: Vec<Pipe>,
}

impl PipeTable {
    pub fn new() -> (t: PipeTable)
        ensures
            t.pipes@.len() == 0,
    {
        PipeTable { pipes: Vec::new() }
    }
}

/// How many bytes of a pipe were written and not read yet.
pub fn pipe_unread(table: &PipeTable, pipe: usize) -> (n: usize)
    requires
        pipe < table.pipes@.len(),
    ensures
        n == table.pipes@[pipe as int].unread().len(),
{
    let p = &table.pipes[pipe];
    let len: usize = p.buf.len();
    if p.read_pos <= len {
        len - p.read_pos
    } else {
        0
    }
}

/// Hand the next bytes of a pipe to the guest: as many as are there, and no more
/// than `count`. They count as read though the guest address is not mapped.
pub fn pipe_deliver(
    table: &mut PipeTable,
    pipe: usize,
    backend: &mut Backend,
    dst: u64,
    count: u64,
) -> (n: u64)
    requires
        pipe < old(table).pipes@.len(),
    ensures
        n == min_int(count as int, old(table).pipes@[pipe as int].unread().len() as int),
        final(backend)@ == old(backend)@.try_write(
            dst as int,
            old(table).pipes@[pipe as int].unread().take(n as int),
        ),
        final(table).pipes@ == old(table).pipes@.update(
            pipe as int,
            old(table).pipes@[pipe as int].advanced(n as int),
        ),
{
    let avail: usize = pipe_unread(table, pipe);
    if avail == 0 {
        proof {
            let p = table.pipes@[pipe as int];
            assert(p.unread().take(0).len() == 0);
            assert(backend@ =~= backend@.write(dst as int, p.unread().take(0)));
            assert(p == p.advanced(0));
            assert(table.pipes@ =~= table.pipes@.update(pipe as int, p.advanced(0)));
        }
        return 0;
    }
    let n: usize = if count < avail as u64 {
        count as usize
    } else {
        avail
    };
    let from: usize = table.pipes[pipe].read_pos;
    let total: usize = table.pipes[pipe].buf.len();
    let mut data: Vec<u8> = Vec::new();
    let mut i: usize = 0;
    while i < n
        invariant
            i <= n,
            pipe < table.pipes@.len(),
            from == table.pipes@[pipe as int].read_pos,
            from + n <= total,
            total == table.pipes@[pipe as int].buf@.len(),
            data@ == table.pipes@[pipe as int].unread().take(i as int),
        decreases n - i,
    {
        data.push(table.pipes[pipe].buf[from + i]);
        i = i + 1;
        assert(data@ =~= table.pipes@[pipe as int].unread().take(i as int));
    }
    backend.mem_try_write(dst, data.as_slice());
    table.pipes[pipe].read_pos = from + n;
    assert(table.pipes@ =~= old(table).pipes@.update(
        pipe as int,
        old(table).pipes@[pipe as int].advanced(n as int),
    ));
    n as u64
}

/// One end of a pipe.
pub struct PipeIO {
    pub pipe: usize,
    pub writer: bool,
    pub path: String,
    pub oflags: u32,
}

impl PipeIO {
    /// A new empty pipe: its reading end and its writing end.
    pub fn pair(table: &mut PipeTable) -> (r: (PipeIO, PipeIO))
        ensures
            final(table).pipes@.len() == old(table).pipes@.len() + 1,
            final(table).pipes@.drop_last() == old(table).pipes@,
            final(table).pipes@.last().unread() == Seq::<u8>::empty(),
            final(table).pipes@.last().buf@ == Seq::<u8>::empty(),
            final(table).pipes@.last().read_pos == 0,
            r.0.pipe == old(table).pipes@.len(),
            r.1.pipe == old(table).pipes@.len(),
            !r.0.writer,
            r.1.writer,
            r.0.path@ == "pipe:[r]"@,
            r.1.path@ == "pipe:[w]"@,
            r.0.oflags == O_RDONLY,
            r.1.oflags == O_WRONLY,
    {
        let pipe: usize = table.pipes.len();
        table.pipes.push(Pipe { buf: Vec::new(), read_pos: 0 });
        assert(table.pipes@.last().unread() =~= Seq::<u8>::empty());
        assert(table.pipes@.drop_last() =~= old(table).pipes@);
        let reader = PipeIO { pipe, writer: false, path: "pipe:[r]".to_owned(), oflags: O_RDONLY };
        let writer = PipeIO { pipe, writer: true, path: "pipe:[w]".to_owned(), oflags: O_WRONLY };
        (reader, writer)
    }

    /// Read into guest memory. The writing end reads nothing.
    pub fn read(&self, table: &mut PipeTable, backend: &mut Backend, buf: u64, count: u64) -> (n:
        u64)
        requires
            self.pipe < old(table).pipes@.len(),
        ensures
            self.writer ==> n == 0 && final(backend)@ == old(backend)@ && final(table).pipes@
                == old(table).pipes@,
            !self.writer ==> {
                let p = old(table).pipes@[self.pipe as int];
                &&& n == min_int(count as int, p.unread().len() as int)
                &&& final(backend)@ == old(backend)@.try_write(
                    buf as int,
                    p.unread().take(n as int),
                )
                &&& final(table).pipes@ == old(table).pipes@.update(
                    self.pipe as int,
                    p.advanced(n as int),
                )
            },
    {
        if self.writer {
            return 0;
        }
        pipe_deliver(table, self.pipe, backend, buf, count)
    }

    /// A positioned read. A pipe has no positions: it reads on.
    pub fn pread(
        &self,
        table: &mut PipeTable,
        backend: &mut Backend,
        buf: u64,
        count: u64,
        _offset: u64,
    ) -> (n: u64)
        requires
            self.pipe < old(table).pipes@.len(),
        ensures
            self.writer ==> n == 0 && final(backend)@ == old(backend)@ && final(table).pipes@
                == old(table).pipes@,
            !self.writer ==> {
                let p = old(table).pipes@[self.pipe as int];
                &&& n == min_int(count as int, p.unread().len() as int)
                &&& final(backend)@ == old(backend)@.try_write(
                    buf as int,
                    p.unread().take(n as int),
                )
                &&& final(table).pipes@ == old(table).pipes@.update(
                    self.pipe as int,
                    p.advanced(n as int),
                )
            },
    {
        self.read(table, backend, buf, count)
    }

    /// Append to the pipe. The reading end takes nothing.
    pub fn write(&self, table: &mut PipeTable, buf: &[u8]) -> (n: i32)
        requires
            self.pipe < old(table).pipes@.len(),
        ensures
            !self.writer ==> n == -1 && final(table).pipes@ == old(table).pipes@,
            self.writer ==> {
                let p = old(table).pipes@[self.pipe as int];
                let q = final(table).pipes@[self.pipe as int];
                &&& n == i32_of_bits(low32(buf@.len() as u64))
                &&& q.buf@ == p.buf@ + buf@
                &&& q.read_pos == p.read_pos
                &&& final(table).pipes@ == old(table).pipes@.update(self.pipe as int, q)
            },
    {
        if !self.writer {
            return -1;
        }
        let i: usize = self.pipe;
        table.pipes[i].buf.extend_from_slice(buf);
        assert(table.pipes@[i as int].buf@ =~= old(table).pipes@[i as int].buf@ + buf@);
        assert(table.pipes@ =~= old(table).pipes@.update(i as int, table.pipes@[i as int]));
        from_bits_i32(to_low32(buf.len() as u64))
    }

    /// A pipe does not seek.
    pub fn lseek(&self, _offset: i64, _whence: i32) -> (r: SeekResult)
        ensures
            r == SeekResult::UnknownError,
    {
        SeekResult::UnknownError
    }

    pub fn path(&self) -> (r: &str)
        ensures
            r@ == self.path@,
    {
        self.path.as_str()
    }

    pub fn oflags(&self) -> (r: u32)
        ensures
            r == self.oflags & O_KNOWN,
    {
        self.oflags & O_KNOWN
    }

    /// The pipe behind a reading end.
    pub fn pipe_reader_bufs(&self) -> (r: Option<usize>)
        ensures
            r == if self.writer {
                None::<usize>
            } else {
                Some(self.pipe)
            },
    {
        if self.writer {
            None
        } else {
            Some(self.pipe)
        }
    }

    pub fn st_mode(&self) -> (m: u32)
        ensures
            m == S_IFCHR | S_IRUSR | S_IWUSR,
    {
        S_IFCHR | S_IRUSR | S_IWUSR
    }

    pub fn uid(&self) -> (r: i32)
        ensures
            r == 0,
    {
        0
    }

    /// All bytes ever written to the pipe.
    pub fn len(&self, table: &PipeTable) -> (n: usize)
        requires
            self.pipe < table.pipes@.len(),
        ensures
            n == table.pipes@[self.pipe as int].buf@.len(),
    {
        table.pipes[self.pipe].buf.len()
    }

    /// All bytes ever written to the pipe.
    pub fn to_vec(&self, table: &PipeTable) -> (v: Vec<u8>)
        requires
            self.pipe < table.pipes@.len(),
        ensures
            v@ == table.pipes@[self.pipe as int].buf@,
    {
        let v = table.pipes[self.pipe].buf.clone();
        assert(v@ =~= table.pipes@[self.pipe as int].buf@);
        v
    }
}

/// What a pipe delivers is what was written, in the order of writing: bytes written
/// later come after those still unread, and a read takes the oldest.
pub proof fn law_pipe_is_a_queue(before: Pipe, data: Seq<u8>, after: Pipe, n: int)
    requires
        before.read_pos <= before.buf@.len(),
        after.buf@ == before.buf@ + data,
        after.read_pos == before.read_pos,
        0 <= n <= after.unread().len(),
        after.buf@.len() <= usize::MAX,
    ensures
        after.unread() == before.unread() + data,
        after.unread().take(n) + after.advanced(n).unread() == after.unread(),
        after.advanced(n).read_pos <= after.advanced(n).buf@.len(),
{
    assert(after.unread() =~= before.unread() + data);
    assert(after.unread().take(n) + after.advanced(n).unread() =~= after.unread());
}

} // verus!
