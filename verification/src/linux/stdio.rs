//! The guest's standard streams.
use vstd::prelude::*;
use crate::linux::file_system::{
    O_KNOWN, O_RDONLY, O_WRONLY, SeekResult, SEEK_CUR, SEEK_END, SEEK_SET, S_IFCHR, S_IRGRP, S_IROTH, S_IRUSR,
    S_IWGRP, S_IWOTH, S_IWUSR,
};
use crate::num::{from_bits_i32, i32_of_bits, low32, to_low32};

verus! {

/// What the guest wrote to its standard streams and the host has yet to print.
pub struct HostStreams {
    pub out: Vec<u8>,
    pub err: Vec<u8>,
}

impl HostStreams {
    pub fn new() -> (s: HostStreams)
        ensures
            s.out@ == Seq::<u8>::empty(),
            s.err@ == Seq::<u8>::empty(),
    {
        HostStreams { out: Vec::new(), err: Vec::new() }
    }
}

/// Where a seek on a standard stream ends up.
pub open spec fn stream_seek(offset: i64, whence: i32) -> SeekResult {
    if whence == SEEK_SET || whence == SEEK_CUR || whence == SEEK_END {
        SeekResult::Pos(
            if offset > 0 {
                offset
            } else {
                0
            },
        )
    } else {
        SeekResult::WhenceError
    }
}

fn seek_stream(offset: i64, whence: i32) -> (r: SeekResult)
    ensures
        r == stream_seek(offset, whence),
{
    if whence == SEEK_SET || whence == SEEK_CUR || whence == SEEK_END {
        SeekResult::Pos(
            if offset > 0 {
                offset
            } else {
                0
            },
        )
    } else {
        SeekResult::WhenceError
    }
}

/// Guest stdin. Reads report the end of the file, so that programs that probe stdin
/// do not block.
pub struct StdinIO {
    pub oflags: u32,
}

impl StdinIO {
    pub fn new() -> (r: StdinIO)
        ensures
            r.oflags == O_RDONLY,
    {
        StdinIO { oflags: O_RDONLY }
    }

    pub fn read(&self, _count: u64) -> (n: u64)
        ensures
            n == 0,
    {
        0
    }

    pub fn pread(&self, _count: u64, _offset: u64) -> (n: u64)
        ensures
            n == 0,
    {
        0
    }

    pub fn write(&self, _buf: &[u8]) -> (n: i32)
        ensures
            n == -1,
    {
        -1
    }

    pub fn lseek(&self, offset: i64, whence: i32) -> (r: SeekResult)
        ensures
            r == stream_seek(offset, whence),
    {
        seek_stream(offset, whence)
    }

    pub fn path(&self) -> (r: &str)
        ensures
            r@ == "stdin"@,
    {
        "stdin"
    }

    pub fn oflags(&self) -> (r: u32)
        ensures
            r == self.oflags & O_KNOWN,
    {
        self.oflags & O_KNOWN
    }

    pub fn st_mode(&self) -> (m: u32)
        ensures
            m == S_IFCHR | S_IRUSR | S_IRGRP | S_IROTH,
    {
        S_IFCHR | S_IRUSR | S_IRGRP | S_IROTH
    }

    pub fn uid(&self) -> (r: i32)
        ensures
            r == 0,
    {
        0
    }

    pub fn len(&self) -> (n: usize)
        ensures
            n == 0,
    {
        0
    }

    pub fn to_vec(&self) -> (v: Vec<u8>)
        ensures
            v@ == Seq::<u8>::empty(),
    {
        Vec::new()
    }
}

/// Guest stdout or stderr. Writes go to the host's stream of that name.
pub struct StdoutIO {
    pub path: String,
    pub err: bool,
    pub oflags: u32,
}

impl StdoutIO {
    pub fn stdout() -> (r: StdoutIO)
        ensures
            r.path@ == "stdout"@,
            !r.err,
            r.oflags == O_WRONLY,
    {
        StdoutIO { path: "stdout".to_owned(), err: false, oflags: O_WRONLY }
    }

    pub fn stderr() -> (r: StdoutIO)
        ensures
            r.path@ == "stderr"@,
            r.err,
            r.oflags == O_WRONLY,
    {
        StdoutIO { path: "stderr".to_owned(), err: true, oflags: O_WRONLY }
    }

    pub fn read(&self, _count: u64) -> (n: u64)
        ensures
            n == 0,
    {
        0
    }

    pub fn pread(&self, _count: u64, _offset: u64) -> (n: u64)
        ensures
            n == 0,
    {
        0
    }

    /// All of `buf` goes to the stream, after what is there already.
    pub fn write(&self, streams: &mut HostStreams, buf: &[u8]) -> (n: i32)
        ensures
            n == i32_of_bits(low32(buf@.len() as u64)),
            self.err ==> final(streams).err@ == old(streams).err@ + buf@ && final(streams).out
                == old(streams).out,
            !self.err ==> final(streams).out@ == old(streams).out@ + buf@ && final(streams).err
                == old(streams).err,
    {
        if self.err {
            streams.err.extend_from_slice(buf);
            assert(streams.err@ =~= old(streams).err@ + buf@);
        } else {
            streams.out.extend_from_slice(buf);
            assert(streams.out@ =~= old(streams).out@ + buf@);
        }
        from_bits_i32(to_low32(buf.len() as u64))
    }

    pub fn lseek(&self, offset: i64, whence: i32) -> (r: SeekResult)
        ensures
            r == stream_seek(offset, whence),
    {
        seek_stream(offset, whence)
    }

    pub fn path(&self) -> (r: &str)
        ensures
            r@ == self.path@,
    {
        self.path.as_str()
    }

    pub fn oflags(&self) -> (r: u32)
        ensures
            r == self.oflags & O_KNOWN,
    {
        self.oflags & O_KNOWN
    }

    pub fn st_mode(&self) -> (m: u32)
        ensures
            m == S_IFCHR | S_IWUSR | S_IWGRP | S_IWOTH,
    {
        S_IFCHR | S_IWUSR | S_IWGRP | S_IWOTH
    }

    pub fn uid(&self) -> (r: i32)
        ensures
            r == 0,
    {
        0
    }

    pub fn len(&self) -> (n: usize)
        ensures
            n == 0,
    {
        0
    }

    pub fn to_vec(&self) -> (v: Vec<u8>)
        ensures
            v@ == Seq::<u8>::empty(),
    {
        Vec::new()
    }
}

} // verus!
