//! Open files of the guest.
use vstd::prelude::*;
use crate::backend::Backend;
use crate::linux::pipe::{PipeIO, PipeTable};
use crate::linux::stdio::{HostStreams, StdinIO, StdoutIO};

verus! {

pub const SEEK_SET: i32 = 0;

pub const SEEK_CUR: i32 = 1;

pub const SEEK_END: i32 = 2;

pub const O_RDONLY: u32 = 0;

pub const O_WRONLY: u32 = 1;

pub const O_RDWR: u32 = 2;

/// The open flags that the runtime knows.
pub const O_KNOWN: u32 = 0o37777703;

pub const S_IFCHR: u32 = 0o020000;

pub const S_IRUSR: u32 = 0o400;

pub const S_IWUSR: u32 = 0o200;

pub const S_IRGRP: u32 = 0o040;

pub const S_IWGRP: u32 = 0o020;

pub const S_IROTH: u32 = 0o004;

pub const S_IWOTH: u32 = 0o002;

/// Mode of a file of the system image: a regular file, readable by all and writable
/// by its owner.
pub const SYSTEM_FILE: u32 = 0o100644;

/// Where a seek ended.
#[derive(Clone, Copy, Debug, PartialEq, Eq, Structural)]
pub enum SeekResult {
    Pos(i64),
    WhenceError,
    OffsetError,
    UnknownError,
}

/// A file with contents that the runtime made up.
pub struct ByteArrayFileIO {
    pub bytes: Vec<u8>,
    pub path: String,
    pub uid: i32,
    pub oflags: u32,
    pub mode: u32,
}

/// A file of the host.
pub struct LinuxFileIO {
    pub host_path: String,
    pub path: String,
    pub oflags: u32,
    pub uid: i32,
    pub mode: u32,
}

/// Which device or kernel file stands behind a descriptor.
#[derive(Clone, Copy, Debug, PartialEq, Eq, Structural)]
pub enum DeviceKind {
    URandom,
    Meminfo,
    Cpuinfo,
    RandomBootId,
    Maps,
}

/// A device or kernel file.
pub struct DeviceIO {
    pub kind: DeviceKind,
    pub path: String,
    pub oflags: u32,
    pub mode: u32,
}

/// A directory of the host.
pub struct Direction {
    pub path: String,
    pub mode: u32,
}

/// A file whose bytes come and go while the guest runs.
pub enum DynamicIO {
    Stdin(StdinIO),
    Stdout(StdoutIO),
    Pipe(PipeIO),
    Device(DeviceIO),
}

/// What an open descriptor stands for.
pub enum FileIO {
    Bytes(ByteArrayFileIO),
    File(LinuxFileIO),
    Dynamic(DynamicIO),
    Error(i32),
    Direction(Direction),
    LocalSocket,
}

/// The mode bits of a file; none of an error.
pub open spec fn mode_of(file: FileIO) -> u32 {
    match file {
        FileIO::Bytes(f) => f.mode,
        FileIO::File(f) => f.mode,
        FileIO::Dynamic(DynamicIO::Stdin(_)) => S_IFCHR | S_IRUSR | S_IRGRP | S_IROTH,
        FileIO::Dynamic(DynamicIO::Stdout(_)) => S_IFCHR | S_IWUSR | S_IWGRP | S_IWOTH,
        FileIO::Dynamic(DynamicIO::Pipe(_)) => S_IFCHR | S_IRUSR | S_IWUSR,
        FileIO::Dynamic(DynamicIO::Device(f)) => f.mode,
        FileIO::Error(_) => 0,
        FileIO::Direction(d) => d.mode,
        FileIO::LocalSocket => S_IRUSR | S_IWUSR,
    }
}

/// The open flags of a file; none where it has no flags.
pub open spec fn oflags_of(file: FileIO) -> u32 {
    match file {
        FileIO::Bytes(f) => f.oflags & O_KNOWN,
        FileIO::File(f) => f.oflags & O_KNOWN,
        FileIO::Dynamic(DynamicIO::Stdin(f)) => f.oflags & O_KNOWN,
        FileIO::Dynamic(DynamicIO::Stdout(f)) => f.oflags & O_KNOWN,
        FileIO::Dynamic(DynamicIO::Pipe(f)) => f.oflags & O_KNOWN,
        FileIO::Dynamic(DynamicIO::Device(f)) => f.oflags & O_KNOWN,
        _ => 0,
    }
}

/// The file's bytes are kept by a driver outside the runtime.
pub open spec fn is_driven(file: FileIO) -> bool {
    match file {
        FileIO::Bytes(_) => true,
        FileIO::File(_) => true,
        FileIO::Dynamic(DynamicIO::Device(_)) => true,
        FileIO::LocalSocket => true,
        _ => false,
    }
}

impl FileIO {
    pub fn st_mode(&self) -> (m: u32)
        ensures
            m == mode_of(*self),
    {
        match self {
            FileIO::Bytes(f) => f.mode,
            FileIO::File(f) => f.mode,
            FileIO::Dynamic(DynamicIO::Stdin(f)) => f.st_mode(),
            FileIO::Dynamic(DynamicIO::Stdout(f)) => f.st_mode(),
            FileIO::Dynamic(DynamicIO::Pipe(f)) => f.st_mode(),
            FileIO::Dynamic(DynamicIO::Device(f)) => f.mode,
            FileIO::Error(_) => 0,
            FileIO::Direction(d) => d.mode,
            FileIO::LocalSocket => S_IRUSR | S_IWUSR,
        }
    }

    pub fn oflags(&self) -> (m: u32)
        ensures
            m == oflags_of(*self),
    {
        match self {
            FileIO::Bytes(f) => f.oflags & O_KNOWN,
            FileIO::File(f) => f.oflags & O_KNOWN,
            FileIO::Dynamic(DynamicIO::Stdin(f)) => f.oflags(),
            FileIO::Dynamic(DynamicIO::Stdout(f)) => f.oflags(),
            FileIO::Dynamic(DynamicIO::Pipe(f)) => f.oflags(),
            FileIO::Dynamic(DynamicIO::Device(f)) => f.oflags & O_KNOWN,
            _ => 0,
        }
    }

    /// Whether the file's bytes are kept by a driver outside the runtime.
    pub fn driven(&self) -> (r: bool)
        ensures
            r == is_driven(*self),
    {
        match self {
            FileIO::Bytes(_) => true,
            FileIO::File(_) => true,
            FileIO::Dynamic(DynamicIO::Device(_)) => true,
            FileIO::LocalSocket => true,
            _ => false,
        }
    }
}

/// The lowest position from `from` on that holds no file.
pub open spec fn lowest_free(slots: Seq<Option<FileIO>>, from: int) -> int
    decreases slots.len() - from,
{
    if from >= slots.len() || slots[from] is None {
        from
    } else {
        lowest_free(slots, from + 1)
    }
}

/// The table after a file got the lowest free position.
pub open spec fn inserted(slots: Seq<Option<FileIO>>, file: FileIO) -> Seq<Option<FileIO>> {
    let fd = lowest_free(slots, 0);
    if fd < slots.len() {
        slots.update(fd, Some(file))
    } else {
        slots.push(Some(file))
    }
}

/// The file behind descriptor `fd`.
pub open spec fn file_at(slots: Seq<Option<FileIO>>, fd: int) -> Option<FileIO> {
    if 0 <= fd < slots.len() {
        slots[fd]
    } else {
        None
    }
}

/// A lowest free position lies between `from` and the end of the table, and all
/// positions before it hold files.
pub proof fn lemma_lowest_free(slots: Seq<Option<FileIO>>, from: int)
    requires
        0 <= from <= slots.len(),
    ensures
        from <= lowest_free(slots, from) <= slots.len(),
        forall|i: int| from <= i < lowest_free(slots, from) ==> slots[i] is Some,
        file_at(slots, lowest_free(slots, from)) is None,
    decreases slots.len() - from,
{
    if from < slots.len() && slots[from] is Some {
        lemma_lowest_free(slots, from + 1);
    }
}

/// Bytes that a driver outside the runtime has yet to store.
pub struct DriverWrite {
    pub fd: i32,
    pub data: Vec<u8>,
}

/// The descriptor table, the pipes and the standard streams.
pub struct FileSystem {
    pub slots: Vec<Option<FileIO>>,
    pub pipes: PipeTable,
    pub streams: HostStreams,
    pub driver_writes: Vec<DriverWrite>,
}

/// Every pipe end of a table belongs to one of `n` pipes.
pub open spec fn pipes_known(slots: Seq<Option<FileIO>>, n: int) -> bool {
    forall|i: int|
        0 <= i < slots.len() ==> (#[trigger] slots[i] matches Some(
            FileIO::Dynamic(DynamicIO::Pipe(p)),
        ) ==> p.pipe < n)
}

/// What a write of `data` to an open file gives, where the runtime keeps the bytes.
pub open spec fn write_result(file: FileIO, data: Seq<u8>, driver: i32) -> i32 {
    match file {
        FileIO::Dynamic(DynamicIO::Stdin(_)) => -1i32,
        FileIO::Dynamic(DynamicIO::Stdout(_)) => crate::num::i32_of_bits(
            crate::num::low32(data.len() as u64),
        ),
        FileIO::Dynamic(DynamicIO::Pipe(p)) => if p.writer {
            crate::num::i32_of_bits(crate::num::low32(data.len() as u64))
        } else {
            -1i32
        },
        FileIO::Error(_) => -1i32,
        FileIO::Direction(_) => -1i32,
        _ => driver,
    }
}

/// `after` is `before` with `data` written to `file`: on standard output or error
/// it is the stream that grows, on a pipe's writing end it is the pipe; nothing else
/// changes.
pub open spec fn written(before: FileSystem, after: FileSystem, file: FileIO, data: Seq<u8>) -> bool {
    &&& after.slots == before.slots
    &&& after.driver_writes == before.driver_writes
    &&& match file {
        FileIO::Dynamic(DynamicIO::Stdout(f)) => {
            &&& after.pipes == before.pipes
            &&& after.streams.out@ == if f.err {
                before.streams.out@
            } else {
                before.streams.out@ + data
            }
            &&& after.streams.err@ == if f.err {
                before.streams.err@ + data
            } else {
                before.streams.err@
            }
        },
        FileIO::Dynamic(DynamicIO::Pipe(p)) => {
            &&& after.streams == before.streams
            &&& !p.writer ==> after.pipes.pipes@ == before.pipes.pipes@
            &&& p.writer ==> {
                let old_pipe = before.pipes.pipes@[p.pipe as int];
                let new_pipe = after.pipes.pipes@[p.pipe as int];
                &&& new_pipe.buf@ == old_pipe.buf@ + data
                &&& new_pipe.read_pos == old_pipe.read_pos
                &&& after.pipes.pipes@ == before.pipes.pipes@.update(p.pipe as int, new_pipe)
            }
        },
        _ => after == before,
    }
}

/// The file system as contracts speak of it where several writes follow each other:
/// open files, the bytes and the read position of each pipe, the two streams, and the
/// writes that drivers have yet to see.
#[verifier::ext_equal]
pub struct FsView {
    pub slots: Seq<Option<FileIO>>,
    pub pipes: Seq<(Seq<u8>, int)>,
    pub out: Seq<u8>,
    pub err: Seq<u8>,
    pub driver: Seq<(i32, Seq<u8>)>,
}

impl View for FileSystem {
    type V = FsView;

    open spec fn view(&self) -> FsView {
        FsView {
            slots: self.slots@,
            pipes: Seq::new(
                self.pipes.pipes@.len(),
                |i: int| (self.pipes.pipes@[i].buf@, self.pipes.pipes@[i].read_pos as int),
            ),
            out: self.streams.out@,
            err: self.streams.err@,
            driver: Seq::new(
                self.driver_writes@.len(),
                |i: int| (self.driver_writes@[i].fd, self.driver_writes@[i].data@),
            ),
        }
    }
}

impl FsView {
    /// `data` was written to `file`, where the runtime keeps the bytes.
    pub open spec fn append(self, file: FileIO, data: Seq<u8>) -> FsView {
        match file {
            FileIO::Dynamic(DynamicIO::Stdout(f)) => if f.err {
                FsView { err: self.err + data, ..self }
            } else {
                FsView { out: self.out + data, ..self }
            },
            FileIO::Dynamic(DynamicIO::Pipe(p)) => if p.writer {
                FsView {
                    pipes: self.pipes.update(
                        p.pipe as int,
                        (self.pipes[p.pipe as int].0 + data, self.pipes[p.pipe as int].1),
                    ),
                    ..self
                }
            } else {
                self
            },
            _ => self,
        }
    }

    /// `data` was sent to descriptor `fd`, with drivers to be told later.
    pub open spec fn send(self, fd: i32, data: Seq<u8>) -> FsView {
        match file_at(self.slots, fd as int) {
            Some(file) => if is_driven(file) {
                FsView { driver: self.driver.push((fd, data)), ..self }
            } else {
                self.append(file, data)
            },
            None => self,
        }
    }
}

/// What a write does, said of the whole file system.
pub proof fn lemma_written_view(before: FileSystem, after: FileSystem, file: FileIO, data: Seq<u8>)
    requires
        written(before, after, file, data),
        file matches FileIO::Dynamic(DynamicIO::Pipe(p)) ==> p.pipe < before.pipes.pipes@.len(),
    ensures
        after@ == before@.append(file, data),
{
    assert(after@ =~= before@.append(file, data));
}

impl FileSystem {
    /// Every pipe end in the table belongs to a pipe.
    pub open spec fn wf(self) -> bool {
        pipes_known(self.slots@, self.pipes.pipes@.len() as int)
    }

    /// The file behind a descriptor.
    pub open spec fn file(self, fd: int) -> Option<FileIO> {
        file_at(self.slots@, fd)
    }

    /// A table with no open files.
    pub fn new() -> (fs: FileSystem)
        ensures
            fs.wf(),
            fs.slots@ == Seq::<Option<FileIO>>::empty(),
            fs.pipes.pipes@.len() == 0,
            fs.streams.out@ == Seq::<u8>::empty(),
            fs.streams.err@ == Seq::<u8>::empty(),
            fs.driver_writes@.len() == 0,
    {
        FileSystem {
            slots: Vec::new(),
            pipes: PipeTable::new(),
            streams: HostStreams::new(),
            driver_writes: Vec::new(),
        }
    }

    pub fn get_file(&self, fd: i32) -> (r: Option<&FileIO>)
        ensures
            self.file(fd as int) is Some <==> r is Some,
            r matches Some(f) ==> self.file(fd as int) == Some(*f),
    {
        if fd < 0 || fd as usize >= self.slots.len() {
            return None;
        }
        match &self.slots[fd as usize] {
            Some(f) => Some(f),
            None => None,
        }
    }

    /// Open a file under the lowest free descriptor.
    pub fn insert_file(&mut self, file: FileIO) -> (fd: i32)
        requires
            old(self).slots@.len() < i32::MAX,
        ensures
            fd == lowest_free(old(self).slots@, 0),
            0 <= fd <= old(self).slots@.len(),
            final(self).slots@ == inserted(old(self).slots@, file),
            final(self).pipes == old(self).pipes,
            final(self).streams == old(self).streams,
            final(self).driver_writes == old(self).driver_writes,
            final(self).file(fd as int) == Some(file),
            old(self).wf() && (file matches FileIO::Dynamic(DynamicIO::Pipe(p)) ==> p.pipe < old(self).pipes.pipes@.len()) ==> final(self).wf(),
    {
        let n: usize = self.slots.len();
        let mut i: usize = 0;
        while i < n && self.slots[i].is_some()
            invariant
                i <= n,
                n == self.slots@.len(),
                lowest_free(self.slots@, 0) == lowest_free(self.slots@, i as int),
            decreases n - i,
        {
            i = i + 1;
        }
        if i < n {
            self.slots.set(i, Some(file));
        } else {
            self.slots.push(Some(file));
        }
        i as i32
    }

    /// Close a descriptor and hand its file out.
    pub fn remove_file(&mut self, fd: i32) -> (r: Option<FileIO>)
        ensures
            r == old(self).file(fd as int),
            final(self).slots@ == if r is Some {
                old(self).slots@.update(fd as int, None)
            } else {
                old(self).slots@
            },
            final(self).pipes == old(self).pipes,
            final(self).streams == old(self).streams,
            final(self).driver_writes == old(self).driver_writes,
            old(self).wf() ==> final(self).wf(),
    {
        if fd < 0 || fd as usize >= self.slots.len() {
            return None;
        }
        let mut slot: Option<FileIO> = None;
        std::mem::swap(&mut self.slots[fd as usize], &mut slot);
        if slot.is_none() {
            assert(self.slots@ =~= old(self).slots@);
        }
        slot
    }

    /// Write to an open file. Where a driver keeps the file, `driver` is what that
    /// driver answered.
    pub fn write_file(&mut self, fd: i32, data: &[u8], driver: i32) -> (n: i32)
        requires
            old(self).wf(),
            old(self).file(fd as int) is Some,
        ensures
            n == write_result(old(self).file(fd as int)->0, data@, driver),
            written(*old(self), *final(self), old(self).file(fd as int)->0, data@),
            final(self).wf(),
    {
        match &self.slots[fd as usize] {
            Some(FileIO::Dynamic(DynamicIO::Stdin(f))) => f.write(data),
            Some(FileIO::Dynamic(DynamicIO::Stdout(f))) => f.write(&mut self.streams, data),
            Some(FileIO::Dynamic(DynamicIO::Pipe(p))) => p.write(&mut self.pipes, data),
            Some(FileIO::Error(_)) => -1,
            Some(FileIO::Direction(_)) => -1,
            _ => driver,
        }
    }

    /// Read from an open file into guest memory. Where a driver keeps the file,
    /// `driver` is what that driver read.
    pub fn read_file(
        &mut self,
        fd: i32,
        backend: &mut Backend,
        buf: u64,
        count: u64,
        driver: &[u8],
    ) -> (n: u64)
        requires
            old(self).wf(),
            old(self).file(fd as int) is Some,
        ensures
            final(self).wf(),
            final(self).slots == old(self).slots,
            final(self).streams == old(self).streams,
            final(self).driver_writes == old(self).driver_writes,
            match old(self).file(fd as int)->0 {
                FileIO::Dynamic(DynamicIO::Pipe(p)) => {
                    if p.writer {
                        n == 0 && final(backend)@ == old(backend)@ && final(self).pipes.pipes@
                            == old(self).pipes.pipes@
                    } else {
                        let q = old(self).pipes.pipes@[p.pipe as int];
                        &&& n == crate::num::min_int(count as int, q.unread().len() as int)
                        &&& final(backend)@ == old(backend)@.try_write(
                            buf as int,
                            q.unread().take(n as int),
                        )
                        &&& final(self).pipes.pipes@ == old(self).pipes.pipes@.update(
                            p.pipe as int,
                            q.advanced(n as int),
                        )
                    }
                },
                f => {
                    &&& final(self).pipes == old(self).pipes
                    &&& if is_driven(f) {
                        &&& n == crate::num::min_int(count as int, driver@.len() as int)
                        &&& final(backend)@ == old(backend)@.try_write(
                            buf as int,
                            driver@.take(n as int),
                        )
                    } else {
                        n == 0 && final(backend)@ == old(backend)@
                    }
                },
            },
    {
        match &self.slots[fd as usize] {
            Some(FileIO::Dynamic(DynamicIO::Stdin(f))) => f.read(count),
            Some(FileIO::Dynamic(DynamicIO::Stdout(f))) => f.read(count),
            Some(FileIO::Dynamic(DynamicIO::Pipe(p))) => p.read(
                &mut self.pipes,
                backend,
                buf,
                count,
            ),
            Some(FileIO::Error(_)) => 0,
            Some(FileIO::Direction(_)) => 0,
            _ => {
                let n: usize = if count < driver.len() as u64 {
                    count as usize
                } else {
                    driver.len()
                };
                let part = vstd::slice::slice_subrange(driver, 0, n);
                assert(part@ =~= driver@.take(n as int));
                backend.mem_try_write(buf, part);
                n as u64
            },
        }
    }
}

impl FileSystem {
    /// Send bytes to a descriptor and do not wait for an answer: what a driver keeps is
    /// handed to the driver later. Nothing happens where there is nothing to send, or
    /// nothing open, or an error or a directory.
    pub fn write_guest_fd(&mut self, fd: i32, data: &[u8])
        requires
            old(self).wf(),
        ensures
            final(self).wf(),
            final(self).slots == old(self).slots,
            final(self).pipes.pipes@.len() == old(self).pipes.pipes@.len(),
            final(self)@ == if data@.len() == 0 {
                old(self)@
            } else {
                old(self)@.send(fd, data@)
            },
    {
        if data.len() == 0 {
            return ;
        }
        let driven = match self.get_file(fd) {
            Some(file) => file.driven(),
            None => {
                return ;
            },
        };
        if driven {
            let mut copy: Vec<u8> = Vec::new();
            copy.extend_from_slice(data);
            assert(copy@ =~= data@);
            self.driver_writes.push(DriverWrite { fd, data: copy });
            assert(self@ =~= old(self)@.send(fd, data@));
        } else {
            let _n: i32 = self.write_file(fd, data, 0);
            proof {
                lemma_written_view(*old(self), *self, old(self).file(fd as int)->0, data@);
            }
        }
    }
}

/// A descriptor that was just handed out was free, all lower ones were taken, and it
/// now leads to the file; every other descriptor leads where it led.
pub proof fn law_insert_then_lookup(slots: Seq<Option<FileIO>>, file: FileIO, other: int)
    ensures
        ({
            let fd = lowest_free(slots, 0);
            &&& file_at(slots, fd) is None
            &&& forall|i: int| 0 <= i < fd ==> slots[i] is Some
            &&& file_at(inserted(slots, file), fd) == Some(file)
            &&& other != fd ==> file_at(inserted(slots, file), other) == file_at(slots, other)
        }),
{
    lemma_lowest_free(slots, 0);
}

/// Of the flags that a file was opened with, the guest is shown the access mode and all flags
/// from 0o100 on; the four bits between are none that the runtime knows.
pub proof fn law_shown_flags(f: LinuxFileIO, d: DeviceIO, bit: u32)
    requires
        bit < 23,
    ensures
        oflags_of(FileIO::File(f)) & 3 == f.oflags & 3,
        bit < 2 || bit >= 6 ==> (oflags_of(FileIO::File(f)) >> bit) & 1 == (f.oflags >> bit) & 1,
        2 <= bit < 6 ==> (oflags_of(FileIO::File(f)) >> bit) & 1 == 0,
        d.oflags == f.oflags ==> oflags_of(FileIO::Dynamic(DynamicIO::Device(d))) == oflags_of(
            FileIO::File(f),
        ),
{
    let v = f.oflags;
    assert((v & 0o37777703u32) & 3 == v & 3) by (bit_vector);
    assert(bit < 2 || 6 <= bit < 23 ==> ((v & 0o37777703u32) >> bit) & 1 == (v >> bit) & 1)
        by (bit_vector);
    assert(2 <= bit < 6 ==> ((v & 0o37777703u32) >> bit) & 1 == 0) by (bit_vector);
}

/// A file at fault has no mode and no flags, and no driver keeps it.
pub proof fn law_file_at_fault(errno: i32)
    ensures
        mode_of(FileIO::Error(errno)) == 0,
        oflags_of(FileIO::Error(errno)) == 0,
        !is_driven(FileIO::Error(errno)),
{
}

} // verus!
