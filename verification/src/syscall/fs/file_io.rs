//! Reading, writing and copying files.
use crate::bytes;
use crate::errno;
use crate::syscall::dispatch::WRITE_BUF_MAX;
use crate::syscall::event;
use crate::syscall::reply;
use crate::syscall::reply::Reply;
use crate::vfs;
use crate::vfs::fd;
use crate::vfs::fd::FdTable;
use crate::vfs::{InodeKind, OpenFile, OpenFlags, Whence};
use vstd::prelude::*;

verus! {

/// The most bytes that one read moves.
pub const READ_BUF_MAX: u64 = 0x4_0000;

/// The most bytes that are moved at once between two files.
pub const CHUNK: u64 = 4096;

pub open spec fn at_most(count: u64, max: u64) -> u64 {
    if count > max {
        max
    } else {
        count
    }
}

fn cut(count: u64, max: u64) -> (r: u64)
    ensures
        r == at_most(count, max),
{
    if count > max {
        max
    } else {
        count
    }
}

/// What `write` goes on with: how many bytes, or an answer at once. `read` says whether the
/// bytes could be read of the caller's memory, `open` whether the descriptor is open.
pub fn sys_write(count: u64, read: bool, open: bool) -> (r: Result<u64, i64>)
    ensures
        r == (if count == 0 {
            Err(0i64)
        } else if !read {
            Err(errno::EFAULT)
        } else if !open {
            Err(errno::EBADF)
        } else {
            Ok::<u64, i64>(at_most(count, WRITE_BUF_MAX))
        }),
{
    if count == 0 {
        return Err(0);
    }
    if !read {
        return Err(errno::EFAULT);
    }
    if !open {
        return Err(errno::EBADF);
    }
    Ok(cut(count, WRITE_BUF_MAX))
}

/// The answer of a write, and whether the caller gets `SIGPIPE`: nobody reads what it wrote.
pub fn write_reply(written: Result<u64, i64>) -> (r: (i64, bool))
    ensures
        r == match written {
            Ok(n) => (n as i64, false),
            Err(e) => (e, e == errno::EPIPE),
        },
{
    match written {
        Ok(n) => (n as i64, false),
        Err(e) => (e, e == errno::EPIPE),
    }
}

/// Whether watchers are told that a file was written.
pub fn write_is_noticed(watching: bool, kind: InodeKind, written: Result<u64, i64>) -> (r: bool)
    ensures
        r == (watching && kind == InodeKind::Regular && written is Ok),
{
    match kind {
        InodeKind::Regular => watching && written.is_ok(),
        _ => false,
    }
}

/// What `read` goes on with: how many bytes, or an answer at once.
pub fn read_begin(count: u64, open: bool) -> (r: Result<u64, i64>)
    ensures
        r == (if count == 0 {
            Err(0i64)
        } else if !open {
            Err(errno::EBADF)
        } else {
            Ok::<u64, i64>(at_most(count, READ_BUF_MAX))
        }),
{
    if count == 0 {
        return Err(0);
    }
    if !open {
        return Err(errno::EBADF);
    }
    Ok(cut(count, READ_BUF_MAX))
}

/// `read`, with what was read of the file.
pub fn sys_read(buf: u64, read: Result<Vec<u8>, i64>) -> (r: Reply)
    ensures
        r@ == match read {
            Err(e) => reply::plain(e),
            Ok(b) => if b@.len() == 0 {
                reply::plain(0)
            } else {
                reply::with_bytes(b@.len() as i64, buf, b@)
            },
        },
{
    match read {
        Err(e) => Reply::plain(e),
        Ok(b) => {
            if b.len() == 0 {
                return Reply::plain(0);
            }
            let n: i64 = b.len() as i64;
            Reply::with_bytes(n, buf, b)
        },
    }
}

pub open spec fn whence_of(whence: u64) -> Option<Whence> {
    if whence == 0 {
        Some(Whence::Start)
    } else if whence == 1 {
        Some(Whence::Cur)
    } else if whence == 2 {
        Some(Whence::End)
    } else {
        None
    }
}

/// Reads on in an open file: `outcome` is what reading at its offset came to. The offset moves on
/// by what was read, even where that cannot be handed over.
pub fn read_file(file: &mut OpenFile, buf: u64, outcome: Result<Vec<u8>, i64>) -> (r: Reply)
    ensures
        ({
            let readable = (OpenFlags { bits: old(file).flags_bits }).readable();
            &&& r@ == (if !readable {
                reply::plain(errno::EACCES)
            } else {
                match outcome {
                    Err(e) => reply::plain(e),
                    Ok(b) => if b@.len() == 0 {
                        reply::plain(0)
                    } else {
                        reply::with_bytes(b@.len() as i64, buf, b@)
                    },
                }
            })
            &&& final(file).offset == (if readable && outcome is Ok {
                vfs::saturating_sum(old(file).offset, outcome->Ok_0@.len() as int)
            } else {
                old(file).offset
            })
            &&& final(file).flags_bits == old(file).flags_bits
            &&& final(file).inode == old(file).inode
            &&& final(file).kind == old(file).kind
            &&& final(file).mount == old(file).mount
            &&& final(file).path == old(file).path
        }),
{
    let n: Result<usize, i64> = match &outcome {
        Ok(b) => Ok(b.len()),
        Err(e) => Err(*e),
    };
    match file.read(n) {
        Err(e) => Reply::plain(e),
        Ok(_) => sys_read(buf, outcome),
    }
}

/// What a write came to: the answer, whether the caller gets `SIGPIPE`, and whether watchers are
/// told.
#[derive(Clone, Copy, PartialEq, Eq, Structural, Debug)]
pub struct Written {
    pub code: i64,
    pub broken_pipe: bool,
    pub noticed: bool,
}

/// Writes on in an open file of a size: `outcome` is what writing came to, at its offset or, where
/// it is opened for that, at its end.
pub fn write_file(file: &mut OpenFile, size: u64, outcome: Result<usize, i64>, watching: bool) -> (r:
    Written)
    ensures
        ({
            let flags = OpenFlags { bits: old(file).flags_bits };
            let at = if flags.has(vfs::O_APPEND) {
                size
            } else {
                old(file).offset
            };
            let done = flags.writable() && outcome is Ok;
            let code = if !flags.writable() {
                errno::EACCES
            } else {
                match outcome {
                    Ok(n) => n as i64,
                    Err(e) => e,
                }
            };
            &&& r == (Written {
                code,
                broken_pipe: !done && code == errno::EPIPE,
                noticed: done && watching && old(file).kind == InodeKind::Regular,
            })
            &&& final(file).offset == (if done {
                vfs::saturating_sum(at, outcome->Ok_0 as int)
            } else {
                old(file).offset
            })
            &&& final(file).flags_bits == old(file).flags_bits
            &&& final(file).inode == old(file).inode
            &&& final(file).kind == old(file).kind
            &&& final(file).mount == old(file).mount
            &&& final(file).path == old(file).path
        }),
{
    let written: Result<u64, i64> = match file.write(size, outcome) {
        Ok(n) => Ok(n as u64),
        Err(e) => Err(e),
    };
    let (code, broken_pipe) = write_reply(written);
    let noticed = write_is_noticed(watching, file.kind, written);
    Written { code, broken_pipe, noticed }
}

/// Where `lseek` counts from.
pub fn lseek_whence(whence: u64, open: bool) -> (r: Result<Whence, i64>)
    ensures
        r == (if !open {
            Err(errno::EBADF)
        } else if whence_of(whence) is None {
            Err(errno::EINVAL)
        } else {
            Ok::<Whence, i64>(whence_of(whence)->0)
        }),
{
    if !open {
        return Err(errno::EBADF);
    }
    match whence {
        0 => Ok(Whence::Start),
        1 => Ok(Whence::Cur),
        2 => Ok(Whence::End),
        _ => Err(errno::EINVAL),
    }
}

/// `lseek` on an open file.
pub fn sys_lseek(file: &mut OpenFile, whence: Whence, offset: u64, size: u64) -> (code: i64)
    requires
        i64::MIN <= old(file).seek_base(whence, size) + (offset as i64) <= i64::MAX,
    ensures
        ({
            let sum = old(file).seek_base(whence, size) + (offset as i64);
            &&& final(file).offset == (if sum < 0 {
                0
            } else {
                sum
            })
            &&& code == final(file).offset as i64
        }),
        final(file).inode == old(file).inode,
        final(file).kind == old(file).kind,
        final(file).mount == old(file).mount,
        final(file).flags_bits == old(file).flags_bits,
        final(file).path == old(file).path,
{
    let at: u64 = file.seek(whence, offset as i64, size);
    at as i64
}

pub open spec fn is_stream(kind: InodeKind) -> bool {
    kind == InodeKind::Pipe || kind == InodeKind::Socket
}

fn check_stream(kind: InodeKind) -> (r: bool)
    ensures
        r == is_stream(kind),
{
    match kind {
        InodeKind::Pipe | InodeKind::Socket => true,
        _ => false,
    }
}

/// `fsync`: whether the whole file is written back. `kind` is what the descriptor is open on.
pub fn sys_fsync(kind: Option<InodeKind>) -> (r: Option<i64>)
    ensures
        r == (if kind is None {
            Some(errno::EBADF)
        } else if is_stream(kind->0) {
            Some(errno::EINVAL)
        } else {
            None
        }),
{
    match kind {
        None => Some(errno::EBADF),
        Some(k) => if check_stream(k) {
            Some(errno::EINVAL)
        } else {
            None
        },
    }
}

/// The answer once a file was written back.
pub fn written_back(ok: bool) -> (code: i64)
    ensures
        code == (if ok {
            0
        } else {
            errno::EIO
        }),
{
    if ok {
        0
    } else {
        errno::EIO
    }
}

/// `sync_file_range`: which part of the file is written back. A length of none is all that
/// follows.
pub fn sys_sync_file_range(kind: Option<InodeKind>, offset: u64, nbytes: u64, flags: u64) -> (r:
    Result<(u64, u64), i64>)
    ensures
        r == (if flags > 7 || (offset as i64) < 0 || (nbytes as i64) < 0 {
            Err(errno::EINVAL)
        } else if kind is None {
            Err(errno::EBADF)
        } else if is_stream(kind->0) {
            Err(errno::ESPIPE)
        } else {
            Ok::<(u64, u64), i64>(
                (
                    offset,
                    if nbytes == 0 || offset + nbytes > u64::MAX {
                        u64::MAX
                    } else {
                        (offset + nbytes) as u64
                    },
                ),
            )
        }),
{
    if flags > 7 {
        return Err(errno::EINVAL);
    }
    if (offset as i64) < 0 || (nbytes as i64) < 0 {
        return Err(errno::EINVAL);
    }
    match kind {
        None => Err(errno::EBADF),
        Some(k) => {
            if check_stream(k) {
                return Err(errno::ESPIPE);
            }
            let end: u64 = if nbytes == 0 {
                u64::MAX
            } else {
                offset.saturating_add(nbytes)
            };
            Ok((offset, end))
        },
    }
}

/// `dup`: another descriptor for the same open file.
pub fn sys_dup(table: &mut FdTable, oldfd: u64) -> (code: i64)
    requires
        old(table).wf(),
    ensures
        final(table).wf(),
        ({
            let file = old(table).file_at((oldfd as i32) as int);
            if file is None {
                code == errno::EBADF && *final(table) == *old(table)
            } else if code == errno::EMFILE {
                *final(table) == *old(table) && (fd::installed(
                    *old(table),
                    *final(table),
                    file->0,
                    0,
                    0,
                    Err::<i32, i32>(errno::EMFILE as i32),
                ) || old(table).cap == 0)
            } else {
                code >= 0 && fd::installed(
                    *old(table),
                    *final(table),
                    file->0,
                    0,
                    0,
                    Ok::<i32, i32>(code as i32),
                )
            }
        }),
{
    match table.get(oldfd as i32) {
        None => errno::EBADF,
        Some(file) => match table.install(file) {
            Ok(n) => n as i64,
            Err(_) => errno::EMFILE,
        },
    }
}

/// What making one descriptor refer to what another one does comes to, and what it referred
/// to before.
pub open spec fn dup_result(
    before: FdTable,
    after: FdTable,
    src: i32,
    dst: i32,
    fd_flags: u8,
    code: i64,
    displaced: Option<u64>,
) -> bool {
    let source = before.file_at(src as int);
    let in_cap = 0 <= src < before.cap && 0 <= dst < before.cap;
    if !in_cap || source is None {
        code == errno::EBADF && displaced is None && after == before
    } else if src == dst {
        code == dst && displaced is None && after == before
    } else {
        code == dst && displaced == before.file_at(dst as int) && after@ == before@.insert(
            dst as int,
            fd::OpenFd { file: source->0, fd_flags },
        ) && after.cap == before.cap && after.reach() == fd::reach_with(before.reach(), dst as int)
    }
}

/// `dup2`: the answer, and the open file that the descriptor let go of.
pub fn sys_dup2(table: &mut FdTable, oldfd: u64, newfd: u64) -> (r: (i64, Option<u64>))
    requires
        old(table).wf(),
    ensures
        final(table).wf(),
        dup_result(*old(table), *final(table), oldfd as i32, newfd as i32, 0, r.0, r.1),
{
    match table.dup_to(oldfd as i32, newfd as i32, 0) {
        Ok((n, displaced)) => (n as i64, displaced),
        Err(e) => (e as i64, None),
    }
}

/// `dup3`: not onto itself.
pub fn sys_dup3(table: &mut FdTable, oldfd: u64, newfd: u64, flags: u64) -> (r: (i64, Option<u64>))
    requires
        old(table).wf(),
    ensures
        final(table).wf(),
        if oldfd == newfd {
            r == (errno::EINVAL, None::<u64>) && *final(table) == *old(table)
        } else {
            dup_result(
                *old(table),
                *final(table),
                oldfd as i32,
                newfd as i32,
                event::cloexec_flag(flags),
                r.0,
                r.1,
            )
        },
{
    if oldfd == newfd {
        return (errno::EINVAL, None);
    }
    let fd_flags: u8 = if (flags & event::CLOEXEC) != 0 {
        fd::FD_CLOEXEC
    } else {
        0
    };
    match table.dup_to(oldfd as i32, newfd as i32, fd_flags) {
        Ok((n, displaced)) => (n as i64, displaced),
        Err(e) => (e as i64, None),
    }
}

/// What `pread64` goes on with: how many bytes, or an answer at once. `flags` are those of
/// the open file.
pub fn sys_pread64(count: u64, flags: Option<OpenFlags>) -> (r: Result<u64, i64>)
    ensures
        r == (if count == 0 {
            Err(0i64)
        } else if flags is None || !flags->0.readable() {
            Err(errno::EBADF)
        } else {
            Ok::<u64, i64>(at_most(count, READ_BUF_MAX))
        }),
{
    if count == 0 {
        return Err(0);
    }
    match flags {
        None => Err(errno::EBADF),
        Some(f) => {
            if !f.is_readable() {
                return Err(errno::EBADF);
            }
            Ok(cut(count, READ_BUF_MAX))
        },
    }
}

/// What `pwrite64` goes on with: how many bytes are read of the caller's memory and written,
/// or an answer at once.
pub fn sys_pwrite64(count: u64, flags: Option<OpenFlags>) -> (r: Result<u64, i64>)
    ensures
        r == (if count == 0 {
            Err(0i64)
        } else if flags is None || !flags->0.writable() {
            Err(errno::EBADF)
        } else {
            Ok::<u64, i64>(at_most(count, WRITE_BUF_MAX))
        }),
{
    if count == 0 {
        return Err(0);
    }
    match flags {
        None => Err(errno::EBADF),
        Some(f) => {
            if !f.is_writable() {
                return Err(errno::EBADF);
            }
            Ok(cut(count, WRITE_BUF_MAX))
        },
    }
}

/// The offset of `preadv` and `pwritev`, which comes in two halves.
pub fn joined_offset(lo: u64, hi: u64) -> (r: u64)
    ensures
        r == lo | (hi << 32),
{
    lo | (hi << 32)
}

/// Where `preadv` and `pwritev` go on after a part.
pub fn advanced(cursor: u64, moved: u64) -> (r: u64)
    ensures
        r == vfs::saturating_sum(cursor, moved as int),
{
    cursor.saturating_add(moved)
}

/// What is known of a file that is cut or filled up.
#[derive(Clone, Copy, PartialEq, Eq, Structural, Debug)]
pub struct TruncateFacts {
    pub kind: InodeKind,
    /// Whether the caller may write it.
    pub may_write: bool,
}

/// `truncate`: whether the file is cut.
pub fn sys_truncate(found: Result<TruncateFacts, i64>) -> (r: Option<i64>)
    ensures
        r == match found {
            Err(e) => Some(e),
            Ok(f) => if f.kind == InodeKind::Directory {
                Some(errno::EISDIR)
            } else if !f.may_write {
                Some(errno::EACCES)
            } else {
                None
            },
        },
{
    match found {
        Err(e) => Some(e),
        Ok(f) => match f.kind {
            InodeKind::Directory => Some(errno::EISDIR),
            _ => if f.may_write {
                None
            } else {
                Some(errno::EACCES)
            },
        },
    }
}

/// `ftruncate`: whether the file is cut.
pub fn sys_ftruncate(flags: Option<OpenFlags>) -> (r: Option<i64>)
    ensures
        r == (if flags is None {
            Some(errno::EBADF)
        } else if !flags->0.writable() {
            Some(errno::EINVAL)
        } else {
            None
        }),
{
    match flags {
        None => Some(errno::EBADF),
        Some(f) => if f.is_writable() {
            None
        } else {
            Some(errno::EINVAL)
        },
    }
}

pub const FALLOC_FL_KEEP_SIZE: u64 = 0x01;

pub const FALLOC_FL_PUNCH_HOLE: u64 = 0x02;

pub const FALLOC_FL_ZERO_RANGE: u64 = 0x10;

/// What `fallocate` does: the file gets a size, then a part of it is zeroed.
#[derive(Clone, Copy, PartialEq, Eq, Structural, Debug)]
pub struct Allocate {
    pub resize: Option<u64>,
    pub zero_from: u64,
    pub zero_to: u64,
}

pub open spec fn sum(a: u64, b: u64) -> u64 {
    vfs::saturating_sum(a, b as int)
}

/// What `fallocate` does. A hole is zeroed within the file, and only where the size is kept;
/// a range is zeroed wherever it is.
pub open spec fn allocate_request(size: u64, mode: u64, offset: u64, len: u64) -> Result<
    Allocate,
    i64,
> {
    let keep = mode & FALLOC_FL_KEEP_SIZE != 0;
    let target = sum(offset, len);
    let resize = if target > size && !keep {
        Some(target)
    } else {
        None
    };
    if mode & FALLOC_FL_PUNCH_HOLE != 0 {
        if !keep {
            Err(errno::EINVAL)
        } else {
            Ok(
                Allocate {
                    resize: None,
                    zero_from: offset,
                    zero_to: if target < size {
                        target
                    } else {
                        size
                    },
                },
            )
        }
    } else if mode & FALLOC_FL_ZERO_RANGE != 0 {
        Ok(Allocate { resize, zero_from: offset, zero_to: target })
    } else {
        Ok(Allocate { resize, zero_from: offset, zero_to: offset })
    }
}

/// `fallocate`: `size` is that of the open file, `rdonly` whether its mount is read-only.
pub fn sys_fallocate(size: Option<u64>, rdonly: bool, mode: u64, offset: u64, len: u64) -> (r:
    Result<Allocate, i64>)
    ensures
        r == (if size is None {
            Err(errno::EBADF)
        } else if rdonly {
            Err(errno::EROFS)
        } else {
            allocate_request(size->0, mode, offset, len)
        }),
{
    let size: u64 = match size {
        Some(s) => s,
        None => {
            return Err(errno::EBADF);
        },
    };
    if rdonly {
        return Err(errno::EROFS);
    }
    let keep = mode & FALLOC_FL_KEEP_SIZE != 0;
    let target: u64 = offset.saturating_add(len);
    if mode & FALLOC_FL_PUNCH_HOLE != 0 {
        if !keep {
            return Err(errno::EINVAL);
        }
        let end: u64 = if target < size {
            target
        } else {
            size
        };
        return Ok(Allocate { resize: None, zero_from: offset, zero_to: end });
    }
    let resize = if target > size && !keep {
        Some(target)
    } else {
        None
    };
    if mode & FALLOC_FL_ZERO_RANGE != 0 {
        return Ok(Allocate { resize, zero_from: offset, zero_to: target });
    }
    Ok(Allocate { resize, zero_from: offset, zero_to: offset })
}

/// How many bytes are zeroed at once, from a place on.
pub fn zero_chunk(pos: u64, end: u64) -> (n: u64)
    ensures
        n == (if pos >= end {
            0
        } else if end - pos > CHUNK {
            CHUNK
        } else {
            (end - pos) as u64
        }),
{
    if pos >= end {
        0
    } else if end - pos > CHUNK {
        CHUNK
    } else {
        end - pos
    }
}

/// `fadvise64`: advice is taken and not followed.
pub fn sys_fadvise64(open: bool) -> (code: i64)
    ensures
        code == (if open {
            0
        } else {
            errno::EBADF
        }),
{
    if open {
        0
    } else {
        errno::EBADF
    }
}

/// Where a copy from one file to another stands. Where there is an offset, the copy goes by
/// it, and else by that of the open file.
#[derive(Clone, Copy, PartialEq, Eq, Structural, Debug)]
pub struct Transfer {
    pub count: u64,
    pub done: u64,
    pub from: Option<u64>,
    pub to: Option<u64>,
}

pub open spec fn moved_by(at: Option<u64>, n: u64) -> Option<u64> {
    match at {
        Some(x) => Some(sum(x, n)),
        None => None,
    }
}

fn move_by(at: Option<u64>, n: u64) -> (r: Option<u64>)
    ensures
        r == moved_by(at, n),
{
    match at {
        Some(x) => Some(x.saturating_add(n)),
        None => None,
    }
}

impl Transfer {
    pub open spec fn wf(self) -> bool {
        self.done <= self.count
    }

    /// How many bytes are read next; none where the copy is complete.
    pub fn want(&self) -> (n: u64)
        requires
            self.wf(),
        ensures
            n == (if self.count - self.done > CHUNK {
                CHUNK as int
            } else {
                self.count - self.done
            }),
    {
        cut(self.count - self.done, CHUNK)
    }

    /// Takes in that `read` bytes were read and `written` of them written, and says whether
    /// the copy goes on: not after less was written than read.
    pub fn wrote(&mut self, read: u64, written: u64) -> (more: bool)
        requires
            old(self).wf(),
            written <= read,
            read <= old(self).count - old(self).done,
        ensures
            final(self).wf(),
            final(self).count == old(self).count,
            final(self).done == old(self).done + written,
            final(self).from == moved_by(old(self).from, written),
            final(self).to == moved_by(old(self).to, written),
            more == (written == read && final(self).done < final(self).count),
    {
        self.done += written;
        self.from = move_by(self.from, written);
        self.to = move_by(self.to, written);
        written == read && self.done < self.count
    }
}

/// `sendfile`: the copy, or what is wrong. `offset` is what was read at the place of the
/// offset.
pub fn sys_sendfile(in_open: bool, out_open: bool, offset_ptr: u64, offset: Option<u64>, count: u64) -> (r:
    Result<Transfer, i64>)
    ensures
        r == (if !in_open || !out_open {
            Err(errno::EBADF)
        } else if offset_ptr != 0 && offset is None {
            Err(errno::EFAULT)
        } else {
            Ok::<Transfer, i64>(
                Transfer {
                    count,
                    done: 0,
                    from: if offset_ptr != 0 {
                        offset
                    } else {
                        None
                    },
                    to: None,
                },
            )
        }),
        r is Ok ==> r->Ok_0.wf(),
{
    if !in_open || !out_open {
        return Err(errno::EBADF);
    }
    if offset_ptr != 0 {
        if offset.is_none() {
            return Err(errno::EFAULT);
        }
        return Ok(Transfer { count, done: 0, from: offset, to: None });
    }
    Ok(Transfer { count, done: 0, from: None, to: None })
}

/// An offset that is given, or none; one that cannot be read is the start.
pub open spec fn given_offset(ptr: u64, read: Option<u64>) -> Option<u64> {
    if ptr == 0 {
        None
    } else {
        Some(
            if read is Some {
                read->0
            } else {
                0
            },
        )
    }
}

fn read_optional_off(ptr: u64, read: Option<u64>) -> (r: Option<u64>)
    ensures
        r == given_offset(ptr, read),
{
    if ptr == 0 {
        return None;
    }
    match read {
        Some(x) => Some(x),
        None => Some(0),
    }
}

/// `copy_file_range` and `splice`: the copy, or what is wrong.
pub fn sys_copy_file_range(
    in_open: bool,
    out_flags: Option<OpenFlags>,
    out_rdonly: bool,
    off_in_ptr: u64,
    off_in: Option<u64>,
    off_out_ptr: u64,
    off_out: Option<u64>,
    len: u64,
) -> (r: Result<Transfer, i64>)
    ensures
        r == (if !in_open || out_flags is None || !out_flags->0.writable() {
            Err(errno::EBADF)
        } else if out_rdonly {
            Err(errno::EROFS)
        } else {
            Ok::<Transfer, i64>(
                Transfer {
                    count: len,
                    done: 0,
                    from: given_offset(off_in_ptr, off_in),
                    to: given_offset(off_out_ptr, off_out),
                },
            )
        }),
        r is Ok ==> r->Ok_0.wf(),
{
    if !in_open {
        return Err(errno::EBADF);
    }
    match out_flags {
        None => {
            return Err(errno::EBADF);
        },
        Some(f) => {
            if !f.is_writable() {
                return Err(errno::EBADF);
            }
        },
    }
    if out_rdonly {
        return Err(errno::EROFS);
    }
    Ok(
        Transfer {
            count: len,
            done: 0,
            from: read_optional_off(off_in_ptr, off_in),
            to: read_optional_off(off_out_ptr, off_out),
        },
    )
}

/// What `tee` goes on with: how many bytes, or an answer at once.
pub fn tee_begin(in_open: bool, out_open: bool, len: u64) -> (r: Result<u64, i64>)
    ensures
        r == (if !in_open || !out_open {
            Err(errno::EBADF)
        } else if len == 0 {
            Err(0i64)
        } else {
            Ok::<u64, i64>(at_most(len, CHUNK))
        }),
{
    if !in_open || !out_open {
        return Err(errno::EBADF);
    }
    if len == 0 {
        return Err(0);
    }
    Ok(cut(len, CHUNK))
}

/// `tee`, with how many bytes could be looked at: a file that cannot be looked at without
/// reading it is not right for the call.
pub fn sys_tee(peeked: Result<u64, i64>) -> (r: Result<u64, i64>)
    ensures
        r == match peeked {
            Err(e) => Err(
                if e == errno::ENOSYS {
                    errno::EINVAL
                } else {
                    e
                },
            ),
            Ok(n) => if n == 0 {
                Err(0i64)
            } else {
                Ok(n)
            },
        },
{
    match peeked {
        Err(e) => if e == errno::ENOSYS {
            Err(errno::EINVAL)
        } else {
            Err(e)
        },
        Ok(n) => if n == 0 {
            Err(0)
        } else {
            Ok(n)
        },
    }
}

/// `vmsplice`: whether the caller's memory is written to the file, or else read from it.
pub fn sys_vmsplice(flags: Option<OpenFlags>) -> (r: Result<bool, i64>)
    ensures
        r == (if flags is None {
            Err(errno::EBADF)
        } else {
            Ok::<bool, i64>(flags->0.writable())
        }),
{
    match flags {
        None => Err(errno::EBADF),
        Some(f) => Ok(f.is_writable()),
    }
}

/// `readahead`: there is nothing to do ahead.
pub fn sys_readahead(kind: Option<InodeKind>) -> (code: i64)
    ensures
        code == (if kind is None {
            errno::EBADF
        } else if kind->0 != InodeKind::Regular {
            errno::EINVAL
        } else {
            0
        }),
{
    match kind {
        None => errno::EBADF,
        Some(InodeKind::Regular) => 0,
        Some(_) => errno::EINVAL,
    }
}

} // verus!
