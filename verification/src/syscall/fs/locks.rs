//! Locks on files, and what else `fcntl` does.
use vstd::prelude::*;

use crate::bytes;
use crate::errno;
use crate::process_model::Pid;
use crate::syscall::reply;
use crate::syscall::reply::Reply;
use crate::syscall::util;
use crate::vfs;
use crate::vfs::blocking::IoAttempt;
use crate::vfs::fd;
use crate::vfs::fd::FdTable;
use crate::vfs::locks::bsd;
use crate::vfs::locks::bsd::FlockOutcome;
use crate::vfs::locks::bsd::FlockTable;
use crate::vfs::locks::posix;
use crate::vfs::locks::posix::FileLock;
use crate::vfs::locks::posix::LockTable;
use crate::vfs::OpenFlags;

verus! {

pub const F_DUPFD: u64 = 0;
pub const F_GETFD: u64 = 1;
pub const F_SETFD: u64 = 2;
pub const F_GETFL: u64 = 3;
pub const F_SETFL: u64 = 4;
pub const F_GETLK: u64 = 5;
pub const F_SETLK: u64 = 6;
pub const F_SETLKW: u64 = 7;
pub const F_OFD_GETLK: u64 = 36;
pub const F_OFD_SETLK: u64 = 37;
pub const F_OFD_SETLKW: u64 = 38;
pub const F_DUPFD_CLOEXEC: u64 = 1030;
pub const F_SETPIPE_SZ: u64 = 1031;
pub const F_GETPIPE_SZ: u64 = 1032;
pub const F_ADD_SEALS: u64 = 1033;
pub const F_GET_SEALS: u64 = 1034;

/// What `fcntl` asks of an open file.
#[derive(Clone, Copy)]
pub struct FcntlFile {
    pub flags: OpenFlags,
    pub inode: u64,
    pub offset: u64,
    pub size: u64,
    /// How much fits into the pipe that the file is, if it is one.
    pub pipe: Option<usize>,
    /// The seals of the file, if it can have any.
    pub seals: Option<u32>,
}

/// What is to be done for `fcntl`.
#[derive(Clone, Copy)]
pub enum FcntlStep {
    Done(i64),
    /// The open file gets those of these flags that can change.
    SetFlags(u32),
    /// The pipe is to hold this much.
    ResizePipe(u64),
    /// The seals are to be added. Whether the file can be written through a mapping counts
    /// where `check_mappings` says so.
    AddSeals { seals: u32, check_mappings: bool },
    Lock { how: LockHow, inode: u64, offset: u64, size: u64 },
}

/// What is wanted of the locks on a file.
#[derive(Clone, Copy, Debug, PartialEq, Eq, Structural)]
pub enum LockHow {
    /// To know what is in the way.
    Ask,
    /// To lock or unlock now.
    Try,
    /// To lock or unlock, and to wait for that.
    Wait,
}

/// The descriptors before and after, and the answer, where one is duplicated. Whatever stands
/// in the way, the answer is `EMFILE`.
pub open spec fn duplicated(before: FdTable, after: FdTable, file: u64, min: i32, fd_flags: u8, code: i64)
    -> bool {
    exists|result: Result<i32, i32>|
        {
            &&& #[trigger] fd::installed(before, after, file, min, fd_flags, result)
            &&& code == (match result {
                Ok(n) => n as i64,
                Err(_) => errno::EMFILE,
            })
        }
}

/// What is to be done for `fcntl` with the commands that change no descriptor.
pub open spec fn fcntl_on(file: FcntlFile, cmd: u64, arg: u64) -> FcntlStep {
    if cmd == F_GETFL {
        FcntlStep::Done(file.flags.bits as i64)
    } else if cmd == F_SETFL {
        FcntlStep::SetFlags(arg as u32)
    } else if cmd == F_GETPIPE_SZ {
        FcntlStep::Done(
            match file.pipe {
                Some(capacity) => capacity as i64,
                None => errno::EINVAL,
            },
        )
    } else if cmd == F_SETPIPE_SZ {
        match file.pipe {
            Some(_) => FcntlStep::ResizePipe(arg),
            None => FcntlStep::Done(errno::EINVAL),
        }
    } else if cmd == F_GET_SEALS {
        FcntlStep::Done(
            match file.seals {
                Some(seals) => seals as i64,
                None => errno::EINVAL,
            },
        )
    } else if cmd == F_ADD_SEALS {
        FcntlStep::AddSeals {
            seals: arg as u32,
            check_mappings: (arg as u32) & vfs::F_SEAL_WRITE != 0,
        }
    } else {
        match lock_command(cmd) {
            Some(how) => FcntlStep::Lock {
                how,
                inode: file.inode,
                offset: file.offset,
                size: file.size,
            },
            None => FcntlStep::Done(errno::EINVAL),
        }
    }
}

/// What a command wants of the locks. Locks of an open file count as those of its process.
pub open spec fn lock_command(cmd: u64) -> Option<LockHow> {
    if cmd == F_GETLK || cmd == F_OFD_GETLK {
        Some(LockHow::Ask)
    } else if cmd == F_SETLK || cmd == F_OFD_SETLK {
        Some(LockHow::Try)
    } else if cmd == F_SETLKW || cmd == F_OFD_SETLKW {
        Some(LockHow::Wait)
    } else {
        None
    }
}

/// The commands there are.
pub open spec fn is_command(cmd: u64) -> bool {
    cmd <= F_SETLKW || (F_OFD_GETLK <= cmd && cmd <= F_OFD_SETLKW) || (F_DUPFD_CLOEXEC <= cmd && cmd
        <= F_GET_SEALS)
}

/// Does what `fcntl` does with descriptors, and says what else is to be done. `file` is what the
/// descriptor is open on.
pub fn sys_fcntl(table: &mut FdTable, fd: u64, cmd: u64, arg: u64, file: Option<FcntlFile>) -> (step:
    FcntlStep)
    requires
        old(table).wf(),
        file is Some == old(table).file_at(fd as i32 as int) is Some,
    ensures
        final(table).wf(),
        ({
            let n = fd as i32;
            let before = *old(table);
            if !is_command(cmd) {
                step == FcntlStep::Done(errno::EINVAL) && *final(table) == before
            } else if file is None {
                step == FcntlStep::Done(errno::EBADF) && *final(table) == before
            } else if cmd == F_DUPFD || cmd == F_DUPFD_CLOEXEC {
                step is Done && duplicated(
                    before,
                    *final(table),
                    before.file_at(n as int)->0,
                    arg as i32,
                    if cmd == F_DUPFD {
                        0
                    } else {
                        fd::FD_CLOEXEC
                    },
                    step->Done_0,
                )
            } else if cmd == F_GETFD {
                step == FcntlStep::Done(before@[n as int].fd_flags as i64) && *final(table)
                    == before
            } else if cmd == F_SETFD {
                step == FcntlStep::Done(0) && final(table)@ == before@.insert(
                    n as int,
                    fd::OpenFd {
                        file: before@[n as int].file,
                        fd_flags: (arg as u8) & fd::FD_CLOEXEC,
                    },
                ) && final(table).cap == before.cap && final(table).reach() == before.reach()
            } else {
                step == fcntl_on(file->0, cmd, arg) && *final(table) == before
            }
        }),
{
    let n: i32 = #[verifier::truncate] (fd as i32);
    let known = cmd <= F_SETLKW || (F_OFD_GETLK <= cmd && cmd <= F_OFD_SETLKW) || (F_DUPFD_CLOEXEC
        <= cmd && cmd <= F_GET_SEALS);
    if !known {
        return FcntlStep::Done(errno::EINVAL);
    }
    let f = match file {
        None => {
            return FcntlStep::Done(errno::EBADF);
        },
        Some(f) => f,
    };
    if cmd == F_DUPFD || cmd == F_DUPFD_CLOEXEC {
        let id: u64 = match table.get(n) {
            None => {
                return FcntlStep::Done(errno::EBADF);
            },
            Some(id) => id,
        };
        let fd_flags: u8 = if cmd == F_DUPFD {
            0
        } else {
            fd::FD_CLOEXEC
        };
        let min: i32 = #[verifier::truncate] (arg as i32);
        let result = table.install_from(id, min, fd_flags);
        assert(fd::installed(*old(table), *table, id, min, fd_flags, result));
        return match result {
            Ok(new) => FcntlStep::Done(new as i64),
            Err(_) => FcntlStep::Done(errno::EMFILE),
        };
    }
    if cmd == F_GETFD {
        return match table.fd_flags(n) {
            Some(flags) => FcntlStep::Done(flags as i64),
            None => FcntlStep::Done(errno::EBADF),
        };
    }
    if cmd == F_SETFD {
        let flags: u8 = #[verifier::truncate] (arg as u8);
        return match table.set_fd_flags(n, flags & fd::FD_CLOEXEC) {
            Ok(_) => FcntlStep::Done(0),
            Err(e) => FcntlStep::Done(e as i64),
        };
    }
    fcntl_step(&f, cmd, arg)
}

fn fcntl_step(file: &FcntlFile, cmd: u64, arg: u64) -> (step: FcntlStep)
    ensures
        step == fcntl_on(*file, cmd, arg),
{
    if cmd == F_GETFL {
        return FcntlStep::Done(file.flags.bits as i64);
    }
    if cmd == F_SETFL {
        return FcntlStep::SetFlags(#[verifier::truncate] (arg as u32));
    }
    if cmd == F_GETPIPE_SZ {
        return match file.pipe {
            Some(capacity) => FcntlStep::Done(capacity as i64),
            None => FcntlStep::Done(errno::EINVAL),
        };
    }
    if cmd == F_SETPIPE_SZ {
        return match file.pipe {
            Some(_) => FcntlStep::ResizePipe(arg),
            None => FcntlStep::Done(errno::EINVAL),
        };
    }
    if cmd == F_GET_SEALS || cmd == F_ADD_SEALS {
        return fcntl_seals(file, cmd, arg);
    }
    let how = if cmd == F_GETLK || cmd == F_OFD_GETLK {
        LockHow::Ask
    } else if cmd == F_SETLK || cmd == F_OFD_SETLK {
        LockHow::Try
    } else if cmd == F_SETLKW || cmd == F_OFD_SETLKW {
        LockHow::Wait
    } else {
        return FcntlStep::Done(errno::EINVAL);
    };
    FcntlStep::Lock { how, inode: file.inode, offset: file.offset, size: file.size }
}

/// Tells or adds the seals of a file.
pub fn fcntl_seals(file: &FcntlFile, cmd: u64, arg: u64) -> (step: FcntlStep)
    requires
        cmd == F_GET_SEALS || cmd == F_ADD_SEALS,
    ensures
        step == fcntl_on(*file, cmd, arg),
{
    if cmd == F_GET_SEALS {
        match file.seals {
            Some(seals) => FcntlStep::Done(seals as i64),
            None => FcntlStep::Done(errno::EINVAL),
        }
    } else {
        let seals: u32 = #[verifier::truncate] (arg as u32);
        FcntlStep::AddSeals { seals, check_mappings: seals & vfs::F_SEAL_WRITE != 0 }
    }
}

/// The answer once a pipe was given another size: the size that it has, or that it holds too
/// much.
pub fn pipe_resized(capacity: Option<usize>) -> (code: i64)
    ensures
        code == (match capacity {
            Some(n) => n as i64,
            None => errno::EBUSY,
        }),
{
    match capacity {
        Some(n) => n as i64,
        None => errno::EBUSY,
    }
}

/// The lock that the caller's 32 bytes speak of: its kind, and the range from `start` up to
/// `end`. An empty length reaches to the end of every file.
pub open spec fn range_in(b: Seq<u8>, offset: u64, size: u64) -> Result<(u16, u64, u64), i64> {
    let kind = bytes::le16(b, 0);
    let whence = bytes::le16(b, 2);
    let start = bytes::le64(b, 8) as i64;
    let len = bytes::le64(b, 16) as i64;
    let base = if whence == 1 {
        offset as i64
    } else if whence == 2 {
        size as i64
    } else {
        0
    };
    let from = if base + start > i64::MAX {
        i64::MAX as int
    } else {
        base + start
    };
    if whence > 2 || from < 0 || len < 0 {
        Err(errno::EINVAL)
    } else if len == 0 {
        Ok((kind, from as u64, u64::MAX))
    } else {
        Ok((kind, from as u64, (from + len) as u64))
    }
}

/// The lock that the caller's bytes speak of.
pub fn lock_range(b: &Vec<u8>, offset: u64, size: u64) -> (r: Result<(u16, u64, u64), i64>)
    requires
        b@.len() == 32,
    ensures
        r == range_in(b@, offset, size),
        r matches Ok((kind, start, end)) ==> start < end,
{
    let kind: u16 = bytes::u16_at(b, 0);
    let whence: u16 = bytes::u16_at(b, 2);
    let start: i64 = #[verifier::truncate] (bytes::u64_at(b, 8) as i64);
    let len: i64 = #[verifier::truncate] (bytes::u64_at(b, 16) as i64);
    let base: i64 = if whence == 0 {
        0
    } else if whence == 1 {
        #[verifier::truncate]
        (offset as i64)
    } else if whence == 2 {
        #[verifier::truncate]
        (size as i64)
    } else {
        return Err(errno::EINVAL);
    };
    let sum: i128 = base as i128 + start as i128;
    if sum < 0 {
        return Err(errno::EINVAL);
    }
    let from: u64 = if sum > i64::MAX as i128 {
        i64::MAX as u64
    } else {
        sum as u64
    };
    if len < 0 {
        return Err(errno::EINVAL);
    }
    if len == 0 {
        return Ok((kind, from, u64::MAX));
    }
    Ok((kind, from, from + len as u64))
}

/// The caller's bytes, with the lock that is in the way; without one only the kind changes.
pub open spec fn conflict_told(b: Seq<u8>, conflict: Option<FileLock>) -> Seq<u8> {
    match conflict {
        None => bytes::put16(posix::F_UNLCK) + b.skip(2),
        Some(lock) => {
            let len = if lock.end == u64::MAX {
                0
            } else {
                (lock.end - lock.start) as u64
            };
            bytes::put16(lock.kind) + bytes::put16(0) + b.subrange(4, 8) + bytes::put64(lock.start)
                + bytes::put64(len) + bytes::put32(lock.owner.0) + b.skip(28)
        },
    }
}

fn tell_conflict(b: &Vec<u8>, conflict: Option<FileLock>) -> (out: Vec<u8>)
    requires
        b@.len() == 32,
        conflict matches Some(lock) ==> lock.start <= lock.end,
    ensures
        out@ == conflict_told(b@, conflict),
{
    let mut out: Vec<u8> = Vec::new();
    match conflict {
        None => {
            bytes::push_u16(&mut out, posix::F_UNLCK);
            bytes::push_part(&mut out, b, 2, 32);
        },
        Some(lock) => {
            let len: u64 = if lock.end == u64::MAX {
                0
            } else {
                lock.end - lock.start
            };
            bytes::push_u16(&mut out, lock.kind);
            bytes::push_u16(&mut out, 0);
            bytes::push_part(&mut out, b, 4, 8);
            bytes::push_u64(&mut out, lock.start);
            bytes::push_u64(&mut out, len);
            bytes::push_u32(&mut out, lock.owner.0);
            bytes::push_part(&mut out, b, 28, 32);
        },
    }
    assert(out@ =~= conflict_told(b@, conflict));
    out
}

/// Tells what is in the way of a lock.
pub fn get_lock(
    locks: &LockTable,
    inode: u64,
    owner: Pid,
    arg: u64,
    flock: Option<Vec<u8>>,
    offset: u64,
    size: u64,
) -> (r: Reply)
    requires
        locks.wf(),
        flock is Some ==> flock->0@.len() == 32,
    ensures
        r@ == (match util::bytes_view(flock) {
            None => reply::plain(errno::EFAULT),
            Some(b) => match range_in(b, offset, size) {
                Err(e) => reply::plain(e),
                Ok((kind, start, end)) => reply::with_bytes(
                    0,
                    arg,
                    conflict_told(
                        b,
                        posix::first_conflict(
                            locks.locks_of(inode),
                            FileLock { kind, start, end, owner },
                        ),
                    ),
                ),
            },
        }),
{
    let b = match flock {
        None => {
            return Reply::plain(errno::EFAULT);
        },
        Some(b) => b,
    };
    match lock_range(&b, offset, size) {
        Err(e) => Reply::plain(e),
        Ok((kind, start, end)) => {
            let conflict = posix::find_conflict(locks, inode, kind, start, end, owner);
            proof {
                reveal(posix::orderly);
                assert(posix::orderly(locks.locks_of(inode)));
                posix::lemma_first_conflict(
                    locks.locks_of(inode),
                    FileLock { kind, start, end, owner },
                );
            }
            let out = tell_conflict(&b, conflict);
            Reply::with_bytes(0, arg, out)
        },
    }
}

/// What an attempt to lock or unlock a range came to, and whom it woke.
pub enum LockAttempt {
    Fail(i64),
    /// Another lock is in the way.
    InTheWay,
    Locked(Vec<Pid>),
}

/// What an attempt to lock or unlock a range comes to, and the locks on the file afterwards.
pub open spec fn lock_tried(
    before: Seq<FileLock>,
    owner: Pid,
    flock: Option<Seq<u8>>,
    offset: u64,
    size: u64,
) -> Result<Option<Seq<FileLock>>, i64> {
    match flock {
        None => Err(errno::EFAULT),
        Some(b) => match range_in(b, offset, size) {
            Err(e) => Err(e),
            Ok((kind, start, end)) => {
                let lock = FileLock { kind, start, end, owner };
                if kind == posix::F_UNLCK {
                    Ok(Some(posix::released(before, start, end, owner)))
                } else if kind != posix::F_RDLCK && kind != posix::F_WRLCK {
                    Err(errno::EINVAL)
                } else if posix::first_conflict(before, lock) is Some {
                    Ok(None)
                } else {
                    Ok(Some(posix::acquired(before, lock)))
                }
            },
        },
    }
}

/// Tries to lock or unlock a range of a file.
pub fn try_lock(
    locks: &mut LockTable,
    inode: u64,
    owner: Pid,
    flock: &Option<Vec<u8>>,
    offset: u64,
    size: u64,
) -> (r: LockAttempt)
    requires
        old(locks).wf(),
        flock is Some ==> flock->0@.len() == 32,
    ensures
        final(locks).wf(),
        final(locks).same_but(old(locks), inode),
        ({
            let before = old(locks).locks_of(inode);
            match lock_tried(before, owner, util::bytes_view(*flock), offset, size) {
                Err(e) => {
                    &&& r == LockAttempt::Fail(e)
                    &&& final(locks).locks_of(inode) == before
                    &&& final(locks).waiting_for(inode) == old(locks).waiting_for(inode)
                },
                Ok(None) => {
                    &&& r is InTheWay
                    &&& final(locks).locks_of(inode) == before
                    &&& final(locks).waiting_for(inode) == old(locks).waiting_for(inode)
                },
                Ok(Some(after)) => {
                    let unlocks = bytes::le16(flock->0@, 0) == posix::F_UNLCK;
                    &&& r is Locked
                    &&& final(locks).locks_of(inode) == after
                    &&& unlocks ==> r->Locked_0@ == old(locks).waiting_for(inode) && final(
                        locks).waiting_for(inode).len() == 0
                    &&& !unlocks ==> r->Locked_0@.len() == 0 && final(locks).waiting_for(inode)
                        == old(locks).waiting_for(inode)
                },
            }
        }),
{
    let (kind, start, end) = match flock {
        None => {
            return LockAttempt::Fail(errno::EFAULT);
        },
        Some(b) => match lock_range(b, offset, size) {
            Err(e) => {
                return LockAttempt::Fail(e);
            },
            Ok(range) => range,
        },
    };
    if kind != posix::F_RDLCK && kind != posix::F_WRLCK && kind != posix::F_UNLCK {
        return LockAttempt::Fail(errno::EINVAL);
    }
    match posix::try_set_lock(locks, inode, kind, start, end, owner) {
        Ok(woken) => LockAttempt::Locked(woken),
        Err(_) => LockAttempt::InTheWay,
    }
}

/// Locks or unlocks without waiting: the answer, and whom that woke.
pub fn set_lock(
    locks: &mut LockTable,
    inode: u64,
    owner: Pid,
    flock: &Option<Vec<u8>>,
    offset: u64,
    size: u64,
) -> (r: (i64, Vec<Pid>))
    requires
        old(locks).wf(),
        flock is Some ==> flock->0@.len() == 32,
    ensures
        final(locks).wf(),
        final(locks).same_but(old(locks), inode),
        ({
            let before = old(locks).locks_of(inode);
            let after = final(locks).locks_of(inode);
            match lock_tried(before, owner, util::bytes_view(*flock), offset, size) {
                Err(e) => {
                    &&& r.0 == e
                    &&& after == before
                    &&& r.1@.len() == 0
                    &&& final(locks).waiting_for(inode) == old(locks).waiting_for(inode)
                },
                Ok(None) => {
                    &&& r.0 == errno::EAGAIN
                    &&& after == before
                    &&& r.1@.len() == 0
                    &&& final(locks).waiting_for(inode) == old(locks).waiting_for(inode)
                },
                Ok(Some(now)) => {
                    let unlocks = bytes::le16(flock->0@, 0) == posix::F_UNLCK;
                    &&& r.0 == 0
                    &&& after == now
                    &&& unlocks ==> r.1@ == old(locks).waiting_for(inode) && final(
                        locks).waiting_for(inode).len() == 0
                    &&& !unlocks ==> r.1@.len() == 0 && final(locks).waiting_for(inode) == old(
                        locks).waiting_for(inode)
                },
            }
        }),
{
    match try_lock(locks, inode, owner, flock, offset, size) {
        LockAttempt::Fail(e) => (e, Vec::new()),
        LockAttempt::InTheWay => (errno::EAGAIN, Vec::new()),
        LockAttempt::Locked(woken) => (0, woken),
    }
}

/// What a failed or successful attempt means to a caller that waits.
pub fn lock_attempted(attempt: &LockAttempt) -> (r: IoAttempt<()>)
    ensures
        r == (match *attempt {
            LockAttempt::Fail(e) => IoAttempt::Failed(e),
            LockAttempt::InTheWay => IoAttempt::WouldBlock,
            LockAttempt::Locked(_) => IoAttempt::Ready(()),
        }),
{
    match attempt {
        LockAttempt::Fail(e) => IoAttempt::Failed(*e),
        LockAttempt::InTheWay => IoAttempt::WouldBlock,
        LockAttempt::Locked(_) => IoAttempt::Ready(()),
    }
}

/// Whether a call of `flock` asks for something that there is.
pub open spec fn flock_asked(op: u32) -> bool {
    let kind = op & !bsd::LOCK_NB;
    kind == bsd::LOCK_SH || kind == bsd::LOCK_EX || kind == bsd::LOCK_UN
}

/// Tries what `flock` asks for, once: with it comes whether the caller does not wait, and whom
/// the attempt woke. `file` is the inode and the key of the open file.
pub fn sys_flock(table: &mut FlockTable, file: Option<(u64, u64)>, op: u64) -> (r: (
    IoAttempt<()>,
    bool,
    Vec<Pid>,
))
    requires
        old(table).wf(),
    ensures
        final(table).wf(),
        match file {
            None => {
                &&& r.0 == IoAttempt::<()>::Failed(errno::EBADF)
                &&& !r.1
                &&& r.2@.len() == 0
                &&& *final(table) == *old(table)
            },
            Some((inode, key)) => if !flock_asked(op as u32) {
                &&& r.0 == IoAttempt::<()>::Failed(errno::EINVAL)
                &&& !r.1
                &&& r.2@.len() == 0
                &&& *final(table) == *old(table)
            } else {
                let step = bsd::op_step(old(table).holders_of(inode), key, op as u32);
                &&& final(table).same_but(old(table), inode)
                &&& final(table).holders_of(inode) == step.holders
                &&& final(table).owned_by_ofd@ == bsd::recorded(
                    old(table).owned_by_ofd@,
                    step.record,
                    inode,
                    key,
                )
                &&& r.2@ == (if step.wake {
                    old(table).waiting_for(inode)
                } else {
                    Seq::empty()
                })
                &&& final(table).waiting_for(inode) == (if step.wake {
                    Seq::empty()
                } else {
                    old(table).waiting_for(inode)
                })
                &&& r.0 == (match step.outcome {
                    FlockOutcome::Conflict => IoAttempt::<()>::WouldBlock,
                    _ => IoAttempt::<()>::Ready(()),
                })
                &&& r.1 == ((op as u32) & bsd::LOCK_NB != 0)
                &&& old(table).records_agree() && old(table).only_here(inode, key) ==> final(
                    table).records_agree()
            },
        },
{
    let (inode, key) = match file {
        None => {
            return (IoAttempt::Failed(errno::EBADF), false, Vec::new());
        },
        Some(f) => f,
    };
    let op: u32 = #[verifier::truncate] (op as u32);
    let kind: u32 = op & !bsd::LOCK_NB;
    if kind != bsd::LOCK_SH && kind != bsd::LOCK_EX && kind != bsd::LOCK_UN {
        return (IoAttempt::Failed(errno::EINVAL), false, Vec::new());
    }
    let nonblock = op & bsd::LOCK_NB != 0;
    let (outcome, woken) = bsd::try_op(table, inode, key, op);
    let attempt = match outcome {
        FlockOutcome::Conflict => IoAttempt::WouldBlock,
        _ => IoAttempt::Ready(()),
    };
    (attempt, nonblock, woken)
}

/// Asking what is in the way of a lock, and then trying to get it: it is got exactly where
/// nothing was in the way.
pub proof fn law_asked_lock_is_free(
    before: Seq<FileLock>,
    owner: Pid,
    b: Seq<u8>,
    offset: u64,
    size: u64,
)
    requires
        range_in(b, offset, size) is Ok,
        bytes::le16(b, 0) == posix::F_RDLCK || bytes::le16(b, 0) == posix::F_WRLCK,
    ensures
        ({
            let (kind, start, end) = range_in(b, offset, size)->Ok_0;
            let tried = lock_tried(before, owner, Some(b), offset, size);
            &&& tried is Ok
            &&& tried->Ok_0 is Some <==> posix::first_conflict(
                before,
                FileLock { kind, start, end, owner },
            ) is None
        }),
{
}

} // verus!
