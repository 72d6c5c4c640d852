//! Opening and closing files.
use vstd::prelude::*;
use vstd::string::*;

use crate::bytes;
use crate::errno;
use crate::numeral;
use crate::process_model::Pid;
use crate::syscall::event;
use crate::syscall::fs::paths;
use crate::syscall::fs::paths::At;
use crate::syscall::fs::paths::PathRead;
use crate::syscall::util;
use crate::text;
use crate::vfs;
use crate::vfs::fd;
use crate::vfs::fd::FdTable;
use crate::vfs::locks::posix;
use crate::vfs::locks::posix::LockTable;
use crate::vfs::mount;
use crate::vfs::mount_table::MountTable;
use crate::vfs::path;
use crate::vfs::resolve;
use crate::vfs::resolve::Inode;
use crate::vfs::InodeKind;
use crate::vfs::OpenFlags;

verus! {

/// The flags and the inode of an open file.
#[derive(Clone, Copy)]
pub struct Opened {
    pub flags: OpenFlags,
    pub inode: u64,
}

/// Closes a descriptor. The caller's locks on the file go with it, unless the descriptor only
/// stood for a path. `file` is what the descriptor is open on. Those come back who waited for
/// the locks.
pub fn sys_close(table: &mut FdTable, locks: &mut LockTable, pid: Pid, fd: u64, file: Option<Opened>) -> (r:
    (i64, Vec<Pid>))
    requires
        old(table).wf(),
        old(locks).wf(),
        file is Some == old(table).file_at(fd as i32 as int) is Some,
    ensures
        final(table).wf(),
        final(locks).wf(),
        final(table).cap == old(table).cap,
        final(table).reach() == old(table).reach(),
        final(table)@ == old(table)@.remove(fd as i32 as int),
        match file {
            None => {
                &&& r.0 == errno::EBADF
                &&& r.1@.len() == 0
                &&& *final(locks) == *old(locks)
            },
            Some(f) => {
                &&& r.0 == 0
                &&& f.flags.has(vfs::O_PATH) ==> r.1@.len() == 0 && *final(locks) == *old(locks)
                &&& !f.flags.has(vfs::O_PATH) ==> {
                    let before = old(locks).locks_of(f.inode);
                    let freed = posix::owns_one(before, pid);
                    &&& final(locks).same_but(old(locks), f.inode)
                    &&& final(locks).locks_of(f.inode) == before.filter(posix::not_owned_by(pid))
                    &&& freed ==> r.1@ == old(locks).waiting_for(f.inode) && final(locks).waiting_for(f.inode).len() == 0
                    &&& !freed ==> r.1@.len() == 0 && final(locks).waiting_for(f.inode) == old(locks).waiting_for(f.inode)
                }
            },
        },
{
    let _closed = table.remove(#[verifier::truncate] (fd as i32));
    match file {
        None => (errno::EBADF, Vec::new()),
        Some(f) => {
            if f.flags.contains(vfs::O_PATH) {
                (0, Vec::new())
            } else {
                let woken = posix::drop_owner_inode(locks, pid, f.inode);
                (0, woken)
            }
        },
    }
}

/// The descriptors of a range are closed, and no others.
pub open spec fn closed_between(open: Map<int, fd::OpenFd>, first: int, last: int) -> Map<
    int,
    fd::OpenFd,
> {
    open.remove_keys(Set::new(|n: int| first <= n <= last))
}

/// Closes the descriptors from `first` to `last`, as far as they are open.
pub fn sys_close_range(table: &mut FdTable, first: u64, last: u64) -> (code: i64)
    requires
        old(table).wf(),
    ensures
        final(table).wf(),
        final(table).cap == old(table).cap,
        final(table).reach() == old(table).reach(),
        first > last ==> code == errno::EINVAL && *final(table) == *old(table),
        first <= last ==> code == 0 && final(table)@ == closed_between(
            old(table)@,
            first as i32 as int,
            last as i32 as int,
        ),
{
    if first > last {
        return errno::EINVAL;
    }
    let low: i32 = #[verifier::truncate] (first as i32);
    let high: i32 = #[verifier::truncate] (last as i32);
    let mut n: usize = if low < 0 {
        0
    } else {
        low as usize
    };
    let ghost from = n as int;
    let reach: usize = table.slots.len();
    let ghost open = table@;
    assert(table@ =~= closed_between(open, from, n - 1));
    assert forall|k: int| open.contains_key(k) implies 0 <= k < reach by {}
    while n < reach && high >= 0 && n <= high as usize
        invariant
            table.wf(),
            table.cap == old(table).cap,
            table.reach() == reach,
            reach <= fd::HARD_MAX_FDS,
            from <= n,
            forall|k: int| open.contains_key(k) ==> 0 <= k < reach,
            from == (if low < 0 { 0 } else { low as int }),
            n <= high + 1 || n == from,
            table@ == closed_between(open, from, n - 1),
        decreases reach - n,
    {
        let _closed = table.remove(n as i32);
        assert(table@ =~= closed_between(open, from, n as int));
        n += 1;
    }
    proof {
        let done = closed_between(open, low as int, high as int);
        assert forall|k: int| table@.contains_key(k) == done.contains_key(k) by {
            if open.contains_key(k) {
                assert(0 <= k < reach);
            }
        }
        assert(table@ =~= done);
    }
    0
}

/// A file in memory with a name that only describes it: `file` is the new file. With it goes
/// whether seals can be set.
pub fn sys_memfd_create(
    table: &mut FdTable,
    file: u64,
    name_ptr: u64,
    name: Option<Vec<u8>>,
    flags: u64,
) -> (r: (i64, bool))
    requires
        old(table).wf(),
    ensures
        final(table).wf(),
        ({
            let bad_flags = flags & !0x1f != 0 || flags & 0x4 != 0;
            let named = util::string_in(name_ptr, util::bytes_view(name));
            if bad_flags {
                r == (errno::EINVAL, false) && *final(table) == *old(table)
            } else if named is Err {
                r == (named->Err_0, false) && *final(table) == *old(table)
            } else {
                &&& r.1 == (flags & 0x2 != 0)
                &&& event::new_fd(
                    *old(table),
                    *final(table),
                    file,
                    if flags & 0x1 != 0 {
                        fd::FD_CLOEXEC
                    } else {
                        0
                    },
                    r.0,
                )
            }
        }),
{
    if flags & !0x1f != 0 {
        return (errno::EINVAL, false);
    }
    if flags & 0x4 != 0 {
        return (errno::EINVAL, false);
    }
    match util::read_user_cstr(name_ptr, name) {
        Err(e) => {
            return (e, false);
        },
        Ok(_) => {},
    }
    let code: i64 = event::install_lowest(table, file, flags & 0x1 != 0);
    (code, flags & 0x2 != 0)
}

/// What opening asks of a file's permissions: 4 for reading, 2 for writing.
pub open spec fn access_wanted(flags: OpenFlags) -> u8 {
    match (flags.readable(), flags.writable()) {
        (true, true) => 6,
        (true, false) => 4,
        (false, true) => 2,
        (false, false) => 0,
    }
}

/// What opening asks of a file's permissions.
pub fn access_needed(flags: OpenFlags) -> (mode: u8)
    ensures
        mode == access_wanted(flags),
{
    let mut mode: u8 = 0;
    if flags.is_readable() {
        mode = mode + 4;
    }
    if flags.is_writable() {
        mode = mode + 2;
    }
    mode
}

/// Whether a file may be opened. `allowed` says whether its permissions give the caller what
/// `access_needed` asks.
pub fn check_open_access(flags: OpenFlags, allowed: bool) -> (r: Result<(), i64>)
    ensures
        r == (if access_wanted(flags) != 0 && !allowed {
            Err::<(), i64>(errno::EACCES)
        } else {
            Ok::<(), i64>(())
        }),
{
    if access_needed(flags) != 0 && !allowed {
        return Err(errno::EACCES);
    }
    Ok(())
}

/// Whether a file of a kind, on a mount with flags, can be opened; if so, whether it is emptied
/// first.
pub open spec fn open_allowed(kind: InodeKind, flags: OpenFlags, mount_flags: u64) -> Result<
    bool,
    i64,
> {
    let empties = flags.has(vfs::O_TRUNC);
    if flags.has(vfs::O_DIRECTORY) && kind != InodeKind::Directory {
        Err(errno::ENOTDIR)
    } else if kind == InodeKind::Directory && (flags.writable() || empties) {
        Err(errno::EISDIR)
    } else if mount_flags & mount::MS_RDONLY != 0 && (flags.writable() || empties || flags.has(
        vfs::O_CREAT,
    )) {
        Err(errno::EROFS)
    } else if mount_flags & mount::MS_NODEV != 0 && kind == InodeKind::CharDevice {
        Err(errno::EACCES)
    } else {
        Ok(empties && flags.writable() && kind == InodeKind::Regular)
    }
}

/// Whether a file can be opened; if so, whether it is emptied first.
pub fn check_open(kind: InodeKind, flags: OpenFlags, mount_flags: u64) -> (r: Result<bool, i64>)
    ensures
        r == open_allowed(kind, flags, mount_flags),
{
    let empties = flags.contains(vfs::O_TRUNC);
    if flags.contains(vfs::O_DIRECTORY) && kind != InodeKind::Directory {
        return Err(errno::ENOTDIR);
    }
    if kind == InodeKind::Directory && (flags.is_writable() || empties) {
        return Err(errno::EISDIR);
    }
    if mount_flags & mount::MS_RDONLY != 0 && (flags.is_writable() || empties || flags.contains(
        vfs::O_CREAT,
    )) {
        return Err(errno::EROFS);
    }
    if mount_flags & mount::MS_NODEV != 0 && kind == InodeKind::CharDevice {
        return Err(errno::EACCES);
    }
    Ok(empties && flags.is_writable() && kind == InodeKind::Regular)
}

/// Gives an opened file its descriptor. `emptied` is what emptying it came to, where
/// `check_open` asked for that.
pub fn finish_open(
    table: &mut FdTable,
    file: u64,
    kind: InodeKind,
    flags: OpenFlags,
    mount_flags: u64,
    emptied: Result<(), i64>,
) -> (code: i64)
    requires
        old(table).wf(),
    ensures
        final(table).wf(),
        match open_allowed(kind, flags, mount_flags) {
            Err(e) => code == e && *final(table) == *old(table),
            Ok(empties) => if empties && emptied is Err {
                code == emptied->Err_0 && *final(table) == *old(table)
            } else {
                exists|result: Result<i32, i32>|
                    {
                        &&& #[trigger] fd::installed(*old(table), *final(table), file, 0, 0, result)
                        &&& code == (match result {
                            Ok(n) => n as i64,
                            Err(_) => errno::EMFILE,
                        })
                    }
            },
        },
{
    match check_open(kind, flags, mount_flags) {
        Err(e) => {
            return e;
        },
        Ok(empties) => {
            if empties {
                match emptied {
                    Err(e) => {
                        return e;
                    },
                    Ok(_) => {},
                }
            }
        },
    }
    let result = table.install(file);
    assert(fd::installed(*old(table), *table, file, 0, 0, result));
    match result {
        Ok(n) => n as i64,
        Err(_) => errno::EMFILE,
    }
}

/// A file is opened for writing, emptied or created only where its mount can be written to.
pub proof fn law_read_only_mount_is_only_read(kind: InodeKind, flags: OpenFlags, mount_flags: u64)
    requires
        mount_flags & mount::MS_RDONLY != 0,
        open_allowed(kind, flags, mount_flags) is Ok,
    ensures
        !flags.writable(),
        open_allowed(kind, flags, mount_flags) == Ok::<bool, i64>(false),
{
}

/// The end of a pseudo-terminal that a path opens.
#[derive(Clone, Copy, Debug, PartialEq, Eq, Structural)]
pub enum Pty {
    /// A new one, at its master's end.
    Master,
    /// The slave of one that there is.
    Slave(u32),
}

/// The end of a pseudo-terminal that a path opens. `known` are the ones that there are.
pub open spec fn pty_at(full: Seq<char>, known: Seq<u32>) -> Option<Pty> {
    if full == "/dev/ptmx"@ {
        Some(Pty::Master)
    } else if text::begins_with(full, "/dev/pts/"@) {
        match numeral::number_in(full.skip("/dev/pts/"@.len() as int)) {
            Some(n) => if known.contains(n) {
                Some(Pty::Slave(n))
            } else {
                None
            },
            None => None,
        }
    } else {
        None
    }
}

fn is_known(known: &Vec<u32>, n: u32) -> (r: bool)
    ensures
        r == known@.contains(n),
{
    let mut i: usize = 0;
    while i < known.len()
        invariant
            i <= known@.len(),
            forall|j: int| 0 <= j < i ==> known@[j] != n,
        decreases known.len() - i,
    {
        if known[i] == n {
            return true;
        }
        i += 1;
    }
    false
}

/// The end of a pseudo-terminal that a path opens.
pub fn open_dev_pty(full: &str, known: &Vec<u32>) -> (pty: Option<Pty>)
    ensures
        pty == pty_at(full@, known@),
{
    if text::equal(full, "/dev/ptmx") {
        return Some(Pty::Master);
    }
    let chars = text::to_chars(full);
    let prefix = text::to_chars("/dev/pts/");
    if text::starts_with(&chars, &prefix) {
        match numeral::parse_number(&chars, prefix.len()) {
            Some(n) => {
                if is_known(known, n) {
                    return Some(Pty::Slave(n));
                }
            },
            None => {},
        }
    }
    None
}

/// What to do to open a file.
pub enum Opening {
    Fail(i64),
    Pty(Pty),
    /// There is such a file; its permissions are to be checked.
    Found { inode: u64, mount: Option<usize> },
    /// There is none: it is to be created in a directory.
    Create { parent: u64, leaf: String },
}

pub ghost enum OpeningView {
    Fail(i64),
    Pty(Pty),
    Found { inode: u64, mount: Option<usize> },
    Create { parent: u64, leaf: Seq<char> },
}

impl View for Opening {
    type V = OpeningView;

    open spec fn view(&self) -> OpeningView {
        match *self {
            Opening::Fail(e) => OpeningView::Fail(e),
            Opening::Pty(p) => OpeningView::Pty(p),
            Opening::Found { inode, mount } => OpeningView::Found { inode, mount },
            Opening::Create { parent, leaf } => OpeningView::Create { parent, leaf: leaf@ },
        }
    }
}

/// The file that a path leads to from `base`, or the place for a new one. `parent_flags` are
/// those of the mount that a new one would lie in.
pub open spec fn found_or_new<F: Inode>(
    fs: &F,
    root: u64,
    mounts: MountTable,
    base: u64,
    path: Seq<char>,
    flags: OpenFlags,
    parent_flags: u64,
) -> OpeningView {
    match resolve::resolved(fs, root, mounts@, base, path, true) {
        Ok(found) => if flags.has(vfs::O_CREAT) && flags.has(vfs::O_EXCL) {
            OpeningView::Fail(errno::EEXIST)
        } else {
            OpeningView::Found { inode: found.inode, mount: found.mount_tag }
        },
        Err(e) => if e == errno::ENOENT && flags.has(vfs::O_CREAT) {
            match resolve::parent_resolved(fs, root, mounts@, base, path) {
                Err(e2) => OpeningView::Fail(e2),
                Ok((parent, leaf)) => if parent_flags & mount::MS_RDONLY != 0 {
                    OpeningView::Fail(errno::EROFS)
                } else {
                    OpeningView::Create { parent, leaf }
                },
            }
        } else {
            OpeningView::Fail(e)
        },
    }
}

/// The file that a path leads to, or the place for a new one.
pub fn resolve_or_create_regular<F: Inode>(
    fs: &F,
    root: u64,
    mounts: &MountTable,
    base: u64,
    path: &str,
    flags: OpenFlags,
    parent_flags: u64,
) -> (r: Opening)
    requires
        mounts.wf(),
    ensures
        r@ == found_or_new(fs, root, *mounts, base, path@, flags, parent_flags),
{
    match resolve::resolve_with_mount(fs, root, mounts, base, path) {
        Ok(found) => {
            if flags.contains(vfs::O_CREAT) && flags.contains(vfs::O_EXCL) {
                Opening::Fail(errno::EEXIST)
            } else {
                Opening::Found { inode: found.inode, mount: found.mount_tag }
            }
        },
        Err(e) => {
            if e == errno::ENOENT && flags.contains(vfs::O_CREAT) {
                match resolve::resolve_parent(fs, root, mounts, base, path) {
                    Err(e2) => Opening::Fail(e2),
                    Ok((parent, leaf)) => {
                        if parent_flags & mount::MS_RDONLY != 0 {
                            Opening::Fail(errno::EROFS)
                        } else {
                            Opening::Create { parent, leaf }
                        }
                    },
                }
            } else {
                Opening::Fail(e)
            }
        },
    }
}

/// The mount that a file just created is reached through.
pub fn mount_of_created<F: Inode>(fs: &F, root: u64, mounts: &MountTable, base: u64, path: &str) -> (tag:
    Option<usize>)
    requires
        mounts.wf(),
    ensures
        tag == (match resolve::resolved(fs, root, mounts@, base, path@, true) {
            Ok(found) => found.mount_tag,
            Err(_) => None,
        }),
{
    match resolve::resolve_with_mount(fs, root, mounts, base, path) {
        Ok(found) => found.mount_tag,
        Err(_) => None,
    }
}

/// Where a path to open is walked from, the path walked there, and the path that the file is
/// known under afterwards: empty where the directory's own path is not known.
pub open spec fn walk_for_open(at: At, root: u64, path: Seq<char>) -> Result<
    (u64, Seq<char>, Seq<char>),
    i64,
> {
    if !path::is_absolute(path) && at.dirfd != crate::syscall::dispatch::AT_FDCWD {
        if path.len() == 0 {
            Err(errno::ENOENT)
        } else {
            match at.dir {
                None => Err(errno::EBADF),
                Some(dir) => if dir.kind != InodeKind::Directory {
                    Err(errno::ENOTDIR)
                } else if dir.path@.len() == 0 {
                    Ok((dir.inode, path, Seq::empty()))
                } else {
                    let full = path::normalized(dir.path@, path);
                    Ok((root, full, full))
                },
            }
        }
    } else {
        match paths::user_path(at, path) {
            Err(e) => Err(e),
            Ok(full) => Ok((root, full, full)),
        }
    }
}

/// Where a path to open is walked from, the path walked there, and the path that the file is
/// known under afterwards.
pub struct Walk {
    pub base: u64,
    pub search: String,
    pub known_as: String,
}

pub open spec fn walk_in(r: Result<Walk, i64>) -> Result<(u64, Seq<char>, Seq<char>), i64> {
    match r {
        Ok(w) => Ok((w.base, w.search@, w.known_as@)),
        Err(e) => Err(e),
    }
}

/// Where a path to open is walked from.
pub fn open_walk(at: &At, root: u64, path: String) -> (r: Result<Walk, i64>)
    ensures
        walk_in(r) == walk_for_open(*at, root, path@),
{
    if !paths::starts_at_root(path.as_str()) && at.dirfd != crate::syscall::dispatch::AT_FDCWD {
        if paths::is_empty(path.as_str()) {
            return Err(errno::ENOENT);
        }
        return match &at.dir {
            None => Err(errno::EBADF),
            Some(dir) => {
                if dir.kind != InodeKind::Directory {
                    Err(errno::ENOTDIR)
                } else if paths::is_empty(dir.path.as_str()) {
                    let known_as = String::new();
                    assert(known_as@ =~= Seq::empty());
                    Ok(Walk { base: dir.inode, search: path, known_as })
                } else {
                    let search = path::normalize(dir.path.as_str(), path.as_str());
                    let known_as = path::normalize(dir.path.as_str(), path.as_str());
                    Ok(Walk { base: root, search, known_as })
                }
            },
        };
    }
    let search = match paths::resolve_user_path(at, path.as_str()) {
        Err(e) => {
            return Err(e);
        },
        Ok(full) => full,
    };
    match paths::resolve_user_path(at, path.as_str()) {
        Err(e) => Err(e),
        Ok(known_as) => Ok(Walk { base: root, search, known_as }),
    }
}

/// A path relative to an open directory never opens a pseudo-terminal.
pub open spec fn opened<F: Inode>(
    fs: &F,
    root: u64,
    mounts: MountTable,
    at: At,
    read: PathRead,
    flags: OpenFlags,
    parent_flags: u64,
    ptys: Seq<u32>,
) -> OpeningView {
    match paths::path_read(read) {
        Err(e) => OpeningView::Fail(e),
        Ok(path) => {
            let by_directory = !path::is_absolute(path) && at.dirfd
                != crate::syscall::dispatch::AT_FDCWD;
            match walk_for_open(at, root, path) {
                Err(e) => OpeningView::Fail(e),
                Ok((base, search, known_as)) => match pty_at(search, ptys) {
                    Some(pty) if !by_directory => OpeningView::Pty(pty),
                    _ => found_or_new(fs, root, mounts, base, search, flags, parent_flags),
                },
            }
        },
    }
}

/// Opens the file at a path: what is to be done, and how the path was walked. `flags` are
/// those known of the flags given.
pub fn sys_openat<F: Inode>(
    fs: &F,
    root: u64,
    mounts: &MountTable,
    at: &At,
    read: PathRead,
    flags: OpenFlags,
    parent_flags: u64,
    ptys: &Vec<u32>,
) -> (r: (Opening, Option<Walk>))
    requires
        mounts.wf(),
    ensures
        r.0@ == opened(fs, root, *mounts, *at, read, flags, parent_flags, ptys@),
        match paths::path_read(read) {
            Err(_) => r.1 is None,
            Ok(path) => match r.1 {
                None => walk_for_open(*at, root, path) is Err,
                Some(w) => walk_in(Ok(w)) == walk_for_open(*at, root, path),
            },
        },
{
    let path = match paths::copy_path(read) {
        Err(e) => {
            return (Opening::Fail(e), None);
        },
        Ok(p) => p,
    };
    let by_directory = !paths::starts_at_root(path.as_str()) && at.dirfd
        != crate::syscall::dispatch::AT_FDCWD;
    let walk = match open_walk(at, root, path) {
        Err(e) => {
            return (Opening::Fail(e), None);
        },
        Ok(w) => w,
    };
    if !by_directory {
        match open_dev_pty(walk.search.as_str(), ptys) {
            Some(pty) => {
                return (Opening::Pty(pty), Some(walk));
            },
            None => {},
        }
    }
    let r = resolve_or_create_regular(
        fs,
        root,
        mounts,
        walk.base,
        walk.search.as_str(),
        flags,
        parent_flags,
    );
    (r, Some(walk))
}

/// What `openat2` is asked for: flags, permissions and how the path is to be walked.
pub open spec fn how_to_open(size: u64, how: Option<Seq<u8>>) -> Result<(u64, u64), i64> {
    if size != 24 {
        Err(errno::EINVAL)
    } else {
        match how {
            None => Err(errno::EFAULT),
            Some(b) => {
                let walking = bytes::le64(b, 16);
                if walking & !0x3f != 0 {
                    Err(errno::EINVAL)
                } else {
                    let flags = bytes::le64(b, 0);
                    Ok(
                        (
                            if walking & 0x4 != 0 {
                                flags | vfs::O_NOFOLLOW as u64
                            } else {
                                flags
                            },
                            bytes::le64(b, 8),
                        ),
                    )
                }
            },
        }
    }
}

/// The flags and permissions that `openat2` hands on to `openat`.
pub fn sys_openat2(size: u64, how: Option<Vec<u8>>) -> (r: Result<(u64, u64), i64>)
    requires
        how is Some ==> how->0@.len() == 24,
    ensures
        r == how_to_open(size, util::bytes_view(how)),
{
    if size != 24 {
        return Err(errno::EINVAL);
    }
    let b = match how {
        None => {
            return Err(errno::EFAULT);
        },
        Some(b) => b,
    };
    let flags: u64 = bytes::u64_at(&b, 0);
    let mode: u64 = bytes::u64_at(&b, 8);
    let walking: u64 = bytes::u64_at(&b, 16);
    if walking & !0x3f != 0 {
        return Err(errno::EINVAL);
    }
    if walking & 0x4 != 0 {
        return Ok((flags | vfs::O_NOFOLLOW as u64, mode));
    }
    Ok((flags, mode))
}

/// Where a file is asked to be new, no file that is already there is opened.
pub proof fn law_exclusive_open_is_new<F: Inode>(
    fs: &F,
    root: u64,
    mounts: MountTable,
    base: u64,
    path: Seq<char>,
    flags: OpenFlags,
    parent_flags: u64,
)
    requires
        flags.has(vfs::O_CREAT),
        flags.has(vfs::O_EXCL),
    ensures
        !(found_or_new(fs, root, mounts, base, path, flags, parent_flags) is Found),
        found_or_new(fs, root, mounts, base, path, flags, parent_flags) is Create
            ==> resolve::resolved(fs, root, mounts@, base, path, true) == Err::<
            resolve::ResolveResult,
            i64,
        >(errno::ENOENT),
{
}

/// A file is created only where that was asked for.
pub proof fn law_nothing_is_created_unasked<F: Inode>(
    fs: &F,
    root: u64,
    mounts: MountTable,
    at: At,
    read: PathRead,
    flags: OpenFlags,
    parent_flags: u64,
    ptys: Seq<u32>,
)
    requires
        !flags.has(vfs::O_CREAT),
    ensures
        !(opened(fs, root, mounts, at, read, flags, parent_flags, ptys) is Create),
{
}

} // verus!
