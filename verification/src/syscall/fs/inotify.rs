//! Watching files for changes.
use std::collections::BTreeMap;

use vstd::prelude::*;
use vstd::string::*;

use crate::errno;
use crate::syscall::event;
use crate::syscall::fs::paths;
use crate::syscall::fs::paths::At;
use crate::syscall::fs::paths::PathRead;
use crate::vfs;
use crate::vfs::fd;
use crate::vfs::fd::FdTable;
use crate::vfs::mount_table::MountTable;
use crate::vfs::resolve;
use crate::vfs::resolve::Inode;
use crate::vfs::OpenFlags;

verus! {

pub const IN_NONBLOCK: u32 = 0x800;
pub const IN_CLOEXEC: u32 = 0x8_0000;
pub const IN_DONT_FOLLOW: u32 = 0x0200_0000;

/// The watchers that there are, each by the inode of its file.
pub struct Watchers {
    pub by_inode: BTreeMap<u64, u64>,
}

impl Watchers {
    /// No watchers.
    pub fn new() -> (w: Watchers)
        ensures
            w.by_inode@ == Map::<u64, u64>::empty(),
    {
        Watchers { by_inode: BTreeMap::new() }
    }

    /// Forgets a watcher whose file is gone.
    pub fn forget(&mut self, inode: u64)
        ensures
            final(self).by_inode@ == old(self).by_inode@.remove(inode),
    {
        let _ = self.by_inode.remove(&inode);
    }
}

/// The watcher behind a descriptor: `inode` is that of the file that it is open on.
pub open spec fn watcher(watchers: Watchers, inode: Option<u64>) -> Option<u64> {
    match inode {
        Some(i) => if watchers.by_inode@.contains_key(i) {
            Some(watchers.by_inode@[i])
        } else {
            None
        },
        None => None,
    }
}

/// The watcher behind a descriptor.
pub fn lookup_inotify(watchers: &Watchers, inode: Option<u64>) -> (w: Option<u64>)
    ensures
        w == watcher(*watchers, inode),
{
    match inode {
        None => None,
        Some(i) => match watchers.by_inode.get(&i) {
            Some(w) => Some(*w),
            None => None,
        },
    }
}

/// How the file of a new watcher is opened.
pub open spec fn watcher_flags(flags: u32) -> OpenFlags {
    OpenFlags {
        bits: if flags & IN_NONBLOCK != 0 {
            vfs::O_NONBLOCK
        } else {
            0
        },
    }
}

/// Makes a watcher: `file` is its open file, `inode` that file's inode and `instance` the
/// watcher. With the answer come the flags of the file; there are none where the flags given are
/// not known.
pub fn sys_inotify_init1(
    table: &mut FdTable,
    watchers: &mut Watchers,
    file: u64,
    inode: u64,
    instance: u64,
    flags: u64,
) -> (r: (i64, Option<OpenFlags>))
    requires
        old(table).wf(),
    ensures
        final(table).wf(),
        ({
            let flags = flags as u32;
            if flags & !(IN_NONBLOCK | IN_CLOEXEC) != 0 {
                &&& r == (errno::EINVAL, None::<OpenFlags>)
                &&& *final(table) == *old(table)
                &&& *final(watchers) == *old(watchers)
            } else {
                &&& r.1 == Some(watcher_flags(flags))
                &&& final(watchers).by_inode@ == old(watchers).by_inode@.insert(inode, instance)
                &&& watcher(*final(watchers), Some(inode)) == Some(instance)
                &&& event::new_fd(
                    *old(table),
                    *final(table),
                    file,
                    if flags & IN_CLOEXEC != 0 {
                        fd::FD_CLOEXEC
                    } else {
                        0
                    },
                    r.0,
                )
            }
        }),
{
    let flags: u32 = #[verifier::truncate] (flags as u32);
    if flags & !(IN_NONBLOCK | IN_CLOEXEC) != 0 {
        return (errno::EINVAL, None);
    }
    let bits: u32 = if flags & IN_NONBLOCK != 0 {
        vfs::O_NONBLOCK
    } else {
        0
    };
    watchers.by_inode.insert(inode, instance);
    let code: i64 = event::install_lowest(table, file, flags & IN_CLOEXEC != 0);
    (code, Some(OpenFlags { bits }))
}

/// The watcher and the file that it is to watch.
pub open spec fn watched<F: Inode>(
    fs: &F,
    root: u64,
    mounts: MountTable,
    watchers: Watchers,
    fd_inode: Option<u64>,
    at: At,
    read: PathRead,
    mask: u64,
) -> Result<(u64, u64, u32), i64> {
    match watcher(watchers, fd_inode) {
        None => Err(errno::EBADF),
        Some(w) => {
            let follow = (mask as u32) & IN_DONT_FOLLOW == 0;
            match resolve::inode_of(paths::named(fs, root, mounts, at, read, follow)) {
                Err(e) => Err(e),
                Ok(inode) => Ok((w, inode, mask as u32)),
            }
        },
    }
}

/// Watches a file: the watcher, the file, and what for.
pub fn sys_inotify_add_watch<F: Inode>(
    fs: &F,
    root: u64,
    mounts: &MountTable,
    watchers: &Watchers,
    fd_inode: Option<u64>,
    at: &At,
    read: PathRead,
    mask: u64,
) -> (r: Result<(u64, u64, u32), i64>)
    requires
        mounts.wf(),
    ensures
        r == watched(fs, root, *mounts, *watchers, fd_inode, *at, read, mask),
{
    let w: u64 = match lookup_inotify(watchers, fd_inode) {
        None => {
            return Err(errno::EBADF);
        },
        Some(w) => w,
    };
    let mask: u32 = #[verifier::truncate] (mask as u32);
    let follow = mask & IN_DONT_FOLLOW == 0;
    match paths::resolve_path(fs, root, mounts, at, read, follow) {
        Err(e) => Err(e),
        Ok(inode) => Ok((w, inode, mask)),
    }
}

/// Ends a watch: the watcher, and the number of the watch.
pub fn sys_inotify_rm_watch(watchers: &Watchers, fd_inode: Option<u64>, wd: u64) -> (r: Result<
    (u64, i32),
    i64,
>)
    ensures
        r == (match watcher(*watchers, fd_inode) {
            None => Err(errno::EBADF),
            Some(w) => Ok((w, wd as i32)),
        }),
{
    match lookup_inotify(watchers, fd_inode) {
        None => Err(errno::EBADF),
        Some(w) => Ok((w, #[verifier::truncate] (wd as i32))),
    }
}

} // verus!
