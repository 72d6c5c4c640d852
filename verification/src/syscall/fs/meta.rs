//! What is known of files, and changes of it: attributes, permissions, owners and times.
use vstd::prelude::*;
use vstd::string::*;

use crate::bytes;
use crate::errno;
use crate::syscall::fs::paths;
use crate::syscall::fs::paths::At;
use crate::syscall::fs::paths::PathRead;
use crate::syscall::reply;
use crate::syscall::reply::Reply;
use crate::syscall::util;
use crate::vfs::mount;
use crate::vfs::mount_table::MountTable;
use crate::vfs::resolve;
use crate::vfs::resolve::Inode;
use crate::vfs::InodeKind;
use crate::vfs::MountInUseTag;
use crate::vfs::Stat;
use crate::vfs::TimeSpec;

verus! {

pub const AT_EMPTY_PATH: u64 = 0x1000;
pub const STATX_BASIC_STATS: u32 = 0x7ff;
pub const UTIME_NOW: i64 = 0x3fff_ffff;
pub const UTIME_OMIT: i64 = 0x3fff_fffe;

/// How a mode tells what a file is.
pub open spec fn kind_bits(kind: InodeKind) -> u16 {
    match kind {
        InodeKind::Regular => 0o100000,
        InodeKind::Directory => 0o040000,
        InodeKind::CharDevice => 0o020000,
        InodeKind::Symlink => 0o120000,
        InodeKind::Pipe => 0o010000,
        InodeKind::Socket => 0o140000,
    }
}

fn mode_bits(kind: InodeKind) -> (bits: u16)
    ensures
        bits == kind_bits(kind),
{
    match kind {
        InodeKind::Regular => 0o100000,
        InodeKind::Directory => 0o040000,
        InodeKind::CharDevice => 0o020000,
        InodeKind::Symlink => 0o120000,
        InodeKind::Pipe => 0o010000,
        InodeKind::Socket => 0o140000,
    }
}

/// A time in sixteen bytes.
pub open spec fn packed(t: TimeSpec) -> Seq<u8> {
    bytes::put64(t.sec as u64) + bytes::put64((t.nsec as i64) as u64)
}

fn push_time(out: &mut Vec<u8>, t: &TimeSpec)
    ensures
        final(out)@ == old(out)@ + packed(*t),
{
    let ghost before = out@;
    bytes::push_u64(out, #[verifier::truncate] (t.sec as u64));
    bytes::push_u64(out, #[verifier::truncate] ((t.nsec as i64) as u64));
    assert(out@ =~= before + packed(*t));
}

/// The attributes of a file in 144 bytes. `uid` and `gid` are its owners as the caller knows
/// them.
pub open spec fn packed_stat(st: Stat, uid: u32, gid: u32) -> Seq<u8> {
    bytes::put64(st.dev_id) + bytes::put64(st.inode_id) + bytes::put64(st.nlink as u64)
        + bytes::put32(kind_bits(st.kind) as u32 | st.mode as u32) + bytes::put32(uid)
        + bytes::put32(gid) + bytes::zeros(4) + bytes::put64(st.rdev) + bytes::put64(st.size)
        + bytes::put64(st.blksize as u64) + bytes::put64(st.blocks) + packed(st.atime) + packed(
        st.mtime,
    ) + packed(st.ctime) + bytes::zeros(24)
}

/// The attributes of a file in 144 bytes.
pub fn pack_stat(st: &Stat, uid: u32, gid: u32) -> (out: Vec<u8>)
    ensures
        out@ == packed_stat(*st, uid, gid),
{
    let mut out: Vec<u8> = Vec::new();
    bytes::push_u64(&mut out, st.dev_id);
    bytes::push_u64(&mut out, st.inode_id);
    bytes::push_u64(&mut out, st.nlink as u64);
    bytes::push_u32(&mut out, mode_bits(st.kind) as u32 | st.mode as u32);
    bytes::push_u32(&mut out, uid);
    bytes::push_u32(&mut out, gid);
    bytes::push_zeros(&mut out, 4);
    bytes::push_u64(&mut out, st.rdev);
    bytes::push_u64(&mut out, st.size);
    bytes::push_u64(&mut out, st.blksize as u64);
    bytes::push_u64(&mut out, st.blocks);
    push_time(&mut out, &st.atime);
    push_time(&mut out, &st.mtime);
    push_time(&mut out, &st.ctime);
    bytes::push_zeros(&mut out, 24);
    assert(out@ =~= packed_stat(*st, uid, gid));
    out
}

/// A time in twelve bytes.
pub open spec fn packed_short(t: TimeSpec) -> Seq<u8> {
    bytes::put64(t.sec as u64) + bytes::put32(t.nsec as u32)
}

fn push_short_time(out: &mut Vec<u8>, t: &TimeSpec)
    ensures
        final(out)@ == old(out)@ + packed_short(*t),
{
    let ghost before = out@;
    bytes::push_u64(out, #[verifier::truncate] (t.sec as u64));
    bytes::push_u32(out, #[verifier::truncate] (t.nsec as u32));
    assert(out@ =~= before + packed_short(*t));
}

/// The attributes of a file in the 256 bytes of `statx`.
pub open spec fn packed_statx(st: Stat, uid: u32, gid: u32) -> Seq<u8> {
    bytes::put32(STATX_BASIC_STATS) + bytes::put32(st.blksize) + bytes::zeros(8) + bytes::put32(
        st.nlink,
    ) + bytes::put32(uid) + bytes::put32(gid) + bytes::put16(
        kind_bits(st.kind) | (st.mode & 0o7777),
    ) + bytes::zeros(2) + bytes::put64(st.inode_id) + bytes::put64(st.size) + bytes::put64(
        st.blocks,
    ) + bytes::zeros(8) + packed_short(st.atime) + bytes::zeros(20) + packed_short(st.ctime)
        + bytes::zeros(4) + packed_short(st.mtime) + bytes::zeros(132)
}

/// The attributes of a file in the 256 bytes of `statx`.
pub fn pack_statx(st: &Stat, uid: u32, gid: u32) -> (out: Vec<u8>)
    ensures
        out@ == packed_statx(*st, uid, gid),
{
    let mut out: Vec<u8> = Vec::new();
    bytes::push_u32(&mut out, STATX_BASIC_STATS);
    bytes::push_u32(&mut out, st.blksize);
    bytes::push_zeros(&mut out, 8);
    bytes::push_u32(&mut out, st.nlink);
    bytes::push_u32(&mut out, uid);
    bytes::push_u32(&mut out, gid);
    bytes::push_u16(&mut out, mode_bits(st.kind) | (st.mode & 0o7777));
    bytes::push_zeros(&mut out, 2);
    bytes::push_u64(&mut out, st.inode_id);
    bytes::push_u64(&mut out, st.size);
    bytes::push_u64(&mut out, st.blocks);
    bytes::push_zeros(&mut out, 8);
    push_short_time(&mut out, &st.atime);
    bytes::push_zeros(&mut out, 20);
    push_short_time(&mut out, &st.ctime);
    bytes::push_zeros(&mut out, 4);
    push_short_time(&mut out, &st.mtime);
    bytes::push_zeros(&mut out, 132);
    assert(out@ =~= packed_statx(*st, uid, gid));
    out
}

/// The attributes of a file as a caller sees them, with its owners as the caller knows them.
#[derive(Clone, Copy)]
pub struct SeenStat {
    pub stat: Stat,
    pub uid: u32,
    pub gid: u32,
}

/// Tells the attributes of an open file.
pub fn sys_fstat(file: Option<SeenStat>, statbuf: u64) -> (r: Reply)
    ensures
        r@ == (match file {
            None => reply::plain(errno::EBADF),
            Some(s) => reply::with_bytes(0, statbuf, packed_stat(s.stat, s.uid, s.gid)),
        }),
{
    match file {
        None => Reply::plain(errno::EBADF),
        Some(s) => Reply::with_bytes(0, statbuf, pack_stat(&s.stat, s.uid, s.gid)),
    }
}

/// The file whose attributes are asked for. With an empty path it is the one that the directory
/// descriptor is open on, where that is asked for; `opened` is that file.
pub open spec fn stat_named<F: Inode>(
    fs: &F,
    root: u64,
    mounts: MountTable,
    at: At,
    read: PathRead,
    flags: u64,
    opened: Option<u64>,
) -> Result<u64, i64> {
    match paths::path_read(read) {
        Err(e) => Err(e),
        Ok(p) => if p.len() == 0 && flags & AT_EMPTY_PATH != 0 {
            match opened {
                None => Err(errno::EBADF),
                Some(inode) => Ok(inode),
            }
        } else {
            resolve::inode_of(paths::named(fs, root, mounts, at, read, true))
        },
    }
}

/// The file whose attributes are asked for.
pub fn sys_newfstatat<F: Inode>(
    fs: &F,
    root: u64,
    mounts: &MountTable,
    at: &At,
    read: PathRead,
    flags: u64,
    opened: Option<u64>,
) -> (r: Result<u64, i64>)
    requires
        mounts.wf(),
    ensures
        r == stat_named(fs, root, *mounts, *at, read, flags, opened),
{
    if flags & AT_EMPTY_PATH != 0 {
        match &read {
            PathRead::Path(p) => {
                if paths::is_empty(p.as_str()) {
                    return match opened {
                        None => Err(errno::EBADF),
                        Some(inode) => Ok(inode),
                    };
                }
            },
            _ => {},
        }
    }
    paths::resolve_path(fs, root, mounts, at, read, true)
}

/// The file whose attributes are asked for by its path alone; a link at its end is followed
/// unless the link itself is meant.
pub fn sys_stat<F: Inode>(
    fs: &F,
    root: u64,
    mounts: &MountTable,
    at: &At,
    read: PathRead,
    lstat: bool,
) -> (r: Result<u64, i64>)
    requires
        mounts.wf(),
    ensures
        r == resolve::inode_of(paths::named(fs, root, *mounts, *at, read, !lstat)),
{
    paths::resolve_path(fs, root, mounts, at, read, !lstat)
}

/// The file whose attributes `statx` tells. `nothing_given` says whether the path is empty.
pub fn sys_statx<F: Inode>(
    fs: &F,
    root: u64,
    mounts: &MountTable,
    at: &At,
    read: PathRead,
    nothing_given: bool,
    flags: u64,
    statxbuf: u64,
    opened: Option<u64>,
) -> (r: Result<u64, i64>)
    requires
        mounts.wf(),
    ensures
        r == (if statxbuf == 0 {
            Err(errno::EFAULT)
        } else if flags & AT_EMPTY_PATH != 0 && nothing_given {
            match opened {
                None => Err(errno::EBADF),
                Some(inode) => Ok(inode),
            }
        } else {
            resolve::inode_of(paths::named(fs, root, *mounts, *at, read, true))
        }),
{
    if statxbuf == 0 {
        return Err(errno::EFAULT);
    }
    if flags & AT_EMPTY_PATH != 0 && nothing_given {
        return match opened {
            None => Err(errno::EBADF),
            Some(inode) => Ok(inode),
        };
    }
    paths::resolve_path(fs, root, mounts, at, read, true)
}

/// Tells the attributes of a file that was found.
pub fn statx_reply(s: &SeenStat, statxbuf: u64) -> (r: Reply)
    ensures
        r@ == reply::with_bytes(0, statxbuf, packed_statx(s.stat, s.uid, s.gid)),
{
    Reply::with_bytes(0, statxbuf, pack_statx(&s.stat, s.uid, s.gid))
}

/// What access is asked for: read, write and execute are 4, 2 and 1.
pub fn access_asked(mode: u64) -> (wanted: u8)
    ensures
        wanted == (mode & 0o7) as u8,
{
    #[verifier::truncate]
    ((mode & 0o7) as u8)
}

/// Whether a file can be accessed. `allowed` says whether its permissions give the caller's real
/// user and group what `access_asked` says.
pub fn sys_faccessat<F: Inode>(
    fs: &F,
    root: u64,
    mounts: &MountTable,
    at: &At,
    read: PathRead,
    mode: u64,
    allowed: bool,
) -> (code: i64)
    requires
        mounts.wf(),
    ensures
        code == (match resolve::inode_of(paths::named(fs, root, *mounts, *at, read, true)) {
            Err(e) => e,
            Ok(_) => if (mode & 0o7) as u8 == 0 || allowed {
                0
            } else {
                errno::EACCES
            },
        }),
{
    match paths::resolve_path(fs, root, mounts, at, read, true) {
        Err(e) => e,
        Ok(_) => {
            if access_asked(mode) == 0 || allowed {
                0
            } else {
                errno::EACCES
            }
        },
    }
}

/// What a caller may do to files.
#[derive(Clone, Copy)]
pub struct FileRights {
    pub fsuid: u32,
    pub fsgid: u32,
    /// May act as the owner of files.
    pub cap_fowner: bool,
    /// May give files away.
    pub cap_chown: bool,
    /// Whether the file's user is one of the caller's user namespace.
    pub owns_user: bool,
    /// Whether the file's group is one of the caller's user namespace.
    pub owns_group: bool,
    /// Whether the caller is in the group that the file is to get.
    pub in_new_group: bool,
}

pub open spec fn may_chmod(rights: FileRights, file_uid: u32) -> bool {
    (rights.cap_fowner && rights.owns_user) || rights.fsuid == file_uid
}

/// Whether a caller may change the permissions of a file.
pub fn chmod_permitted(rights: &FileRights, file_uid: u32) -> (r: bool)
    ensures
        r == may_chmod(*rights, file_uid),
{
    (rights.cap_fowner && rights.owns_user) || rights.fsuid == file_uid
}

pub open spec fn may_chown(
    rights: FileRights,
    file_uid: u32,
    want_uid: Option<u32>,
    want_gid: Option<u32>,
) -> bool {
    let capable = rights.cap_chown && rights.owns_user && rights.owns_group;
    let owner = rights.fsuid == file_uid;
    &&& want_uid matches Some(u) ==> capable || (owner && u == file_uid)
    &&& want_gid matches Some(g) ==> capable || (owner && (rights.fsgid == g
        || rights.in_new_group))
}

/// Whether a caller may give a file other owners.
pub fn chown_permitted(
    rights: &FileRights,
    file_uid: u32,
    want_uid: Option<u32>,
    want_gid: Option<u32>,
) -> (r: bool)
    ensures
        r == may_chown(*rights, file_uid, want_uid, want_gid),
{
    let capable = rights.cap_chown && rights.owns_user && rights.owns_group;
    let owner = rights.fsuid == file_uid;
    let uid_ok = match want_uid {
        None => true,
        Some(u) => capable || (owner && u == file_uid),
    };
    let gid_ok = match want_gid {
        None => true,
        Some(g) => capable || (owner && (rights.fsgid == g || rights.in_new_group)),
    };
    uid_ok && gid_ok
}

/// Without a capability nobody gives a file to somebody else, and only its owner to a group, one
/// of their own.
pub proof fn law_files_are_not_given_away(
    rights: FileRights,
    file_uid: u32,
    want_uid: Option<u32>,
    want_gid: Option<u32>,
)
    requires
        !rights.cap_chown,
        may_chown(rights, file_uid, want_uid, want_gid),
    ensures
        want_uid is Some ==> want_uid == Some(file_uid),
        want_gid is Some ==> rights.fsuid == file_uid && (want_gid == Some(rights.fsgid)
            || rights.in_new_group),
{
}

/// The permissions that an open file gets, or why not. `file` says whether its mount cannot be
/// written to, and who owns it.
pub fn sys_fchmod(file: Option<(bool, u32)>, rights: &FileRights, mode: u64) -> (r: Result<u16, i64>)
    ensures
        r == (match file {
            None => Err(errno::EBADF),
            Some((read_only, uid)) => if read_only {
                Err(errno::EROFS)
            } else if !may_chmod(*rights, uid) {
                Err(errno::EPERM)
            } else {
                Ok((mode & 0o7777) as u16)
            },
        }),
{
    match file {
        None => Err(errno::EBADF),
        Some((read_only, uid)) => {
            if read_only {
                Err(errno::EROFS)
            } else if !chmod_permitted(rights, uid) {
                Err(errno::EPERM)
            } else {
                Ok(#[verifier::truncate] ((mode & 0o7777) as u16))
            }
        },
    }
}

/// The permissions that a file with a path gets, or why not. `found` is the file as
/// `resolve_path_writable` found it, with who owns it.
pub fn sys_fchmodat(found: Result<(u64, u32), i64>, rights: &FileRights, mode: u64) -> (r: Result<
    (u64, u16),
    i64,
>)
    ensures
        r == (match found {
            Err(e) => Err(e),
            Ok((inode, uid)) => if !may_chmod(*rights, uid) {
                Err(errno::EPERM)
            } else {
                Ok((inode, (mode & 0o7777) as u16))
            },
        }),
{
    match found {
        Err(e) => Err(e),
        Ok((inode, uid)) => {
            if !chmod_permitted(rights, uid) {
                Err(errno::EPERM)
            } else {
                Ok((inode, #[verifier::truncate] ((mode & 0o7777) as u16)))
            }
        },
    }
}

/// A user or a group that is asked for; -1 asks for none.
pub open spec fn wanted(id: u64) -> Option<u32> {
    if id as i32 == -1 {
        None
    } else {
        Some(id as u32)
    }
}

fn wanted_id(id: u64) -> (r: Option<u32>)
    ensures
        r == wanted(id),
{
    let low: i32 = #[verifier::truncate] (id as i32);
    if low == -1 {
        None
    } else {
        Some(#[verifier::truncate] (id as u32))
    }
}

/// Users and groups as the kernel knows them. `kernel_uid` and `kernel_gid` are what the numbers
/// asked for stand for.
pub open spec fn translated(
    uid: Option<u32>,
    gid: Option<u32>,
    kernel_uid: Option<u32>,
    kernel_gid: Option<u32>,
) -> Result<(Option<u32>, Option<u32>), i64> {
    if (uid is Some && kernel_uid is None) || (gid is Some && kernel_gid is None) {
        Err(errno::EINVAL)
    } else {
        Ok(
            (
                if uid is Some {
                    kernel_uid
                } else {
                    None
                },
                if gid is Some {
                    kernel_gid
                } else {
                    None
                },
            ),
        )
    }
}

/// Users and groups as the kernel knows them.
pub fn xlate_chown_ids(
    uid: Option<u32>,
    gid: Option<u32>,
    kernel_uid: Option<u32>,
    kernel_gid: Option<u32>,
) -> (r: Result<(Option<u32>, Option<u32>), i64>)
    ensures
        r == translated(uid, gid, kernel_uid, kernel_gid),
{
    if uid.is_some() && kernel_uid.is_none() {
        return Err(errno::EINVAL);
    }
    if gid.is_some() && kernel_gid.is_none() {
        return Err(errno::EINVAL);
    }
    let u = if uid.is_some() {
        kernel_uid
    } else {
        None
    };
    let g = if gid.is_some() {
        kernel_gid
    } else {
        None
    };
    Ok((u, g))
}

/// What a change of owners comes to.
#[derive(Clone, Copy, Debug, PartialEq, Eq, Structural)]
pub enum Chown {
    Done(i64),
    Give { uid: Option<u32>, gid: Option<u32> },
}

/// What a change of owners comes to, for a file owned by `file_uid`.
pub open spec fn chowned(
    file_uid: u32,
    rights: FileRights,
    uid: u64,
    gid: u64,
    kernel_uid: Option<u32>,
    kernel_gid: Option<u32>,
) -> Chown {
    if wanted(uid) is None && wanted(gid) is None {
        Chown::Done(0)
    } else {
        match translated(wanted(uid), wanted(gid), kernel_uid, kernel_gid) {
            Err(e) => Chown::Done(e),
            Ok((u, g)) => if !may_chown(rights, file_uid, u, g) {
                Chown::Done(errno::EPERM)
            } else {
                Chown::Give { uid: u, gid: g }
            },
        }
    }
}

fn chown_of(
    file_uid: u32,
    rights: &FileRights,
    uid: u64,
    gid: u64,
    kernel_uid: Option<u32>,
    kernel_gid: Option<u32>,
) -> (r: Chown)
    ensures
        r == chowned(file_uid, *rights, uid, gid, kernel_uid, kernel_gid),
{
    let want_uid = wanted_id(uid);
    let want_gid = wanted_id(gid);
    if want_uid.is_none() && want_gid.is_none() {
        return Chown::Done(0);
    }
    match xlate_chown_ids(want_uid, want_gid, kernel_uid, kernel_gid) {
        Err(e) => Chown::Done(e),
        Ok((u, g)) => {
            if !chown_permitted(rights, file_uid, u, g) {
                Chown::Done(errno::EPERM)
            } else {
                Chown::Give { uid: u, gid: g }
            }
        },
    }
}

/// Changes the owners of an open file.
pub fn sys_fchown(
    file: Option<(bool, u32)>,
    rights: &FileRights,
    uid: u64,
    gid: u64,
    kernel_uid: Option<u32>,
    kernel_gid: Option<u32>,
) -> (r: Chown)
    ensures
        r == (match file {
            None => Chown::Done(errno::EBADF),
            Some((read_only, file_uid)) => if read_only {
                Chown::Done(errno::EROFS)
            } else {
                chowned(file_uid, *rights, uid, gid, kernel_uid, kernel_gid)
            },
        }),
{
    match file {
        None => Chown::Done(errno::EBADF),
        Some((read_only, file_uid)) => {
            if read_only {
                Chown::Done(errno::EROFS)
            } else {
                chown_of(file_uid, rights, uid, gid, kernel_uid, kernel_gid)
            }
        },
    }
}

/// Changes the owners of a file with a path. `found` is the file as `resolve_path_writable` found
/// it, by who owns it.
pub fn sys_fchownat(
    found: Result<u32, i64>,
    rights: &FileRights,
    uid: u64,
    gid: u64,
    kernel_uid: Option<u32>,
    kernel_gid: Option<u32>,
) -> (r: Chown)
    ensures
        r == (match found {
            Err(e) => Chown::Done(e),
            Ok(file_uid) => chowned(file_uid, *rights, uid, gid, kernel_uid, kernel_gid),
        }),
{
    match found {
        Err(e) => Chown::Done(e),
        Ok(file_uid) => chown_of(file_uid, rights, uid, gid, kernel_uid, kernel_gid),
    }
}

/// How many pages of memory there are, and how many are in use.
#[derive(Clone, Copy)]
pub struct Pages {
    pub total: u64,
    pub in_use: u64,
}

/// What is told of a file system in 120 bytes.
pub open spec fn packed_statfs(st: Stat, pages: Pages, mount_flags: u64) -> Seq<u8> {
    let magic: u64 = if st.dev_id >> 56 == 0xe4 {
        0xef53
    } else {
        0x0102_1994
    };
    let total = ((pages.total * 4096) / (st.blksize as int)) as u64;
    let free = (((pages.total - pages.in_use) * 4096) / (st.blksize as int)) as u64;
    bytes::put64(magic) + bytes::put64(st.blksize as u64) + bytes::put64(total) + bytes::put64(free)
        + bytes::put64(free) + bytes::put64(u64::MAX) + bytes::put64(u64::MAX) + bytes::put64(
        st.dev_id,
    ) + bytes::put64(255) + bytes::put64(st.blksize as u64) + bytes::put64(
        mount_flags & mount::MOUNT_FLAG_MASK,
    ) + bytes::zeros(32)
}

/// The flags told of a file's mount: those of the mount that it was reached through, and those of
/// the program's where it is the caller's own program.
pub open spec fn told_flags(flags: u64, program_flags: Option<u64>) -> u64 {
    match program_flags {
        Some(f) => f,
        None => flags,
    }
}

/// Tells of the file system that a file lies in. `file` are the file's attributes and the flags
/// of its mount, `program_flags` those of the caller's program where the file is that.
pub fn sys_statfs(
    file: Result<(Stat, u64), i64>,
    program_flags: Option<u64>,
    pages: &Pages,
    statfs_ptr: u64,
) -> (r: Reply)
    requires
        file is Ok ==> file->Ok_0.0.blksize > 0 && pages.in_use <= pages.total && pages.total * 4096
            <= u64::MAX,
    ensures
        r@ == (match file {
            Err(e) => reply::plain(e),
            Ok((st, flags)) => reply::with_bytes(
                0,
                statfs_ptr,
                packed_statfs(st, *pages, told_flags(flags, program_flags)),
            ),
        }),
{
    let (st, flags) = match file {
        Err(e) => {
            return Reply::plain(e);
        },
        Ok(f) => f,
    };
    let told: u64 = match program_flags {
        Some(f) => f,
        None => flags,
    };
    let magic: u64 = if st.dev_id >> 56 == 0xe4 {
        0xef53
    } else {
        0x0102_1994
    };
    let total: u64 = pages.total * 4096 / (st.blksize as u64);
    let free: u64 = (pages.total - pages.in_use) * 4096 / (st.blksize as u64);
    let mut out: Vec<u8> = Vec::new();
    bytes::push_u64(&mut out, magic);
    bytes::push_u64(&mut out, st.blksize as u64);
    bytes::push_u64(&mut out, total);
    bytes::push_u64(&mut out, free);
    bytes::push_u64(&mut out, free);
    bytes::push_u64(&mut out, u64::MAX);
    bytes::push_u64(&mut out, u64::MAX);
    bytes::push_u64(&mut out, st.dev_id);
    bytes::push_u64(&mut out, 255);
    bytes::push_u64(&mut out, st.blksize as u64);
    bytes::push_u64(&mut out, told & mount::MOUNT_FLAG_MASK);
    bytes::push_zeros(&mut out, 32);
    assert(out@ =~= packed_statfs(st, *pages, told));
    Reply::with_bytes(0, statfs_ptr, out)
}

/// The time on the wall, from its nanoseconds.
pub fn wall_now(nanos: u64) -> (now: TimeSpec)
    ensures
        now.sec == nanos / 1_000_000_000,
        now.nsec == nanos % 1_000_000_000,
{
    TimeSpec { sec: (nanos / 1_000_000_000) as i64, nsec: (nanos % 1_000_000_000) as i32 }
}

/// A time given in microseconds.
pub open spec fn timeval_in(buf: Option<Seq<u8>>) -> Result<TimeSpec, i64> {
    match buf {
        None => Err(errno::EFAULT),
        Some(b) => {
            let usec = bytes::le64(b, 8) as i64;
            if 0 <= usec < 1_000_000 {
                Ok(TimeSpec { sec: bytes::le64(b, 0) as i64, nsec: (usec * 1000) as i32 })
            } else {
                Err(errno::EINVAL)
            }
        },
    }
}

/// A time given in microseconds.
pub fn read_timeval_as_timespec(buf: Option<Vec<u8>>) -> (r: Result<TimeSpec, i64>)
    requires
        buf is Some ==> buf->0@.len() == 16,
    ensures
        r == timeval_in(util::bytes_view(buf)),
{
    match buf {
        None => Err(errno::EFAULT),
        Some(b) => {
            let sec: i64 = #[verifier::truncate] (bytes::u64_at(&b, 0) as i64);
            let usec: i64 = #[verifier::truncate] (bytes::u64_at(&b, 8) as i64);
            if usec < 0 || usec >= 1_000_000 {
                return Err(errno::EINVAL);
            }
            Ok(TimeSpec { sec, nsec: (usec * 1000) as i32 })
        },
    }
}

/// The times of access and of change that a file is to get; `None` keeps one as it is.
#[derive(Clone, Copy, Debug, PartialEq, Eq, Structural)]
pub struct Times {
    pub atime: Option<TimeSpec>,
    pub mtime: Option<TimeSpec>,
}

/// Two times in microseconds; without any the time is now.
pub open spec fn timevals(
    given: bool,
    first: Option<Seq<u8>>,
    second: Option<Seq<u8>>,
    now: TimeSpec,
) -> Result<Times, i64> {
    if !given {
        Ok(Times { atime: Some(now), mtime: Some(now) })
    } else {
        match (timeval_in(first), timeval_in(second)) {
            (Err(e), _) => Err(e),
            (_, Err(e)) => Err(e),
            (Ok(a), Ok(m)) => Ok(Times { atime: Some(a), mtime: Some(m) }),
        }
    }
}

/// Two times in microseconds; without any the time is now.
pub fn timeval_pair(
    given: bool,
    first: Option<Vec<u8>>,
    second: Option<Vec<u8>>,
    now: TimeSpec,
) -> (r: Result<Times, i64>)
    requires
        first is Some ==> first->0@.len() == 16,
        second is Some ==> second->0@.len() == 16,
    ensures
        r == timevals(given, util::bytes_view(first), util::bytes_view(second), now),
{
    if !given {
        return Ok(Times { atime: Some(now), mtime: Some(now) });
    }
    let a = match read_timeval_as_timespec(first) {
        Err(e) => {
            return Err(e);
        },
        Ok(t) => t,
    };
    match read_timeval_as_timespec(second) {
        Err(e) => Err(e),
        Ok(m) => Ok(Times { atime: Some(a), mtime: Some(m) }),
    }
}

/// A time of `utimensat`: two values of its nanoseconds stand for now and for no change.
pub open spec fn chosen_time(buf: Option<Seq<u8>>, now: TimeSpec) -> Result<Option<TimeSpec>, i64> {
    match buf {
        None => Err(errno::EFAULT),
        Some(b) => {
            let t = util::time_in(b);
            if t.nsec as i64 == UTIME_NOW {
                Ok(Some(now))
            } else if t.nsec as i64 == UTIME_OMIT {
                Ok(None)
            } else {
                Ok(Some(t))
            }
        },
    }
}

fn choose_time(buf: Option<Vec<u8>>, now: TimeSpec) -> (r: Result<Option<TimeSpec>, i64>)
    requires
        buf is Some ==> buf->0@.len() == 16,
    ensures
        r == chosen_time(util::bytes_view(buf), now),
{
    match util::read_timespec(buf) {
        Err(e) => Err(e),
        Ok(t) => {
            if t.nsec as i64 == UTIME_NOW {
                Ok(Some(now))
            } else if t.nsec as i64 == UTIME_OMIT {
                Ok(None)
            } else {
                Ok(Some(t))
            }
        },
    }
}

/// The times that `utimensat` gives a file.
pub open spec fn times_given(
    given: bool,
    first: Option<Seq<u8>>,
    second: Option<Seq<u8>>,
    now: TimeSpec,
) -> Result<Times, i64> {
    if !given {
        Ok(Times { atime: Some(now), mtime: Some(now) })
    } else {
        match (chosen_time(first, now), chosen_time(second, now)) {
            (Err(e), _) => Err(e),
            (_, Err(e)) => Err(e),
            (Ok(a), Ok(m)) => Ok(Times { atime: a, mtime: m }),
        }
    }
}

/// The times that `utimensat` gives a file.
pub fn read_times(
    given: bool,
    first: Option<Vec<u8>>,
    second: Option<Vec<u8>>,
    now: TimeSpec,
) -> (r: Result<Times, i64>)
    requires
        first is Some ==> first->0@.len() == 16,
        second is Some ==> second->0@.len() == 16,
    ensures
        r == times_given(given, util::bytes_view(first), util::bytes_view(second), now),
{
    if !given {
        return Ok(Times { atime: Some(now), mtime: Some(now) });
    }
    let a = match choose_time(first, now) {
        Err(e) => {
            return Err(e);
        },
        Ok(t) => t,
    };
    match choose_time(second, now) {
        Err(e) => Err(e),
        Ok(m) => Ok(Times { atime: a, mtime: m }),
    }
}

/// The file that gets other times. Without a path it is the open one; `opened` is that file, and
/// whether its mount cannot be written to.
pub open spec fn timed<F: Inode>(
    fs: &F,
    root: u64,
    mounts: MountTable,
    tags: Seq<MountInUseTag>,
    at: At,
    path: Option<PathRead>,
    opened: Option<(u64, bool)>,
) -> Result<u64, i64> {
    match path {
        None => match opened {
            None => Err(errno::EBADF),
            Some((inode, read_only)) => if read_only {
                Err(errno::EROFS)
            } else {
                Ok(inode)
            },
        },
        Some(read) => paths::named_writable(fs, root, mounts, tags, at, read, true),
    }
}

/// The file that gets the times read before, and those times.
pub fn utimes_apply<F: Inode>(
    fs: &F,
    root: u64,
    mounts: &MountTable,
    tags: &Vec<MountInUseTag>,
    at: &At,
    path: Option<PathRead>,
    opened: Option<(u64, bool)>,
    times: Result<Times, i64>,
) -> (r: Result<(u64, Times), i64>)
    requires
        mounts.wf(),
    ensures
        r == (match times {
            Err(e) => Err(e),
            Ok(t) => match timed(fs, root, *mounts, tags@, *at, path, opened) {
                Err(e) => Err(e),
                Ok(inode) => Ok((inode, t)),
            },
        }),
{
    let t = match times {
        Err(e) => {
            return Err(e);
        },
        Ok(t) => t,
    };
    match path {
        None => match opened {
            None => Err(errno::EBADF),
            Some((inode, read_only)) => {
                if read_only {
                    Err(errno::EROFS)
                } else {
                    Ok((inode, t))
                }
            },
        },
        Some(read) => match paths::resolve_path_writable(fs, root, mounts, tags, at, read, true) {
            Err(e) => Err(e),
            Ok(inode) => Ok((inode, t)),
        },
    }
}

/// What a change of times comes to: the file and its times.
pub open spec fn timed_with<F: Inode>(
    fs: &F,
    root: u64,
    mounts: MountTable,
    tags: Seq<MountInUseTag>,
    at: At,
    path: Option<PathRead>,
    opened: Option<(u64, bool)>,
    times: Result<Times, i64>,
) -> Result<(u64, Times), i64> {
    match times {
        Err(e) => Err(e),
        Ok(t) => match timed(fs, root, mounts, tags, at, path, opened) {
            Err(e) => Err(e),
            Ok(inode) => Ok((inode, t)),
        },
    }
}

/// The two times that a caller gives. Where there is no place for them, none are `given`.
pub struct GivenTimes {
    pub given: bool,
    pub first: Option<Vec<u8>>,
    pub second: Option<Vec<u8>>,
}

impl GivenTimes {
    pub open spec fn wf(&self) -> bool {
        &&& self.first is Some ==> self.first->0@.len() == 16
        &&& self.second is Some ==> self.second->0@.len() == 16
    }
}

/// Changes the times of a file, to times in microseconds.
pub fn sys_futimesat<F: Inode>(
    fs: &F,
    root: u64,
    mounts: &MountTable,
    tags: &Vec<MountInUseTag>,
    at: &At,
    path: Option<PathRead>,
    opened: Option<(u64, bool)>,
    times: GivenTimes,
    now: TimeSpec,
) -> (r: Result<(u64, Times), i64>)
    requires
        mounts.wf(),
        times.wf(),
    ensures
        r == timed_with(
            fs,
            root,
            *mounts,
            tags@,
            *at,
            path,
            opened,
            timevals(
                times.given,
                util::bytes_view(times.first),
                util::bytes_view(times.second),
                now,
            ),
        ),
{
    let read = timeval_pair(times.given, times.first, times.second, now);
    utimes_apply(fs, root, mounts, tags, at, path, opened, read)
}

/// Changes the times of the file at a path, to times in microseconds. Without a path there is no
/// file, unless the number that stands for the working directory is an open descriptor.
pub fn sys_utimes<F: Inode>(
    fs: &F,
    root: u64,
    mounts: &MountTable,
    tags: &Vec<MountInUseTag>,
    at: &At,
    path: Option<PathRead>,
    opened: Option<(u64, bool)>,
    times: GivenTimes,
    now: TimeSpec,
) -> (r: Result<(u64, Times), i64>)
    requires
        mounts.wf(),
        times.wf(),
        at.dirfd == crate::syscall::dispatch::AT_FDCWD,
    ensures
        r == timed_with(
            fs,
            root,
            *mounts,
            tags@,
            *at,
            path,
            opened,
            timevals(
                times.given,
                util::bytes_view(times.first),
                util::bytes_view(times.second),
                now,
            ),
        ),
{
    sys_futimesat(fs, root, mounts, tags, at, path, opened, times, now)
}

/// Changes the times of a file.
pub fn sys_utimensat<F: Inode>(
    fs: &F,
    root: u64,
    mounts: &MountTable,
    tags: &Vec<MountInUseTag>,
    at: &At,
    path: Option<PathRead>,
    opened: Option<(u64, bool)>,
    times: GivenTimes,
    now: TimeSpec,
) -> (r: Result<(u64, Times), i64>)
    requires
        mounts.wf(),
        times.wf(),
    ensures
        r == timed_with(
            fs,
            root,
            *mounts,
            tags@,
            *at,
            path,
            opened,
            times_given(
                times.given,
                util::bytes_view(times.first),
                util::bytes_view(times.second),
                now,
            ),
        ),
{
    let read = read_times(times.given, times.first, times.second, now);
    utimes_apply(fs, root, mounts, tags, at, path, opened, read)
}

/// Where the parts of the attributes stand.
proof fn lemma_layout(
    dev: Seq<u8>,
    ino: Seq<u8>,
    links: Seq<u8>,
    mode: Seq<u8>,
    uid: Seq<u8>,
    gid: Seq<u8>,
    gap: Seq<u8>,
    rdev: Seq<u8>,
    size: Seq<u8>,
    blksize: Seq<u8>,
    blocks: Seq<u8>,
    atime: Seq<u8>,
    mtime: Seq<u8>,
    ctime: Seq<u8>,
    rest: Seq<u8>,
)
    requires
        dev.len() == 8,
        ino.len() == 8,
        links.len() == 8,
        mode.len() == 4,
        uid.len() == 4,
        gid.len() == 4,
        gap.len() == 4,
        rdev.len() == 8,
        size.len() == 8,
    ensures
        ({
            let s = dev + ino + links + mode + uid + gid + gap + rdev + size + blksize + blocks
                + atime + mtime + ctime + rest;
            &&& s.len() == 56 + blksize.len() + blocks.len() + atime.len() + mtime.len()
                + ctime.len() + rest.len()
            &&& s.subrange(8, 16) == ino
            &&& s.subrange(28, 32) == uid
            &&& s.subrange(32, 36) == gid
            &&& s.subrange(48, 56) == size
        }),
{
    let s = dev + ino + links + mode + uid + gid + gap + rdev + size + blksize + blocks + atime
        + mtime + ctime + rest;
    assert(s.subrange(8, 16) =~= ino);
    assert(s.subrange(28, 32) =~= uid);
    assert(s.subrange(32, 36) =~= gid);
    assert(s.subrange(48, 56) =~= size);
}

proof fn lemma_lens(x: u32, y: u64, t: TimeSpec)
    ensures
        bytes::put32(x).len() == 4,
        bytes::put64(y).len() == 8,
        packed(t).len() == 16,
{
}

/// The attributes that are told are read back at their places.
pub proof fn law_attributes_are_told(st: Stat, uid: u32, gid: u32)
    ensures
        packed_stat(st, uid, gid).len() == 144,
        bytes::le64(packed_stat(st, uid, gid), 8) == st.inode_id,
        bytes::le32(packed_stat(st, uid, gid), 28) == uid,
        bytes::le32(packed_stat(st, uid, gid), 32) == gid,
        bytes::le64(packed_stat(st, uid, gid), 48) == st.size,
{
    let s = packed_stat(st, uid, gid);
    lemma_stat_parts(st, uid, gid, s);
    bytes::lemma_at64(s, 8, st.inode_id);
    bytes::lemma_at32(s, 28, uid);
    bytes::lemma_at32(s, 32, gid);
    bytes::lemma_at64(s, 48, st.size);
}

proof fn lemma_stat_parts(st: Stat, uid: u32, gid: u32, s: Seq<u8>)
    requires
        s == packed_stat(st, uid, gid),
    ensures
        s.len() == 144,
        s.subrange(8, 16) == bytes::put64(st.inode_id),
        s.subrange(28, 32) == bytes::put32(uid),
        s.subrange(32, 36) == bytes::put32(gid),
        s.subrange(48, 56) == bytes::put64(st.size),
{
    let mode = kind_bits(st.kind) as u32 | st.mode as u32;
    lemma_lens(mode, st.dev_id, st.atime);
    lemma_lens(uid, st.inode_id, st.mtime);
    lemma_lens(gid, st.nlink as u64, st.ctime);
    lemma_lens(gid, st.rdev, st.ctime);
    lemma_lens(gid, st.size, st.ctime);
    lemma_lens(gid, st.blksize as u64, st.ctime);
    lemma_lens(gid, st.blocks, st.ctime);
    lemma_layout(
        bytes::put64(st.dev_id),
        bytes::put64(st.inode_id),
        bytes::put64(st.nlink as u64),
        bytes::put32(mode),
        bytes::put32(uid),
        bytes::put32(gid),
        bytes::zeros(4),
        bytes::put64(st.rdev),
        bytes::put64(st.size),
        bytes::put64(st.blksize as u64),
        bytes::put64(st.blocks),
        packed(st.atime),
        packed(st.mtime),
        packed(st.ctime),
        bytes::zeros(24),
    );
}

} // verus!
