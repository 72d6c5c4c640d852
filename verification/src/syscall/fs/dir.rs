//! Calls on directories.
use vstd::prelude::*;
use vstd::string::*;

use crate::bytes;
use crate::errno;
use crate::syscall::fs::paths;
use crate::syscall::fs::paths::At;
use crate::syscall::fs::paths::PathRead;
use crate::syscall::reply;
use crate::syscall::reply::Reply;
use crate::text;
use crate::vfs::mount_table::MountTable;
use crate::vfs::path;
use crate::vfs::resolve;
use crate::vfs::resolve::Inode;
use crate::vfs::InodeKind;

verus! {

/// How many bytes of a directory are listed at a time, at most.
pub const DIRENT_BUF_MAX: usize = 4096;

/// How long the path of the working directory may be, with its end.
pub const GETCWD_BUF_MAX: usize = 4096;

/// The working directory that a path leads to, or why there is none.
pub open spec fn changed_cwd<F: Inode>(
    fs: &F,
    root: u64,
    mounts: MountTable,
    cwd: Seq<char>,
    read: PathRead,
) -> Result<(u64, Seq<char>), i64> {
    match paths::path_read(read) {
        Err(e) => Err(e),
        Ok(target) => if target.len() == 0 {
            Err(errno::ENOENT)
        } else {
            let full = path::normalized(cwd, target);
            match resolve::resolved(fs, root, mounts@, root, full, true) {
                Err(e) => Err(e),
                Ok(found) => if fs.kind_of(found.inode) != InodeKind::Directory {
                    Err(errno::ENOTDIR)
                } else {
                    Ok((found.inode, full))
                },
            }
        },
    }
}

/// Changes the working directory: the new one and its path.
pub fn sys_chdir<F: Inode>(
    fs: &F,
    root: u64,
    mounts: &MountTable,
    cwd: &Option<String>,
    read: PathRead,
) -> (r: Result<(u64, String), i64>)
    requires
        mounts.wf(),
    ensures
        paths::name_in(r) == changed_cwd(fs, root, *mounts, paths::cwd_of(*cwd), read),
{
    let target = match paths::copy_path(read) {
        Err(e) => {
            return Err(e);
        },
        Ok(p) => p,
    };
    if paths::is_empty(target.as_str()) {
        return Err(errno::ENOENT);
    }
    let full = match cwd {
        Some(c) => path::normalize(c.as_str(), target.as_str()),
        None => path::normalize("/", target.as_str()),
    };
    match resolve::resolve(fs, root, mounts, root, full.as_str()) {
        Err(e) => Err(e),
        Ok(inode) => {
            if fs.kind(inode) != InodeKind::Directory {
                Err(errno::ENOTDIR)
            } else {
                Ok((inode, full))
            }
        },
    }
}

/// Changes the working directory to an open one. Its path is not known afterwards: it counts
/// as the root's.
pub fn sys_fchdir(file: Option<(u64, InodeKind)>) -> (r: Result<(u64, String), i64>)
    ensures
        paths::name_in(r) == (match file {
            None => Err(errno::EBADF),
            Some((inode, kind)) => if kind != InodeKind::Directory {
                Err(errno::ENOTDIR)
            } else {
                Ok((inode, "/"@))
            },
        }),
{
    match file {
        None => Err(errno::EBADF),
        Some((inode, kind)) => {
            if kind != InodeKind::Directory {
                Err(errno::ENOTDIR)
            } else {
                Ok((inode, String::from_str("/")))
            }
        },
    }
}

/// Changes the root directory. `capable` says whether the caller may.
pub fn sys_chroot<F: Inode>(
    fs: &F,
    root: u64,
    mounts: &MountTable,
    at: &At,
    read: PathRead,
    capable: bool,
) -> (r: Result<u64, i64>)
    requires
        mounts.wf(),
    ensures
        r == (if !capable {
            Err(errno::EPERM)
        } else {
            match resolve::inode_of(paths::named(fs, root, *mounts, *at, read, true)) {
                Err(e) => Err(e),
                Ok(inode) => if fs.kind_of(inode) != InodeKind::Directory {
                    Err(errno::ENOTDIR)
                } else {
                    Ok(inode)
                },
            }
        }),
{
    if !capable {
        return Err(errno::EPERM);
    }
    match paths::resolve_path(fs, root, mounts, at, read, true) {
        Err(e) => Err(e),
        Ok(inode) => {
            if fs.kind(inode) != InodeKind::Directory {
                Err(errno::ENOTDIR)
            } else {
                Ok(inode)
            }
        },
    }
}

/// The answer to a question for the working directory: its path, with a zero at its end.
pub open spec fn cwd_told(path: Option<Seq<u8>>, buf: u64, size: u64) -> reply::ReplyView {
    match path {
        None => reply::plain(errno::EFAULT),
        Some(p) => if size < p.len() + 1 {
            reply::plain(errno::ERANGE)
        } else if p.len() + 1 > GETCWD_BUF_MAX {
            reply::plain(errno::ENAMETOOLONG)
        } else {
            reply::with_bytes((p.len() + 1) as i64, buf, p.push(0))
        },
    }
}

/// Tells the path of the working directory.
pub fn sys_getcwd(path: Option<Vec<u8>>, buf: u64, size: u64) -> (r: Reply)
    ensures
        r@ == cwd_told(crate::syscall::util::bytes_view(path), buf, size),
{
    let mut p = match path {
        None => {
            return Reply::plain(errno::EFAULT);
        },
        Some(p) => p,
    };
    let n: usize = p.len();
    if size <= n as u64 {
        return Reply::plain(errno::ERANGE);
    }
    if n >= GETCWD_BUF_MAX {
        return Reply::plain(errno::ENAMETOOLONG);
    }
    p.push(0);
    Reply::with_bytes((n + 1) as i64, buf, p)
}

/// An entry of a directory, its name in bytes.
pub struct Dirent {
    pub inode_id: u64,
    pub kind: InodeKind,
    pub name: Vec<u8>,
}

/// How a listing tells what an entry is.
pub open spec fn kind_code(kind: InodeKind) -> u8 {
    match kind {
        InodeKind::Regular => 8,
        InodeKind::Directory => 4,
        InodeKind::CharDevice => 2,
        InodeKind::Symlink => 10,
        InodeKind::Pipe => 1,
        InodeKind::Socket => 12,
    }
}

fn type_code(kind: InodeKind) -> (code: u8)
    ensures
        code == kind_code(kind),
{
    match kind {
        InodeKind::Regular => 8,
        InodeKind::Directory => 4,
        InodeKind::CharDevice => 2,
        InodeKind::Symlink => 10,
        InodeKind::Pipe => 1,
        InodeKind::Socket => 12,
    }
}

/// How long the record of an entry is: a multiple of eight.
pub open spec fn record_len(name_len: int, legacy: bool) -> int {
    let needed = name_len + if legacy {
        21int
    } else {
        20
    };
    (needed + 7) / 8 * 8
}

/// The record of the `i`-th entry: inode, the place of the next entry, length, kind and name.
/// In the old form the kind stands at the end.
pub open spec fn record(e: Dirent, i: int, legacy: bool) -> Seq<u8> {
    let len = record_len(e.name@.len() as int, legacy);
    let head = bytes::put64(e.inode_id) + bytes::put64((i + 1) as u64) + bytes::put16(len as u16);
    let fill = bytes::zeros((len - 19 - e.name@.len()) as nat);
    if legacy {
        head + e.name@ + fill + seq![kind_code(e.kind)]
    } else {
        head + seq![kind_code(e.kind)] + e.name@ + fill
    }
}

/// The records of the entries from the `i`-th on that fit, and the first entry left out.
pub open spec fn records(entries: Seq<Dirent>, i: int, room: int, legacy: bool) -> (Seq<u8>, int)
    decreases entries.len() - i,
{
    if i < 0 || i >= entries.len() {
        (Seq::empty(), i)
    } else {
        let len = record_len(entries[i].name@.len() as int, legacy);
        if len > room {
            (Seq::empty(), i)
        } else {
            let rest = records(entries, i + 1, room - len, legacy);
            (record(entries[i], i, legacy) + rest.0, rest.1)
        }
    }
}

fn push_record(out: &mut Vec<u8>, e: &Dirent, i: usize, len: usize, legacy: bool)
    requires
        i < usize::MAX,
        len == record_len(e.name@.len() as int, legacy),
        len <= DIRENT_BUF_MAX,
    ensures
        final(out)@ == old(out)@ + record(*e, i as int, legacy),
{
    let ghost before = out@;
    bytes::push_u64(out, e.inode_id);
    bytes::push_u64(out, (i + 1) as u64);
    bytes::push_u16(out, len as u16);
    if !legacy {
        out.push(type_code(e.kind));
    }
    push_all(out, &e.name);
    bytes::push_zeros(out, len - 19 - e.name.len());
    if legacy {
        out.push(type_code(e.kind));
    }
    assert(out@ =~= before + record(*e, i as int, legacy));
}

fn push_all(out: &mut Vec<u8>, more: &Vec<u8>)
    ensures
        final(out)@ == old(out)@ + more@,
{
    let mut i: usize = 0;
    assert(out@ =~= out@ + more@.take(0));
    while i < more.len()
        invariant
            i <= more@.len(),
            out@ == old(out)@ + more@.take(i as int),
        decreases more.len() - i,
    {
        out.push(more[i]);
        i += 1;
        assert(out@ =~= old(out)@ + more@.take(i as int));
    }
    assert(more@.take(i as int) =~= more@);
}

/// Fills a buffer with the records from an entry on.
pub fn fill_records(entries: &Vec<Dirent>, from: u64, room: usize, legacy: bool) -> (r: (Vec<u8>, u64))
    requires
        room <= DIRENT_BUF_MAX,
    ensures
        (r.0@, r.1 as int) == records(entries@, from as int, room as int, legacy),
        r.0@.len() <= room,
{
    let mut out: Vec<u8> = Vec::new();
    if from >= entries.len() as u64 {
        assert(out@ =~= Seq::empty());
        return (out, from);
    }
    let mut i: usize = from as usize;
    let ghost whole = records(entries@, from as int, room as int, legacy);
    assert(out@ + whole.0 =~= whole.0);
    while i < entries.len()
        invariant
            i <= entries@.len(),
            out@.len() <= room <= DIRENT_BUF_MAX,
            whole.0 == out@ + records(entries@, i as int, room - out@.len(), legacy).0,
            whole.1 == records(entries@, i as int, room - out@.len(), legacy).1,
            whole == records(entries@, from as int, room as int, legacy),
        decreases entries.len() - i,
    {
        let n: usize = entries[i].name.len();
        let ghost rest = records(entries@, i as int, room - out@.len(), legacy);
        if n > DIRENT_BUF_MAX {
            assert(whole.0 =~= out@);
            return (out, i as u64);
        }
        let len: usize = (n + (if legacy {
            21usize
        } else {
            20usize
        }) + 7) / 8 * 8;
        if out.len() + len > room {
            assert(whole.0 =~= out@);
            return (out, i as u64);
        }
        let ghost before = out@;
        push_record(&mut out, &entries[i], i, len, legacy);
        proof {
            let ghost tail = records(entries@, i + 1, room - before.len() - len, legacy);
            lemma_record_len(entries@[i as int], i as int, legacy);
            assert(rest.0 == record(entries@[i as int], i as int, legacy) + tail.0);
            assert(before + rest.0 =~= out@ + tail.0);
        }
        i += 1;
    }
    assert(whole.0 =~= out@);
    (out, i as u64)
}

proof fn lemma_record_len(e: Dirent, i: int, legacy: bool)
    ensures
        record(e, i, legacy).len() == record_len(e.name@.len() as int, legacy),
{
    let len = record_len(e.name@.len() as int, legacy);
    assert(len >= e.name@.len() + 20);
    assert(bytes::zeros((len - 19 - e.name@.len()) as nat).len() == len - 19 - e.name@.len());
}

/// The answer of a listing, and the place to go on from. The place is taken over only where
/// the bytes could be handed over.
pub struct Listing {
    pub reply: Reply,
    pub next: Option<u64>,
}

/// The answer to a listing of a directory from a place on.
pub open spec fn listed(
    file: Option<InodeKind>,
    entries: Result<Seq<Dirent>, i64>,
    offset: u64,
    dirp: u64,
    count: u64,
    legacy: bool,
) -> (reply::ReplyView, Option<u64>) {
    if count < 24 {
        (reply::plain(errno::EINVAL), None)
    } else if file is None {
        (reply::plain(errno::EBADF), None)
    } else if file->0 != InodeKind::Directory {
        (reply::plain(errno::ENOTDIR), None)
    } else {
        match entries {
            Err(e) => (reply::plain(e), None),
            Ok(es) => {
                let room = if count < DIRENT_BUF_MAX {
                    count as int
                } else {
                    DIRENT_BUF_MAX as int
                };
                let (out, next) = records(es, offset as int, room, legacy);
                if out.len() == 0 && next < es.len() {
                    (reply::plain(errno::EINVAL), None)
                } else if out.len() == 0 {
                    (reply::plain(0), Some(next as u64))
                } else {
                    (reply::with_bytes(out.len() as i64, dirp, out), Some(next as u64))
                }
            },
        }
    }
}

pub open spec fn entries_in(r: Result<Vec<Dirent>, i64>) -> Result<Seq<Dirent>, i64> {
    match r {
        Ok(es) => Ok(es@),
        Err(e) => Err(e),
    }
}

fn list(
    file: Option<InodeKind>,
    entries: &Result<Vec<Dirent>, i64>,
    offset: u64,
    dirp: u64,
    count: u64,
    legacy: bool,
) -> (r: Listing)
    ensures
        (r.reply@, r.next) == listed(file, entries_in(*entries), offset, dirp, count, legacy),
{
    if count < 24 {
        return Listing { reply: Reply::plain(errno::EINVAL), next: None };
    }
    match file {
        None => {
            return Listing { reply: Reply::plain(errno::EBADF), next: None };
        },
        Some(kind) => {
            if kind != InodeKind::Directory {
                return Listing { reply: Reply::plain(errno::ENOTDIR), next: None };
            }
        },
    }
    match entries {
        Err(e) => Listing { reply: Reply::plain(*e), next: None },
        Ok(es) => {
            let room: usize = if count < DIRENT_BUF_MAX as u64 {
                count as usize
            } else {
                DIRENT_BUF_MAX
            };
            let (out, next) = fill_records(es, offset, room, legacy);
            let n: usize = out.len();
            if n == 0 && next < es.len() as u64 {
                Listing { reply: Reply::plain(errno::EINVAL), next: None }
            } else if n == 0 {
                Listing { reply: Reply::plain(0), next: Some(next) }
            } else {
                Listing { reply: Reply::with_bytes(n as i64, dirp, out), next: Some(next) }
            }
        },
    }
}

/// Lists a directory in the old form.
pub fn sys_getdents(
    file: Option<InodeKind>,
    entries: &Result<Vec<Dirent>, i64>,
    offset: u64,
    dirp: u64,
    count: u64,
) -> (r: Listing)
    ensures
        (r.reply@, r.next) == listed(file, entries_in(*entries), offset, dirp, count, true),
{
    list(file, entries, offset, dirp, count, true)
}

/// Lists a directory.
pub fn sys_getdents64(
    file: Option<InodeKind>,
    entries: &Result<Vec<Dirent>, i64>,
    offset: u64,
    dirp: u64,
    count: u64,
) -> (r: Listing)
    ensures
        (r.reply@, r.next) == listed(file, entries_in(*entries), offset, dirp, count, false),
{
    list(file, entries, offset, dirp, count, false)
}

/// A listing in two parts, the second from where the first stopped, lists what one with as
/// much room as both took lists.
pub proof fn law_listing_goes_on(
    entries: Seq<Dirent>,
    i: int,
    first: int,
    second: int,
    legacy: bool,
)
    requires
        0 <= i <= entries.len(),
        first >= 0,
        second >= 0,
    ensures
        ({
            let (a, j) = records(entries, i, first, legacy);
            let (b, k) = records(entries, j, second, legacy);
            records(entries, i, a.len() + second, legacy) == (a + b, k)
        }),
    decreases entries.len() - i,
{
    let (a, j) = records(entries, i, first, legacy);
    let (b, k) = records(entries, j, second, legacy);
    if i < entries.len() && record_len(entries[i].name@.len() as int, legacy) <= first {
        let len = record_len(entries[i].name@.len() as int, legacy);
        law_listing_goes_on(entries, i + 1, first - len, second, legacy);
        lemma_record_len(entries[i], i, legacy);
        let one = record(entries[i], i, legacy);
        let (rest, _) = records(entries, i + 1, first - len, legacy);
        assert(a == one + rest);
        assert(one + (rest + b) =~= a + b);
    } else {
        assert(a =~= Seq::empty());
        assert(a + b =~= b);
    }
}

/// Where a new file is to be made, and what it is to be.
pub struct Making {
    pub parent: u64,
    pub leaf: String,
    pub kind: InodeKind,
}

pub open spec fn making_in(r: Result<Making, i64>) -> Result<(u64, Seq<char>, InodeKind), i64> {
    match r {
        Ok(m) => Ok((m.parent, m.leaf@, m.kind)),
        Err(e) => Err(e),
    }
}

/// The place for a new directory, or why there is none.
pub open spec fn new_directory<F: Inode>(
    fs: &F,
    root: u64,
    mounts: MountTable,
    at: At,
    read: PathRead,
    mount_flags: u64,
) -> Result<(u64, Seq<char>, InodeKind), i64> {
    match paths::path_read(read) {
        Err(e) => Err(e),
        Ok(p) => if p == "/"@ {
            Err(errno::EEXIST)
        } else {
            match paths::parent_at(fs, root, mounts, at, p, mount_flags) {
                Err(e) => Err(e),
                Ok((parent, leaf)) => Ok((parent, leaf, InodeKind::Directory)),
            }
        },
    }
}

/// Makes a directory.
pub fn sys_mkdirat<F: Inode>(
    fs: &F,
    root: u64,
    mounts: &MountTable,
    at: &At,
    read: PathRead,
    mount_flags: u64,
) -> (r: Result<Making, i64>)
    requires
        mounts.wf(),
    ensures
        making_in(r) == new_directory(fs, root, *mounts, *at, read, mount_flags),
{
    let p = match paths::copy_path(read) {
        Err(e) => {
            return Err(e);
        },
        Ok(p) => p,
    };
    if text::equal(p.as_str(), "/") {
        return Err(errno::EEXIST);
    }
    match paths::resolve_at_parent(fs, root, mounts, at, p.as_str(), mount_flags) {
        Err(e) => Err(e),
        Ok((parent, leaf)) => Ok(Making { parent, leaf, kind: InodeKind::Directory }),
    }
}

/// The kind of file that a mode asks for.
pub open spec fn kind_in(mode: u64) -> Option<InodeKind> {
    let bits = mode & 0o170000;
    if bits == 0 || bits == 0o100000 {
        Some(InodeKind::Regular)
    } else if bits == 0o040000 {
        Some(InodeKind::Directory)
    } else if bits == 0o020000 {
        Some(InodeKind::CharDevice)
    } else if bits == 0o010000 {
        Some(InodeKind::Pipe)
    } else {
        None
    }
}

/// The place for a new node, or why there is none. A device needs a capability.
pub open spec fn new_node<F: Inode>(
    fs: &F,
    root: u64,
    mounts: MountTable,
    at: At,
    read: PathRead,
    mount_flags: u64,
    mode: u64,
    capable: bool,
) -> Result<(u64, Seq<char>, InodeKind), i64> {
    match paths::path_read(read) {
        Err(e) => Err(e),
        Ok(p) => match paths::parent_at(fs, root, mounts, at, p, mount_flags) {
            Err(e) => Err(e),
            Ok((parent, leaf)) => match kind_in(mode) {
                None => Err(errno::EINVAL),
                Some(kind) => if kind == InodeKind::CharDevice && !capable {
                    Err(errno::EPERM)
                } else {
                    Ok((parent, leaf, kind))
                },
            },
        },
    }
}

/// Makes a file, a directory, a device or a pipe.
pub fn sys_mknodat<F: Inode>(
    fs: &F,
    root: u64,
    mounts: &MountTable,
    at: &At,
    read: PathRead,
    mount_flags: u64,
    mode: u64,
    capable: bool,
) -> (r: Result<Making, i64>)
    requires
        mounts.wf(),
    ensures
        making_in(r) == new_node(fs, root, *mounts, *at, read, mount_flags, mode, capable),
{
    let p = match paths::copy_path(read) {
        Err(e) => {
            return Err(e);
        },
        Ok(p) => p,
    };
    let (parent, leaf) = match paths::resolve_at_parent(
        fs,
        root,
        mounts,
        at,
        p.as_str(),
        mount_flags,
    ) {
        Err(e) => {
            return Err(e);
        },
        Ok(found) => found,
    };
    let bits: u64 = mode & 0o170000;
    let kind = if bits == 0 || bits == 0o100000 {
        InodeKind::Regular
    } else if bits == 0o040000 {
        InodeKind::Directory
    } else if bits == 0o020000 {
        InodeKind::CharDevice
    } else if bits == 0o010000 {
        InodeKind::Pipe
    } else {
        return Err(errno::EINVAL);
    };
    if kind == InodeKind::CharDevice && !capable {
        return Err(errno::EPERM);
    }
    Ok(Making { parent, leaf, kind })
}

} // verus!
