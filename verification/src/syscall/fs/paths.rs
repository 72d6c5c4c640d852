//! From what a caller calls a file to the inode: the directory it starts from, and the path.
use vstd::prelude::*;
use vstd::string::*;

use crate::errno;
use crate::syscall::dispatch::AT_FDCWD;
use crate::syscall::util;
use crate::text;
use crate::vfs::mount;
use crate::vfs::mount_table::MountTable;
use crate::vfs::path;
use crate::vfs::resolve;
use crate::vfs::resolve::Inode;
use crate::vfs::InodeKind;
use crate::vfs::MountInUseTag;
use crate::vfs::OpenFile;

verus! {

/// What reading a path out of the caller's memory came to.
pub enum PathRead {
    /// It could not be read, or has no end within the space for a path.
    TooLong,
    /// It is not UTF-8.
    NotText,
    Path(String),
}

pub open spec fn path_read(read: PathRead) -> Result<Seq<char>, i64> {
    match read {
        PathRead::TooLong => Err(errno::ENAMETOOLONG),
        PathRead::NotText => Err(errno::EINVAL),
        PathRead::Path(p) => Ok(p@),
    }
}

/// What reading a path comes to: `bytes` is the path up to its end, where it could be read and
/// has one.
pub open spec fn path_in(bytes: Option<Seq<u8>>) -> Result<Seq<char>, i64> {
    match bytes {
        None => Err(errno::ENAMETOOLONG),
        Some(b) => match text::text_of(b) {
            None => Err(errno::EINVAL),
            Some(p) => Ok(p),
        },
    }
}

/// Takes a path out of the bytes that were read.
pub fn read_path(bytes: Option<Vec<u8>>) -> (read: PathRead)
    ensures
        path_read(read) == path_in(util::bytes_view(bytes)),
        read is TooLong <==> bytes is None,
        read is NotText <==> bytes is Some && text::text_of(bytes->0@) is None,
{
    match bytes {
        None => PathRead::TooLong,
        Some(b) => match text::from_utf8(&b) {
            None => PathRead::NotText,
            Some(p) => PathRead::Path(p),
        },
    }
}

/// A result with a text, by its view.
pub open spec fn text_in(r: Result<String, i64>) -> Result<Seq<char>, i64> {
    match r {
        Ok(s) => Ok(s@),
        Err(e) => Err(e),
    }
}

/// The path of a call.
pub fn copy_path(read: PathRead) -> (r: Result<String, i64>)
    ensures
        text_in(r) == path_read(read),
{
    match read {
        PathRead::TooLong => Err(errno::ENAMETOOLONG),
        PathRead::NotText => Err(errno::EINVAL),
        PathRead::Path(p) => Ok(p),
    }
}

/// The name of an extended attribute.
pub fn copy_xname(read: PathRead) -> (r: Result<String, i64>)
    ensures
        text_in(r) == path_read(read),
{
    copy_path(read)
}

/// The file behind a directory descriptor.
pub struct DirFile {
    pub inode: u64,
    pub kind: InodeKind,
    /// The path it was opened under; empty where that is not known.
    pub path: String,
}

/// Where a relative path starts: the descriptor given, the file behind it if it is open, and
/// the working directory.
pub struct At {
    pub dirfd: i64,
    pub dir: Option<DirFile>,
    pub cwd_path: Option<String>,
    pub cwd_inode: Option<u64>,
}

/// The path of the working directory; the root's where there is none.
pub open spec fn cwd_of(cwd_path: Option<String>) -> Seq<char> {
    match cwd_path {
        Some(p) => p@,
        None => "/"@,
    }
}

/// The absolute path that a caller means.
pub open spec fn user_path(at: At, path: Seq<char>) -> Result<Seq<char>, i64> {
    if path.len() == 0 {
        Err(errno::ENOENT)
    } else if path::is_absolute(path) {
        Ok(path::normalized("/"@, path))
    } else if at.dirfd != AT_FDCWD {
        match at.dir {
            None => Err(errno::EBADF),
            Some(dir) => if dir.path@.len() == 0 {
                Err(errno::ENOSYS)
            } else {
                Ok(path::normalized(dir.path@, path))
            },
        }
    } else {
        Ok(path::normalized(cwd_of(at.cwd_path), path))
    }
}

/// Whether a path starts at the root.
pub fn starts_at_root(path: &str) -> (r: bool)
    ensures
        r == path::is_absolute(path@),
{
    let chars = text::to_chars(path);
    chars.len() > 0 && chars[0] == '/'
}

/// Whether a text is empty.
pub fn is_empty(path: &str) -> (r: bool)
    ensures
        r == (path@.len() == 0),
{
    let chars = text::to_chars(path);
    chars.len() == 0
}

/// The absolute path that a caller means.
pub fn resolve_user_path(at: &At, path: &str) -> (r: Result<String, i64>)
    ensures
        text_in(r) == user_path(*at, path@),
{
    if is_empty(path) {
        return Err(errno::ENOENT);
    }
    if starts_at_root(path) {
        return Ok(path::normalize("/", path));
    }
    if at.dirfd != AT_FDCWD {
        return match &at.dir {
            None => Err(errno::EBADF),
            Some(dir) => {
                if is_empty(dir.path.as_str()) {
                    Err(errno::ENOSYS)
                } else {
                    Ok(path::normalize(dir.path.as_str(), path))
                }
            },
        };
    }
    match &at.cwd_path {
        Some(cwd) => Ok(path::normalize(cwd.as_str(), path)),
        None => Ok(path::normalize("/", path)),
    }
}

/// The inode that a path is walked from.
pub open spec fn start_of(at: At, root: u64, path: Seq<char>) -> Result<u64, i64> {
    if path.len() == 0 {
        Err(errno::ENOENT)
    } else if path::is_absolute(path) {
        Ok(root)
    } else if at.dirfd == AT_FDCWD {
        Ok(match at.cwd_inode {
            Some(inode) => inode,
            None => root,
        })
    } else {
        match at.dir {
            None => Err(errno::EBADF),
            Some(dir) => if dir.kind != InodeKind::Directory {
                Err(errno::ENOTDIR)
            } else {
                Ok(dir.inode)
            },
        }
    }
}

fn start_inode(at: &At, root: u64, path: &str) -> (r: Result<u64, i64>)
    ensures
        r == start_of(*at, root, path@),
{
    if is_empty(path) {
        return Err(errno::ENOENT);
    }
    if starts_at_root(path) {
        return Ok(root);
    }
    if at.dirfd == AT_FDCWD {
        return match at.cwd_inode {
            Some(inode) => Ok(inode),
            None => Ok(root),
        };
    }
    match &at.dir {
        None => Err(errno::EBADF),
        Some(dir) => {
            if dir.kind != InodeKind::Directory {
                Err(errno::ENOTDIR)
            } else {
                Ok(dir.inode)
            }
        },
    }
}

/// The inode that a path leads to from where it starts.
pub fn resolve_at_inode<F: Inode>(fs: &F, root: u64, mounts: &MountTable, at: &At, path: &str) -> (r:
    Result<u64, i64>)
    requires
        mounts.wf(),
    ensures
        r == (match start_of(*at, root, path@) {
            Err(e) => Err(e),
            Ok(start) => resolve::inode_of(
                resolve::resolved(fs, root, mounts@, start, path@, true),
            ),
        }),
        r matches Err(e) ==> e < 0,
{
    match start_inode(at, root, path) {
        Err(e) => Err(e),
        Ok(start) => resolve::resolve(fs, root, mounts, start, path),
    }
}

/// The directory that is to hold the name at the end of a path. `mount_flags` are those of
/// the mount that the directory lies in.
pub open spec fn parent_at<F: Inode>(
    fs: &F,
    root: u64,
    mounts: MountTable,
    at: At,
    path: Seq<char>,
    mount_flags: u64,
) -> Result<(u64, Seq<char>), i64> {
    match start_of(at, root, path) {
        Err(e) => Err(e),
        Ok(start) => match resolve::parent_resolved(fs, root, mounts@, start, path) {
            Err(e) => Err(e),
            Ok(found) => if mount_flags & mount::MS_RDONLY != 0 {
                Err(errno::EROFS)
            } else {
                Ok(found)
            },
        },
    }
}

/// A result with an inode and a name, by its view.
pub open spec fn name_in(r: Result<(u64, String), i64>) -> Result<(u64, Seq<char>), i64> {
    match r {
        Ok((inode, name)) => Ok((inode, name@)),
        Err(e) => Err(e),
    }
}

/// The directory that is to hold the name at the end of a path, and that name.
pub fn resolve_at_parent<F: Inode>(
    fs: &F,
    root: u64,
    mounts: &MountTable,
    at: &At,
    path: &str,
    mount_flags: u64,
) -> (r: Result<(u64, String), i64>)
    requires
        mounts.wf(),
    ensures
        name_in(r) == parent_at(fs, root, *mounts, *at, path@, mount_flags),
        r matches Err(e) ==> e < 0,
{
    match start_inode(at, root, path) {
        Err(e) => Err(e),
        Ok(start) => {
            match resolve::resolve_parent(fs, root, mounts, start, path) {
                Err(e) => Err(e),
                Ok((parent, leaf)) => {
                    if mount_flags & mount::MS_RDONLY != 0 {
                        Err(errno::EROFS)
                    } else {
                        Ok((parent, leaf))
                    }
                },
            }
        },
    }
}

/// The inode a caller names, and the mount it was reached through.
pub open spec fn named<F: Inode>(
    fs: &F,
    root: u64,
    mounts: MountTable,
    at: At,
    read: PathRead,
    follow: bool,
) -> Result<resolve::ResolveResult, i64> {
    match path_read(read) {
        Err(e) => Err(e),
        Ok(p) => match user_path(at, p) {
            Err(e) => Err(e),
            Ok(full) => resolve::resolved(fs, root, mounts@, root, full, follow),
        },
    }
}

fn find<F: Inode>(
    fs: &F,
    root: u64,
    mounts: &MountTable,
    at: &At,
    read: PathRead,
    follow: bool,
) -> (r: Result<resolve::ResolveResult, i64>)
    requires
        mounts.wf(),
    ensures
        r == named(fs, root, *mounts, *at, read, follow),
        r matches Err(e) ==> e < 0,
{
    let path = match copy_path(read) {
        Err(e) => return Err(e),
        Ok(p) => p,
    };
    let full = match resolve_user_path(at, path.as_str()) {
        Err(e) => return Err(e),
        Ok(p) => p,
    };
    if follow {
        resolve::resolve_with_mount(fs, root, mounts, root, full.as_str())
    } else {
        resolve::resolve_no_follow_with_mount(fs, root, mounts, root, full.as_str())
    }
}

/// The inode a caller names.
pub fn resolve_path<F: Inode>(
    fs: &F,
    root: u64,
    mounts: &MountTable,
    at: &At,
    read: PathRead,
    follow: bool,
) -> (r: Result<u64, i64>)
    requires
        mounts.wf(),
    ensures
        r == resolve::inode_of(named(fs, root, *mounts, *at, read, follow)),
        r matches Err(e) ==> e < 0,
{
    match find(fs, root, mounts, at, read, follow) {
        Ok(found) => Ok(found.inode),
        Err(e) => Err(e),
    }
}

/// The flags of the mount with a tag; none where there is no mount.
pub open spec fn flags_of(tags: Seq<MountInUseTag>, tag: Option<usize>) -> u64 {
    match tag {
        Some(t) => if t < tags.len() {
            tags[t as int].flags
        } else {
            0
        },
        None => 0,
    }
}

/// The flags of the mount with a tag; none where there is no mount.
pub fn mount_flags(tags: &Vec<MountInUseTag>, tag: Option<usize>) -> (flags: u64)
    ensures
        flags == flags_of(tags@, tag),
{
    match tag {
        Some(t) => {
            if t < tags.len() {
                tags[t].flags()
            } else {
                0
            }
        },
        None => 0,
    }
}

/// Whether a file was reached through a mount that cannot be written to.
pub fn fd_mount_is_rdonly(tags: &Vec<MountInUseTag>, file: &OpenFile) -> (r: bool)
    ensures
        r == (flags_of(tags@, file.mount) & mount::MS_RDONLY != 0),
{
    mount_flags(tags, file.mount) & mount::MS_RDONLY != 0
}

/// `named`, for a call that changes the file.
pub open spec fn named_writable<F: Inode>(
    fs: &F,
    root: u64,
    mounts: MountTable,
    tags: Seq<MountInUseTag>,
    at: At,
    read: PathRead,
    follow: bool,
) -> Result<u64, i64> {
    match named(fs, root, mounts, at, read, follow) {
        Err(e) => Err(e),
        Ok(found) => if flags_of(tags, found.mount_tag) & mount::MS_RDONLY != 0 {
            Err(errno::EROFS)
        } else {
            Ok(found.inode)
        },
    }
}

/// The inode a caller names, for a call that changes the file.
pub fn resolve_path_writable<F: Inode>(
    fs: &F,
    root: u64,
    mounts: &MountTable,
    tags: &Vec<MountInUseTag>,
    at: &At,
    read: PathRead,
    follow: bool,
) -> (r: Result<u64, i64>)
    requires
        mounts.wf(),
    ensures
        r == named_writable(fs, root, *mounts, tags@, *at, read, follow),
        r matches Err(e) ==> e < 0,
{
    match find(fs, root, mounts, at, read, follow) {
        Err(e) => Err(e),
        Ok(found) => {
            if mount_flags(tags, found.mount_tag) & mount::MS_RDONLY != 0 {
                Err(errno::EROFS)
            } else {
                Ok(found.inode)
            }
        },
    }
}

/// The permissions of a new file: those asked for, without what the caller's mask takes away.
pub fn apply_create_mode(mode: u16, umask: u16) -> (r: u16)
    ensures
        r == (mode & 0o7777) & !umask,
{
    (mode & 0o7777) & !umask
}

/// A file that a call may change is never reached through a mount that cannot be written to.
pub proof fn law_read_only_mount_is_not_changed<F: Inode>(
    fs: &F,
    root: u64,
    mounts: MountTable,
    tags: Seq<MountInUseTag>,
    at: At,
    read: PathRead,
    follow: bool,
)
    requires
        named_writable(fs, root, mounts, tags, at, read, follow) is Ok,
    ensures
        named(fs, root, mounts, at, read, follow) is Ok,
        flags_of(tags, named(fs, root, mounts, at, read, follow)->Ok_0.mount_tag) & mount::MS_RDONLY
            == 0,
{
}

/// An absolute path means the same file whatever directory the call starts from.
pub proof fn law_absolute_path_needs_no_directory(at: At, other: At, root: u64, path: Seq<char>)
    requires
        path::is_absolute(path),
    ensures
        user_path(at, path) == user_path(other, path),
        start_of(at, root, path) == start_of(other, root, path),
{
}

} // verus!
