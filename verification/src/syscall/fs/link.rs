//! Names in directories: removing, renaming and linking.
use vstd::prelude::*;
use vstd::string::*;

use crate::errno;
use crate::syscall::fs::paths;
use crate::syscall::fs::paths::At;
use crate::syscall::fs::paths::PathRead;
use crate::syscall::reply;
use crate::syscall::reply::Reply;
use crate::vfs::context::Context;
use crate::vfs::context::MountWorld;
use crate::vfs::forest;
use crate::vfs::resolve;
use crate::vfs::resolve::Inode;
use crate::vfs::world;
use crate::vfs::InodeKind;

verus! {

/// Asks for a directory to be removed.
pub const AT_REMOVEDIR: u64 = 0x200;

/// A name in a directory.
pub struct Entry {
    pub parent: u64,
    pub leaf: String,
}

impl View for Entry {
    type V = (u64, Seq<char>);

    open spec fn view(&self) -> (u64, Seq<char>) {
        (self.parent, self.leaf@)
    }
}

/// The entry that an absolute path stands for.
pub open spec fn entry_at<F: Inode>(
    fs: &F,
    root: u64,
    nodes: Seq<forest::NodeView>,
    at: At,
    path: Seq<char>,
) -> Result<(u64, Seq<char>), i64> {
    match paths::user_path(at, path) {
        Err(e) => Err(e),
        Ok(full) => resolve::parent_resolved(fs, root, nodes, root, full),
    }
}

pub open spec fn entry_in(r: Result<Entry, i64>) -> Result<(u64, Seq<char>), i64> {
    match r {
        Ok(e) => Ok(e@),
        Err(e) => Err(e),
    }
}

fn find_entry<F: Inode>(fs: &F, ctx: &Context, world: &MountWorld, full: &str) -> (r: Result<
    Entry,
    i64,
>)
    requires
        world.wf(),
        ctx.mounts < world.tables@.len(),
    ensures
        entry_in(r) == resolve::parent_resolved(
            fs,
            ctx.root,
            world@.tables[ctx.mounts as int],
            ctx.root,
            full@,
        ),
{
    assert(world@.tables[ctx.mounts as int] == world.tables@[ctx.mounts as int]@);
    match resolve::resolve_parent(fs, ctx.root, &world.tables[ctx.mounts], ctx.root, full) {
        Err(e) => Err(e),
        Ok((parent, leaf)) => Ok(Entry { parent, leaf }),
    }
}

/// The entry that is to be removed, and whether as a directory.
pub open spec fn removed<F: Inode>(
    fs: &F,
    ctx: Context,
    tables: Seq<Seq<forest::NodeView>>,
    at: At,
    read: PathRead,
    flags: u64,
) -> Result<(u64, Seq<char>, bool), i64> {
    let nodes = tables[ctx.mounts as int];
    match paths::path_read(read) {
        Err(e) => Err(e),
        Ok(p) => match entry_at(fs, ctx.root, nodes, at, p) {
            Err(e) => Err(e),
            Ok((parent, leaf)) => match fs.child_of(parent, leaf) {
                Err(e) => Err(e),
                Ok(target) => {
                    let is_dir = fs.kind_of(target) == InodeKind::Directory;
                    let want_dir = flags & AT_REMOVEDIR != 0;
                    if world::mounted_on(nodes, target) || world::mounted_on(tables[0], target) {
                        Err(errno::EBUSY)
                    } else if want_dir && !is_dir {
                        Err(errno::ENOTDIR)
                    } else if !want_dir && is_dir {
                        Err(errno::EISDIR)
                    } else {
                        Ok((parent, leaf, is_dir))
                    }
                },
            },
        },
    }
}

/// Removes a name: the entry to remove, and whether as a directory.
pub fn sys_unlinkat<F: Inode>(
    fs: &F,
    ctx: &Context,
    world: &MountWorld,
    at: &At,
    read: PathRead,
    flags: u64,
) -> (r: Result<(Entry, bool), i64>)
    requires
        world.wf(),
        ctx.mounts < world.tables@.len(),
    ensures
        (match r {
            Ok((entry, dir)) => Ok((entry@.0, entry@.1, dir)),
            Err(e) => Err(e),
        }) == removed(fs, *ctx, world@.tables, *at, read, flags),
{
    let p = match paths::copy_path(read) {
        Err(e) => {
            return Err(e);
        },
        Ok(p) => p,
    };
    let full = match paths::resolve_user_path(at, p.as_str()) {
        Err(e) => {
            return Err(e);
        },
        Ok(p) => p,
    };
    let entry = match find_entry(fs, ctx, world, full.as_str()) {
        Err(e) => {
            return Err(e);
        },
        Ok(entry) => entry,
    };
    let target: u64 = match fs.lookup(entry.parent, entry.leaf.as_str()) {
        Err(e) => {
            return Err(e);
        },
        Ok(t) => t,
    };
    if world.is_mountpoint_inode(Some(ctx.mounts), target) {
        return Err(errno::EBUSY);
    }
    let want_dir = flags & AT_REMOVEDIR != 0;
    let is_dir = fs.kind(target) == InodeKind::Directory;
    if want_dir && !is_dir {
        return Err(errno::ENOTDIR);
    }
    if !want_dir && is_dir {
        return Err(errno::EISDIR);
    }
    Ok((entry, is_dir))
}

/// What something is mounted on is not removed.
pub proof fn law_mount_point_is_not_removed<F: Inode>(
    fs: &F,
    ctx: Context,
    tables: Seq<Seq<forest::NodeView>>,
    at: At,
    read: PathRead,
    flags: u64,
)
    requires
        removed(fs, ctx, tables, at, read, flags) is Ok,
    ensures
        ({
            let (parent, leaf, dir) = removed(fs, ctx, tables, at, read, flags)->Ok_0;
            &&& fs.child_of(parent, leaf) is Ok
            &&& !world::mounted_on(tables[ctx.mounts as int], fs.child_of(parent, leaf)->Ok_0)
            &&& !world::mounted_on(tables[0], fs.child_of(parent, leaf)->Ok_0)
        }),
{
}

/// Two paths of a call: both are copied before either is checked to be text.
pub open spec fn both_read(first: PathRead, second: PathRead) -> Result<
    (Seq<char>, Seq<char>),
    i64,
> {
    if first is TooLong || second is TooLong {
        Err(errno::ENAMETOOLONG)
    } else if first is NotText || second is NotText {
        Err(errno::EINVAL)
    } else {
        Ok((first->Path_0@, second->Path_0@))
    }
}

fn copy_both(first: PathRead, second: PathRead) -> (r: Result<(String, String), i64>)
    ensures
        (match r {
            Ok((a, b)) => Ok((a@, b@)),
            Err(e) => Err(e),
        }) == both_read(first, second),
{
    match first {
        PathRead::TooLong => Err(errno::ENAMETOOLONG),
        PathRead::NotText => match second {
            PathRead::TooLong => Err(errno::ENAMETOOLONG),
            _ => Err(errno::EINVAL),
        },
        PathRead::Path(a) => match second {
            PathRead::TooLong => Err(errno::ENAMETOOLONG),
            PathRead::NotText => Err(errno::EINVAL),
            PathRead::Path(b) => Ok((a, b)),
        },
    }
}

/// The two entries of a renaming: both paths are made absolute before either is walked.
pub open spec fn renamed<F: Inode>(
    fs: &F,
    root: u64,
    nodes: Seq<forest::NodeView>,
    old_at: At,
    new_at: At,
    paths: Result<(Seq<char>, Seq<char>), i64>,
) -> Result<((u64, Seq<char>), (u64, Seq<char>)), i64> {
    match paths {
        Err(e) => Err(e),
        Ok((from, to)) => match (paths::user_path(old_at, from), paths::user_path(new_at, to)) {
            (Err(e), _) => Err(e),
            (_, Err(e)) => Err(e),
            (Ok(a), Ok(b)) => match (
                resolve::parent_resolved(fs, root, nodes, root, a),
                resolve::parent_resolved(fs, root, nodes, root, b),
            ) {
                (Err(e), _) => Err(e),
                (_, Err(e)) => Err(e),
                (Ok(old_entry), Ok(new_entry)) => Ok((old_entry, new_entry)),
            },
        },
    }
}

pub open spec fn entries_in(r: Result<(Entry, Entry), i64>) -> Result<
    ((u64, Seq<char>), (u64, Seq<char>)),
    i64,
> {
    match r {
        Ok((a, b)) => Ok((a@, b@)),
        Err(e) => Err(e),
    }
}

fn find_both<F: Inode>(
    fs: &F,
    ctx: &Context,
    world: &MountWorld,
    old_at: &At,
    from: &str,
    new_at: &At,
    to: &str,
) -> (r: Result<(Entry, Entry), i64>)
    requires
        world.wf(),
        ctx.mounts < world.tables@.len(),
    ensures
        entries_in(r) == renamed(
            fs,
            ctx.root,
            world@.tables[ctx.mounts as int],
            *old_at,
            *new_at,
            Ok((from@, to@)),
        ),
{
    let a = match paths::resolve_user_path(old_at, from) {
        Err(e) => {
            return Err(e);
        },
        Ok(p) => p,
    };
    let b = match paths::resolve_user_path(new_at, to) {
        Err(e) => {
            return Err(e);
        },
        Ok(p) => p,
    };
    let old_entry = match find_entry(fs, ctx, world, a.as_str()) {
        Err(e) => {
            return Err(e);
        },
        Ok(entry) => entry,
    };
    match find_entry(fs, ctx, world, b.as_str()) {
        Err(e) => Err(e),
        Ok(new_entry) => Ok((old_entry, new_entry)),
    }
}

/// Renames: the entry to take the file from, and the one to put it at.
pub fn sys_renameat<F: Inode>(
    fs: &F,
    ctx: &Context,
    world: &MountWorld,
    old_at: &At,
    old_path: PathRead,
    new_at: &At,
    new_path: PathRead,
) -> (r: Result<(Entry, Entry), i64>)
    requires
        world.wf(),
        ctx.mounts < world.tables@.len(),
    ensures
        entries_in(r) == renamed(
            fs,
            ctx.root,
            world@.tables[ctx.mounts as int],
            *old_at,
            *new_at,
            both_read(old_path, new_path),
        ),
{
    match copy_both(old_path, new_path) {
        Err(e) => Err(e),
        Ok((from, to)) => find_both(fs, ctx, world, old_at, from.as_str(), new_at, to.as_str()),
    }
}

/// Two paths of a call, the first read to its end before the second.
pub open spec fn read_in_turn(first: PathRead, second: PathRead) -> Result<
    (Seq<char>, Seq<char>),
    i64,
> {
    match (paths::path_read(first), paths::path_read(second)) {
        (Err(e), _) => Err(e),
        (_, Err(e)) => Err(e),
        (Ok(a), Ok(b)) => Ok((a, b)),
    }
}

/// Renames. The flags change nothing.
pub fn sys_renameat2<F: Inode>(
    fs: &F,
    ctx: &Context,
    world: &MountWorld,
    old_at: &At,
    old_path: PathRead,
    new_at: &At,
    new_path: PathRead,
) -> (r: Result<(Entry, Entry), i64>)
    requires
        world.wf(),
        ctx.mounts < world.tables@.len(),
    ensures
        entries_in(r) == renamed(
            fs,
            ctx.root,
            world@.tables[ctx.mounts as int],
            *old_at,
            *new_at,
            read_in_turn(old_path, new_path),
        ),
{
    let from = match paths::copy_path(old_path) {
        Err(e) => {
            return Err(e);
        },
        Ok(p) => p,
    };
    let to = match paths::copy_path(new_path) {
        Err(e) => {
            return Err(e);
        },
        Ok(p) => p,
    };
    find_both(fs, ctx, world, old_at, from.as_str(), new_at, to.as_str())
}

/// The file to give another name, and the entry for it.
pub open spec fn linked<F: Inode>(
    fs: &F,
    root: u64,
    nodes: Seq<forest::NodeView>,
    old_at: At,
    new_at: At,
    paths: Result<(Seq<char>, Seq<char>), i64>,
) -> Result<(u64, u64, Seq<char>), i64> {
    match paths {
        Err(e) => Err(e),
        Ok((from, to)) => match (paths::user_path(old_at, from), paths::user_path(new_at, to)) {
            (Err(e), _) => Err(e),
            (_, Err(e)) => Err(e),
            (Ok(a), Ok(b)) => match resolve::inode_of(
                resolve::resolved(fs, root, nodes, root, a, true),
            ) {
                Err(e) => Err(e),
                Ok(target) => if fs.kind_of(target) == InodeKind::Directory {
                    Err(errno::EPERM)
                } else {
                    match resolve::parent_resolved(fs, root, nodes, root, b) {
                        Err(e) => Err(e),
                        Ok((parent, leaf)) => Ok((target, parent, leaf)),
                    }
                },
            },
        },
    }
}

/// Gives a file another name: the file, and the entry for it. A directory has only one name.
pub fn sys_linkat<F: Inode>(
    fs: &F,
    ctx: &Context,
    world: &MountWorld,
    old_at: &At,
    old_path: PathRead,
    new_at: &At,
    new_path: PathRead,
) -> (r: Result<(u64, Entry), i64>)
    requires
        world.wf(),
        ctx.mounts < world.tables@.len(),
    ensures
        (match r {
            Ok((target, entry)) => Ok((target, entry@.0, entry@.1)),
            Err(e) => Err(e),
        }) == linked(
            fs,
            ctx.root,
            world@.tables[ctx.mounts as int],
            *old_at,
            *new_at,
            both_read(old_path, new_path),
        ),
{
    let (from, to) = match copy_both(old_path, new_path) {
        Err(e) => {
            return Err(e);
        },
        Ok(both) => both,
    };
    let a = match paths::resolve_user_path(old_at, from.as_str()) {
        Err(e) => {
            return Err(e);
        },
        Ok(p) => p,
    };
    let b = match paths::resolve_user_path(new_at, to.as_str()) {
        Err(e) => {
            return Err(e);
        },
        Ok(p) => p,
    };
    assert(world@.tables[ctx.mounts as int] == world.tables@[ctx.mounts as int]@);
    let target: u64 = match resolve::resolve(
        fs,
        ctx.root,
        &world.tables[ctx.mounts],
        ctx.root,
        a.as_str(),
    ) {
        Err(e) => {
            return Err(e);
        },
        Ok(i) => i,
    };
    if fs.kind(target) == InodeKind::Directory {
        return Err(errno::EPERM);
    }
    match find_entry(fs, ctx, world, b.as_str()) {
        Err(e) => Err(e),
        Ok(entry) => Ok((target, entry)),
    }
}

/// Makes a symbolic link: the entry for it, and what it says. `mount_flags` are those of the
/// mount that the entry lies in.
pub fn sys_symlinkat<F: Inode>(
    fs: &F,
    ctx: &Context,
    world: &MountWorld,
    target: PathRead,
    new_at: &At,
    link: PathRead,
    mount_flags: u64,
) -> (r: Result<(Entry, String), i64>)
    requires
        world.wf(),
        ctx.mounts < world.tables@.len(),
    ensures
        (match r {
            Ok((entry, says)) => Ok((entry@, says@)),
            Err(e) => Err(e),
        }) == (match both_read(target, link) {
            Err(e) => Err(e),
            Ok((says, path)) => match paths::parent_at(
                fs,
                ctx.root,
                world.tables@[ctx.mounts as int],
                *new_at,
                path,
                mount_flags,
            ) {
                Err(e) => Err(e),
                Ok(entry) => Ok((entry, says)),
            },
        }),
{
    let (says, path) = match copy_both(target, link) {
        Err(e) => {
            return Err(e);
        },
        Ok(both) => both,
    };
    assert(world@.tables[ctx.mounts as int] == world.tables@[ctx.mounts as int]@);
    match paths::resolve_at_parent(
        fs,
        ctx.root,
        &world.tables[ctx.mounts],
        new_at,
        path.as_str(),
        mount_flags,
    ) {
        Err(e) => Err(e),
        Ok((parent, leaf)) => Ok((Entry { parent, leaf }, says)),
    }
}

/// The symbolic link that a path names; it is not followed.
pub fn readlink_target<F: Inode>(
    fs: &F,
    ctx: &Context,
    world: &MountWorld,
    at: &At,
    read: PathRead,
) -> (r: Result<u64, i64>)
    requires
        world.wf(),
        ctx.mounts < world.tables@.len(),
    ensures
        r == resolve::inode_of(
            paths::named(fs, ctx.root, world.tables@[ctx.mounts as int], *at, read, false),
        ),
{
    assert(world@.tables[ctx.mounts as int] == world.tables@[ctx.mounts as int]@);
    paths::resolve_path(fs, ctx.root, &world.tables[ctx.mounts], at, read, false)
}

/// The answer to a question for what a link says: as much of it as there is room for, without an
/// end.
pub open spec fn link_told(says: Result<Seq<u8>, i64>, buf: u64, size: u64) -> reply::ReplyView {
    match says {
        Err(e) => reply::plain(e),
        Ok(s) => {
            let n = if s.len() < size {
                s.len() as int
            } else {
                size as int
            };
            if n > 0 {
                reply::with_bytes(n as i64, buf, s.take(n))
            } else {
                reply::plain(0)
            }
        },
    }
}

pub open spec fn said(r: Result<Vec<u8>, i64>) -> Result<Seq<u8>, i64> {
    match r {
        Ok(s) => Ok(s@),
        Err(e) => Err(e),
    }
}

/// Tells what a symbolic link says: `says` is what reading the link found came to.
pub fn sys_readlinkat(says: Result<Vec<u8>, i64>, buf: u64, size: u64) -> (r: Reply)
    ensures
        r@ == link_told(said(says), buf, size),
{
    let mut s = match says {
        Err(e) => {
            return Reply::plain(e);
        },
        Ok(s) => s,
    };
    if (s.len() as u64) > size {
        s.truncate(size as usize);
    } else {
        assert(s@.take(s@.len() as int) =~= s@);
    }
    let n: usize = s.len();
    if n > 0 {
        Reply::with_bytes(n as i64, buf, s)
    } else {
        Reply::plain(0)
    }
}

} // verus!
