//! What the paths that a caller gives name: for opening, making, renaming, linking and removing.

use vstd::prelude::*;

use super::bits;
use super::resolving;
use super::resolving::{last_mount, plainly};
use crate::syscall::fs::dir;
use crate::syscall::fs::inotify;
use crate::syscall::fs::inotify::Watchers;
use crate::syscall::fs::link;
use crate::syscall::fs::meta;
use crate::syscall::fs::meta::Times;
use crate::syscall::fs::open;
use crate::syscall::fs::open::OpeningView;
use crate::syscall::fs::paths;
use crate::syscall::fs::paths::{At, PathRead};
use crate::syscall::fs::xattr;
use crate::text;
use crate::vfs::context::Context;
use crate::vfs::forest;
use crate::vfs::mount_table::MountTable;
use crate::vfs::path;
use crate::vfs::resolve::{Inode, ResolveResult};
use crate::vfs::{InodeKind, MountInUseTag, OpenFlags};

verus! {

/// A relative path counts from the working directory where the number of the directory is `-100`,
/// and else from the open directory of that number; an absolute one counts from the root, and an
/// empty one names nothing.
pub proof fn law_paths_count_from_their_directory(at: At, p: Seq<char>)
    ensures
        p.len() == 0 ==> paths::user_path(at, p) == Err::<Seq<char>, i64>(-2i64),
        path::is_absolute(p) ==> paths::user_path(at, p) == Ok::<Seq<char>, i64>(
            path::render(path::names_of(seq!['/'], p)),
        ),
        p.len() > 0 && !path::is_absolute(p) && at.dirfd == -100 && at.cwd_path is Some
            ==> paths::user_path(at, p) == Ok::<Seq<char>, i64>(
            path::render(path::names_of(at.cwd_path->0@, p)),
        ),
        p.len() > 0 && !path::is_absolute(p) && at.dirfd == -100 && at.cwd_path is None
            ==> paths::user_path(at, p) == Ok::<Seq<char>, i64>(
            path::render(path::names_of(seq!['/'], p)),
        ),
        p.len() > 0 && !path::is_absolute(p) && at.dirfd != -100 && at.dir is None
            ==> paths::user_path(at, p) == Err::<Seq<char>, i64>(-9i64),
        p.len() > 0 && !path::is_absolute(p) && at.dirfd != -100 && at.dir is Some
            && at.dir->0.path@.len() > 0 ==> paths::user_path(at, p) == Ok::<Seq<char>, i64>(
            path::render(path::names_of(at.dir->0.path@, p)),
        ),
{
    reveal_strlit("/");
    assert("/"@ =~= seq!['/']);
}

/// A walk begins in the working directory where the number of the directory is `-100`, and else in
/// the open directory of that number; for an absolute path it begins at the root.
pub proof fn law_walks_begin_in_their_directory(at: At, root: u64, p: Seq<char>)
    ensures
        p.len() == 0 ==> paths::start_of(at, root, p) == Err::<u64, i64>(-2i64),
        path::is_absolute(p) ==> paths::start_of(at, root, p) == Ok::<u64, i64>(root),
        p.len() > 0 && !path::is_absolute(p) && at.dirfd == -100 && at.cwd_inode is Some
            ==> paths::start_of(at, root, p) == Ok::<u64, i64>(at.cwd_inode->0),
        p.len() > 0 && !path::is_absolute(p) && at.dirfd != -100 && at.dir is Some
            ==> paths::start_of(at, root, p) == (if at.dir->0.kind == InodeKind::Directory {
            Ok::<u64, i64>(at.dir->0.inode)
        } else {
            Err(-20i64)
        }),
        p.len() > 0 && !path::is_absolute(p) && at.dirfd != -100 && at.dir is None
            ==> paths::start_of(at, root, p) == Err::<u64, i64>(-9i64),
{
}

/// The path in memory is this one.
pub open spec fn reads(read: PathRead, names: Seq<Seq<char>>) -> bool {
    path::all_proper(names) && paths::path_read(read) == Ok::<Seq<char>, i64>(path::render(names))
}

proof fn lemma_full(at: At, names: Seq<Seq<char>>)
    requires
        path::all_proper(names),
    ensures
        paths::user_path(at, path::render(names)) == Ok::<Seq<char>, i64>(path::render(names)),
        path::render(names).len() > 0,
        path::is_absolute(path::render(names)),
{
    path::law_render_is_faithful("/"@, names);
}

/// A path through directories names what the last of them holds; where the mount that was crossed
/// last is read-only, it does not name it for writing.
pub proof fn law_path_names_its_inode<F: Inode>(
    fs: &F,
    root: u64,
    mounts: MountTable,
    tags: Seq<MountInUseTag>,
    at: At,
    read: PathRead,
    names: Seq<Seq<char>>,
    follow: bool,
)
    requires
        reads(read, names),
        plainly(fs, root, mounts@, names) is Some,
    ensures
        ({
            let inode = plainly(fs, root, mounts@, names)->0;
            let tag = last_mount(mounts@, names);
            &&& paths::named(fs, root, mounts, at, read, follow) == Ok::<ResolveResult, i64>(
                ResolveResult { inode, mount_tag: tag },
            )
            &&& paths::named_writable(fs, root, mounts, tags, at, read, follow) == (
            if tag is Some && tag->0 < tags.len() && tags[tag->0 as int].flags % 2 == 1 {
                Err::<u64, i64>(-30i64)
            } else {
                Ok(inode)
            })
        }),
{
    lemma_full(at, names);
    resolving::law_plain_path_leads_to_its_inode(fs, root, mounts@, root, names, follow);
    bits::lemma_low_bits(paths::flags_of(tags, last_mount(mounts@, names)));
    bits::lemma_low_bits(0);
}

/// Opening a path opens what is there, and what was crossed on the way is known, unless it is to
/// be new.
pub proof fn law_opening_finds_what_is_there<F: Inode>(
    fs: &F,
    root: u64,
    mounts: MountTable,
    at: At,
    read: PathRead,
    names: Seq<Seq<char>>,
    bits: u32,
    parent_flags: u64,
    ptys: Seq<u32>,
)
    requires
        reads(read, names),
        plainly(fs, root, mounts@, names) is Some,
        open::pty_at(path::render(names), ptys) is None,
    ensures
        ({
            let r = open::opened(
                fs,
                root,
                mounts,
                at,
                read,
                OpenFlags { bits },
                parent_flags,
                ptys,
            );
            let to_be_new = (bits / 0o100) % 2 == 1 && (bits / 0o200) % 2 == 1;
            r == (if to_be_new {
                OpeningView::Fail(-17i64)
            } else {
                OpeningView::Found {
                    inode: plainly(fs, root, mounts@, names)->0,
                    mount: last_mount(mounts@, names),
                }
            })
        }),
{
    lemma_full(at, names);
    resolving::law_plain_path_leads_to_its_inode(fs, root, mounts@, root, names, true);
    bits::lemma_open_bits(bits);
}

/// Opening a path at which there is nothing makes it in the directory before the last name, under
/// that name, where it is to be made, the directory is there and its mount may be written.
pub proof fn law_opening_makes_what_is_missing<F: Inode>(
    fs: &F,
    root: u64,
    mounts: MountTable,
    at: At,
    read: PathRead,
    dirs: Seq<Seq<char>>,
    leaf: Seq<char>,
    bits: u32,
    parent_flags: u64,
    ptys: Seq<u32>,
)
    requires
        reads(read, dirs.push(leaf)),
        plainly(fs, root, mounts@, dirs) is Some,
        fs.kind_of(plainly(fs, root, mounts@, dirs)->0) == InodeKind::Directory,
        fs.child_of(plainly(fs, root, mounts@, dirs)->0, leaf) == Err::<u64, i64>(-2i64),
        open::pty_at(path::render(dirs.push(leaf)), ptys) is None,
    ensures
        open::opened(fs, root, mounts, at, read, OpenFlags { bits }, parent_flags, ptys) == (
        if (bits / 0o100) % 2 == 0 {
            OpeningView::Fail(-2i64)
        } else if parent_flags % 2 == 1 {
            OpeningView::Fail(-30i64)
        } else {
            OpeningView::Create { parent: plainly(fs, root, mounts@, dirs)->0, leaf }
        }),
{
    let none = Seq::<Seq<char>>::empty();
    assert(dirs.push(leaf) + none =~= dirs.push(leaf));
    lemma_full(at, dirs.push(leaf));
    resolving::law_missing_name_is_told(fs, root, mounts@, root, dirs, leaf, none, true);
    resolving::law_directory_holds_the_last_name(fs, root, mounts@, root, dirs, leaf);
    bits::lemma_open_bits(bits);
    bits::lemma_low_bits(parent_flags);
}

/// A new directory is made in the directory before the last name, under that name, unless the
/// mount is read-only; so is another inode, whose kind its mode says.
pub proof fn law_new_entries_stand_under_their_name<F: Inode>(
    fs: &F,
    root: u64,
    mounts: MountTable,
    at: At,
    read: PathRead,
    dirs: Seq<Seq<char>>,
    leaf: Seq<char>,
    mount_flags: u64,
    mode: u64,
    capable: bool,
)
    requires
        reads(read, dirs.push(leaf)),
        plainly(fs, root, mounts@, dirs) is Some,
        fs.kind_of(plainly(fs, root, mounts@, dirs)->0) == InodeKind::Directory,
    ensures
        ({
            let parent = plainly(fs, root, mounts@, dirs)->0;
            let kind = (mode / 0o10000) % 0o20;
            &&& dir::new_directory(fs, root, mounts, at, read, mount_flags) == (if mount_flags % 2
                == 1 {
                Err::<(u64, Seq<char>, InodeKind), i64>(-30i64)
            } else {
                Ok((parent, leaf, InodeKind::Directory))
            })
            &&& dir::new_node(fs, root, mounts, at, read, mount_flags, mode, capable) == (
            if mount_flags % 2 == 1 {
                Err::<(u64, Seq<char>, InodeKind), i64>(-30i64)
            } else if kind == 0 || kind == 8 {
                Ok((parent, leaf, InodeKind::Regular))
            } else if kind == 4 {
                Ok((parent, leaf, InodeKind::Directory))
            } else if kind == 1 {
                Ok((parent, leaf, InodeKind::Pipe))
            } else if kind == 2 && capable {
                Ok((parent, leaf, InodeKind::CharDevice))
            } else if kind == 2 {
                Err(-1i64)
            } else {
                Err(-22i64)
            })
        }),
{
    lemma_full(at, dirs.push(leaf));
    resolving::law_directory_holds_the_last_name(fs, root, mounts@, root, dirs, leaf);
    bits::lemma_low_bits(mount_flags);
    bits::lemma_mode_bits(mode);
    reveal_strlit("/");
    let p = path::render(dirs.push(leaf));
    assert(p != "/"@) by {
        assert(path::is_proper(dirs.push(leaf)[dirs.len() as int]));
        assert(dirs.push(leaf).drop_last() =~= dirs);
        assert(p.len() == path::slashed(dirs).len() + 1 + leaf.len());
    }
}

/// A directory becomes the working directory under the path that leads to it.
pub proof fn law_working_directory_is_the_one_named<F: Inode>(
    fs: &F,
    root: u64,
    mounts: MountTable,
    cwd: Seq<char>,
    read: PathRead,
    target: Seq<char>,
)
    requires
        paths::path_read(read) == Ok::<Seq<char>, i64>(target),
        target.len() > 0,
        plainly(fs, root, mounts@, path::names_of(cwd, target)) is Some,
    ensures
        ({
            let names = path::names_of(cwd, target);
            let inode = plainly(fs, root, mounts@, names)->0;
            dir::changed_cwd(fs, root, mounts, cwd, read) == (if fs.kind_of(inode)
                == InodeKind::Directory {
                Ok::<(u64, Seq<char>), i64>((inode, path::render(names)))
            } else {
                Err(-20i64)
            })
        }),
{
    path::law_names_are_proper(cwd, target);
    resolving::law_plain_path_leads_to_its_inode(
        fs,
        root,
        mounts@,
        root,
        path::names_of(cwd, target),
        true,
    );
}

/// A rename goes from what the first path names to what the second one names.
pub proof fn law_rename_goes_from_the_first_to_the_second<F: Inode>(
    fs: &F,
    root: u64,
    nodes: Seq<forest::NodeView>,
    old_at: At,
    new_at: At,
    from: Seq<Seq<char>>,
    old_leaf: Seq<char>,
    to: Seq<Seq<char>>,
    new_leaf: Seq<char>,
)
    requires
        path::all_proper(from.push(old_leaf)),
        path::all_proper(to.push(new_leaf)),
        plainly(fs, root, nodes, from) is Some,
        plainly(fs, root, nodes, to) is Some,
        fs.kind_of(plainly(fs, root, nodes, from)->0) == InodeKind::Directory,
        fs.kind_of(plainly(fs, root, nodes, to)->0) == InodeKind::Directory,
    ensures
        link::renamed(
            fs,
            root,
            nodes,
            old_at,
            new_at,
            Ok((path::render(from.push(old_leaf)), path::render(to.push(new_leaf)))),
        ) == Ok::<((u64, Seq<char>), (u64, Seq<char>)), i64>(
            (
                (plainly(fs, root, nodes, from)->0, old_leaf),
                (plainly(fs, root, nodes, to)->0, new_leaf),
            ),
        ),
{
    lemma_full(old_at, from.push(old_leaf));
    lemma_full(new_at, to.push(new_leaf));
    resolving::law_directory_holds_the_last_name(fs, root, nodes, root, from, old_leaf);
    resolving::law_directory_holds_the_last_name(fs, root, nodes, root, to, new_leaf);
}

/// A second name is given to what the first path leads to, in the directory before the last name
/// of the second one, under that name; a directory gets none.
pub proof fn law_second_name_is_given_to_the_first_file<F: Inode>(
    fs: &F,
    root: u64,
    nodes: Seq<forest::NodeView>,
    old_at: At,
    new_at: At,
    from: Seq<Seq<char>>,
    to: Seq<Seq<char>>,
    new_leaf: Seq<char>,
)
    requires
        path::all_proper(from),
        path::all_proper(to.push(new_leaf)),
        plainly(fs, root, nodes, from) is Some,
        plainly(fs, root, nodes, to) is Some,
        fs.kind_of(plainly(fs, root, nodes, to)->0) == InodeKind::Directory,
    ensures
        ({
            let file = plainly(fs, root, nodes, from)->0;
            link::linked(
                fs,
                root,
                nodes,
                old_at,
                new_at,
                Ok((path::render(from), path::render(to.push(new_leaf)))),
            ) == (if fs.kind_of(file) == InodeKind::Directory {
                Err::<(u64, u64, Seq<char>), i64>(-1i64)
            } else {
                Ok((file, plainly(fs, root, nodes, to)->0, new_leaf))
            })
        }),
{
    lemma_full(old_at, from);
    lemma_full(new_at, to.push(new_leaf));
    resolving::law_plain_path_leads_to_its_inode(fs, root, nodes, root, from, true);
    resolving::law_directory_holds_the_last_name(fs, root, nodes, root, to, new_leaf);
}

/// A name is removed from the directory before it. A directory is removed only by the flag
/// `0x200`, and nothing else by that; what something is mounted on stays.
pub proof fn law_names_are_removed_by_their_kind<F: Inode>(
    fs: &F,
    ctx: Context,
    tables: Seq<Seq<forest::NodeView>>,
    at: At,
    read: PathRead,
    dirs: Seq<Seq<char>>,
    leaf: Seq<char>,
    target: u64,
    flags: u64,
)
    requires
        reads(read, dirs.push(leaf)),
        plainly(fs, ctx.root, tables[ctx.mounts as int], dirs) is Some,
        fs.kind_of(plainly(fs, ctx.root, tables[ctx.mounts as int], dirs)->0)
            == InodeKind::Directory,
        fs.child_of(plainly(fs, ctx.root, tables[ctx.mounts as int], dirs)->0, leaf) == Ok::<
            u64,
            i64,
        >(target),
    ensures
        ({
            let nodes = tables[ctx.mounts as int];
            let is_mounted_on = exists|i: int|
                0 <= i < nodes.len() && (#[trigger] nodes[i]).data.target_inode_id == target;
            let at_the_top = exists|i: int|
                0 <= i < tables[0].len() && (#[trigger] tables[0][i]).data.target_inode_id
                    == target;
            let directory = fs.kind_of(target) == InodeKind::Directory;
            let asked = (flags / 0x200) % 2 == 1;
            link::removed(fs, ctx, tables, at, read, flags) == (if is_mounted_on || at_the_top {
                Err::<(u64, Seq<char>, bool), i64>(-16i64)
            } else if asked && !directory {
                Err(-20i64)
            } else if !asked && directory {
                Err(-21i64)
            } else {
                Ok((plainly(fs, ctx.root, nodes, dirs)->0, leaf, directory))
            })
        }),
{
    let nodes = tables[ctx.mounts as int];
    lemma_full(at, dirs.push(leaf));
    resolving::law_directory_holds_the_last_name(fs, ctx.root, nodes, ctx.root, dirs, leaf);
    bits::lemma_mode_bits(flags);
}

/// What a link says is told as far as there is room, and how much was told.
pub proof fn law_link_is_told_as_far_as_there_is_room(says: Seq<u8>, buf: u64, size: u64)
    requires
        says.len() <= i64::MAX,
    ensures
        ({
            let r = link::link_told(Ok(says), buf, size);
            let n = if says.len() < size {
                says.len() as int
            } else {
                size as int
            };
            &&& r.code == n
            &&& n > 0 ==> r.out == seq![(buf, says.take(n))]
            &&& n == 0 ==> r.out.len() == 0
        }),
{
}

/// The path of the working directory is told with a zero behind it where there is room for both.
pub proof fn law_working_directory_is_told_whole(p: Seq<u8>, buf: u64, size: u64)
    requires
        p.len() < 4096,
    ensures
        ({
            let r = dir::cwd_told(Some(p), buf, size);
            &&& size > p.len() ==> r.code == p.len() + 1 && r.out == seq![(buf, p.push(0u8))]
            &&& size <= p.len() ==> r.code == -34 && r.out.len() == 0
        }),
{
}

/// Two paths keep their order. One that is too long is refused before one that is no text,
/// where both are read at once; where they are read in turn, the first is refused first.
pub proof fn law_two_paths_are_read_in_order(first: PathRead, second: PathRead)
    ensures
        first is Path && second is Path ==> {
            &&& link::both_read(first, second) matches Ok(pair) && pair.0 == paths::path_read(
                first,
            )->Ok_0 && pair.1 == paths::path_read(second)->Ok_0
            &&& link::read_in_turn(first, second) == link::both_read(first, second)
        },
        first is TooLong || second is TooLong ==> link::both_read(first, second) == Err::<
            (Seq<char>, Seq<char>),
            i64,
        >(-36i64),
        first is NotText && !(second is TooLong) ==> link::both_read(first, second) == Err::<
            (Seq<char>, Seq<char>),
            i64,
        >(-22i64),
        second is NotText && !(first is TooLong) ==> link::both_read(first, second) == Err::<
            (Seq<char>, Seq<char>),
            i64,
        >(-22i64),
        first is NotText ==> link::read_in_turn(first, second) == Err::<
            (Seq<char>, Seq<char>),
            i64,
        >(-22i64),
        first is TooLong ==> link::read_in_turn(first, second) == Err::<
            (Seq<char>, Seq<char>),
            i64,
        >(-36i64),
        first is Path && second is NotText ==> link::read_in_turn(first, second) == Err::<
            (Seq<char>, Seq<char>),
            i64,
        >(-22i64),
        first is Path && second is TooLong ==> link::read_in_turn(first, second) == Err::<
            (Seq<char>, Seq<char>),
            i64,
        >(-36i64),
{
}

/// A path is text; without an end it is too long.
pub proof fn law_path_is_text(b: Seq<u8>)
    ensures
        paths::path_in(None) == Err::<Seq<char>, i64>(-36i64),
        text::text_of(b) is None ==> paths::path_in(Some(b)) == Err::<Seq<char>, i64>(-22i64),
        text::text_of(b) matches Some(t) ==> paths::path_in(Some(b)) == Ok::<Seq<char>, i64>(t),
{
}

/// What is told of is what the path leads to, or what is open where the path is empty and the
/// flag for that is set.
pub proof fn law_attributes_are_those_of_the_file_named<F: Inode>(
    fs: &F,
    root: u64,
    mounts: MountTable,
    at: At,
    read: PathRead,
    names: Seq<Seq<char>>,
    flags: u64,
    opened: Option<u64>,
    empty: PathRead,
)
    requires
        reads(read, names),
        plainly(fs, root, mounts@, names) is Some,
        paths::path_read(empty) == Ok::<Seq<char>, i64>(Seq::empty()),
    ensures
        meta::stat_named(fs, root, mounts, at, read, flags, opened) == Ok::<u64, i64>(
            plainly(fs, root, mounts@, names)->0,
        ),
        (flags / 0x1000) % 2 == 1 ==> meta::stat_named(
            fs,
            root,
            mounts,
            at,
            empty,
            flags,
            opened,
        ) == (match opened {
            Some(inode) => Ok::<u64, i64>(inode),
            None => Err(-9i64),
        }),
        (flags / 0x1000) % 2 == 0 ==> meta::stat_named(fs, root, mounts, at, empty, flags, opened)
            == Err::<u64, i64>(-2i64),
{
    lemma_full(at, names);
    law_path_names_its_inode(fs, root, mounts, Seq::empty(), at, read, names, true);
    bits::lemma_mode_bits(flags);
}

/// Times are set on what the path leads to, or on what is open where there is no path, unless
/// its mount is read-only.
pub proof fn law_times_are_set_on_the_file_named<F: Inode>(
    fs: &F,
    root: u64,
    mounts: MountTable,
    tags: Seq<MountInUseTag>,
    at: At,
    read: PathRead,
    names: Seq<Seq<char>>,
    inode: u64,
    read_only: bool,
    times: Times,
)
    requires
        reads(read, names),
        plainly(fs, root, mounts@, names) is Some,
    ensures
        ({
            let tag = last_mount(mounts@, names);
            let closed = tag is Some && tag->0 < tags.len() && tags[tag->0 as int].flags % 2 == 1;
            let opened = Some((inode, read_only));
            &&& meta::timed_with(fs, root, mounts, tags, at, Some(read), opened, Ok(times)) == (
            if closed {
                Err::<(u64, Times), i64>(-30i64)
            } else {
                Ok((plainly(fs, root, mounts@, names)->0, times))
            })
            &&& meta::timed_with(fs, root, mounts, tags, at, None, opened, Ok(times)) == (
            if read_only {
                Err::<(u64, Times), i64>(-30i64)
            } else {
                Ok((inode, times))
            })
            &&& meta::timed_with(fs, root, mounts, tags, at, None, None, Ok(times)) == Err::<
                (u64, Times),
                i64,
            >(-9i64)
            &&& forall|e: i64| #[trigger]
                meta::timed_with(fs, root, mounts, tags, at, None, opened, Err(e)) == Err::<
                    (u64, Times),
                    i64,
                >(e)
        }),
{
    law_path_names_its_inode(fs, root, mounts, tags, at, read, names, true);
}

/// An attribute of a file is set under its name to the bytes given.
pub proof fn law_attribute_is_set_as_asked(
    inode: u64,
    name: PathRead,
    size: u64,
    value: Seq<u8>,
    flags: u64,
)
    requires
        name is Path,
        flags < 0x1_0000_0000,
    ensures
        ({
            let n = paths::path_read(name)->Ok_0;
            &&& xattr::xattr_set(Ok(inode), name, size, Some(value), flags) matches Ok(set) && set.0
                == inode && set.1 == n && set.2 == (if size == 0 {
                Seq::<u8>::empty()
            } else {
                value
            }) && set.3 == flags
            &&& xattr::xattr_named(Ok(inode), name) matches Ok(found) && found.0 == inode && found.1
                == n
            &&& size != 0 ==> xattr::xattr_set(Ok(inode), name, size, None, flags) == Err::<
                (u64, Seq<char>, Seq<u8>, u32),
                i64,
            >(-14i64)
            &&& forall|e: i64| #[trigger]
                xattr::xattr_set(Err(e), name, size, Some(value), flags) == Err::<
                    (u64, Seq<char>, Seq<u8>, u32),
                    i64,
                >(e)
            &&& forall|e: i64| #[trigger]
                xattr::xattr_named(Err(e), name) == Err::<(u64, Seq<char>), i64>(e)
        }),
{
}

proof fn lemma_whole(at: At, p: Seq<char>, other: At)
    requires
        paths::user_path(at, p) is Ok,
    ensures
        ({
            let full = paths::user_path(at, p)->Ok_0;
            &&& paths::user_path(other, full) == Ok::<Seq<char>, i64>(full)
            &&& path::is_absolute(full)
            &&& full.len() > 0
        }),
{
    reveal_strlit("/");
    let base = if path::is_absolute(p) {
        "/"@
    } else if at.dirfd != -100 {
        at.dir->0.path@
    } else {
        paths::cwd_of(at.cwd_path)
    };
    path::law_names_are_proper(base, p);
    assert(paths::user_path(at, p)->Ok_0 == path::render(path::names_of(base, p)));
    lemma_full(other, path::names_of(base, p));
}

/// A path names the same as the absolute path that it stands for, whatever directory that one is
/// given with.
pub proof fn law_path_names_what_its_absolute_one_does<F: Inode>(
    fs: &F,
    root: u64,
    mounts: MountTable,
    tags: Seq<MountInUseTag>,
    ctx: Context,
    tables: Seq<Seq<forest::NodeView>>,
    at: At,
    other: At,
    given: PathRead,
    whole: PathRead,
    follow: bool,
    flags: u64,
)
    requires
        given is Path,
        paths::user_path(at, paths::path_read(given)->Ok_0) is Ok,
        paths::path_read(whole) == paths::user_path(at, paths::path_read(given)->Ok_0),
    ensures
        paths::named(fs, root, mounts, at, given, follow) == paths::named(
            fs,
            root,
            mounts,
            other,
            whole,
            follow,
        ),
        paths::named_writable(fs, root, mounts, tags, at, given, follow) == paths::named_writable(
            fs,
            root,
            mounts,
            tags,
            other,
            whole,
            follow,
        ),
        link::removed(fs, ctx, tables, at, given, flags) == link::removed(
            fs,
            ctx,
            tables,
            other,
            whole,
            flags,
        ),
{
    lemma_whole(at, paths::path_read(given)->Ok_0, other);
}

/// Each of two paths counts from its own directory.
pub proof fn law_each_path_counts_from_its_directory<F: Inode>(
    fs: &F,
    root: u64,
    nodes: Seq<forest::NodeView>,
    old_at: At,
    new_at: At,
    other: At,
    from: Seq<char>,
    to: Seq<char>,
)
    requires
        paths::user_path(old_at, from) is Ok,
        paths::user_path(new_at, to) is Ok,
    ensures
        ({
            let a = paths::user_path(old_at, from)->Ok_0;
            let b = paths::user_path(new_at, to)->Ok_0;
            &&& link::renamed(fs, root, nodes, old_at, new_at, Ok((from, to))) == link::renamed(
                fs,
                root,
                nodes,
                other,
                other,
                Ok((a, b)),
            )
            &&& link::linked(fs, root, nodes, old_at, new_at, Ok((from, to))) == link::linked(
                fs,
                root,
                nodes,
                other,
                other,
                Ok((a, b)),
            )
        }),
{
    lemma_whole(old_at, from, other);
    lemma_whole(new_at, to, other);
}

/// Where one of two paths cannot be had, nothing is renamed or linked: the first is told first.
pub proof fn law_two_paths_that_cannot_be_had<F: Inode>(
    fs: &F,
    root: u64,
    nodes: Seq<forest::NodeView>,
    old_at: At,
    new_at: At,
    from: Seq<char>,
    to: Seq<char>,
)
    ensures
        ({
            let a = paths::user_path(old_at, from);
            let b = paths::user_path(new_at, to);
            let r = link::renamed(fs, root, nodes, old_at, new_at, Ok((from, to)));
            let l = link::linked(fs, root, nodes, old_at, new_at, Ok((from, to)));
            &&& a is Err ==> r is Err && l is Err && r->Err_0 == a->Err_0 && l->Err_0 == a->Err_0
            &&& a is Ok && b is Err ==> r is Err && l is Err && r->Err_0 == b->Err_0 && l->Err_0
                == b->Err_0
        }),
        forall|e: i64|
            (#[trigger] link::renamed(fs, root, nodes, old_at, new_at, Err(e))) == Err::<
                ((u64, Seq<char>), (u64, Seq<char>)),
                i64,
            >(e),
        forall|e: i64|
            (#[trigger] link::linked(fs, root, nodes, old_at, new_at, Err(e))) == Err::<
                (u64, u64, Seq<char>),
                i64,
            >(e),
{
}

/// A path is opened as the absolute path that it stands for, but for a terminal that is named from
/// an open directory.
pub proof fn law_path_is_opened_as_its_absolute_one<F: Inode>(
    fs: &F,
    root: u64,
    mounts: MountTable,
    at: At,
    other: At,
    given: PathRead,
    whole: PathRead,
    flags: OpenFlags,
    parent_flags: u64,
    ptys: Seq<u32>,
)
    requires
        given is Path,
        paths::user_path(at, paths::path_read(given)->Ok_0) is Ok,
        paths::path_read(whole) == paths::user_path(at, paths::path_read(given)->Ok_0),
        at.dir is Some ==> at.dir->0.kind is Directory,
        open::pty_at(paths::path_read(whole)->Ok_0, ptys) is None,
    ensures
        open::opened(fs, root, mounts, at, given, flags, parent_flags, ptys) == open::opened(
            fs,
            root,
            mounts,
            other,
            whole,
            flags,
            parent_flags,
            ptys,
        ),
{
    lemma_whole(at, paths::path_read(given)->Ok_0, other);
}

/// A name alone is looked up in the open directory from which it counts, also where the path of
/// that directory is not known.
pub proof fn law_name_is_opened_in_its_directory<F: Inode>(
    fs: &F,
    root: u64,
    mounts: MountTable,
    at: At,
    read: PathRead,
    name: Seq<char>,
    child: u64,
    parent_flags: u64,
    ptys: Seq<u32>,
)
    requires
        paths::path_read(read) == Ok::<Seq<char>, i64>(name),
        path::is_proper(name),
        at.dirfd != -100,
        at.dir is Some,
        at.dir->0.path@.len() == 0,
        at.dir->0.kind is Directory,
        fs.child_of(at.dir->0.inode, name) == Ok::<u64, i64>(child),
        !(fs.kind_of(child) is Symlink),
        forest::node_at(mounts@, seq!['/'] + name) is None,
    ensures
        open::opened(fs, root, mounts, at, read, OpenFlags { bits: 0 }, parent_flags, ptys)
            == (OpeningView::Found { inode: child, mount: None }),
{
    resolving::law_name_alone_counts_from_the_start(
        fs,
        root,
        mounts@,
        at.dir->0.inode,
        name,
        child,
        true,
    );
    bits::lemma_open_bits(0);
    assert(!path::is_absolute(name)) by {
        if path::is_absolute(name) {
            assert(name.contains(name[0]));
        }
    }
}

/// A name alone is made in the directory from which it counts.
pub proof fn law_name_is_made_in_its_directory<F: Inode>(
    fs: &F,
    root: u64,
    mounts: MountTable,
    at: At,
    read: PathRead,
    name: Seq<char>,
    mode: u64,
    capable: bool,
)
    requires
        paths::path_read(read) == Ok::<Seq<char>, i64>(name),
        path::is_proper(name),
        paths::start_of(at, root, name) is Ok,
    ensures
        ({
            let start = paths::start_of(at, root, name)->Ok_0;
            fs.kind_of(start) is Directory ==> {
                &&& dir::new_directory(fs, root, mounts, at, read, 0) == Ok::<
                    (u64, Seq<char>, InodeKind),
                    i64,
                >((start, name, InodeKind::Directory))
                &&& dir::new_node(fs, root, mounts, at, read, 0, 0o100644, capable) == Ok::<
                    (u64, Seq<char>, InodeKind),
                    i64,
                >((start, name, InodeKind::Regular))
            }
        }),
{
    let start = paths::start_of(at, root, name)->Ok_0;
    if fs.kind_of(start) is Directory {
        resolving::law_name_alone_is_held_by_the_start(fs, root, mounts@, start, name);
    }
    bits::lemma_low_bits(0);
    bits::lemma_mode_bits(0o100644);
    reveal_strlit("/");
    assert(name != "/"@) by {
        if name == "/"@ {
            assert(name[0] == '/');
            assert(name.contains(name[0]));
        }
    }
}

/// The root is there already, and an empty path leads nowhere.
pub proof fn law_root_is_there<F: Inode>(
    fs: &F,
    root: u64,
    mounts: MountTable,
    at: At,
    cwd: Seq<char>,
    slash: PathRead,
    empty: PathRead,
    flags: u64,
)
    requires
        paths::path_read(slash) == Ok::<Seq<char>, i64>(seq!['/']),
        paths::path_read(empty) == Ok::<Seq<char>, i64>(Seq::empty()),
    ensures
        dir::new_directory(fs, root, mounts, at, slash, flags) == Err::<
            (u64, Seq<char>, InodeKind),
            i64,
        >(-17i64),
        dir::new_directory(fs, root, mounts, at, empty, flags) == Err::<
            (u64, Seq<char>, InodeKind),
            i64,
        >(-2i64),
        dir::changed_cwd(fs, root, mounts, cwd, empty) == Err::<(u64, Seq<char>), i64>(-2i64),
{
    reveal_strlit("/");
    assert("/"@ =~= seq!['/']);
}

/// A path that counts from an open file is opened only where that is a directory.
pub proof fn law_opening_counts_from_a_directory<F: Inode>(
    fs: &F,
    root: u64,
    mounts: MountTable,
    at: At,
    read: PathRead,
    flags: OpenFlags,
    parent_flags: u64,
    ptys: Seq<u32>,
)
    requires
        at.dirfd != -100,
        read is Path,
        !path::is_absolute(paths::path_read(read)->Ok_0),
    ensures
        ({
            let r = open::opened(fs, root, mounts, at, read, flags, parent_flags, ptys);
            let empty = paths::path_read(read)->Ok_0.len() == 0;
            &&& empty ==> r == OpeningView::Fail(-2i64)
            &&& !empty && at.dir is None ==> r == OpeningView::Fail(-9i64)
            &&& !empty && at.dir is Some && !(at.dir->0.kind is Directory) ==> r
                == OpeningView::Fail(-20i64)
        }),
        open::opened(fs, root, mounts, at, PathRead::TooLong, flags, parent_flags, ptys)
            == OpeningView::Fail(-36i64),
        open::opened(fs, root, mounts, at, PathRead::NotText, flags, parent_flags, ptys)
            == OpeningView::Fail(-22i64),
{
}

/// What is watched is what the path leads to; a link at its end is watched itself where the bit
/// `0x2000000` says so.
pub proof fn law_named_file_is_watched<F: Inode>(
    fs: &F,
    root: u64,
    mounts: MountTable,
    watchers: Watchers,
    fd_inode: u64,
    at: At,
    read: PathRead,
    mask: u64,
)
    requires
        mask < 0x1_0000_0000,
    ensures
        ({
            let r = inotify::watched(fs, root, mounts, watchers, Some(fd_inode), at, read, mask);
            let follow = (mask / 0x0200_0000) % 2 == 0;
            let found = paths::named(fs, root, mounts, at, read, follow);
            let known = watchers.by_inode@.contains_key(fd_inode);
            &&& !known ==> r == Err::<(u64, u64, u32), i64>(-9i64)
            &&& known && found is Err ==> r == Err::<(u64, u64, u32), i64>(found->Err_0)
            &&& known && found is Ok ==> r == Ok::<(u64, u64, u32), i64>(
                (watchers.by_inode@[fd_inode], found->Ok_0.inode, mask as u32),
            )
        }),
        inotify::watched(fs, root, mounts, watchers, None, at, read, mask) == Err::<
            (u64, u64, u32),
            i64,
        >(-9i64),
{
    bits::lemma_open_bits(mask as u32);
}

} // verus!
