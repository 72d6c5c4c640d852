//! What the flags of the calls on mounts mean, and what these calls come to at the paths given.

use vstd::prelude::*;

use super::binding;
use super::binding::shares_nothing;
use super::bits;
use super::resolving;
use crate::numeral;
use crate::syscall::fs::mount as calls;
use crate::syscall::fs::mount::{Caller, MountArgs, NewRoot, PlanView};
use crate::syscall::fs::paths;
use crate::syscall::fs::paths::PathRead;
use crate::text;
use crate::vfs::context;
use crate::vfs::context::Context;
use crate::vfs::forest;
use crate::vfs::mount;
use crate::vfs::mount_laws;
use crate::vfs::mount_laws::{popped, stack_at};
use crate::vfs::mount_queries;
use crate::vfs::mount_table;
use crate::vfs::path;
use crate::vfs::registry;
use crate::vfs::registry::{MountPropagation, PeerGroup, PeerView, RegistryView};
use crate::vfs::resolve;
use crate::vfs::resolve::Inode;
use crate::vfs::world;
use crate::vfs::{InodeKind, MountInUseTag};

verus! {

/// The flags of a call say what it does: change how a mount passes events on, move a mount, change
/// its flags, bind a part of the tree, or mount a new file system. Of two paths the first is the
/// source and the second the target. All of that is for who may.
pub proof fn law_mounts_by_their_flags(
    caller: Caller,
    args: MountArgs,
    from: PathRead,
    source: Seq<char>,
    target: Seq<char>,
)
    requires
        args.source == Some(from),
        calls::path_for(caller, from) == Ok::<Seq<char>, i64>(source),
        calls::path_for(caller, args.target) == Ok::<Seq<char>, i64>(target),
    ensures
        ({
            let f = args.flags;
            let ways = (f / 0x0002_0000) % 16 != 0;
            let bind = (f / 0x1000) % 2 == 1;
            let moves = (f / 0x2000) % 2 == 1;
            let again = (f / 0x20) % 2 == 1;
            let plan = calls::planned(caller, args, true);
            &&& ways && !bind ==> plan == (PlanView::Propagation { target })
            &&& (!ways || bind) && moves ==> plan == (PlanView::Move { source, target })
            &&& (!ways || bind) && !moves && again ==> plan == (PlanView::Remount { target })
            &&& bind && !moves && !again ==> plan == (PlanView::Bind { source, target })
            &&& !ways && !moves && !again && !bind ==> plan == calls::planned_new(caller, args)
            &&& calls::planned(caller, args, false) == PlanView::Fail(-1i64)
        }),
{
    bits::lemma_mount_bits(args.flags);
    bits::lemma_low_bits(args.flags);
}

/// A new file system is of a kind that there is. Those that are always there need no mount. The
/// source is told as it was given.
pub proof fn law_new_file_systems(
    caller: Caller,
    args: MountArgs,
    from: PathRead,
    source: Seq<char>,
    target: Seq<char>,
    kind: Seq<char>,
)
    requires
        args.source == Some(from),
        paths::path_read(from) == Ok::<Seq<char>, i64>(source),
        calls::path_for(caller, args.target) == Ok::<Seq<char>, i64>(target),
        paths::path_read(args.fstype) == Ok::<Seq<char>, i64>(kind),
    ensures
        kind == "tmpfs"@ || kind == "ext4"@ || kind == "proc"@ || kind == "sysfs"@
            ==> calls::planned_new(caller, args) == (PlanView::New { source, target, fstype: kind }),
        kind == "devtmpfs"@ || kind == "devpts"@ || kind == "mqueue"@ || kind == "cgroup"@ || kind
            == "cgroup2"@ ==> calls::planned_new(caller, args) == PlanView::Done,
        kind == "nfs"@ ==> calls::planned_new(caller, args) == PlanView::Fail(-19i64),
{
    reveal_strlit("tmpfs");
    reveal_strlit("ext4");
    reveal_strlit("proc");
    reveal_strlit("sysfs");
    reveal_strlit("devtmpfs");
    reveal_strlit("devpts");
    reveal_strlit("mqueue");
    reveal_strlit("cgroup");
    reveal_strlit("cgroup2");
    reveal_strlit("nfs");
    assert("tmpfs"@.len() == 5 && "ext4"@.len() == 4 && "proc"@.len() == 4 && "sysfs"@.len() == 5);
    assert("devtmpfs"@.len() == 8 && "devpts"@.len() == 6 && "mqueue"@.len() == 6);
    assert("cgroup"@.len() == 6 && "cgroup2"@.len() == 7 && "nfs"@.len() == 3);
}

/// How a mount passes events on, by the flags of a change: not at all and not to be bound, not at
/// all, to a group, or only from the group that it was in. A mount joins a new group where it was
/// in none.
pub proof fn law_ways_to_pass_events_on(r: RegistryView, was: MountPropagation, flags: u64)
    requires
        r.next_group < u64::MAX,
    ensures
        ({
            let unbindable = (flags / 0x0002_0000) % 2 == 1;
            let private = (flags / 0x0004_0000) % 2 == 1;
            let slave = (flags / 0x0008_0000) % 2 == 1;
            let shared = (flags / 0x0010_0000) % 2 == 1;
            let (now, after) = mount::changed(r, was, flags);
            let (first, next) = mount::fresh(r, flags);
            &&& unbindable ==> now is Unbindable && first is Unbindable
            &&& !unbindable && private ==> now is Private
            &&& !unbindable && !private && shared ==> now == (if was is Shared {
                was
            } else {
                MountPropagation::Shared(PeerGroup(r.next_group))
            })
            &&& !unbindable && !private && !shared && slave ==> now == (match was {
                MountPropagation::Shared(g) => MountPropagation::Slave(g),
                _ => was,
            })
            &&& !unbindable && !private && !shared && !slave ==> now == was
            &&& !unbindable && shared ==> first == MountPropagation::Shared(
                PeerGroup(r.next_group),
            )
            &&& !unbindable && !shared ==> first is Private
            &&& after.next_group == (if now is Shared && !(was is Shared) {
                r.next_group + 1
            } else {
                r.next_group as int
            })
            &&& next.next_group == (if first is Shared {
                r.next_group + 1
            } else {
                r.next_group as int
            })
            &&& after.tags == r.tags && after.peers == r.peers && next.tags == r.tags && next.peers
                == r.peers
        }),
{
    bits::lemma_mount_bits(flags);
}

/// A change is for the mount at the path, and with the bit `0x4000` also for each one below it.
pub proof fn law_changes_reach_below_where_asked(
    nodes: Seq<forest::NodeView>,
    base: Seq<char>,
    flags: u64,
    path: Seq<char>,
)
    requires
        mount_table::well_formed(nodes),
        forest::has_path(nodes, path),
    ensures
        mount::change_targets(nodes, base, flags).contains(path) == (path == base || ((flags
            / 0x4000) % 2 == 1 && forest::is_below(path, base))),
{
    bits::lemma_mount_bits(flags);
    mount_laws::lemma_meant(nodes, base, flags, path);
}

/// Where nothing is shared, a new file system is mounted at the target alone, on top of what is
/// there, with its root, its source, its kind and the flags that a mount keeps.
pub proof fn law_new_file_system_stands_at_the_target<F: Inode>(
    fs: &F,
    ctx: Context,
    top: u64,
    w: context::WorldView,
    source: Seq<char>,
    target: Seq<char>,
    fstype: Seq<char>,
    flags: u64,
    root: u64,
    inode: u64,
    p: Seq<char>,
)
    requires
        context::in_order(w),
        ctx.mounts < w.tables.len() <= u64::MAX,
        shares_nothing(w.tables[ctx.mounts as int]),
        forest::is_mount_path(target),
        w.registry.tags.len() < usize::MAX,
        resolve::inode_of(
            resolve::resolved(
                fs,
                ctx.root,
                w.tables[ctx.mounts as int],
                ctx.root,
                target,
                true,
            ),
        ) == Ok::<u64, i64>(inode),
        fs.kind_of(inode) == InodeKind::Directory,
        fstype != "ext4"@ || source == "/dev/vda"@,
    ensures
        ({
            let t = ctx.mounts as int;
            let (code, freed, after) = calls::mounted(
                fs,
                ctx,
                top,
                w,
                PlanView::New { source, target, fstype },
                flags,
                NewRoot::Root(root),
            );
            let was = stack_at(w.tables[t], target);
            let now = stack_at(after.tables[t], target);
            &&& code == 0 && !freed
            &&& now.len() == was.len() + 1
            &&& now.drop_last() == was
            &&& now.last().root == root
            &&& now.last().target_inode_id == inode
            &&& now.last().source == source
            &&& now.last().fstype == fstype
            &&& after.registry.tags[now.last().in_use as int] == (MountInUseTag {
                refs: 0,
                flags: flags % 16,
            })
            &&& p != target ==> stack_at(after.tables[t], p) == stack_at(w.tables[t], p)
            &&& forall|u: int|
                0 <= u < w.tables.len() && u != t ==> #[trigger] after.tables[u] == w.tables[u]
        }),
{
    let t = ctx.mounts as int;
    bits::lemma_mount_bits(flags);
    let (propagation, r) = mount::fresh(w.registry, flags);
    let w1 = context::WorldView { registry: r, ..w };
    assert(context::in_order(w1)) by {
        assert forall|u: int| 0 <= u < w1.tables.len() implies mount_table::well_formed(
            #[trigger] w1.tables[u],
        ) && mount_table::tags_below(w1.tables[u], w1.registry.tags.len()) by {
            assert(w1.tables[u] == w.tables[u]);
        }
    }
    let what = context::NewMountView {
        root,
        propagation,
        source,
        fstype,
        flags: flags & mount::MOUNT_FLAG_MASK,
    };
    binding::lemma_mounted_here(fs, top, w1, t, target, inode, what);
    mount_laws::lemma_stack_after_mount(w1, t, target, inode, what);
    let was = stack_at(w.tables[t], target);
    let entry = mount_laws::new_entry(inode, what, w.registry.tags.len());
    assert(was.push(entry).drop_last() =~= was);
}

/// A mount that cannot be made is told by its number: the target is no directory, the disk is not
/// the one that there is, is in use, is missing, or holds no file system.
pub proof fn law_refused_mounts<F: Inode>(
    fs: &F,
    ctx: Context,
    top: u64,
    w: context::WorldView,
    target: Seq<char>,
    flags: u64,
    inode: u64,
)
    requires
        resolve::inode_of(
            resolve::resolved(
                fs,
                ctx.root,
                w.tables[ctx.mounts as int],
                ctx.root,
                target,
                true,
            ),
        ) == Ok::<u64, i64>(inode),
    ensures
        ({
            let plan = PlanView::New { source: "/dev/vda"@, target, fstype: "ext4"@ };
            let other = PlanView::New { source: "none"@, target, fstype: "ext4"@ };
            let directory = fs.kind_of(inode) == InodeKind::Directory;
            &&& !directory ==> calls::mounted(fs, ctx, top, w, plan, flags, NewRoot::Busy) == (
                -20i64,
                false,
                w,
            )
            &&& directory ==> calls::mounted(fs, ctx, top, w, plan, flags, NewRoot::Busy) == (
                -16i64,
                false,
                w,
            )
            &&& directory ==> calls::mounted(fs, ctx, top, w, plan, flags, NewRoot::NoDevice) == (
                -19i64,
                true,
                w,
            )
            &&& directory ==> calls::mounted(fs, ctx, top, w, plan, flags, NewRoot::Unreadable) == (
                -22i64,
                true,
                w,
            )
            &&& directory ==> calls::mounted(fs, ctx, top, w, other, flags, NewRoot::Busy) == (
                -19i64,
                false,
                w,
            )
        }),
{
    reveal_strlit("/dev/vda");
    reveal_strlit("none");
    assert("none"@.len() == 4 && "/dev/vda"@.len() == 8);
}

/// The flags of the mount at a path are changed to those that a mount keeps; nothing else is.
pub proof fn law_flags_are_changed_of_one_mount<F: Inode>(
    fs: &F,
    ctx: Context,
    w: context::WorldView,
    target: Seq<char>,
    flags: u64,
    code: i64,
    after: context::WorldView,
    tag: int,
)
    requires
        calls::remounted(fs, ctx, w, target, flags, code, after),
        context::in_order(w),
        ctx.mounts < w.tables.len(),
        forest::has_path(w.tables[ctx.mounts as int], target),
        0 <= tag < w.registry.tags.len(),
    ensures
        ({
            let own = stack_at(w.tables[ctx.mounts as int], target).last().in_use;
            &&& code == 0
            &&& after.tables == w.tables
            &&& after.registry.tags.len() == w.registry.tags.len()
            &&& after.registry.tags[tag] == (if tag == own {
                MountInUseTag { refs: w.registry.tags[tag].refs, flags: flags % 16 }
            } else {
                w.registry.tags[tag]
            })
        }),
{
    bits::lemma_mount_bits(flags);
    let nodes = w.tables[ctx.mounts as int];
    assert(forest::node_at(nodes, target) is Some);
    assert(mount_table::node_tags_below(
        forest::node_at(nodes, target)->0,
        w.registry.tags.len(),
    ));
}

proof fn lemma_unmounted_here(w: context::WorldView, t: int, path: Seq<char>)
    requires
        context::in_order(w),
        0 <= t < w.tables.len(),
        shares_nothing(w.tables[t]),
        forest::has_path(w.tables[t], path),
    ensures
        context::after_unmount_propagating(w, t, path) == context::after_unmount(w, t, path),
{
    let nodes = w.tables[t];
    assert(mount_table::well_formed(nodes));
    forest::lemma_deepest_above(nodes, path, nodes.len() as int);
    match forest::parent_of(nodes, path) {
        None => {},
        Some(i) => {
            forest::lemma_index_of(nodes, i);
            assert(forest::node_at(nodes, nodes[i].path) == Some(nodes[i]));
        },
    }
}

/// Some other mount stands below the path, or the mount at it is in use.
pub open spec fn is_busy(w: context::WorldView, t: int, path: Seq<char>) -> bool {
    w.registry.tags[stack_at(w.tables[t], path).last().in_use as int].refs > 0 || exists|
        below: Seq<char>,
    |
        #![trigger forest::has_path(w.tables[t], below)]
        forest::has_path(w.tables[t], below) && forest::is_below(below, path)
}

/// Without force, a mount is taken away where it is not busy; by force it is in any case. Where
/// nothing is shared, only the mount on top at that path goes, in this table.
pub proof fn law_unmount_takes_the_top_away<F: Inode>(
    fs: &F,
    ctx: Context,
    w: context::WorldView,
    path: Seq<char>,
    flags: u64,
    p: Seq<char>,
)
    requires
        context::in_order(w),
        ctx.mounts < w.tables.len() <= u64::MAX,
        forest::has_path(w.tables[ctx.mounts as int], path),
        shares_nothing(w.tables[ctx.mounts as int]),
        (flags / 8) % 2 == 0,
        (flags / 2) % 2 == 0,
    ensures
        ({
            let t = ctx.mounts as int;
            let (code, after, freed) = mount::after_umount(fs, ctx, w, path, flags);
            let forced = flags % 2 == 1;
            let top = stack_at(w.tables[t], path).last();
            &&& !forced && is_busy(w, t, path) ==> code == -16 && after == w && !freed
            &&& forced || !is_busy(w, t, path) ==> {
                &&& code == 0
                &&& freed == (top.source == "/dev/vda"@)
                &&& stack_at(after.tables[t], p) == (if p == path {
                    popped(stack_at(w.tables[t], p))
                } else {
                    stack_at(w.tables[t], p)
                })
                &&& forall|u: int|
                    0 <= u < w.tables.len() && u != t ==> #[trigger] after.tables[u] == w.tables[u]
            }
        }),
{
    let t = ctx.mounts as int;
    let nodes = w.tables[t];
    bits::lemma_low_bits(flags);
    bits::lemma_mount_bits(flags);
    lemma_unmounted_here(w, t, path);
    mount_laws::lemma_stack_after_unmount(w, t, path);
    let node = forest::node_at(nodes, path)->0;
    assert(stack_at(nodes, path).last() == node.data);
    assert((exists|k: int| 0 <= k < nodes.len() && forest::is_below((#[trigger] nodes[k]).path, path))
        == (exists|below: Seq<char>|
        #![trigger forest::has_path(nodes, below)]
        forest::has_path(nodes, below) && forest::is_below(below, path))) by {
        if exists|k: int| 0 <= k < nodes.len() && forest::is_below((#[trigger] nodes[k]).path, path) {
            let k = choose|k: int|
                0 <= k < nodes.len() && forest::is_below((#[trigger] nodes[k]).path, path);
            assert(forest::has_path(nodes, nodes[k].path));
        }
        if exists|below: Seq<char>|
            #![trigger forest::has_path(nodes, below)]
            forest::has_path(nodes, below) && forest::is_below(below, path) {
            let below = choose|below: Seq<char>|
                #![trigger forest::has_path(nodes, below)]
                forest::has_path(nodes, below) && forest::is_below(below, path);
            let k = forest::index_of(nodes, below);
            assert(forest::is_below(nodes[k].path, path));
        }
    }
}

/// What is not mounted is not unmounted, and the bit `4` asks for what cannot be done.
pub proof fn law_refused_unmounts<F: Inode>(
    fs: &F,
    ctx: Context,
    w: context::WorldView,
    path: Seq<char>,
    flags: u64,
    caller: Caller,
    read: PathRead,
)
    ensures
        (flags / 8) % 2 == 0 && !forest::has_path(w.tables[ctx.mounts as int], path)
            ==> mount::after_umount(fs, ctx, w, path, flags) == (-22i64, w, false),
        calls::umount_target(caller, read, flags, false) == Err::<Seq<char>, i64>(-1i64),
        (flags / 4) % 2 == 1 ==> calls::umount_target(caller, read, flags, true) == Err::<
            Seq<char>,
            i64,
        >(-22i64),
        (flags / 4) % 2 == 0 ==> calls::umount_target(caller, read, flags, true)
            == calls::path_for(caller, read),
{
    bits::lemma_low_bits(flags);
}

proof fn lemma_first_slash(s: Seq<char>, from: int, end: int)
    requires
        0 <= from <= end <= s.len(),
        forall|i: int| from <= i < end ==> #[trigger] s[i] != '/',
        end < s.len() ==> s[end] == '/',
    ensures
        calls::first_slash(s, from) == end,
    decreases end - from,
{
    if from < end {
        lemma_first_slash(s, from + 1, end);
    }
}

/// A path through one of the caller's own descriptors counts from the path that the file was
/// opened under.
pub proof fn law_path_through_a_descriptor(
    n: u32,
    rest: Seq<char>,
    pid: u32,
    fd_paths: Seq<Seq<char>>,
)
    requires
        n < fd_paths.len(),
        n <= i32::MAX,
        fd_paths[n as int].len() > 0,
        rest.len() == 0 || rest[0] == '/',
    ensures
        calls::canonical(
            "/proc/self/fd/"@ + numeral::digits_of(n as nat) + rest,
            pid,
            fd_paths,
        ) == fd_paths[n as int] + rest,
{
    let head = "/proc/self/fd/"@;
    let digits = numeral::digits_of(n as nat);
    let full = head + digits + rest;
    let from = head.len() as int;
    let end = from + digits.len();
    reveal_strlit("/proc/self/fd/");
    numeral::law_number_is_read_back(n);
    assert(full.take(from) =~= head);
    assert(text::begins_with(full, head));
    assert forall|i: int| from <= i < end implies #[trigger] full[i] != '/' by {
        let k = i - from;
        assert(full[i] == digits[k]);
        if digits[0] == '+' {
            if k > 0 {
                assert(digits.skip(1)[k - 1] == digits[k]);
            }
        }
    }
    lemma_first_slash(full, from, end);
    assert(full.subrange(from, end) =~= digits);
    assert(full.skip(end) =~= rest);
    assert(digits[0] != '-');
}

/// A mount that is to pass events on, or to receive them, is among those of its group, and the
/// place it had before is given up; no other mount's place changes.
pub proof fn law_group_knows_its_mounts(
    st: mount_table::TableState,
    id: u64,
    i: int,
    now: MountPropagation,
    p: PeerView,
)
    requires
        mount_table::well_formed(st.nodes),
        0 <= i < st.nodes.len(),
    ensures
        ({
            let path = st.nodes[i].path;
            let after = mount_queries::after_set_propagation(st, id, path, now);
            let here = p.table == id && p.path == path;
            &&& after.registry.tags == st.registry.tags
            &&& after.nodes.len() == st.nodes.len()
            &&& after.nodes[i].data.propagation == now
            &&& now == MountPropagation::Shared(p.group) && here && !p.slave
                ==> after.registry.peers.contains(p)
            &&& now == MountPropagation::Slave(p.group) && here && p.slave
                ==> after.registry.peers.contains(p)
            &&& !here ==> after.registry.peers.contains(p) == st.registry.peers.contains(p)
            &&& (now is Private || now is Unbindable) && here && st.nodes[i].data.propagation
                == MountPropagation::Shared(p.group) && !p.slave ==> !after.registry.peers.contains(
                p,
            )
        }),
{
    let path = st.nodes[i].path;
    forest::lemma_index_of(st.nodes, i);
    let was = st.nodes[i].data.propagation;
    let peers = st.registry.peers;
    let fewer = registry::left(peers, was, id, path);
    if let Some(old_place) = registry::place(was, id, path) {
        let keep = registry::other_place(old_place);
        if fewer.contains(p) {
            let k = choose|k: int| 0 <= k < fewer.len() && fewer[k] == p;
            peers.lemma_filter_contains_rev(keep, p);
            peers.lemma_filter_pred(keep, k);
        }
        if peers.contains(p) && p != old_place {
            let k = choose|k: int| 0 <= k < peers.len() && peers[k] == p;
            assert(keep(peers[k]));
            peers.lemma_filter_contains(keep, k);
        }
    }
    if let Some(new_place) = registry::place(now, id, path) {
        let more = fewer.push(new_place);
        assert(more[fewer.len() as int] == new_place);
        if fewer.contains(p) {
            let k = choose|k: int| 0 <= k < fewer.len() && fewer[k] == p;
            assert(more[k] == p);
        }
    }
}

/// The new root comes first and the place for the old one second; both are directories, and who
/// may not mount does not change them.
pub proof fn law_new_root_comes_first<F: Inode>(
    fs: &F,
    root: u64,
    nodes: Seq<forest::NodeView>,
    caller: Caller,
    first: PathRead,
    second: PathRead,
)
    requires
        first is Path,
        second is Path,
    ensures
        ({
            let r = calls::pivot_directories(fs, root, nodes, caller, first, second, true);
            let a = calls::directory_at(fs, root, nodes, caller.at, paths::path_read(first)->Ok_0);
            let b = calls::directory_at(fs, root, nodes, caller.at, paths::path_read(second)->Ok_0);
            &&& r matches Ok(found) ==> {
                &&& a == Ok::<u64, i64>(found.0)
                &&& b == Ok::<u64, i64>(found.1)
                &&& calls::path_for(caller, first) == Ok::<Seq<char>, i64>(found.2)
                &&& calls::path_for(caller, second) == Ok::<Seq<char>, i64>(found.3)
                &&& fs.kind_of(found.0) is Directory
                &&& fs.kind_of(found.1) is Directory
            }
            &&& a is Ok && b is Ok && calls::path_for(caller, first) is Ok && calls::path_for(
                caller,
                second,
            ) is Ok ==> r is Ok
            &&& a is Err ==> r is Err && r->Err_0 == a->Err_0
        }),
        calls::pivot_directories(fs, root, nodes, caller, first, second, false) == Err::<
            (u64, u64, Seq<char>, Seq<char>),
            i64,
        >(-1i64),
{
}

/// The root of a tree of mounts is not changed for itself, nor put where the new one does not
/// reach.
pub proof fn law_root_is_changed_for_another(
    w: context::WorldView,
    t: int,
    new_root: Seq<char>,
    put_old: Seq<char>,
)
    ensures
        new_root == seq!['/'] ==> world::after_pivot_root(w, t, new_root, put_old) == (
            Err::<(), i64>(-22i64),
            w,
        ),
        !text::begins_with(put_old, new_root) ==> world::after_pivot_root(w, t, new_root, put_old)
            == (Err::<(), i64>(-22i64), w),
        world::after_pivot_root(w, t, new_root, put_old).0 is Err ==> world::after_pivot_root(
            w,
            t,
            new_root,
            put_old,
        ).1 == w,
{
    if put_old == new_root {
        assert(put_old.take(new_root.len() as int) =~= new_root);
    }
}

/// Of the paths at which one thing is mounted, the longest is told.
pub proof fn law_longest_path_is_told(
    nodes: Seq<forest::NodeView>,
    inode: u64,
    given: Seq<char>,
    told: Seq<char>,
    i: int,
)
    requires
        calls::is_real_path(nodes, inode, given, told),
        0 <= i < nodes.len(),
        nodes[i].data.root == inode,
    ensures
        mount_queries::byte_len(nodes[i].path) <= mount_queries::byte_len(told),
        exists|j: int|
            0 <= j < nodes.len() && (#[trigger] nodes[j]).path == told && nodes[j].data.root == inode,
{
    assert(nodes[i].data.root == inode);
}

/// What is mounted nowhere keeps the path that was given.
pub proof fn law_path_stays_where_nothing_is_mounted(
    nodes: Seq<forest::NodeView>,
    inode: u64,
    given: Seq<char>,
    told: Seq<char>,
)
    requires
        calls::is_real_path(nodes, inode, given, told),
        forall|i: int| 0 <= i < nodes.len() ==> (#[trigger] nodes[i]).data.root != inode,
    ensures
        told == given,
{
}

/// The flags of one mount change, and nothing else.
pub proof fn law_flags_of_one_mount_change(w: context::WorldView, tag: usize, flags: u64, other: int)
    requires
        tag < w.registry.tags.len(),
        0 <= other < w.registry.tags.len(),
    ensures
        ({
            let after = world::with_flags(w, tag, flags);
            &&& after.registry.tags[tag as int].flags == flags
            &&& after.registry.tags[tag as int].refs == w.registry.tags[tag as int].refs
            &&& other != tag ==> after.registry.tags[other] == w.registry.tags[other]
            &&& after.registry.peers == w.registry.peers
            &&& after.registry.tags.len() == w.registry.tags.len()
            &&& after.tables == w.tables
        }),
{
}

/// With the bit `8`, the path of an unmount is not followed where it ends in a link, and what is
/// not there is told.
pub proof fn law_link_is_not_followed_on_unmount<F: Inode>(
    fs: &F,
    ctx: Context,
    w: context::WorldView,
    dir: Seq<Seq<char>>,
    name: Seq<char>,
    says: Seq<char>,
)
    ensures
        ({
            let nodes = w.tables[ctx.mounts as int];
            let at = path::render(dir.push(name));
            &&& resolving::holds_link(fs, ctx.root, nodes, dir, name, says) ==> mount::after_umount(
                fs,
                ctx,
                w,
                at,
                8,
            ) == (-22i64, w, false)
            &&& path::all_proper(dir.push(name)) && resolving::plainly(fs, ctx.root, nodes, dir)
                is Some && fs.child_of(resolving::plainly(fs, ctx.root, nodes, dir)->0, name) == Err::<
                u64,
                i64,
            >(-2i64) ==> mount::after_umount(fs, ctx, w, at, 8) == (-2i64, w, false)
        }),
{
    let nodes = w.tables[ctx.mounts as int];
    bits::lemma_low_bits(8);
    let none = Seq::<Seq<char>>::empty();
    assert(dir.push(name) + none =~= dir.push(name));
    if resolving::holds_link(fs, ctx.root, nodes, dir, name, says) {
        resolving::law_link_counts_from_its_directory(
            fs,
            ctx.root,
            nodes,
            ctx.root,
            dir,
            name,
            says,
        );
    }
    if path::all_proper(dir.push(name)) && resolving::plainly(fs, ctx.root, nodes, dir) is Some
        && fs.child_of(resolving::plainly(fs, ctx.root, nodes, dir)->0, name) == Err::<u64, i64>(
        -2i64,
    ) {
        resolving::law_missing_name_is_told(
            fs,
            ctx.root,
            nodes,
            ctx.root,
            dir,
            name,
            none,
            false,
        );
    }
}

/// A file system whose kind cannot be read is not mounted, nor one whose target or source cannot.
pub proof fn law_new_file_systems_that_cannot_be_had(caller: Caller, args: MountArgs)
    ensures
        !(args.fstype is Path) ==> calls::planned_new(caller, args) == PlanView::Fail(-22i64),
        args.fstype is Path && calls::is_mountable(paths::path_read(args.fstype)->Ok_0)
            && !calls::is_built_in(paths::path_read(args.fstype)->Ok_0) ==> {
            let target = calls::path_for(caller, args.target);
            &&& target is Err ==> calls::planned_new(caller, args) == PlanView::Fail(target->Err_0)
            &&& target is Ok && args.source is Some && args.source->0 is TooLong
                ==> calls::planned_new(caller, args) == PlanView::Fail(-36i64)
            &&& target is Ok && args.source is Some && args.source->0 is NotText
                ==> calls::planned_new(caller, args) == PlanView::Fail(-22i64)
        },
{
}

} // verus!
