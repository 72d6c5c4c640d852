//! The operations behind mounting and unmounting.

use vstd::prelude::*;
use vstd::string::*;

use crate::errno;
use crate::text;
use crate::vfs::context;
use crate::vfs::context::{Context, MountWorld, NewMount};
use crate::vfs::forest;
use crate::vfs::forest::MountEntry;
use crate::vfs::mount_queries;
use crate::vfs::mount_queries::{path_len, Found};
use crate::vfs::mount_table;
use crate::vfs::path;
use crate::vfs::registry;
use crate::vfs::registry::{MountPropagation, MountRegistry, PeerGroup};
use crate::vfs::resolve;
use crate::vfs::resolve::Inode;

verus! {

pub const MS_RDONLY: u64 = 0x0001;
pub const MS_NOSUID: u64 = 0x0002;
pub const MS_NODEV: u64 = 0x0004;
pub const MS_NOEXEC: u64 = 0x0008;
pub const MOUNT_FLAG_MASK: u64 = 0x000f;
pub const MS_REMOUNT: u64 = 0x0020;
pub const MS_BIND: u64 = 0x1000;
pub const MS_MOVE: u64 = 0x2000;
pub const MS_REC: u64 = 0x4000;
pub const MS_UNBINDABLE: u64 = 0x0002_0000;
pub const MS_PRIVATE: u64 = 0x0004_0000;
pub const MS_SLAVE: u64 = 0x0008_0000;
pub const MS_SHARED: u64 = 0x0010_0000;
pub const PROPAGATION_MASK: u64 = 0x001e_0000;
pub const MNT_FORCE: u64 = 1;
pub const MNT_DETACH: u64 = 2;
pub const MNT_EXPIRE: u64 = 4;
pub const UMOUNT_NOFOLLOW: u64 = 8;

/// The registry after a new group was made.
pub open spec fn with_group(r: registry::RegistryView) -> registry::RegistryView {
    registry::RegistryView { next_group: (r.next_group + 1) as u64, ..r }
}

/// The propagation that the flags ask for on a new mount, and the registry after it was
/// made: shared means a new group.
pub open spec fn fresh(r: registry::RegistryView, flags: u64) -> (
    MountPropagation,
    registry::RegistryView,
) {
    if flags & MS_UNBINDABLE != 0 {
        (MountPropagation::Unbindable, r)
    } else if flags & MS_SHARED != 0 {
        (MountPropagation::Shared(PeerGroup(r.next_group)), with_group(r))
    } else {
        (MountPropagation::Private, r)
    }
}

fn fresh_propagation(registry: &mut MountRegistry, flags: u64) -> (prop: MountPropagation)
    requires
        old(registry)@.next_group < u64::MAX,
    ensures
        (prop, final(registry)@) == fresh(old(registry)@, flags),
{
    if flags & MS_UNBINDABLE != 0 {
        MountPropagation::Unbindable
    } else if flags & MS_SHARED != 0 {
        MountPropagation::Shared(PeerGroup::new_empty(registry))
    } else {
        MountPropagation::Private
    }
}

/// What the flags make of the propagation of a mount, and the registry after that.
/// Unbindable goes before private, that before shared, and that before slave. A shared
/// mount stays in its group; one that is not gets a group of its own. Only a shared
/// mount can become a slave.
pub open spec fn changed(
    r: registry::RegistryView,
    was: MountPropagation,
    flags: u64,
) -> (MountPropagation, registry::RegistryView) {
    if flags & MS_UNBINDABLE != 0 {
        (MountPropagation::Unbindable, r)
    } else if flags & MS_PRIVATE != 0 {
        (MountPropagation::Private, r)
    } else if flags & MS_SHARED != 0 {
        match was {
            MountPropagation::Shared(_) => (was, r),
            _ => (MountPropagation::Shared(PeerGroup(r.next_group)), with_group(r)),
        }
    } else if flags & MS_SLAVE != 0 {
        match was {
            MountPropagation::Shared(g) => (MountPropagation::Slave(g), r),
            _ => (was, r),
        }
    } else {
        (was, r)
    }
}

fn changed_propagation(registry: &mut MountRegistry, was: MountPropagation, flags: u64) -> (prop:
    MountPropagation)
    requires
        old(registry)@.next_group < u64::MAX,
    ensures
        (prop, final(registry)@) == changed(old(registry)@, was, flags),
{
    if flags & MS_UNBINDABLE != 0 {
        MountPropagation::Unbindable
    } else if flags & MS_PRIVATE != 0 {
        MountPropagation::Private
    } else if flags & MS_SHARED != 0 {
        match was {
            MountPropagation::Shared(_) => was,
            _ => MountPropagation::Shared(PeerGroup::new_empty(registry)),
        }
    } else if flags & MS_SLAVE != 0 {
        match was {
            MountPropagation::Shared(g) => MountPropagation::Slave(g),
            _ => was,
        }
    } else {
        was
    }
}

/// A path below `prefix`, by what stands behind it.
pub fn join_subtree(prefix: &str, suffix: &str) -> (path: String)
    ensures
        path@ == context::mirror_path(prefix@, suffix@),
{
    context::join_for_mirror(prefix, suffix)
}

/// The paths of the mounts at and below a path: those of the subtree.
pub open spec fn subtree_paths(nodes: Seq<forest::NodeView>, base: Seq<char>) -> Seq<Seq<char>> {
    mount_queries::subtree(nodes, base).map_values(
        |f: mount_queries::FoundView| context::mirror_path(base, f.suffix),
    )
}

/// The mounts whose propagation changes: with `MS_REC` all at and below the path, if
/// there are any; else the one at the path.
pub open spec fn change_targets(nodes: Seq<forest::NodeView>, base: Seq<char>, flags: u64) -> Seq<
    Seq<char>,
> {
    if flags & MS_REC != 0 && subtree_paths(nodes, base).len() > 0 {
        subtree_paths(nodes, base)
    } else {
        seq![base]
    }
}

/// All tables once the propagation of the mount at a path has changed.
pub open spec fn with_changed(w: context::WorldView, t: int, path: Seq<char>, flags: u64)
    -> context::WorldView {
    match forest::node_at(w.tables[t], path) {
        None => w,
        Some(node) => {
            let (prop, r) = changed(w.registry, node.data.propagation, flags);
            context::with_table(
                w,
                t,
                mount_queries::after_set_propagation(
                    mount_table::TableState { nodes: w.tables[t], registry: r },
                    t as u64,
                    path,
                    prop,
                ),
            )
        },
    }
}

/// All tables once the propagation of the mounts at the first `n` paths has changed.
pub open spec fn with_all_changed(
    w: context::WorldView,
    t: int,
    paths: Seq<Seq<char>>,
    flags: u64,
    n: int,
) -> context::WorldView
    decreases n,
{
    if n <= 0 {
        w
    } else {
        with_changed(with_all_changed(w, t, paths, flags, n - 1), t, paths[n - 1], flags)
    }
}

/// A change of propagation keeps all tables in order.
pub proof fn lemma_with_changed(w: context::WorldView, t: int, path: Seq<char>, flags: u64)
    requires
        context::in_order(w),
        0 <= t < w.tables.len(),
        t <= u64::MAX,
        w.registry.next_group < u64::MAX,
    ensures
        context::in_order(with_changed(w, t, path, flags)),
        with_changed(w, t, path, flags).tables.len() == w.tables.len(),
        with_changed(w, t, path, flags).registry.tags == w.registry.tags,
        w.registry.next_group <= with_changed(w, t, path, flags).registry.next_group
            <= w.registry.next_group + 1,
{
    match forest::node_at(w.tables[t], path) {
        None => {},
        Some(node) => {
            let (prop, r) = changed(w.registry, node.data.propagation, flags);
            let st = mount_table::TableState { nodes: w.tables[t], registry: r };
            let i = forest::index_of(w.tables[t], path);
            assert(forest::is_mount_path(w.tables[t][i].path));
            mount_queries::lemma_set_propagation_wf(st, t as u64, path, prop);
            let after = mount_queries::after_set_propagation(st, t as u64, path, prop);
            context::lemma_left_known(
                r.peers,
                node.data.propagation,
                t as u64,
                path,
                w.tables.len(),
            );
            context::lemma_joined_known(
                registry::left(r.peers, node.data.propagation, t as u64, path),
                prop,
                t as u64,
                path,
                w.tables.len(),
            );
            assert(mount_table::tags_below(after.nodes, w.registry.tags.len()));
            context::lemma_with_table(w, t, after);
        },
    }
}

fn change_one(world: &mut MountWorld, t: usize, target: &str, flags: u64)
    requires
        old(world).wf(),
        t < old(world).tables@.len(),
        old(world)@.registry.next_group < u64::MAX,
    ensures
        final(world).wf(),
        final(world).root == old(world).root,
        final(world).tables@.len() == old(world).tables@.len(),
        final(world)@ == with_changed(old(world)@, t as int, target@, flags),
        final(world)@.registry.next_group <= old(world)@.registry.next_group + 1,
{
    let ghost w = world@;
    assert(world.tables@.len() == world.tables.len());
    proof {
        assert(w.tables[t as int] == world.tables@[t as int]@);
        lemma_with_changed(w, t as int, target@, flags);
    }
    let existing = match world.tables[t].snapshot_one(target) {
        Some(e) => e,
        None => return,
    };
    let prop = changed_propagation(&mut world.registry, existing.propagation, flags);
    let ghost tables = world.tables@;
    let _ = world.tables[t].set_propagation(&mut world.registry, target, prop);
    proof {
        assert(world.tables@ =~= tables.update(t as int, world.tables@[t as int]));
        assert(world@ =~= with_changed(w, t as int, target@, flags));
    }
}

/// Changes how mounts take part in passing events on.
pub fn change_propagation(world: &mut MountWorld, t: usize, t_norm: &str, flags: u64) -> (code: i64)
    requires
        old(world).wf(),
        t < old(world).tables@.len(),
        old(world)@.registry.next_group + change_targets(
            old(world)@.tables[t as int],
            t_norm@,
            flags,
        ).len() < u64::MAX,
    ensures
        final(world).wf(),
        final(world).root == old(world).root,
        code == 0,
        ({
            let targets = change_targets(old(world)@.tables[t as int], t_norm@, flags);
            final(world)@ == with_all_changed(
                old(world)@,
                t as int,
                targets,
                flags,
                targets.len() as int,
            )
        }),
{
    let ghost w = world@;
    assert(w.tables[t as int] == world.tables@[t as int]@);
    let mut targets: Vec<String> = Vec::new();
    assert(path::views(targets@) =~= Seq::empty());
    if (flags & MS_REC) != 0 {
        targets = subtree_path_list(world, t, t_norm);
    }
    if targets.len() == 0 {
        targets.push(t_norm.to_owned());
    }
    let ghost all = change_targets(w.tables[t as int], t_norm@, flags);
    assert(path::views(targets@) =~= all);
    let mut i: usize = 0;
    while i < targets.len()
        invariant
            i <= targets@.len(),
            world.wf(),
            world.root == old(world).root,
            w == old(world)@,
            world.tables@.len() == old(world).tables@.len(),
            t < world.tables@.len(),
            path::views(targets@) == all,
            w.registry.next_group + all.len() < u64::MAX,
            world@.registry.next_group <= w.registry.next_group + i,
            world@ == with_all_changed(w, t as int, all, flags, i as int),
        decreases targets.len() - i,
    {
        assert(all[i as int] == targets@[i as int]@);
        change_one(world, t, targets[i].as_str(), flags);
        i += 1;
    }
    0
}

fn subtree_path_list(world: &MountWorld, t: usize, base: &str) -> (paths: Vec<String>)
    requires
        world.wf(),
        t < world.tables@.len(),
    ensures
        path::views(paths@) == subtree_paths(world@.tables[t as int], base@),
{
    assert(world@.tables[t as int] == world.tables@[t as int]@);
    let found = world.tables[t].collect_subtree(base);
    let ghost sub = mount_queries::subtree(world@.tables[t as int], base@);
    let ghost f = |f: mount_queries::FoundView| context::mirror_path(base@, f.suffix);
    let mut paths: Vec<String> = Vec::new();
    let mut i: usize = 0;
    assert(path::views(paths@) =~= sub.take(0).map_values(f));
    while i < found.len()
        invariant
            i <= found@.len(),
            mount_queries::found_view(found@) == sub,
            f == (|f: mount_queries::FoundView| context::mirror_path(base@, f.suffix)),
            path::views(paths@) == sub.take(i as int).map_values(f),
        decreases found.len() - i,
    {
        assert(sub[i as int] == found@[i as int]@);
        let p = join_subtree(base, found[i].suffix.as_str());
        let ghost before = paths@;
        paths.push(p);
        proof {
            assert(path::views(paths@) =~= path::views(before).push(p@));
            assert(sub.take(i + 1).map_values(f) =~= sub.take(i as int).map_values(f).push(
                f(sub[i as int]),
            ));
        }
        i += 1;
    }
    assert(sub.take(i as int) =~= sub);
    paths
}

/// Mounts something new at a path, and passes that on.
pub fn install_new<F: Inode>(
    fs: &F,
    ctx: &Context,
    world: &mut MountWorld,
    normalized: &str,
    target_inode_id: u64,
    new_root: u64,
    flags: u64,
    source: &str,
    fstype: &str,
) -> (mirrors: Vec<String>)
    requires
        old(world).wf(),
        old(world).root is Some,
        ctx.mounts < old(world).tables@.len(),
        forest::is_mount_path(normalized@),
        old(world)@.registry.next_group < u64::MAX,
    ensures
        final(world).wf(),
        final(world).root == old(world).root,
        final(world).tables@.len() == old(world).tables@.len(),
        (final(world)@, path::views(mirrors@)) == after_install_new(
            fs,
            old(world).root->0,
            old(world)@,
            ctx.mounts as int,
            normalized@,
            target_inode_id,
            new_root,
            flags,
            source@,
            fstype@,
        ),
{
    let propagation = fresh_propagation(&mut world.registry, flags);
    let what = NewMount {
        root: new_root,
        propagation,
        source: source.to_owned(),
        fstype: fstype.to_owned(),
        flags: flags & MOUNT_FLAG_MASK,
    };
    let root: u64 = world.root_inode();
    world.install_mount_propagating(fs, root, ctx.mounts, normalized, target_inode_id, &what)
}

/// All tables once something new is mounted, and the paths at which others received it.
pub open spec fn after_install_new<F: Inode>(
    fs: &F,
    root: u64,
    w: context::WorldView,
    t: int,
    path: Seq<char>,
    target_inode_id: u64,
    new_root: u64,
    flags: u64,
    source: Seq<char>,
    fstype: Seq<char>,
) -> (context::WorldView, Seq<Seq<char>>) {
    let (propagation, r) = fresh(w.registry, flags);
    context::after_mount_propagating(
        fs,
        root,
        context::WorldView { registry: r, ..w },
        t,
        path,
        target_inode_id,
        context::NewMountView {
            root: new_root,
            propagation,
            source,
            fstype,
            flags: flags & MOUNT_FLAG_MASK,
        },
    )
}

/// The propagation of a bind mount: what the flags ask for; where they ask for nothing,
/// the group of the mount that is bound.
pub open spec fn bind_propagation(
    r: registry::RegistryView,
    source: Option<forest::NodeView>,
    flags: u64,
) -> (MountPropagation, registry::RegistryView) {
    if flags & PROPAGATION_MASK != 0 {
        fresh(r, flags)
    } else {
        match source {
            Some(node) => match node.data.propagation {
                MountPropagation::Shared(g) => (MountPropagation::Shared(g), r),
                MountPropagation::Slave(g) => (MountPropagation::Slave(g), r),
                _ => (MountPropagation::Private, r),
            },
            None => (MountPropagation::Private, r),
        }
    }
}

/// The file system type of a bind mount: that of the mount that is bound.
pub open spec fn bind_fstype(source: Option<forest::NodeView>) -> Seq<char> {
    match source {
        Some(node) => node.data.fstype,
        None => "none"@,
    }
}

/// What is mounted for a mount found below the source of a bind.
pub open spec fn as_new_mount(entry: forest::EntryView, flags: u64) -> context::NewMountView {
    context::NewMountView {
        root: entry.root,
        propagation: entry.propagation,
        source: entry.source,
        fstype: entry.fstype,
        flags,
    }
}

/// All tables once the first `n` mounts found below the source are bound below the
/// target. One whose place below the target does not exist is left out, and so is the
/// source itself.
pub open spec fn with_bound<F: Inode>(
    fs: &F,
    ctx: Context,
    root: u64,
    w: context::WorldView,
    found: Seq<mount_queries::FoundView>,
    target: Seq<char>,
    n: int,
) -> context::WorldView
    decreases n,
{
    if n <= 0 {
        w
    } else {
        let prev = with_bound(fs, ctx, root, w, found, target, n - 1);
        let f = found[n - 1];
        let t = ctx.mounts as int;
        let p = context::mirror_path(target, f.suffix);
        if f.suffix.len() == 0 {
            prev
        } else {
            match resolve::resolved(fs, ctx.root, prev.tables[t], ctx.root, p, true) {
                Ok(r) => context::after_mount_propagating(
                    fs,
                    root,
                    prev,
                    t,
                    p,
                    r.inode,
                    as_new_mount(
                        f.entry,
                        prev.registry.tags[f.entry.in_use as int].flags,
                    ),
                ).0,
                Err(_) => prev,
            }
        }
    }
}

/// What a bind of `source` at `target` comes to: a code, and all tables.
pub open spec fn after_bind<F: Inode>(
    fs: &F,
    ctx: Context,
    root: u64,
    w: context::WorldView,
    source: Seq<char>,
    target: Seq<char>,
    flags: u64,
) -> (i64, context::WorldView) {
    let t = ctx.mounts as int;
    let containing = mount_queries::containing(w.tables[t], source);
    let src = resolve::resolved(fs, ctx.root, w.tables[t], ctx.root, source, true);
    let tgt = resolve::resolved(fs, ctx.root, w.tables[t], ctx.root, target, true);
    if containing is Some && containing->0.data.propagation is Unbindable {
        (errno::EINVAL, w)
    } else if src is Err {
        (src->Err_0, w)
    } else if tgt is Err {
        (tgt->Err_0, w)
    } else {
        let (propagation, r) = bind_propagation(w.registry, containing, flags);
        let (bound, _) = context::after_mount_propagating(
            fs,
            root,
            context::WorldView { registry: r, ..w },
            t,
            target,
            tgt->Ok_0.inode,
            context::NewMountView {
                root: src->Ok_0.inode,
                propagation,
                source,
                fstype: bind_fstype(containing),
                flags: flags & MOUNT_FLAG_MASK,
            },
        );
        if flags & MS_REC != 0 {
            let found = mount_queries::subtree(bound.tables[t], source);
            (0, with_bound(fs, ctx, root, bound, found, target, found.len() as int))
        } else {
            (0, bound)
        }
    }
}

/// A mount found below a path stands behind it at a path that something can be mounted
/// at.
proof fn lemma_subtree(nodes: Seq<forest::NodeView>, base: Seq<char>, bound: nat)
    requires
        mount_table::well_formed(nodes),
        mount_table::tags_below(nodes, bound),
        forest::is_mount_path(base),
    ensures
        forall|i: int|
            0 <= i < mount_queries::subtree(nodes, base).len() ==> found_ok(
                #[trigger] mount_queries::subtree(nodes, base)[i],
                bound,
            ),
{
    let sub = mount_queries::subtree(nodes, base);
    if forest::has_path(nodes, base) {
        let k = forest::index_of(nodes, base);
        let end = forest::run_end(nodes, base, k + 1);
        lemma_run(nodes, base, k + 1);
        assert forall|i: int| 0 <= i < sub.len() implies found_ok(#[trigger] sub[i], bound) by {
            if i == 0 {
                assert(mount_table::node_tags_below(forest::node_at(nodes, base)->0, bound));
            } else {
                let node = nodes[k + i];
                assert(nodes.subrange(k + 1, end)[i - 1] == node);
                assert(sub[i] == mount_queries::found_at(node, base));
                lemma_found(nodes, k + i, base, bound);
            }
        }
    } else {
        let places = mount_queries::sorted_below(nodes, base, nodes.len() as int);
        mount_queries::lemma_sorted_below(nodes, base, nodes.len() as int);
        assert forall|i: int| 0 <= i < sub.len() implies found_ok(#[trigger] sub[i], bound) by {
            assert(sub[i] == mount_queries::found_at(nodes[places[i]], base));
            lemma_found(nodes, places[i], base, bound);
        }
    }
}

/// A run of mount points below a path holds only such.
pub proof fn lemma_run(nodes: Seq<forest::NodeView>, base: Seq<char>, i: int)
    requires
        0 <= i <= nodes.len(),
    ensures
        i <= forest::run_end(nodes, base, i) <= nodes.len(),
        forall|j: int|
            i <= j < forest::run_end(nodes, base, i) ==> forest::is_below(
                (#[trigger] nodes[j]).path,
                base,
            ),
    decreases nodes.len() - i,
{
    if i < nodes.len() && forest::is_below(nodes[i].path, base) {
        lemma_run(nodes, base, i + 1);
    }
}

proof fn lemma_found(nodes: Seq<forest::NodeView>, k: int, base: Seq<char>, bound: nat)
    requires
        mount_table::well_formed(nodes),
        mount_table::tags_below(nodes, bound),
        forest::is_mount_path(base),
        0 <= k < nodes.len(),
        forest::is_below(nodes[k].path, base),
    ensures
        found_ok(mount_queries::found_at(nodes[k], base), bound),
{
    forest::lemma_index_of(nodes, k);
    assert(mount_table::node_tags_below(forest::node_at(nodes, nodes[k].path)->0, bound));
    let suffix = mount_queries::suffix_of(nodes[k].path, base);
    assert forall|prefix: Seq<char>| forest::is_mount_path(prefix) implies forest::is_mount_path(
        #[trigger] context::mirror_path(prefix, suffix),
    ) by {
        context::lemma_mirror_path(prefix, nodes[k].path, base);
    }
}

/// Behind any path that something can be mounted at, the mount's suffix gives another;
/// and its tag exists.
pub open spec fn found_ok(f: mount_queries::FoundView, bound: nat) -> bool {
    &&& f.entry.in_use < bound
    &&& forall|prefix: Seq<char>|
        forest::is_mount_path(prefix) ==> forest::is_mount_path(
            #[trigger] context::mirror_path(prefix, f.suffix),
        )
}

fn entry_as_new(entry: &MountEntry, flags: u64) -> (what: NewMount)
    ensures
        what@ == as_new_mount(entry@, flags),
{
    NewMount {
        root: entry.root,
        propagation: entry.propagation,
        source: entry.source.clone(),
        fstype: entry.fstype.clone(),
        flags,
    }
}

/// Mounts a part of the file tree at a second place.
pub fn bind_mount<F: Inode>(
    fs: &F,
    ctx: &Context,
    world: &mut MountWorld,
    s_norm: &str,
    t_norm: &str,
    flags: u64,
) -> (code: i64)
    requires
        old(world).wf(),
        old(world).root is Some,
        ctx.mounts < old(world).tables@.len(),
        forest::is_mount_path(s_norm@),
        forest::is_mount_path(t_norm@),
        old(world)@.registry.next_group < u64::MAX,
    ensures
        final(world).wf(),
        final(world).root == old(world).root,
        final(world).tables@.len() == old(world).tables@.len(),
        (code, final(world)@) == after_bind(
            fs,
            *ctx,
            old(world).root->0,
            old(world)@,
            s_norm@,
            t_norm@,
            flags,
        ),
        code != 0 ==> code < 0 && final(world)@ == old(world)@,
{
    let ghost w = world@;
    let t: usize = ctx.mounts;
    let root: u64 = world.root_inode();
    assert(w.tables[t as int] == world.tables@[t as int]@);
    let containing = world.tables[t].containing_mount(s_norm);
    match &containing {
        Some(entry) => {
            if entry.propagation.is_unbindable() {
                return errno::EINVAL;
            }
        },
        None => {},
    }
    let src: u64 = match resolve::resolve(fs, ctx.root, &world.tables[t], ctx.root, s_norm) {
        Ok(i) => i,
        Err(e) => return e,
    };
    let tgt: u64 = match resolve::resolve(fs, ctx.root, &world.tables[t], ctx.root, t_norm) {
        Ok(i) => i,
        Err(e) => return e,
    };
    let propagation = if flags & PROPAGATION_MASK != 0 {
        fresh_propagation(&mut world.registry, flags)
    } else {
        match &containing {
            Some(entry) => match entry.propagation {
                MountPropagation::Shared(g) => MountPropagation::Shared(g),
                MountPropagation::Slave(g) => MountPropagation::Slave(g),
                _ => MountPropagation::Private,
            },
            None => MountPropagation::Private,
        }
    };
    let fstype = match &containing {
        Some(entry) => entry.fstype.clone(),
        None => String::from_str("none"),
    };
    let what = NewMount {
        root: src,
        propagation,
        source: s_norm.to_owned(),
        fstype,
        flags: flags & MOUNT_FLAG_MASK,
    };
    let _ = world.install_mount_propagating(fs, root, t, t_norm, tgt, &what);
    if (flags & MS_REC) != 0 {
        bind_below(fs, ctx, world, s_norm, t_norm);
    }
    0
}

fn bind_below<F: Inode>(fs: &F, ctx: &Context, world: &mut MountWorld, s_norm: &str, t_norm: &str)
    requires
        old(world).wf(),
        old(world).root is Some,
        ctx.mounts < old(world).tables@.len(),
        forest::is_mount_path(s_norm@),
        forest::is_mount_path(t_norm@),
    ensures
        final(world).wf(),
        final(world).root == old(world).root,
        final(world).tables@.len() == old(world).tables@.len(),
        ({
            let found = mount_queries::subtree(
                old(world)@.tables[ctx.mounts as int],
                s_norm@,
            );
            final(world)@ == with_bound(
                fs,
                *ctx,
                old(world).root->0,
                old(world)@,
                found,
                t_norm@,
                found.len() as int,
            )
        }),
{
    let ghost w = world@;
    let t: usize = ctx.mounts;
    let root: u64 = world.root_inode();
    assert(w.tables[t as int] == world.tables@[t as int]@);
    let found = world.tables[t].collect_subtree(s_norm);
    let ghost all = mount_queries::subtree(w.tables[t as int], s_norm@);
    let ghost bound = w.registry.tags.len();
    proof {
        lemma_subtree(w.tables[t as int], s_norm@, bound);
    }
    let mut i: usize = 0;
    while i < found.len()
        invariant
            i <= found@.len(),
            world.wf(),
            world.root == old(world).root,
            world.root == Some(root),
            world.tables@.len() == old(world).tables@.len(),
            t == ctx.mounts,
            t < world.tables@.len(),
            w == old(world)@,
            forest::is_mount_path(t_norm@),
            mount_queries::found_view(found@) == all,
            bound <= world@.registry.tags.len(),
            forall|j: int| 0 <= j < all.len() ==> found_ok(#[trigger] all[j], bound),
            world@ == with_bound(fs, *ctx, root, w, all, t_norm@, i as int),
        decreases found.len() - i,
    {
        let f = &found[i];
        assert(all[i as int] == f@);
        assert(found_ok(all[i as int], bound));
        assert(world@.tables[t as int] == world.tables@[t as int]@);
        if !f.suffix.as_str().is_empty() {
            let at = join_subtree(t_norm, f.suffix.as_str());
            assert(at@ == context::mirror_path(t_norm@, all[i as int].suffix));
            match resolve::resolve(fs, ctx.root, &world.tables[t], ctx.root, at.as_str()) {
                Ok(inode) => {
                    let sub_flags: u64 = world.registry.tags[f.entry.in_use].flags;
                    let what = entry_as_new(&f.entry, sub_flags);
                    let ghost before = world@;
                    let _ = world.install_mount_propagating(
                        fs,
                        root,
                        t,
                        at.as_str(),
                        inode,
                        &what,
                    );
                    proof {
                        context::lemma_tags_only_grow(
                            fs,
                            root,
                            before,
                            t as int,
                            at@,
                            inode,
                            what@,
                        );
                    }
                },
                Err(_) => {},
            }
        }
        i += 1;
    }
}

/// How the mounts of a subtree are ordered: by what is left of their paths, shorter
/// first or longer first.
pub open spec fn goes_before(a: Seq<char>, b: Seq<char>, longer_first: bool) -> bool {
    if longer_first {
        mount_queries::byte_len(a) > mount_queries::byte_len(b)
    } else {
        mount_queries::byte_len(a) < mount_queries::byte_len(b)
    }
}

/// The place behind the last of the first `n` mounts that the new one does not go before.
pub open spec fn order_rank(
    s: Seq<mount_queries::FoundView>,
    suffix: Seq<char>,
    longer_first: bool,
    n: int,
) -> int
    decreases n,
{
    if n <= 0 {
        0
    } else if !goes_before(suffix, s[n - 1].suffix, longer_first) {
        n
    } else {
        order_rank(s, suffix, longer_first, n - 1)
    }
}

/// The first `n` mounts in order; those as long stay as they are.
pub open spec fn ordered(s: Seq<mount_queries::FoundView>, longer_first: bool, n: int) -> Seq<
    mount_queries::FoundView,
>
    decreases n,
{
    if n <= 0 {
        Seq::empty()
    } else {
        let front = ordered(s, longer_first, n - 1);
        front.insert(
            order_rank(front, s[n - 1].suffix, longer_first, front.len() as int),
            s[n - 1],
        )
    }
}

/// The place that a mount gets lies among the others.
pub proof fn lemma_order_rank(
    s: Seq<mount_queries::FoundView>,
    suffix: Seq<char>,
    longer_first: bool,
    n: int,
)
    requires
        0 <= n <= s.len(),
    ensures
        0 <= order_rank(s, suffix, longer_first, n) <= n,
    decreases n,
{
    if n > 0 {
        lemma_order_rank(s, suffix, longer_first, n - 1);
    }
}

proof fn lemma_ordered(s: Seq<mount_queries::FoundView>, longer_first: bool, n: int, bound: nat)
    requires
        0 <= n <= s.len(),
        forall|i: int| 0 <= i < s.len() ==> found_ok(#[trigger] s[i], bound),
    ensures
        ordered(s, longer_first, n).len() == n,
        forall|i: int|
            0 <= i < n ==> found_ok(#[trigger] ordered(s, longer_first, n)[i], bound),
    decreases n,
{
    if n > 0 {
        lemma_ordered(s, longer_first, n - 1, bound);
        let front = ordered(s, longer_first, n - 1);
        let r = order_rank(front, s[n - 1].suffix, longer_first, front.len() as int);
        lemma_order_rank(front, s[n - 1].suffix, longer_first, front.len() as int);
        let all = ordered(s, longer_first, n);
        assert forall|i: int| 0 <= i < n implies found_ok(#[trigger] all[i], bound) by {
            if i < r {
                assert(all[i] == front[i]);
            } else if i > r {
                assert(all[i] == front[i - 1]);
            }
        }
    }
}

/// Puts the mounts of a subtree in order.
fn order_found(list: Vec<Found>, longer_first: bool) -> (sorted: Vec<Found>)
    ensures
        mount_queries::found_view(sorted@) == ordered(
            mount_queries::found_view(list@),
            longer_first,
            list@.len() as int,
        ),
{
    let ghost all = mount_queries::found_view(list@);
    let mut rest = list;
    let mut sorted: Vec<Found> = Vec::new();
    let ghost mut n: int = 0;
    assert(mount_queries::found_view(sorted@) =~= ordered(all, longer_first, 0));
    assert(all.skip(0) =~= all);
    while rest.len() > 0
        invariant
            0 <= n <= all.len(),
            sorted@.len() == n,
            mount_queries::found_view(rest@) == all.skip(n),
            mount_queries::found_view(sorted@) == ordered(all, longer_first, n),
        decreases rest@.len(),
    {
        let ghost before = mount_queries::found_view(rest@);
        let ghost front = mount_queries::found_view(sorted@);
        let item = rest.remove(0);
        proof {
            assert(before.len() == all.skip(n).len());
            assert(before[0] == all[n]);
            assert(mount_queries::found_view(rest@) =~= before.skip(1));
            assert(all.skip(n).skip(1) =~= all.skip(n + 1));
        }
        let len: usize = path_len(item.suffix.as_str());
        let ghost suffix = item.suffix@;
        let mut r: usize = sorted.len();
        let mut placed = false;
        while r > 0 && !placed
            invariant
                r <= sorted@.len(),
                front == mount_queries::found_view(sorted@),
                len == mount_queries::byte_len(suffix),
                order_rank(front, suffix, longer_first, front.len() as int) == order_rank(
                    front,
                    suffix,
                    longer_first,
                    r as int,
                ),
                placed ==> r > 0 && !goes_before(suffix, front[r - 1].suffix, longer_first),
            decreases r + (if placed { 0int } else { 1 }),
        {
            assert(front[r - 1].suffix == sorted@[r - 1].suffix@);
            let other: usize = path_len(sorted[r - 1].suffix.as_str());
            let first = if longer_first {
                len > other
            } else {
                len < other
            };
            if first {
                r -= 1;
            } else {
                placed = true;
            }
        }
        let ghost item_view = item@;
        sorted.insert(r, item);
        proof {
            assert(mount_queries::found_view(sorted@) =~= front.insert(r as int, item_view));
            n = n + 1;
        }
    }
    assert(all.skip(n).len() == 0);
    sorted
}

/// All tables once the mounts of a subtree from the `k`-th on are taken away, the last
/// one first.
pub open spec fn taken_off(
    w: context::WorldView,
    t: int,
    found: Seq<mount_queries::FoundView>,
    base: Seq<char>,
    k: int,
) -> context::WorldView
    decreases found.len() - k,
{
    if k < 0 || k >= found.len() {
        w
    } else {
        context::after_unmount(
            taken_off(w, t, found, base, k + 1),
            t,
            context::mirror_path(base, found[k].suffix),
        )
    }
}

/// All tables once the first `n` mounts of a subtree are mounted behind `base`: the top
/// one on `target`, the others on what their paths lead to, or else on what they were
/// mounted on.
pub open spec fn put_on<F: Inode>(
    fs: &F,
    ctx: Context,
    w: context::WorldView,
    found: Seq<mount_queries::FoundView>,
    base: Seq<char>,
    target: u64,
    n: int,
) -> context::WorldView
    decreases n,
{
    if n <= 0 {
        w
    } else {
        let prev = put_on(fs, ctx, w, found, base, target, n - 1);
        let f = found[n - 1];
        let t = ctx.mounts as int;
        let p = context::mirror_path(base, f.suffix);
        let inode = if f.suffix.len() == 0 {
            target
        } else {
            match resolve::resolved(fs, ctx.root, prev.tables[t], ctx.root, p, true) {
                Ok(r) => r.inode,
                Err(_) => f.entry.target_inode_id,
            }
        };
        context::after_mount(
            prev,
            t,
            p,
            inode,
            as_new_mount(f.entry, prev.registry.tags[f.entry.in_use as int].flags),
        )
    }
}

/// What moving the mount at `source` to `target` comes to: a code, and all tables. The
/// whole subtree moves: it is taken off from its deepest mount up, and put on again from
/// the top down.
pub open spec fn after_move<F: Inode>(
    fs: &F,
    ctx: Context,
    w: context::WorldView,
    source: Seq<char>,
    target: Seq<char>,
) -> (i64, context::WorldView) {
    let t = ctx.mounts as int;
    let tgt = resolve::resolved(fs, ctx.root, w.tables[t], ctx.root, target, true);
    if !forest::has_path(w.tables[t], source) {
        (errno::EINVAL, w)
    } else if tgt is Err {
        (tgt->Err_0, w)
    } else {
        let sub = mount_queries::subtree(w.tables[t], source);
        let list = ordered(sub, false, sub.len() as int);
        let off = taken_off(w, t, list, source, 0);
        (0, put_on(fs, ctx, off, list, target, tgt->Ok_0.inode, list.len() as int))
    }
}

/// Moves a mount, and all mounts below it, to another place.
pub fn move_mount<F: Inode>(
    fs: &F,
    ctx: &Context,
    world: &mut MountWorld,
    s_norm: &str,
    t_norm: &str,
) -> (code: i64)
    requires
        old(world).wf(),
        ctx.mounts < old(world).tables@.len(),
        forest::is_mount_path(s_norm@),
        forest::is_mount_path(t_norm@),
    ensures
        final(world).wf(),
        final(world).root == old(world).root,
        final(world).tables@.len() == old(world).tables@.len(),
        (code, final(world)@) == after_move(fs, *ctx, old(world)@, s_norm@, t_norm@),
        code != 0 ==> code < 0 && final(world)@ == old(world)@,
        code == 0 <==> forest::has_path(old(world)@.tables[ctx.mounts as int], s_norm@)
            && resolve::resolved(
            fs,
            ctx.root,
            old(world)@.tables[ctx.mounts as int],
            ctx.root,
            t_norm@,
            true,
        ) is Ok,
{
    let ghost w = world@;
    let t: usize = ctx.mounts;
    assert(w.tables[t as int] == world.tables@[t as int]@);
    if world.tables[t].lookup(s_norm).is_none() {
        return errno::EINVAL;
    }
    let tgt: u64 = match resolve::resolve(fs, ctx.root, &world.tables[t], ctx.root, t_norm) {
        Ok(i) => i,
        Err(e) => return e,
    };
    let subtree = world.tables[t].collect_subtree(s_norm);
    let ghost sub = mount_queries::subtree(w.tables[t as int], s_norm@);
    let ghost bound = w.registry.tags.len();
    let ghost list = ordered(sub, false, sub.len() as int);
    proof {
        lemma_subtree(w.tables[t as int], s_norm@, bound);
        lemma_ordered(sub, false, sub.len() as int, bound);
    }
    let sorted = order_found(subtree, false);
    let mut k: usize = sorted.len();
    while k > 0
        invariant
            k <= sorted@.len(),
            world.wf(),
            world.root == old(world).root,
            world.tables@.len() == old(world).tables@.len(),
            t < world.tables@.len(),
            mount_queries::found_view(sorted@) == list,
            world@ == taken_off(w, t as int, list, s_norm@, k as int),
            world@.registry.tags == w.registry.tags,
        decreases k,
    {
        k -= 1;
        assert(list[k as int] == sorted@[k as int]@);
        let old_path = join_subtree(s_norm, sorted[k].suffix.as_str());
        let ghost before = world@;
        assert(world.tables@.len() == world.tables.len());
        let _ = world.remove_mount(t, old_path.as_str());
        proof {
            context::lemma_after_unmount(before, t as int, old_path@);
        }
    }
    let ghost off = world@;
    let mut i: usize = 0;
    while i < sorted.len()
        invariant
            i <= sorted@.len(),
            world.wf(),
            world.root == old(world).root,
            world.tables@.len() == old(world).tables@.len(),
            t == ctx.mounts,
            t < world.tables@.len(),
            forest::is_mount_path(t_norm@),
            mount_queries::found_view(sorted@) == list,
            forall|j: int| 0 <= j < list.len() ==> found_ok(#[trigger] list[j], bound),
            bound <= world@.registry.tags.len(),
            world@ == put_on(fs, *ctx, off, list, t_norm@, tgt, i as int),
        decreases sorted.len() - i,
    {
        let f = &sorted[i];
        assert(list[i as int] == f@);
        assert(found_ok(list[i as int], bound));
        assert(world@.tables[t as int] == world.tables@[t as int]@);
        let new_path = join_subtree(t_norm, f.suffix.as_str());
        assert(new_path@ == context::mirror_path(t_norm@, list[i as int].suffix));
        let inode: u64 = if f.suffix.as_str().is_empty() {
            tgt
        } else {
            match resolve::resolve(fs, ctx.root, &world.tables[t], ctx.root, new_path.as_str()) {
                Ok(r) => r,
                Err(_) => f.entry.target_inode_id,
            }
        };
        let flags: u64 = world.registry.tags[f.entry.in_use].flags;
        let what = entry_as_new(&f.entry, flags);
        world.install_mount(t, new_path.as_str(), inode, &what);
        i += 1;
    }
    0
}

/// All tables once the first `n` mounts of a subtree are unmounted, each passed on.
pub open spec fn all_unmounted(
    w: context::WorldView,
    t: int,
    found: Seq<mount_queries::FoundView>,
    base: Seq<char>,
    n: int,
) -> context::WorldView
    decreases n,
{
    if n <= 0 {
        w
    } else {
        context::after_unmount_propagating(
            all_unmounted(w, t, found, base, n - 1),
            t,
            context::mirror_path(base, found[n - 1].suffix),
        )
    }
}

/// What an unmount comes to: a code, all tables, and whether the disk is free again.
///
/// Without `MNT_DETACH` and `MNT_FORCE` a mount that is in use, or has one below it, is
/// busy. With `MNT_DETACH` a mount that hides another goes alone; otherwise all mounts
/// below it go too, the deepest first, and the root cannot go.
pub open spec fn after_umount<F: Inode>(
    fs: &F,
    ctx: Context,
    w: context::WorldView,
    path: Seq<char>,
    flags: u64,
) -> (i64, context::WorldView, bool) {
    let t = ctx.mounts as int;
    let nodes = w.tables[t];
    let own = resolve::resolved(fs, ctx.root, nodes, ctx.root, path, false);
    if flags & UMOUNT_NOFOLLOW != 0 && own is Err {
        (own->Err_0, w, false)
    } else if !forest::has_path(nodes, path) {
        (errno::EINVAL, w, false)
    } else {
        let node = forest::node_at(nodes, path)->0;
        let busy = w.registry.tags[node.data.in_use as int].refs > 0 || exists|k: int|
            0 <= k < nodes.len() && forest::is_below((#[trigger] nodes[k]).path, path);
        if flags & (MNT_DETACH | MNT_FORCE) == 0 && busy {
            (errno::EBUSY, w, false)
        } else if flags & MNT_DETACH != 0 {
            if node.shadowed.len() > 0 {
                (0, context::after_unmount_propagating(w, t, path), false)
            } else if forest::is_root(path) {
                (errno::EINVAL, w, false)
            } else {
                let sub = mount_queries::subtree(nodes, path);
                let list = ordered(sub, true, sub.len() as int);
                (0, all_unmounted(w, t, list, path, list.len() as int), false)
            }
        } else {
            (
                0,
                context::after_unmount_propagating(w, t, path),
                node.data.source == "/dev/vda"@,
            )
        }
    }
}

/// Unmounts what is mounted at a path. With the code comes whether the disk is free for
/// another mount.
pub fn do_umount<F: Inode>(
    fs: &F,
    ctx: &Context,
    world: &mut MountWorld,
    normalized: &str,
    flags: u64,
) -> (result: (i64, bool))
    requires
        old(world).wf(),
        ctx.mounts < old(world).tables@.len(),
        forest::is_mount_path(normalized@),
    ensures
        final(world).wf(),
        final(world).root == old(world).root,
        final(world).tables@.len() == old(world).tables@.len(),
        (result.0, final(world)@, result.1) == after_umount(
            fs,
            *ctx,
            old(world)@,
            normalized@,
            flags,
        ),
        result.0 != 0 ==> result.0 < 0 && final(world)@ == old(world)@,
{
    let ghost w = world@;
    let t: usize = ctx.mounts;
    assert(w.tables[t as int] == world.tables@[t as int]@);
    if (flags & UMOUNT_NOFOLLOW) != 0 {
        match resolve::resolve_no_follow(fs, ctx.root, &world.tables[t], ctx.root, normalized) {
            Ok(_) => {},
            Err(e) => return (e, false),
        }
    }
    let entry = match world.tables[t].snapshot_one(normalized) {
        Some(e) => e,
        None => return (errno::EINVAL, false),
    };
    proof {
        assert(mount_table::node_tags_below(
            forest::node_at(w.tables[t as int], normalized@)->0,
            w.registry.tags.len(),
        ));
    }
    if (flags & (MNT_DETACH | MNT_FORCE)) == 0 {
        if world.registry.tags[entry.in_use].refs() > 0 {
            return (errno::EBUSY, false);
        }
        if world.tables[t].has_child_mount(normalized) {
            return (errno::EBUSY, false);
        }
    }
    if (flags & MNT_DETACH) != 0 {
        if world.tables[t].is_stacked(normalized) {
            let _ = world.remove_mount_propagating(t, normalized);
            return (0, false);
        }
        if forest::root_chars(&text::to_chars(normalized)) {
            return (errno::EINVAL, false);
        }
        detach(world, t, normalized);
        return (0, false);
    }
    let unmounted_vda = text::equal(entry.source.as_str(), "/dev/vda");
    let _ = world.remove_mount_propagating(t, normalized);
    (0, unmounted_vda)
}

fn detach(world: &mut MountWorld, t: usize, normalized: &str)
    requires
        old(world).wf(),
        t < old(world).tables@.len(),
        forest::is_mount_path(normalized@),
    ensures
        final(world).wf(),
        final(world).root == old(world).root,
        final(world).tables@.len() == old(world).tables@.len(),
        ({
            let sub = mount_queries::subtree(old(world)@.tables[t as int], normalized@);
            let list = ordered(sub, true, sub.len() as int);
            final(world)@ == all_unmounted(
                old(world)@,
                t as int,
                list,
                normalized@,
                list.len() as int,
            )
        }),
{
    let ghost w = world@;
    assert(w.tables[t as int] == world.tables@[t as int]@);
    let subtree = world.tables[t].collect_subtree(normalized);
    let ghost sub = mount_queries::subtree(w.tables[t as int], normalized@);
    let ghost list = ordered(sub, true, sub.len() as int);
    let sorted = order_found(subtree, true);
    let mut i: usize = 0;
    while i < sorted.len()
        invariant
            i <= sorted@.len(),
            world.wf(),
            world.root == old(world).root,
            world.tables@.len() == old(world).tables@.len(),
            t < world.tables@.len(),
            mount_queries::found_view(sorted@) == list,
            world@ == all_unmounted(w, t as int, list, normalized@, i as int),
        decreases sorted.len() - i,
    {
        assert(list[i as int] == sorted@[i as int]@);
        let at = join_subtree(normalized, sorted[i].suffix.as_str());
        let _ = world.remove_mount_propagating(t, at.as_str());
        i += 1;
    }
}

/// A mount that is in use, or has another below it, stays until it is forced or
/// detached.
pub proof fn law_busy_mount_stays<F: Inode>(
    fs: &F,
    ctx: Context,
    w: context::WorldView,
    path: Seq<char>,
    flags: u64,
)
    requires
        forest::has_path(w.tables[ctx.mounts as int], path),
        flags & UMOUNT_NOFOLLOW == 0,
        flags & (MNT_DETACH | MNT_FORCE) == 0,
        w.registry.tags[forest::node_at(
            w.tables[ctx.mounts as int],
            path,
        )->0.data.in_use as int].refs > 0,
    ensures
        after_umount(fs, ctx, w, path, flags) == (errno::EBUSY, w, false),
{
}

} // verus!
