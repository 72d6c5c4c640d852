//! What is done with the mounts of a process: they are looked up, given other flags, and turned
//! round a new root.
use vstd::prelude::*;
use vstd::string::*;

use crate::errno;
use crate::vfs::context;
use crate::vfs::context::MountWorld;
use crate::vfs::context::NewMount;
use crate::vfs::forest;
use crate::vfs::forest::MountEntry;
use crate::vfs::mount_queries;
use crate::vfs::mount_table;
use crate::vfs::pivot;
use crate::vfs::registry;
use crate::vfs::registry::MountPropagation;
use crate::vfs::resolve;
use crate::vfs::resolve::Inode;

verus! {

/// The paths at which others received a mount.
pub struct InstallEffects {
    pub mirrors: Vec<String>,
}

impl Default for InstallEffects {
    fn default() -> (effects: InstallEffects)
        ensures
            effects.mirrors@ == Seq::<String>::empty(),
    {
        InstallEffects { mirrors: Vec::new() }
    }
}

/// Whether something is mounted on an inode in a table.
pub open spec fn mounted_on(nodes: Seq<forest::NodeView>, inode_id: u64) -> bool {
    exists|i: int| 0 <= i < nodes.len() && (#[trigger] nodes[i]).data.target_inode_id == inode_id
}

/// All tables once the flags of the mount with a tag are set.
pub open spec fn with_flags(w: context::WorldView, tag: usize, flags: u64) -> context::WorldView {
    context::WorldView { registry: mount_table::flags_set(w.registry, tag, flags), ..w }
}

/// Setting flags keeps all tables in order.
proof fn lemma_with_flags(w: context::WorldView, tag: usize, flags: u64)
    requires
        context::in_order(w),
        tag < w.registry.tags.len(),
    ensures
        context::in_order(with_flags(w, tag, flags)),
{
    let after = with_flags(w, tag, flags);
    assert(after.registry.tags.len() == w.registry.tags.len());
    assert forall|t: int| 0 <= t < after.tables.len() implies mount_table::well_formed(
        #[trigger] after.tables[t],
    ) && mount_table::tags_below(after.tables[t], after.registry.tags.len()) by {
        assert(after.tables[t] == w.tables[t]);
    }
}

impl MountWorld {
    /// What is mounted at a path.
    pub fn lookup_mount(&self, t: usize, path: &str) -> (root: Option<u64>)
        requires
            self.wf(),
            t < self.tables@.len(),
        ensures
            root == (match forest::node_at(self@.tables[t as int], path@) {
                Some(node) => Some(node.data.root),
                None => None,
            }),
    {
        assert(self@.tables[t as int] == self.tables@[t as int]@);
        self.tables[t].lookup(path)
    }

    /// The mount at a path.
    pub fn lookup_mount_full(&self, t: usize, path: &str) -> (entry: Option<MountEntry>)
        requires
            self.wf(),
            t < self.tables@.len(),
        ensures
            match entry {
                Some(e) => forest::node_at(self@.tables[t as int], path@) is Some && e@
                    == forest::node_at(self@.tables[t as int], path@)->0.data,
                None => forest::node_at(self@.tables[t as int], path@) is None,
            },
    {
        assert(self@.tables[t as int] == self.tables@[t as int]@);
        self.tables[t].snapshot_one(path)
    }

    /// Mounts something without flags for everybody, and tells nobody.
    pub fn mount_install(
        &mut self,
        target_path: &str,
        target_inode_id: u64,
        root: u64,
        propagation: MountPropagation,
        source: &str,
        fstype: &str,
    )
        requires
            old(self).wf(),
            forest::is_mount_path(target_path@),
        ensures
            final(self).wf(),
            final(self).root == old(self).root,
            final(self)@ == context::after_mount(
                old(self)@,
                0,
                target_path@,
                target_inode_id,
                context::NewMountView {
                    root,
                    propagation,
                    source: source@,
                    fstype: fstype@,
                    flags: 0,
                },
            ),
    {
        let what = NewMount {
            root,
            propagation,
            source: source.to_owned(),
            fstype: fstype.to_owned(),
            flags: 0,
        };
        self.install_mount(0, target_path, target_inode_id, &what);
    }

    /// What is mounted at a path for everybody.
    pub fn mount_lookup(&self, target_path: &str) -> (root: Option<u64>)
        requires
            self.wf(),
        ensures
            root == (match forest::node_at(self@.tables[0], target_path@) {
                Some(node) => Some(node.data.root),
                None => None,
            }),
    {
        self.lookup_mount(0, target_path)
    }

    /// Takes the mount at a path away for everybody.
    pub fn mount_remove(&mut self, target_path: &str) -> (root: Option<u64>)
        requires
            old(self).wf(),
        ensures
            final(self).wf(),
            final(self).root == old(self).root,
            final(self)@ == context::after_unmount(old(self)@, 0, target_path@),
            root == (match forest::node_at(old(self)@.tables[0], target_path@) {
                Some(node) => Some(node.data.root),
                None => None,
            }),
    {
        self.remove_mount(0, target_path)
    }

    /// Whether something is mounted on an inode, in a process's own table or in everybody's.
    pub fn is_mountpoint_inode(&self, per_process: Option<usize>, inode_id: u64) -> (r: bool)
        requires
            self.wf(),
            per_process matches Some(t) ==> t < self.tables@.len(),
        ensures
            r == ((per_process matches Some(t) && mounted_on(self@.tables[t as int], inode_id))
                || mounted_on(self@.tables[0], inode_id)),
    {
        assert(self@.tables[0] == self.tables@[0]@);
        match per_process {
            Some(t) => {
                assert(self@.tables[t as int] == self.tables@[t as int]@);
                if self.tables[t].is_mountpoint_inode(inode_id) {
                    return true;
                }
            },
            None => {},
        }
        self.tables[0].is_mountpoint_inode(inode_id)
    }

    /// Changes how the mount at a path takes part in passing events on. Says whether there is
    /// one.
    pub fn set_mount_propagation(&mut self, t: usize, path: &str, new_prop: MountPropagation) -> (found:
        bool)
        requires
            old(self).wf(),
            t < old(self).tables@.len(),
        ensures
            final(self).wf(),
            final(self).root == old(self).root,
            found == forest::has_path(old(self)@.tables[t as int], path@),
            final(self)@ == context::with_table(
                old(self)@,
                t as int,
                mount_queries::after_set_propagation(
                    context::table_state(old(self)@, t as int),
                    t as u64,
                    path@,
                    new_prop,
                ),
            ),
    {
        let ghost w = self@;
        let ghost st = context::table_state(w, t as int);
        let ghost after = mount_queries::after_set_propagation(st, t as u64, path@, new_prop);
        assert(self.tables@.len() == self.tables.len());
        assert(w.tables[t as int] == self.tables@[t as int]@);
        proof {
            lemma_propagation_in_order(w, t as int, path@, new_prop);
        }
        let ghost tables = self.tables@;
        let found = self.tables[t].set_propagation(&mut self.registry, path, new_prop);
        proof {
            assert(self.tables@ =~= tables.update(t as int, self.tables@[t as int]));
            assert(self@ =~= context::with_table(w, t as int, after));
        }
        found
    }

    /// Sets the flags of the mount at a path. Says whether there is one.
    pub fn set_mount_flags(&mut self, t: usize, path: &str, flags: u64) -> (found: bool)
        requires
            old(self).wf(),
            t < old(self).tables@.len(),
        ensures
            final(self).wf(),
            final(self).root == old(self).root,
            final(self).tables@.len() == old(self).tables@.len(),
            found == forest::has_path(old(self)@.tables[t as int], path@),
            final(self)@ == (match forest::node_at(old(self)@.tables[t as int], path@) {
                Some(node) => with_flags(old(self)@, node.data.in_use, flags),
                None => old(self)@,
            }),
    {
        let ghost w = self@;
        assert(w.tables[t as int] == self.tables@[t as int]@);
        let found = self.tables[t].set_flags_at(&mut self.registry, path, flags);
        proof {
            match forest::node_at(w.tables[t as int], path@) {
                Some(node) => {
                    assert(mount_table::node_tags_below(node, w.registry.tags.len()));
                    lemma_with_flags(w, node.data.in_use, flags);
                    assert(self@ =~= with_flags(w, node.data.in_use, flags));
                },
                None => {
                    assert(self@ =~= w);
                },
            }
        }
        found
    }

    /// Sets the flags of the one mount whose root is an inode. Says whether there is exactly
    /// one.
    pub fn set_mount_flags_by_inode(&mut self, t: usize, inode_id: u64, flags: u64) -> (found: bool)
        requires
            old(self).wf(),
            t < old(self).tables@.len(),
        ensures
            final(self).wf(),
            final(self).root == old(self).root,
            final(self).tables@.len() == old(self).tables@.len(),
            found <==> exists|i: int| #[trigger]
                mount_queries::is_only_root(old(self)@.tables[t as int], inode_id, i),
            !found ==> final(self)@ == old(self)@,
            found ==> exists|i: int| #[trigger]
                mount_queries::is_only_root(old(self)@.tables[t as int], inode_id, i) && final(
                    self)@ == with_flags(
                    old(self)@,
                    old(self)@.tables[t as int][i].data.in_use,
                    flags,
                ),
    {
        let ghost w = self@;
        assert(w.tables[t as int] == self.tables@[t as int]@);
        let found = self.tables[t].set_flags_by_inode(&mut self.registry, inode_id, flags);
        proof {
            if found {
                let nodes = w.tables[t as int];
                let i = choose|i: int| #[trigger]
                    mount_queries::is_only_root(nodes, inode_id, i) && self.registry@
                        == mount_table::flags_set(w.registry, nodes[i].data.in_use, flags);
                forest::lemma_index_of(nodes, i);
                assert(mount_table::node_tags_below(
                    forest::node_at(nodes, nodes[i].path)->0,
                    w.registry.tags.len(),
                ));
                lemma_with_flags(w, nodes[i].data.in_use, flags);
                assert(self@ =~= with_flags(w, nodes[i].data.in_use, flags));
                assert(mount_queries::is_only_root(nodes, inode_id, i));
            } else {
                assert(self@ =~= w);
            }
        }
        found
    }

    /// Turns a table round a new root.
    pub fn pivot_root(&mut self, t: usize, new_root: &str, put_old: &str) -> (result: Result<(), i64>)
        requires
            old(self).wf(),
            t < old(self).tables@.len(),
            old(self)@.registry.tags.len() + old(self)@.tables[t as int].len() + 1 <= usize::MAX,
            forest::is_mount_path(new_root@),
            forest::is_mount_path(put_old@),
        ensures
            final(self).wf(),
            final(self).root == old(self).root,
            (result, final(self)@) == after_pivot_root(
                old(self)@,
                t as int,
                new_root@,
                put_old@,
            ),
    {
        let ghost w = self@;
        let ghost st = context::table_state(w, t as int);
        assert(self.tables@.len() == self.tables.len());
        assert(w.tables[t as int] == self.tables@[t as int]@);
        let ghost tables = self.tables@;
        let result = self.tables[t].pivot_root(&mut self.registry, new_root, put_old);
        proof {
            assert(self.tables@ =~= tables.update(t as int, self.tables@[t as int]));
            if result is Ok {
                let after = pivot::after_pivot(st, t as u64, new_root@, put_old@);
                pivot::lemma_pivot_known(st, t as u64, new_root@, put_old@, w.tables.len());
                context::lemma_with_table(w, t as int, after);
                assert(self@ =~= context::with_table(w, t as int, after));
                assert(result->Ok_0 == ());
            } else {
                assert(self@ =~= w);
            }
        }
        result
    }
}

/// All tables once one is turned round a new root, or why it is not.
pub open spec fn after_pivot_root(
    w: context::WorldView,
    t: int,
    new_root: Seq<char>,
    put_old: Seq<char>,
) -> (Result<(), i64>, context::WorldView) {
    if forest::is_root(new_root) || !pivot::is_inside(put_old, new_root) {
        (Err(errno::EINVAL), w)
    } else {
        (
            Ok(()),
            context::with_table(
                w,
                t,
                pivot::after_pivot(context::table_state(w, t), t as u64, new_root, put_old),
            ),
        )
    }
}

proof fn lemma_propagation_in_order(
    w: context::WorldView,
    t: int,
    path: Seq<char>,
    prop: MountPropagation,
)
    requires
        context::in_order(w),
        0 <= t < w.tables.len() <= u64::MAX,
    ensures
        context::in_order(
            context::with_table(
                w,
                t,
                mount_queries::after_set_propagation(
                    context::table_state(w, t),
                    t as u64,
                    path,
                    prop,
                ),
            ),
        ),
{
    let st = context::table_state(w, t);
    let after = mount_queries::after_set_propagation(st, t as u64, path, prop);
    match forest::node_at(w.tables[t], path) {
        None => {
            assert(after == st);
            context::lemma_with_table(w, t, st);
        },
        Some(node) => {
            let i = forest::index_of(w.tables[t], path);
            assert(forest::is_mount_path(w.tables[t][i].path));
            mount_queries::lemma_set_propagation_wf(st, t as u64, path, prop);
            context::lemma_left_known(
                w.registry.peers,
                node.data.propagation,
                t as u64,
                path,
                w.tables.len(),
            );
            context::lemma_joined_known(
                registry::left(w.registry.peers, node.data.propagation, t as u64, path),
                prop,
                t as u64,
                path,
                w.tables.len(),
            );
            context::lemma_with_table(w, t, after);
        },
    }
}

/// The mount that contains a path depends only on what is mounted at other paths.
proof fn lemma_same_containing(
    before: Seq<forest::NodeView>,
    after: Seq<forest::NodeView>,
    path: Seq<char>,
)
    requires
        forest::unique_paths(before),
        forest::unique_paths(after),
        forest::is_mount_path(path),
        forall|p: Seq<char>|
            p != path ==> #[trigger] forest::node_at(after, p) == forest::node_at(before, p),
    ensures
        mount_queries::proper_containing(after, path) == mount_queries::proper_containing(
            before,
            path,
        ),
{
    forest::lemma_deepest_above(before, path, before.len() as int);
    forest::lemma_deepest_above(after, path, after.len() as int);
    forest::lemma_not_below_itself(path);
    let a = forest::deepest_above(before, path, before.len() as int);
    let b = forest::deepest_above(after, path, after.len() as int);
    if a is Some {
        let x = before[a->0];
        assert(x.path != path);
        forest::lemma_index_of(before, a->0);
        assert(forest::node_at(after, x.path) == Some(x));
        let k = forest::index_of(after, x.path);
        assert(after[k] == x);
        assert(b is Some);
    }
    if b is Some {
        let y = after[b->0];
        assert(y.path != path);
        forest::lemma_index_of(after, b->0);
        assert(forest::node_at(before, y.path) == Some(y));
        let k = forest::index_of(before, y.path);
        assert(before[k] == y);
        assert(a is Some);
    }
    if a is Some && b is Some {
        let x = before[a->0];
        let y = after[b->0];
        let kx = forest::index_of(after, x.path);
        let ky = forest::index_of(before, y.path);
        assert(after[kx].path.len() <= y.path.len());
        assert(before[ky].path.len() <= x.path.len());
        lemma_one_ancestor(path, x.path, y.path);
        assert(x.path == y.path);
        assert(forest::node_at(before, x.path) == Some(x));
        assert(forest::node_at(before, y.path) == Some(y));
    }
}

/// A path lies below only one path of a length.
proof fn lemma_one_ancestor(path: Seq<char>, a: Seq<char>, b: Seq<char>)
    requires
        forest::is_below(path, a),
        forest::is_below(path, b),
        a.len() == b.len(),
        path.len() > 0,
        path[0] == '/',
    ensures
        a == b,
{
    if forest::is_root(a) && !forest::is_root(b) {
        assert(b =~= path.take(1));
        assert(b =~= seq!['/']);
    } else if forest::is_root(b) && !forest::is_root(a) {
        assert(a =~= path.take(1));
        assert(a =~= seq!['/']);
    } else if !forest::is_root(a) {
        assert(a == path.take(a.len() as int));
        assert(b == path.take(b.len() as int));
    }
}

/// Whether what is mounted at a path is passed on to others.
pub open spec fn is_passed_on(nodes: Seq<forest::NodeView>, path: Seq<char>) -> bool {
    mount_queries::proper_containing(nodes, path) matches Some(containing)
        && containing.data.propagation is Shared
}

/// Where nothing is passed on, unmounting takes back mounting: at every path there is again what
/// there was. No other table is touched by either.
pub proof fn law_unmount_undoes_mount<F: Inode>(
    fs: &F,
    root: u64,
    w: context::WorldView,
    t: int,
    path: Seq<char>,
    target: u64,
    what: context::NewMountView,
    any: Seq<char>,
    other: int,
)
    requires
        context::in_order(w),
        0 <= t < w.tables.len() <= u64::MAX,
        w.registry.tags.len() <= usize::MAX,
        forest::is_mount_path(path),
        !is_passed_on(w.tables[t], path),
    ensures
        ({
            let mounted = context::after_mount_propagating(fs, root, w, t, path, target, what).0;
            let back = context::after_unmount_propagating(mounted, t, path);
            &&& 0 <= other < w.tables.len() && other != t ==> mounted.tables[other]
                == w.tables[other] && back.tables[other] == w.tables[other]
            &&& forest::node_at(mounted.tables[t], path) is Some
            &&& forest::node_at(back.tables[t], any) == forest::node_at(w.tables[t], any)
        }),
{
    let st = context::table_state(w, t);
    let mounted = context::after_mount(w, t, path, target, what);
    assert(context::after_mount_propagating(fs, root, w, t, path, target, what).0 == mounted);
    let after = mount_table::after_install(
        st,
        t as u64,
        path,
        target,
        what.root,
        what.propagation,
        what.source,
        what.fstype,
        what.flags,
    );
    assert(mounted.tables[t] == after.nodes);
    assert forall|p: Seq<char>| p != path implies #[trigger] forest::node_at(after.nodes, p)
        == forest::node_at(st.nodes, p) by {
        mount_table::law_lookup_finds_what_was_mounted(
            st,
            t as u64,
            path,
            target,
            what.root,
            what.propagation,
            what.source,
            what.fstype,
            what.flags,
            p,
        );
    }
    mount_table::lemma_after_install_wf(
        st,
        t as u64,
        path,
        target,
        what.root,
        what.propagation,
        what.source,
        what.fstype,
        what.flags,
    );
    let longer = path.push('x');
    assert(longer.len() != path.len());
    mount_table::law_lookup_finds_what_was_mounted(
        st,
        t as u64,
        path,
        target,
        what.root,
        what.propagation,
        what.source,
        what.fstype,
        what.flags,
        longer,
    );
    lemma_same_containing(st.nodes, after.nodes, path);
    mount_table::law_remove_undoes_install(
        st,
        t as u64,
        path,
        target,
        what.root,
        what.propagation,
        what.source,
        what.fstype,
        what.flags,
        any,
    );
    let back = context::after_unmount_propagating(mounted, t, path);
    assert(context::table_state(mounted, t) == after);
    assert(back == context::after_unmount(mounted, t, path));
}

/// Mounting takes no mount point away.
proof fn lemma_mount_keeps_paths(
    w: context::WorldView,
    t: int,
    path: Seq<char>,
    target: u64,
    what: context::NewMountView,
    u: int,
    p: Seq<char>,
)
    requires
        context::in_order(w),
        0 <= t < w.tables.len() <= u64::MAX,
        w.registry.tags.len() <= usize::MAX,
        forest::is_mount_path(path),
        0 <= u < w.tables.len(),
        forest::has_path(w.tables[u], p) || (u == t && p == path),
    ensures
        forest::has_path(context::after_mount(w, t, path, target, what).tables[u], p),
{
    if u == t {
        let st = context::table_state(w, t);
        let other = if p == path {
            path.push('x')
        } else {
            p
        };
        if p == path {
            assert(other.len() != path.len());
        }
        mount_table::law_lookup_finds_what_was_mounted(
            st,
            t as u64,
            path,
            target,
            what.root,
            what.propagation,
            what.source,
            what.fstype,
            what.flags,
            other,
        );
    }
}

/// Passing a mount on to the first `n` places keeps all tables in order.
proof fn lemma_mirrored_in_order<F: Inode>(
    fs: &F,
    root: u64,
    w: context::WorldView,
    places: Seq<(u64, Seq<char>)>,
    skip: Option<(u64, Seq<char>)>,
    suffix: Seq<char>,
    what: context::NewMountView,
    n: int,
)
    requires
        can_be_mirrored(fs, root, w, places, skip, suffix, what, n),
    ensures
        context::in_order(context::mirrored(fs, root, w, places, skip, suffix, what, n).0),
        context::mirrored(fs, root, w, places, skip, suffix, what, n).0.tables.len()
            == w.tables.len(),
    decreases n,
{
    if n > 0 {
        lemma_mirrored_in_order(fs, root, w, places, skip, suffix, what, n - 1);
        let prev = context::mirrored(fs, root, w, places, skip, suffix, what, n - 1).0;
        let (table, peer_path) = places[n - 1];
        let p = context::mirror_path(peer_path, suffix);
        assert(prev.registry.tags.len() <= usize::MAX);
        match resolve::resolved(fs, root, prev.tables[table as int], root, p, true) {
            Ok(r) => {
                context::lemma_after_mount(prev, table as int, p, r.inode, what);
            },
            Err(_) => {},
        }
    }
}

/// A mount can be passed on to the first `n` places: each is one that there is, and there is room
/// for its tag.
pub open spec fn can_be_mirrored<F: Inode>(
    fs: &F,
    root: u64,
    w: context::WorldView,
    places: Seq<(u64, Seq<char>)>,
    skip: Option<(u64, Seq<char>)>,
    suffix: Seq<char>,
    what: context::NewMountView,
    n: int,
) -> bool {
    &&& context::in_order(w)
    &&& w.tables.len() <= u64::MAX
    &&& 0 <= n <= places.len()
    &&& forall|i: int|
        0 <= i < n ==> (#[trigger] places[i]).0 < w.tables.len() && forest::is_mount_path(
            context::mirror_path(places[i].1, suffix),
        )
    &&& forall|i: int|
        0 <= i < n ==> (#[trigger] context::mirrored(
            fs,
            root,
            w,
            places,
            skip,
            suffix,
            what,
            i,
        )).0.registry.tags.len() <= usize::MAX
}

/// What is mounted below a shared mount is mounted with every peer where the path leads
/// somewhere, whatever the others are like.
pub proof fn law_peers_receive_the_mount<F: Inode>(
    fs: &F,
    root: u64,
    w: context::WorldView,
    places: Seq<(u64, Seq<char>)>,
    skip: Option<(u64, Seq<char>)>,
    suffix: Seq<char>,
    what: context::NewMountView,
    n: int,
    i: int,
)
    requires
        can_be_mirrored(fs, root, w, places, skip, suffix, what, n),
        0 <= i < n,
        Some(places[i]) != skip,
        ({
            let then = context::mirrored(fs, root, w, places, skip, suffix, what, i).0;
            resolve::resolved(
                fs,
                root,
                then.tables[places[i].0 as int],
                root,
                context::mirror_path(places[i].1, suffix),
                true,
            ) is Ok
        }),
    ensures
        forest::has_path(
            context::mirrored(fs, root, w, places, skip, suffix, what, n).0.tables[places[i].0 as int],
            context::mirror_path(places[i].1, suffix),
        ),
    decreases n,
{
    let prev = context::mirrored(fs, root, w, places, skip, suffix, what, n - 1).0;
    lemma_mirrored_in_order(fs, root, w, places, skip, suffix, what, n - 1);
    let (table, peer_path) = places[n - 1];
    let p = context::mirror_path(peer_path, suffix);
    let mine = context::mirror_path(places[i].1, suffix);
    if i < n - 1 {
        law_peers_receive_the_mount(fs, root, w, places, skip, suffix, what, n - 1, i);
    }
    assert(prev.registry.tags.len() <= usize::MAX);
    assert(places[i].0 < w.tables.len());
    if Some(places[n - 1]) != skip {
        match resolve::resolved(fs, root, prev.tables[table as int], root, p, true) {
            Ok(r) => {
                lemma_mount_keeps_paths(
                    prev,
                    table as int,
                    p,
                    r.inode,
                    what,
                    places[i].0 as int,
                    mine,
                );
            },
            Err(_) => {},
        }
    }
}

} // verus!
