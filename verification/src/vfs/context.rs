//! All mount tables together, and mounting that is passed on from one to another.

use vstd::prelude::*;
use vstd::string::*;

use crate::seqs;
use crate::text;
use crate::vfs::forest;
use crate::vfs::mount_queries;
use crate::vfs::mount_table;
use crate::vfs::mount_table::MountTable;
use crate::vfs::path;
use crate::vfs::registry;
use crate::vfs::registry::{MountPropagation, MountRegistry};
use crate::vfs::resolve;
use crate::vfs::resolve::Inode;

verus! {

/// All mount tables, each by its place, what they have in common, and the root of the
/// file tree. The first table is the one of processes without a namespace of their own.
pub struct MountWorld {
    pub tables: Vec<MountTable>,
    pub registry: MountRegistry,
    pub root: Option<u64>,
}

/// All mount tables and what they have in common.
#[verifier::ext_equal]
pub struct WorldView {
    pub tables: Seq<Seq<forest::NodeView>>,
    /// For each table the user namespace that owns it.
    pub owners: Seq<Option<u64>>,
    pub registry: registry::RegistryView,
}

impl View for MountWorld {
    type V = WorldView;

    open spec fn view(&self) -> WorldView {
        WorldView {
            tables: self.tables@.map_values(|t: MountTable| t@),
            owners: self.tables@.map_values(|t: MountTable| t.owner_user_ns),
            registry: self.registry@,
        }
    }
}

/// Every place in a group is one in a table that there is, at a path that something can
/// be mounted at.
pub open spec fn peers_known(peers: Seq<registry::PeerView>, tables: nat) -> bool {
    forall|i: int|
        0 <= i < peers.len() ==> (#[trigger] peers[i]).table < tables && forest::is_mount_path(
            peers[i].path,
        )
}

/// Every table is in order, and refers only to what there is.
pub open spec fn in_order(w: WorldView) -> bool {
    &&& forall|t: int|
        0 <= t < w.tables.len() ==> mount_table::well_formed(#[trigger] w.tables[t])
            && mount_table::tags_below(w.tables[t], w.registry.tags.len())
    &&& peers_known(w.registry.peers, w.tables.len())
}

/// What is to be mounted.
pub struct NewMount {
    pub root: u64,
    pub propagation: MountPropagation,
    pub source: String,
    pub fstype: String,
    pub flags: u64,
}

/// What is to be mounted.
pub struct NewMountView {
    pub root: u64,
    pub propagation: MountPropagation,
    pub source: Seq<char>,
    pub fstype: Seq<char>,
    pub flags: u64,
}

impl View for NewMount {
    type V = NewMountView;

    open spec fn view(&self) -> NewMountView {
        NewMountView {
            root: self.root,
            propagation: self.propagation,
            source: self.source@,
            fstype: self.fstype@,
            flags: self.flags,
        }
    }
}

/// One table with what it has in common with the others.
pub open spec fn table_state(w: WorldView, t: int) -> mount_table::TableState {
    mount_table::TableState { nodes: w.tables[t], registry: w.registry }
}

/// All tables, once one of them has changed.
pub open spec fn with_table(w: WorldView, t: int, st: mount_table::TableState) -> WorldView {
    WorldView { tables: w.tables.update(t, st.nodes), registry: st.registry, ..w }
}

/// All tables once something is mounted in one of them.
pub open spec fn after_mount(
    w: WorldView,
    t: int,
    path: Seq<char>,
    target: u64,
    what: NewMountView,
) -> WorldView {
    with_table(
        w,
        t,
        mount_table::after_install(
            table_state(w, t),
            t as u64,
            path,
            target,
            what.root,
            what.propagation,
            what.source,
            what.fstype,
            what.flags,
        ),
    )
}

/// All tables once the mount on top at a path of one of them is taken away.
pub open spec fn after_unmount(w: WorldView, t: int, path: Seq<char>) -> WorldView {
    with_table(w, t, mount_table::after_remove(table_state(w, t), t as u64, path))
}

/// The path in a peer that corresponds to a path `suffix` below the mount.
pub open spec fn mirror_path(peer_path: Seq<char>, suffix: Seq<char>) -> Seq<char> {
    if suffix.len() == 0 {
        peer_path
    } else if forest::is_root(peer_path) {
        suffix
    } else {
        peer_path + suffix
    }
}

/// All tables once the first `n` places have received a mount, and the paths at which
/// they did. A place that is `skip`, and one where the path leads nowhere, does not.
pub open spec fn mirrored<F: Inode>(
    fs: &F,
    root: u64,
    w: WorldView,
    places: Seq<(u64, Seq<char>)>,
    skip: Option<(u64, Seq<char>)>,
    suffix: Seq<char>,
    what: NewMountView,
    n: int,
) -> (WorldView, Seq<Seq<char>>)
    decreases n,
{
    if n <= 0 {
        (w, Seq::empty())
    } else {
        let (prev, paths) = mirrored(fs, root, w, places, skip, suffix, what, n - 1);
        let (table, peer_path) = places[n - 1];
        let p = mirror_path(peer_path, suffix);
        if Some(places[n - 1]) == skip {
            (prev, paths)
        } else {
            match resolve::resolved(fs, root, prev.tables[table as int], root, p, true) {
                Ok(r) => (after_mount(prev, table as int, p, r.inode, what), paths.push(p)),
                Err(_) => (prev, paths),
            }
        }
    }
}

/// The tables and paths of the places of a group.
pub open spec fn group_places(w: WorldView, group: registry::PeerGroup, slave: bool) -> Seq<
    (u64, Seq<char>),
> {
    registry::table_paths(w.registry.peers.filter(registry::is_in_group(group, slave)))
}

/// All tables once something is mounted in one of them and passed on, and the paths at
/// which others received it. It is passed on where the mount that the path lies in is
/// shared: to the others of its group as it is, and to those that only receive as a
/// private mount.
pub open spec fn after_mount_propagating<F: Inode>(
    fs: &F,
    root: u64,
    w: WorldView,
    t: int,
    path: Seq<char>,
    target: u64,
    what: NewMountView,
) -> (WorldView, Seq<Seq<char>>) {
    let mounted = after_mount(w, t, path, target, what);
    match mount_queries::proper_containing(w.tables[t], path) {
        None => (mounted, Seq::empty()),
        Some(containing) => match containing.data.propagation {
            MountPropagation::Shared(group) => {
                let suffix = mount_queries::suffix_of(path, containing.path);
                let peers = group_places(mounted, group, false);
                let slaves = group_places(mounted, group, true);
                let (w1, paths1) = mirrored(
                    fs,
                    root,
                    mounted,
                    peers,
                    Some((t as u64, containing.path)),
                    suffix,
                    what,
                    peers.len() as int,
                );
                let (w2, paths2) = mirrored(
                    fs,
                    root,
                    w1,
                    slaves,
                    None,
                    suffix,
                    NewMountView { propagation: MountPropagation::Private, ..what },
                    slaves.len() as int,
                );
                (w2, paths1 + paths2)
            },
            _ => (mounted, Seq::empty()),
        },
    }
}

/// All tables once the first `n` places have lost a mount.
pub open spec fn unmirrored(
    w: WorldView,
    places: Seq<(u64, Seq<char>)>,
    skip: Option<(u64, Seq<char>)>,
    suffix: Seq<char>,
    n: int,
) -> WorldView
    decreases n,
{
    if n <= 0 {
        w
    } else {
        let prev = unmirrored(w, places, skip, suffix, n - 1);
        let (table, peer_path) = places[n - 1];
        if Some(places[n - 1]) == skip {
            prev
        } else {
            after_unmount(prev, table as int, mirror_path(peer_path, suffix))
        }
    }
}

/// All tables once a mount is taken away in one of them, and that is passed on.
pub open spec fn after_unmount_propagating(w: WorldView, t: int, path: Seq<char>) -> WorldView {
    let unmounted = after_unmount(w, t, path);
    if !forest::has_path(w.tables[t], path) {
        w
    } else {
        match mount_queries::proper_containing(w.tables[t], path) {
            None => unmounted,
            Some(containing) => match containing.data.propagation {
                MountPropagation::Shared(group) => {
                    let suffix = mount_queries::suffix_of(path, containing.path);
                    let peers = group_places(unmounted, group, false);
                    let w1 = unmirrored(
                        unmounted,
                        peers,
                        Some((t as u64, containing.path)),
                        suffix,
                        peers.len() as int,
                    );
                    let slaves = group_places(w1, group, true);
                    unmirrored(w1, slaves, None, suffix, slaves.len() as int)
                },
                _ => unmounted,
            },
        }
    }
}

/// A known mount's place is a known place.
pub proof fn lemma_joined_known(
    peers: Seq<registry::PeerView>,
    prop: MountPropagation,
    t: u64,
    path: Seq<char>,
    n: nat,
)
    requires
        peers_known(peers, n),
        t < n,
        forest::is_mount_path(path),
    ensures
        peers_known(registry::joined(peers, prop, t, path), n),
{
}

/// The places that are left are known.
pub proof fn lemma_left_known(
    peers: Seq<registry::PeerView>,
    prop: MountPropagation,
    t: u64,
    path: Seq<char>,
    n: nat,
)
    requires
        peers_known(peers, n),
    ensures
        peers_known(registry::left(peers, prop, t, path), n),
{
    match registry::place(prop, t, path) {
        Some(peer) => {
            let after = registry::left(peers, prop, t, path);
            let from = seqs::lemma_filter_origin(peers, registry::other_place(peer));
            assert forall|i: int| 0 <= i < after.len() implies (#[trigger] after[i]).table < n
                && forest::is_mount_path(after[i].path) by {
                assert(after[i] == peers[from[i]]);
            }
        },
        None => {},
    }
}

/// What is known stays known where there are more tables.
proof fn lemma_more_tables(peers: Seq<registry::PeerView>, n: nat, m: nat)
    requires
        peers_known(peers, n),
        n <= m,
    ensures
        peers_known(peers, m),
{
}

proof fn lemma_tags_grow(nodes: Seq<forest::NodeView>, n: nat, m: nat)
    requires
        mount_table::tags_below(nodes, n),
        n <= m,
    ensures
        mount_table::tags_below(nodes, m),
{
    assert forall|p: Seq<char>|
        (#[trigger] forest::node_at(nodes, p)) is Some implies mount_table::node_tags_below(
        forest::node_at(nodes, p)->0,
        m,
    ) by {
        assert(mount_table::node_tags_below(forest::node_at(nodes, p)->0, n));
    }
}

/// Changing one table as its own contract says keeps all tables in order.
pub proof fn lemma_with_table(w: WorldView, t: int, st: mount_table::TableState)
    requires
        in_order(w),
        0 <= t < w.tables.len(),
        mount_table::well_formed(st.nodes),
        mount_table::tags_below(st.nodes, st.registry.tags.len()),
        w.registry.tags.len() <= st.registry.tags.len(),
        peers_known(st.registry.peers, w.tables.len()),
    ensures
        in_order(with_table(w, t, st)),
{
    let after = with_table(w, t, st);
    assert forall|u: int| 0 <= u < after.tables.len() implies mount_table::well_formed(
        #[trigger] after.tables[u],
    ) && mount_table::tags_below(after.tables[u], after.registry.tags.len()) by {
        if u != t {
            assert(after.tables[u] == w.tables[u]);
            lemma_tags_grow(w.tables[u], w.registry.tags.len(), st.registry.tags.len());
        }
    }
}

/// Mounting keeps all tables in order.
pub proof fn lemma_after_mount(w: WorldView, t: int, path: Seq<char>, target: u64, what: NewMountView)
    requires
        in_order(w),
        0 <= t < w.tables.len(),
        t <= u64::MAX,
        forest::is_mount_path(path),
        w.registry.tags.len() <= usize::MAX,
    ensures
        in_order(after_mount(w, t, path, target, what)),
        after_mount(w, t, path, target, what).tables.len() == w.tables.len(),
        after_mount(w, t, path, target, what).registry.next_group == w.registry.next_group,
{
    let st = table_state(w, t);
    mount_table::lemma_after_install_wf(
        st,
        t as u64,
        path,
        target,
        what.root,
        what.propagation,
        what.source,
        what.fstype,
        what.flags,
    );
    let after = mount_table::after_install(
        st,
        t as u64,
        path,
        target,
        what.root,
        what.propagation,
        what.source,
        what.fstype,
        what.flags,
    );
    let peers = registry::joined(w.registry.peers, what.propagation, t as u64, path);
    lemma_joined_known(w.registry.peers, what.propagation, t as u64, path, w.tables.len());
    match forest::node_at(st.nodes, path) {
        Some(node) => {
            lemma_left_known(peers, node.data.propagation, t as u64, path, w.tables.len());
        },
        None => {},
    }
    lemma_with_table(w, t, after);
}

/// Unmounting keeps all tables in order.
pub proof fn lemma_after_unmount(w: WorldView, t: int, path: Seq<char>)
    requires
        in_order(w),
        0 <= t < w.tables.len(),
        t <= u64::MAX,
    ensures
        in_order(after_unmount(w, t, path)),
        after_unmount(w, t, path).tables.len() == w.tables.len(),
        after_unmount(w, t, path).registry.tags == w.registry.tags,
        after_unmount(w, t, path).registry.next_group == w.registry.next_group,
{
    let st = table_state(w, t);
    mount_table::lemma_after_remove_wf(st, t as u64, path);
    let after = mount_table::after_remove(st, t as u64, path);
    match forest::node_at(st.nodes, path) {
        Some(node) => {
            let i = forest::index_of(st.nodes, path);
            assert(forest::is_mount_path(st.nodes[i].path));
            lemma_left_known(
                w.registry.peers,
                node.data.propagation,
                t as u64,
                path,
                w.tables.len(),
            );
            if node.shadowed.len() > 0 {
                lemma_joined_known(
                    registry::left(w.registry.peers, node.data.propagation, t as u64, path),
                    node.shadowed.last().propagation,
                    t as u64,
                    path,
                    w.tables.len(),
                );
            }
        },
        None => {},
    }
    lemma_with_table(w, t, after);
}

/// A path below a mount, seen in a peer, is one that something can be mounted at.
pub proof fn lemma_mirror_path(peer_path: Seq<char>, path: Seq<char>, base: Seq<char>)
    requires
        forest::is_mount_path(peer_path),
        forest::is_mount_path(path),
        forest::is_mount_path(base),
        forest::is_below(path, base),
    ensures
        forest::is_mount_path(mirror_path(peer_path, mount_queries::suffix_of(path, base))),
{
    let suffix = mount_queries::suffix_of(path, base);
    if forest::is_root(base) {
        if path.len() == 1 {
            assert(path =~= seq!['/']);
        }
    } else {
        assert(suffix[0] == path[base.len() as int]);
        assert(suffix.last() == path.last());
    }
    let m = mirror_path(peer_path, suffix);
    if !forest::is_root(peer_path) {
        assert(m[0] == peer_path[0]);
        assert(m.last() == suffix.last());
        assert(path.len() > 1) by {
            if path.len() == 1 {
                assert(path =~= seq!['/']);
            }
        }
    }
}

/// All places are in tables that there are, at paths that something can be mounted at.
pub open spec fn places_known(places: Seq<(u64, Seq<char>)>, tables: nat) -> bool {
    forall|i: int|
        0 <= i < places.len() ==> (#[trigger] places[i]).0 < tables && forest::is_mount_path(
            places[i].1,
        )
}

/// The places of a group are known ones.
pub proof fn lemma_group_places(w: WorldView, group: registry::PeerGroup, slave: bool)
    requires
        in_order(w),
    ensures
        places_known(group_places(w, group, slave), w.tables.len()),
{
    let pred = registry::is_in_group(group, slave);
    let list = w.registry.peers.filter(pred);
    let places = group_places(w, group, slave);
    let from = seqs::lemma_filter_origin(w.registry.peers, pred);
    assert forall|i: int| 0 <= i < places.len() implies (#[trigger] places[i]).0 < w.tables.len()
        && forest::is_mount_path(places[i].1) by {
        assert(list[i] == w.registry.peers[from[i]]);
    }
}

proof fn lemma_unmirrored(
    w: WorldView,
    places: Seq<(u64, Seq<char>)>,
    skip: Option<(u64, Seq<char>)>,
    suffix: Seq<char>,
    n: int,
)
    requires
        in_order(w),
        0 <= n <= places.len(),
        places_known(places, w.tables.len()),
    ensures
        in_order(unmirrored(w, places, skip, suffix, n)),
        unmirrored(w, places, skip, suffix, n).tables.len() == w.tables.len(),
        unmirrored(w, places, skip, suffix, n).registry.tags == w.registry.tags,
        unmirrored(w, places, skip, suffix, n).registry.next_group == w.registry.next_group,
    decreases n,
{
    if n > 0 {
        lemma_unmirrored(w, places, skip, suffix, n - 1);
        let prev = unmirrored(w, places, skip, suffix, n - 1);
        let (table, peer_path) = places[n - 1];
        lemma_after_unmount(prev, table as int, mirror_path(peer_path, suffix));
    }
}

/// The path in a peer that corresponds to a path `suffix` below the mount.
pub fn join_for_mirror(peer_path: &str, suffix: &str) -> (path: String)
    ensures
        path@ == mirror_path(peer_path@, suffix@),
{
    if suffix.is_empty() {
        return peer_path.to_owned();
    }
    if forest::root_chars(&text::to_chars(peer_path)) {
        return suffix.to_owned();
    }
    peer_path.to_owned().concat(suffix)
}

fn path_suffix(path: &str, base: &str) -> (rest: String)
    requires
        forest::is_below(path@, base@),
    ensures
        rest@ == mount_queries::suffix_of(path@, base@),
{
    let b = text::to_chars(base);
    if forest::root_chars(&b) {
        path.to_owned()
    } else {
        let n: usize = path.unicode_len();
        let rest = text::slice(path, b.len(), n);
        assert(path@.subrange(b@.len() as int, n as int) =~= path@.skip(b@.len() as int));
        rest
    }
}

fn private_copy(what: &NewMount) -> (copy: NewMount)
    ensures
        copy@ == (NewMountView { propagation: MountPropagation::Private, ..what@ }),
{
    NewMount {
        root: what.root,
        propagation: MountPropagation::Private,
        source: what.source.clone(),
        fstype: what.fstype.clone(),
        flags: what.flags,
    }
}

impl MountWorld {
    pub open spec fn wf(&self) -> bool {
        &&& in_order(self@)
        &&& self.tables@.len() > 0
        &&& forall|i: int| 0 <= i < self.tables@.len() ==> (#[trigger] self.tables@[i]).id == i
    }

    /// One empty table.
    pub fn new() -> (world: MountWorld)
        ensures
            world.wf(),
            world@.tables == seq![Seq::<forest::NodeView>::empty()],
            world@.owners == seq![None::<u64>],
            world@.registry.peers.len() == 0,
            world@.registry.tags.len() == 0,
            world.root is None,
    {
        let mut tables: Vec<MountTable> = Vec::new();
        tables.push(MountTable::new(0));
        let world = MountWorld { tables, registry: MountRegistry::new(), root: None };
        proof {
            assert(world@.tables =~= seq![Seq::<forest::NodeView>::empty()]);
            assert(world@.owners =~= seq![None::<u64>]);
            let none = Seq::<forest::NodeView>::empty();
            assert(forall|p: Seq<char>| !(#[trigger] forest::has_path(none, p)));
        }
        world
    }

    /// Sets the root of the file tree.
    pub fn set_root(&mut self, inode: u64)
        ensures
            final(self).root == Some(inode),
            final(self).tables == old(self).tables,
            final(self).registry == old(self).registry,
    {
        self.root = Some(inode);
    }

    /// The root of the file tree, once there is one.
    pub fn root_inode(&self) -> (inode: u64)
        requires
            self.root is Some,
        ensures
            Some(inode) == self.root,
    {
        self.root.unwrap()
    }

    /// The root of the file tree, if there is one.
    pub fn try_root_inode(&self) -> (inode: Option<u64>)
        ensures
            inode == self.root,
    {
        self.root
    }

    /// The place of the table of processes without a namespace of their own.
    pub fn global_mount_table(&self) -> (t: usize)
        requires
            self.wf(),
        ensures
            t == 0,
            t < self.tables@.len(),
    {
        0
    }

    /// Mounts something in one table.
    pub fn install_mount(&mut self, t: usize, target_path: &str, target_inode_id: u64, what: &NewMount)
        requires
            old(self).wf(),
            t < old(self).tables@.len(),
            forest::is_mount_path(target_path@),
        ensures
            final(self).wf(),
            final(self).root == old(self).root,
            final(self)@ == after_mount(
                old(self)@,
                t as int,
                target_path@,
                target_inode_id,
                what@,
            ),
    {
        let ghost w = self@;
        assert(self.registry.tags@.len() == self.registry.tags.len());
        assert(self.tables@.len() == self.tables.len());
        proof {
            assert(w.tables[t as int] == self.tables@[t as int]@);
            lemma_after_mount(w, t as int, target_path@, target_inode_id, what@);
        }
        let ghost tables = self.tables@;
        self.tables[t].install(
            &mut self.registry,
            target_path,
            target_inode_id,
            what.root,
            what.propagation,
            what.source.as_str(),
            what.fstype.as_str(),
            what.flags,
        );
        proof {
            assert(self.tables@ =~= tables.update(t as int, self.tables@[t as int]));
            assert(self@ =~= after_mount(w, t as int, target_path@, target_inode_id, what@));
        }
    }

    /// Takes the mount on top at a path of one table away.
    pub fn remove_mount(&mut self, t: usize, target_path: &str) -> (root: Option<u64>)
        requires
            old(self).wf(),
            t < old(self).tables@.len(),
        ensures
            final(self).wf(),
            final(self).root == old(self).root,
            final(self)@ == after_unmount(old(self)@, t as int, target_path@),
            root == (match forest::node_at(old(self)@.tables[t as int], target_path@) {
                Some(node) => Some(node.data.root),
                None => None,
            }),
    {
        let ghost w = self@;
        assert(self.tables@.len() == self.tables.len());
        proof {
            assert(w.tables[t as int] == self.tables@[t as int]@);
            lemma_after_unmount(w, t as int, target_path@);
        }
        let ghost tables = self.tables@;
        let root = self.tables[t].remove(&mut self.registry, target_path);
        proof {
            assert(self.tables@ =~= tables.update(t as int, self.tables@[t as int]));
            assert(self@ =~= after_unmount(w, t as int, target_path@));
        }
        root
    }

    /// Passes a mount on to several places.
    fn mirror<F: Inode>(
        &mut self,
        fs: &F,
        root: u64,
        places: &Vec<(u64, String)>,
        skip: Option<(u64, &str)>,
        suffix: &str,
        what: &NewMount,
    ) -> (paths: Vec<String>)
        requires
            old(self).wf(),
            places_known(registry::places_view(places@), old(self).tables@.len()),
            forall|i: int|
                0 <= i < places@.len() ==> forest::is_mount_path(
                    mirror_path((#[trigger] places@[i]).1@, suffix@),
                ),
        ensures
            final(self).wf(),
            final(self).root == old(self).root,
            final(self).tables@.len() == old(self).tables@.len(),
            (final(self)@, path::views(paths@)) == mirrored(
                fs,
                root,
                old(self)@,
                registry::places_view(places@),
                skip_view(skip),
                suffix@,
                what@,
                places@.len() as int,
            ),
    {
        let ghost w = self@;
        let ghost all = registry::places_view(places@);
        let mut paths: Vec<String> = Vec::new();
        let mut i: usize = 0;
        assert(path::views(paths@) =~= Seq::empty());
        while i < places.len()
            invariant
                i <= places@.len(),
                w == old(self)@,
                self.wf(),
                self.root == old(self).root,
                self.tables@.len() == old(self).tables@.len(),
                all == registry::places_view(places@),
                places_known(all, self.tables@.len()),
                forall|j: int|
                    0 <= j < places@.len() ==> forest::is_mount_path(
                        mirror_path((#[trigger] places@[j]).1@, suffix@),
                    ),
                (self@, path::views(paths@)) == mirrored(
                    fs,
                    root,
                    w,
                    all,
                    skip_view(skip),
                    suffix@,
                    what@,
                    i as int,
                ),
            decreases places.len() - i,
        {
            let table: u64 = places[i].0;
            let peer_path = places[i].1.as_str();
            assert(all[i as int] == (table, peer_path@));
            let skipped = match skip {
                Some((st, sp)) => st == table && text::equal(sp, peer_path),
                None => false,
            };
            if !skipped {
                let mirror_at = join_for_mirror(peer_path, suffix);
                let t: usize = table as usize;
                assert(self.tables@.len() == self.tables.len());
                assert(t == table);
                assert(self@.tables[t as int] == self.tables@[t as int]@);
                match resolve::resolve(fs, root, &self.tables[t], root, mirror_at.as_str()) {
                    Ok(inode) => {
                        self.install_mount(t, mirror_at.as_str(), inode, what);
                        let ghost before = paths@;
                        paths.push(mirror_at);
                        assert(path::views(paths@) =~= path::views(before).push(mirror_at@));
                    },
                    Err(_) => {},
                }
            }
            i += 1;
        }
        paths
    }

    /// Mounts something in one table and passes that on. Returns the paths at which others
    /// received it.
    pub fn install_mount_propagating<F: Inode>(
        &mut self,
        fs: &F,
        root: u64,
        t: usize,
        target_path: &str,
        target_inode_id: u64,
        what: &NewMount,
    ) -> (mirrors: Vec<String>)
        requires
            old(self).wf(),
            t < old(self).tables@.len(),
            forest::is_mount_path(target_path@),
        ensures
            final(self).wf(),
            final(self).root == old(self).root,
            final(self).tables@.len() == old(self).tables@.len(),
            (final(self)@, path::views(mirrors@)) == after_mount_propagating(
                fs,
                root,
                old(self)@,
                t as int,
                target_path@,
                target_inode_id,
                what@,
            ),
    {
        let ghost w = self@;
        assert(w.tables[t as int] == self.tables@[t as int]@);
        let containing = self.tables[t].proper_containing_mount_with_path(target_path);
        proof {
            forest::lemma_deepest_above(
                w.tables[t as int],
                target_path@,
                w.tables[t as int].len() as int,
            );
        }
        self.install_mount(t, target_path, target_inode_id, what);
        let none: Vec<String> = Vec::new();
        assert(path::views(none@) =~= Seq::empty());
        match containing {
            None => none,
            Some((containing_path, entry)) => match entry.propagation {
                MountPropagation::Shared(group) => {
                    let suffix = path_suffix(target_path, containing_path.as_str());
                    let peers = group.snapshot_members(&self.registry);
                    let slaves = group.snapshot_slaves(&self.registry);
                    proof {
                        lemma_group_places(self@, group, false);
                        lemma_group_places(self@, group, true);
                        lemma_all_mirror_paths(
                            peers@,
                            target_path@,
                            containing_path@,
                            self.tables@.len(),
                        );
                        lemma_all_mirror_paths(
                            slaves@,
                            target_path@,
                            containing_path@,
                            self.tables@.len(),
                        );
                    }
                    let mut paths = self.mirror(
                        fs,
                        root,
                        &peers,
                        Some((t as u64, containing_path.as_str())),
                        suffix.as_str(),
                        what,
                    );
                    let private = private_copy(what);
                    let mut more = self.mirror(
                        fs,
                        root,
                        &slaves,
                        None,
                        suffix.as_str(),
                        &private,
                    );
                    let ghost p1 = paths@;
                    let ghost p2 = more@;
                    paths.append(&mut more);
                    assert(path::views(paths@) =~= path::views(p1) + path::views(p2));
                    paths
                },
                _ => none,
            },
        }
    }

    /// Passes an unmount on to several places.
    fn unmirror(
        &mut self,
        places: &Vec<(u64, String)>,
        skip: Option<(u64, &str)>,
        suffix: &str,
    )
        requires
            old(self).wf(),
            places_known(registry::places_view(places@), old(self).tables@.len()),
        ensures
            final(self).wf(),
            final(self).root == old(self).root,
            final(self).tables@.len() == old(self).tables@.len(),
            final(self)@ == unmirrored(
                old(self)@,
                registry::places_view(places@),
                skip_view(skip),
                suffix@,
                places@.len() as int,
            ),
    {
        let ghost w = self@;
        let ghost all = registry::places_view(places@);
        let mut i: usize = 0;
        while i < places.len()
            invariant
                i <= places@.len(),
                w == old(self)@,
                self.wf(),
                self.root == old(self).root,
                self.tables@.len() == old(self).tables@.len(),
                all == registry::places_view(places@),
                places_known(all, self.tables@.len()),
                self@ == unmirrored(w, all, skip_view(skip), suffix@, i as int),
            decreases places.len() - i,
        {
            let table: u64 = places[i].0;
            let peer_path = places[i].1.as_str();
            assert(all[i as int] == (table, peer_path@));
            let skipped = match skip {
                Some((st, sp)) => st == table && text::equal(sp, peer_path),
                None => false,
            };
            if !skipped {
                let mirror_at = join_for_mirror(peer_path, suffix);
                let t: usize = table as usize;
                assert(self.tables@.len() == self.tables.len());
                let _ = self.remove_mount(t, mirror_at.as_str());
            }
            i += 1;
        }
    }

    /// Takes the mount on top at a path of one table away and passes that on.
    pub fn remove_mount_propagating(&mut self, t: usize, target_path: &str) -> (root: Option<u64>)
        requires
            old(self).wf(),
            t < old(self).tables@.len(),
        ensures
            final(self).wf(),
            final(self).root == old(self).root,
            final(self).tables@.len() == old(self).tables@.len(),
            final(self)@ == after_unmount_propagating(old(self)@, t as int, target_path@),
            root == (match forest::node_at(old(self)@.tables[t as int], target_path@) {
                Some(node) => Some(node.data.root),
                None => None,
            }),
    {
        let ghost w = self@;
        assert(w.tables[t as int] == self.tables@[t as int]@);
        let containing = self.tables[t].proper_containing_mount_with_path(target_path);
        proof {
            forest::lemma_deepest_above(
                w.tables[t as int],
                target_path@,
                w.tables[t as int].len() as int,
            );
        }
        let root = self.remove_mount(t, target_path);
        if root.is_none() {
            assert(self@ =~= w);
            return None;
        }
        match containing {
            None => {},
            Some((containing_path, entry)) => match entry.propagation {
                MountPropagation::Shared(group) => {
                    let suffix = path_suffix(target_path, containing_path.as_str());
                    let peers = group.snapshot_members(&self.registry);
                    proof {
                        lemma_group_places(self@, group, false);
                    }
                    self.unmirror(
                        &peers,
                        Some((t as u64, containing_path.as_str())),
                        suffix.as_str(),
                    );
                    let slaves = group.snapshot_slaves(&self.registry);
                    proof {
                        lemma_group_places(self@, group, true);
                    }
                    self.unmirror(&slaves, None, suffix.as_str());
                },
                _ => {},
            },
        }
        root
    }

    /// Makes a copy of a table for a new mount namespace, and returns its place.
    pub fn copy_table(&mut self, t: usize, owner_user_ns: Option<u64>) -> (copy: usize)
        requires
            old(self).wf(),
            t < old(self).tables@.len(),
            old(self).tables@.len() < u64::MAX,
            old(self)@.registry.tags.len() + old(self)@.tables[t as int].len() <= usize::MAX,
        ensures
            final(self).wf(),
            copy == old(self).tables@.len(),
            final(self).root == old(self).root,
            ({
                let st = crate::vfs::pivot::copied(
                    old(self)@.tables[t as int],
                    old(self)@.registry,
                    copy as u64,
                    old(self)@.tables[t as int].len() as int,
                );
                final(self)@ == (WorldView {
                    tables: old(self)@.tables.push(st.nodes),
                    owners: old(self)@.owners.push(owner_user_ns),
                    registry: st.registry,
                })
            }),
    {
        let ghost w = self@;
        let copy: usize = self.tables.len();
        assert(w.tables[t as int] == self.tables@[t as int]@);
        let ghost tables = self.tables@;
        let child = self.tables[t].snapshot(&mut self.registry, copy as u64, owner_user_ns);
        self.tables.push(child);
        proof {
            assert(self@.tables =~= w.tables.push(child@));
            assert(self@.owners =~= w.owners.push(owner_user_ns));
            lemma_more_tables(w.registry.peers, tables.len(), self.tables@.len());
            crate::vfs::pivot::lemma_copied_known(
                w.tables[t as int],
                w.registry,
                copy as u64,
                w.tables[t as int].len() as int,
                self.tables@.len(),
            );
            let now = self@;
            assert forall|u: int| 0 <= u < now.tables.len() implies mount_table::well_formed(
                #[trigger] now.tables[u],
            ) && mount_table::tags_below(now.tables[u], now.registry.tags.len()) by {
                if u < tables.len() {
                    assert(now.tables[u] == w.tables[u]);
                    lemma_tags_grow(w.tables[u], w.registry.tags.len(), now.registry.tags.len());
                }
            }
            assert forall|i: int| 0 <= i < self.tables@.len() implies (#[trigger]
                self.tables@[i]).id == i by {
                if i < tables.len() {
                    assert(self.tables@[i] == tables[i]);
                }
            }
        }
        copy
    }
}

/// What a process sees of the file tree: its root, and its mount table by its place.
#[derive(Clone, Copy, Debug, PartialEq, Eq, Structural)]
pub struct Context {
    pub root: u64,
    pub mounts: usize,
}

impl Context {
    /// The context of a process: its own root and table where it has them, and those of
    /// everybody else where it has not.
    pub fn current(world: &MountWorld, fs_root: Option<u64>, mounts: Option<usize>) -> (ctx: Context)
        requires
            world.wf(),
            fs_root is None ==> world.root is Some,
            mounts matches Some(t) ==> t < world.tables@.len(),
        ensures
            ctx.root == (match fs_root {
                Some(r) => r,
                None => world.root->0,
            }),
            ctx.mounts == (match mounts {
                Some(t) => t,
                None => 0,
            }),
            ctx.mounts < world.tables@.len(),
    {
        let root: u64 = match fs_root {
            Some(r) => r,
            None => world.root_inode(),
        };
        let mounts: usize = match mounts {
            Some(t) => t,
            None => world.global_mount_table(),
        };
        Context { root, mounts }
    }

    /// The context of processes without root and table of their own.
    pub fn global(world: &MountWorld) -> (ctx: Context)
        requires
            world.wf(),
            world.root is Some,
        ensures
            ctx == (Context { root: world.root->0, mounts: 0 }),
    {
        Context { root: world.root_inode(), mounts: world.global_mount_table() }
    }

    /// A table seen from the root of the file tree.
    pub fn for_table(world: &MountWorld, mounts: usize) -> (ctx: Context)
        requires
            world.root is Some,
        ensures
            ctx == (Context { root: world.root->0, mounts }),
    {
        Context { root: world.root_inode(), mounts }
    }
}

/// A place to skip, by the characters of its path.
pub open spec fn skip_view(skip: Option<(u64, &str)>) -> Option<(u64, Seq<char>)> {
    match skip {
        Some((t, p)) => Some((t, p@)),
        None => None,
    }
}

proof fn lemma_all_mirror_paths(
    places: Seq<(u64, String)>,
    path: Seq<char>,
    base: Seq<char>,
    tables: nat,
)
    requires
        places_known(registry::places_view(places), tables),
        forest::is_mount_path(path),
        forest::is_mount_path(base),
        forest::is_below(path, base),
    ensures
        forall|i: int|
            0 <= i < places.len() ==> forest::is_mount_path(
                mirror_path((#[trigger] places[i]).1@, mount_queries::suffix_of(path, base)),
            ),
{
    assert forall|i: int| 0 <= i < places.len() implies forest::is_mount_path(
        mirror_path((#[trigger] places[i]).1@, mount_queries::suffix_of(path, base)),
    ) by {
        assert(registry::places_view(places)[i].1 == places[i].1@);
        lemma_mirror_path(places[i].1@, path, base);
    }
}

proof fn lemma_mirrored_tags<F: Inode>(
    fs: &F,
    root: u64,
    w: WorldView,
    places: Seq<(u64, Seq<char>)>,
    skip: Option<(u64, Seq<char>)>,
    suffix: Seq<char>,
    what: NewMountView,
    n: int,
)
    ensures
        w.registry.tags.len() <= mirrored(
            fs,
            root,
            w,
            places,
            skip,
            suffix,
            what,
            n,
        ).0.registry.tags.len(),
    decreases n,
{
    if n > 0 {
        lemma_mirrored_tags(fs, root, w, places, skip, suffix, what, n - 1);
    }
}

/// Tags are never taken away.
pub proof fn lemma_tags_only_grow<F: Inode>(
    fs: &F,
    root: u64,
    w: WorldView,
    t: int,
    path: Seq<char>,
    target: u64,
    what: NewMountView,
)
    ensures
        w.registry.tags.len() <= after_mount_propagating(
            fs,
            root,
            w,
            t,
            path,
            target,
            what,
        ).0.registry.tags.len(),
{
    let mounted = after_mount(w, t, path, target, what);
    match mount_queries::proper_containing(w.tables[t], path) {
        None => {},
        Some(containing) => match containing.data.propagation {
            MountPropagation::Shared(group) => {
                let suffix = mount_queries::suffix_of(path, containing.path);
                let peers = group_places(mounted, group, false);
                let slaves = group_places(mounted, group, true);
                let skip = Some((t as u64, containing.path));
                lemma_mirrored_tags(
                    fs,
                    root,
                    mounted,
                    peers,
                    skip,
                    suffix,
                    what,
                    peers.len() as int,
                );
                let (w1, _) = mirrored(
                    fs,
                    root,
                    mounted,
                    peers,
                    skip,
                    suffix,
                    what,
                    peers.len() as int,
                );
                lemma_mirrored_tags(
                    fs,
                    root,
                    w1,
                    slaves,
                    None,
                    suffix,
                    NewMountView { propagation: MountPropagation::Private, ..what },
                    slaves.len() as int,
                );
            },
            _ => {},
        },
    }
}

} // verus!
