//! Mount tables: what is mounted where in a process's file tree.

use vstd::prelude::*;
use vstd::string::*;

use crate::vfs::forest;
use crate::vfs::forest_order;
use crate::vfs::forest::{find_path, MountEntry, MountNode};
use crate::vfs::path;
use crate::vfs::registry;
use crate::vfs::registry::{MountPropagation, MountRegistry};
use crate::vfs::MountInUseTag;

verus! {

/// The mount points of a process's file tree.
///
/// They form a forest, in which the parent of a mount point is the deepest mount point
/// above it. The list holds that forest in the order in which a walk meets it: each
/// mount point is followed by everything below it.
pub struct MountTable {
    pub id: u64,
    pub nodes: Vec<MountNode>,
    pub owner_user_ns: Option<u64>,
}

impl View for MountTable {
    type V = Seq<forest::NodeView>;

    open spec fn view(&self) -> Seq<forest::NodeView> {
        forest::nodes_view(self.nodes@)
    }
}

/// A table together with what it has in common with the others.
#[verifier::ext_equal]
pub struct TableState {
    pub nodes: Seq<forest::NodeView>,
    pub registry: registry::RegistryView,
}

/// The forest is in order, and no path occurs twice.
pub open spec fn well_formed(nodes: Seq<forest::NodeView>) -> bool {
    &&& forest::unique_paths(nodes)
    &&& forest::mount_paths(nodes)
    &&& forest_order::in_tree_order(nodes)
}

/// A change of the mounts at one mount point leaves the forest in order.
pub proof fn lemma_update_node(
    nodes: Seq<forest::NodeView>,
    i: int,
    data: forest::EntryView,
    shadowed: Seq<forest::EntryView>,
)
    requires
        well_formed(nodes),
        0 <= i < nodes.len(),
    ensures
        ({
            let node = forest::NodeView { path: nodes[i].path, data, shadowed };
            let after = nodes.update(i, node);
            &&& well_formed(after)
            &&& forest::node_at(after, node.path) == Some(node)
            &&& forall|p: Seq<char>|
                p != node.path ==> #[trigger] forest::node_at(after, p) == forest::node_at(nodes, p)
        }),
{
    let node = forest::NodeView { path: nodes[i].path, data, shadowed };
    let after = nodes.update(i, node);
    assert(forall|j: int| 0 <= j < nodes.len() ==> (#[trigger] after[j]).path == nodes[j].path);
    assert(forest::unique_paths(after));
    assert forall|a: int, k: int|
        0 <= a < after.len() && 0 <= k < after.len() && #[trigger] forest::is_below(
            after[k].path,
            after[a].path,
        ) implies a < k by {
        assert(forest::is_below(nodes[k].path, nodes[a].path));
    }
    assert forall|a: int, j: int, k: int|
        0 <= a < j < k < after.len() && #[trigger] forest::is_below(
            after[k].path,
            after[a].path,
        ) implies #[trigger] forest::is_below(after[j].path, after[a].path) by {
        assert(forest::is_below(nodes[k].path, nodes[a].path));
        assert(forest::is_below(nodes[j].path, nodes[a].path));
    }
    forest::lemma_index_of(after, i);
    assert forall|p: Seq<char>| p != node.path implies #[trigger] forest::node_at(after, p)
        == forest::node_at(nodes, p) by {
        if forest::has_path(nodes, p) {
            let k = forest::index_of(nodes, p);
            assert(after[k].path == p);
            forest::lemma_index_of(after, k);
            assert(after[k] == nodes[k]);
        } else if forest::has_path(after, p) {
            let k = forest::index_of(after, p);
            assert(nodes[k].path == p);
        }
    }
}

/// The table once something is mounted at `path`. What was mounted there is hidden, and
/// gives up its place in its group.
pub open spec fn after_install(
    st: TableState,
    id: u64,
    path: Seq<char>,
    target_inode_id: u64,
    root: u64,
    propagation: MountPropagation,
    source: Seq<char>,
    fstype: Seq<char>,
    mount_flags: u64,
) -> TableState {
    let peers = registry::joined(st.registry.peers, propagation, id, path);
    let data = forest::EntryView {
        target_inode_id,
        root,
        propagation,
        in_use: st.registry.tags.len() as usize,
        source,
        fstype,
    };
    let tags = st.registry.tags.push(MountInUseTag { refs: 0, flags: mount_flags });
    match forest::node_at(st.nodes, path) {
        Some(node) => TableState {
            nodes: st.nodes.update(
                forest::index_of(st.nodes, path),
                forest::NodeView { path, data, shadowed: node.shadowed.push(node.data) },
            ),
            registry: registry::RegistryView {
                peers: registry::left(peers, node.data.propagation, id, path),
                tags,
                ..st.registry
            },
        },
        None => TableState {
            nodes: forest::linked(
                st.nodes,
                forest::NodeView { path, data, shadowed: Seq::empty() },
            ),
            registry: registry::RegistryView { peers, tags, ..st.registry },
        },
    }
}

/// The table once the mount on top at `path` is taken away. What it hid comes back;
/// where it hid nothing, the mount point goes.
pub open spec fn after_remove(st: TableState, id: u64, path: Seq<char>) -> TableState {
    match forest::node_at(st.nodes, path) {
        None => st,
        Some(node) => {
            let peers = registry::left(st.registry.peers, node.data.propagation, id, path);
            if node.shadowed.len() > 0 {
                let under = node.shadowed.last();
                TableState {
                    nodes: st.nodes.update(
                        forest::index_of(st.nodes, path),
                        forest::NodeView { path, data: under, shadowed: node.shadowed.drop_last() },
                    ),
                    registry: registry::RegistryView {
                        peers: registry::joined(peers, under.propagation, id, path),
                        ..st.registry
                    },
                }
            } else {
                TableState {
                    nodes: forest::unlinked(st.nodes, path),
                    registry: registry::RegistryView { peers, ..st.registry },
                }
            }
        },
    }
}

/// The tags of a mount point's mounts are among the first `n`.
pub open spec fn node_tags_below(node: forest::NodeView, n: nat) -> bool {
    &&& node.data.in_use < n
    &&& forall|j: int| 0 <= j < node.shadowed.len() ==> (#[trigger] node.shadowed[j]).in_use < n
}

/// The tags of all mounts are among the first `n`.
pub open spec fn tags_below(nodes: Seq<forest::NodeView>, n: nat) -> bool {
    forall|p: Seq<char>|
        (#[trigger] forest::node_at(nodes, p)) matches Some(node) ==> node_tags_below(node, n)
}

/// What the change does to the mount point at the path and to the others.
pub proof fn lemma_after_install_wf(
    st: TableState,
    id: u64,
    path: Seq<char>,
    target_inode_id: u64,
    root: u64,
    propagation: MountPropagation,
    source: Seq<char>,
    fstype: Seq<char>,
    mount_flags: u64,
)
    requires
        well_formed(st.nodes),
        forest::is_mount_path(path),
    ensures
        ({
            let after = after_install(
                st,
                id,
                path,
                target_inode_id,
                root,
                propagation,
                source,
                fstype,
                mount_flags,
            );
            let data = forest::EntryView {
                target_inode_id,
                root,
                propagation,
                in_use: st.registry.tags.len() as usize,
                source,
                fstype,
            };
            &&& well_formed(after.nodes)
            &&& forest::node_at(after.nodes, path) == Some(
                forest::NodeView {
                    path,
                    data,
                    shadowed: match forest::node_at(st.nodes, path) {
                        Some(node) => node.shadowed.push(node.data),
                        None => Seq::empty(),
                    },
                },
            )
            &&& forall|p: Seq<char>|
                p != path ==> #[trigger] forest::node_at(after.nodes, p) == forest::node_at(
                    st.nodes,
                    p,
                )
            &&& tags_below(st.nodes, st.registry.tags.len()) && st.registry.tags.len() <= usize::MAX
                ==> tags_below(after.nodes, after.registry.tags.len())
        }),
{
    let data = forest::EntryView {
        target_inode_id,
        root,
        propagation,
        in_use: st.registry.tags.len() as usize,
        source,
        fstype,
    };
    if forest::has_path(st.nodes, path) {
        let i = forest::index_of(st.nodes, path);
        lemma_update_node(st.nodes, i, data, st.nodes[i].shadowed.push(st.nodes[i].data));
    } else {
        let node = forest::NodeView { path, data, shadowed: Seq::empty() };
        forest::lemma_linked(st.nodes, node);
        forest_order::law_link_keeps_tree_order(st.nodes, node);
    }
    let after = after_install(
        st,
        id,
        path,
        target_inode_id,
        root,
        propagation,
        source,
        fstype,
        mount_flags,
    );
    if tags_below(st.nodes, st.registry.tags.len()) && st.registry.tags.len() <= usize::MAX {
        assert forall|p: Seq<char>|
            (#[trigger] forest::node_at(after.nodes, p)) is Some implies node_tags_below(
            forest::node_at(after.nodes, p)->0,
            after.registry.tags.len(),
        ) by {
            assert(forest::node_at(st.nodes, p) is Some ==> node_tags_below(
                forest::node_at(st.nodes, p)->0,
                st.registry.tags.len(),
            ));
        }
    }
}

/// After something is mounted, a lookup finds it there, and finds at every other path
/// what it found before.
pub proof fn law_lookup_finds_what_was_mounted(
    st: TableState,
    id: u64,
    path: Seq<char>,
    target_inode_id: u64,
    root: u64,
    propagation: MountPropagation,
    source: Seq<char>,
    fstype: Seq<char>,
    mount_flags: u64,
    other: Seq<char>,
)
    requires
        well_formed(st.nodes),
        forest::is_mount_path(path),
        st.registry.tags.len() <= usize::MAX,
        other != path,
    ensures
        ({
            let after = after_install(
                st,
                id,
                path,
                target_inode_id,
                root,
                propagation,
                source,
                fstype,
                mount_flags,
            );
            &&& well_formed(after.nodes)
            &&& forest::node_at(after.nodes, path) is Some
            &&& forest::node_at(after.nodes, path)->0.data.root == root
            &&& after.registry.tags[forest::node_at(after.nodes, path)->0.data.in_use as int].flags
                == mount_flags
            &&& forest::node_at(after.nodes, other) == forest::node_at(st.nodes, other)
        }),
{
    lemma_after_install_wf(
        st,
        id,
        path,
        target_inode_id,
        root,
        propagation,
        source,
        fstype,
        mount_flags,
    );
}

/// What the change does to the mount point at the path and to the others.
pub proof fn lemma_after_remove_wf(st: TableState, id: u64, path: Seq<char>)
    requires
        well_formed(st.nodes),
    ensures
        ({
            let after = after_remove(st, id, path);
            &&& well_formed(after.nodes)
            &&& forest::node_at(after.nodes, path) == (match forest::node_at(st.nodes, path) {
                Some(node) if node.shadowed.len() > 0 => Some(
                    forest::NodeView {
                        path,
                        data: node.shadowed.last(),
                        shadowed: node.shadowed.drop_last(),
                    },
                ),
                _ => None,
            })
            &&& forall|p: Seq<char>|
                p != path ==> #[trigger] forest::node_at(after.nodes, p) == forest::node_at(
                    st.nodes,
                    p,
                )
            &&& forall|n: nat| tags_below(st.nodes, n) ==> #[trigger] tags_below(after.nodes, n)
        }),
{
    if forest::has_path(st.nodes, path) {
        let i = forest::index_of(st.nodes, path);
        let node = st.nodes[i];
        if node.shadowed.len() > 0 {
            lemma_update_node(st.nodes, i, node.shadowed.last(), node.shadowed.drop_last());
        } else {
            assert(forest::is_mount_path(path));
            forest::lemma_unlinked(st.nodes, path);
            forest_order::law_unlink_keeps_tree_order(st.nodes, path);
        }
    }
    let after = after_remove(st, id, path);
    assert forall|n: nat| tags_below(st.nodes, n) implies #[trigger] tags_below(after.nodes, n) by {
        assert forall|p: Seq<char>|
            (#[trigger] forest::node_at(after.nodes, p)) is Some implies node_tags_below(
            forest::node_at(after.nodes, p)->0,
            n,
        ) by {
            assert(forest::node_at(st.nodes, p) is Some ==> node_tags_below(
                forest::node_at(st.nodes, p)->0,
                n,
            ));
        }
    }
}

/// Unmounting takes back mounting: at every path there is again what there was.
pub proof fn law_remove_undoes_install(
    st: TableState,
    id: u64,
    path: Seq<char>,
    target_inode_id: u64,
    root: u64,
    propagation: MountPropagation,
    source: Seq<char>,
    fstype: Seq<char>,
    mount_flags: u64,
    any: Seq<char>,
)
    requires
        well_formed(st.nodes),
        forest::is_mount_path(path),
    ensures
        ({
            let mounted = after_install(
                st,
                id,
                path,
                target_inode_id,
                root,
                propagation,
                source,
                fstype,
                mount_flags,
            );
            let back = after_remove(mounted, id, path);
            &&& well_formed(back.nodes)
            &&& forest::node_at(back.nodes, any) == forest::node_at(st.nodes, any)
        }),
{
    lemma_after_install_wf(
        st,
        id,
        path,
        target_inode_id,
        root,
        propagation,
        source,
        fstype,
        mount_flags,
    );
    let mounted = after_install(
        st,
        id,
        path,
        target_inode_id,
        root,
        propagation,
        source,
        fstype,
        mount_flags,
    );
    lemma_after_remove_wf(mounted, id, path);
    if any == path && forest::has_path(st.nodes, path) {
        let node = st.nodes[forest::index_of(st.nodes, path)];
        assert(node.shadowed.push(node.data).drop_last() =~= node.shadowed);
    }
}

/// Replacing a mount point replaces it as seen from outside.
pub proof fn lemma_view_update(nodes: Seq<MountNode>, i: int, node: MountNode)
    requires
        0 <= i < nodes.len(),
    ensures
        forest::nodes_view(nodes.update(i, node)) == forest::nodes_view(nodes).update(i, node@),
{
    assert(forest::nodes_view(nodes.update(i, node)) =~= forest::nodes_view(nodes).update(
        i,
        node@,
    ));
}

impl MountTable {
    pub open spec fn wf(&self) -> bool {
        well_formed(self@)
    }

    /// The table and what it has in common with the others.
    pub open spec fn state(&self, registry: &MountRegistry) -> TableState {
        TableState { nodes: self@, registry: registry@ }
    }

    /// A table without mounts.
    pub fn new(id: u64) -> (table: MountTable)
        ensures
            table.wf(),
            table@ == Seq::<forest::NodeView>::empty(),
            table.id == id,
            table.owner_user_ns is None,
    {
        let table = MountTable { id, nodes: Vec::new(), owner_user_ns: None };
        assert(table@ =~= Seq::empty());
        table
    }

    /// The user namespace that owns the table.
    pub fn owner_user_ns(&self) -> (ns: Option<u64>)
        ensures
            ns == self.owner_user_ns,
    {
        self.owner_user_ns
    }

    /// Mounts something at a path.
    pub fn install(
        &mut self,
        registry: &mut MountRegistry,
        target_path: &str,
        target_inode_id: u64,
        root: u64,
        propagation: MountPropagation,
        source: &str,
        fstype: &str,
        mount_flags: u64,
    )
        requires
            old(self).wf(),
            forest::is_mount_path(target_path@),
        ensures
            final(self).wf(),
            final(self).id == old(self).id,
            final(self).owner_user_ns == old(self).owner_user_ns,
            final(self).state(final(registry)) == after_install(
                old(self).state(old(registry)),
                old(self).id,
                target_path@,
                target_inode_id,
                root,
                propagation,
                source@,
                fstype@,
                mount_flags,
            ),
            old(self).tags_exist(old(registry)) ==> final(self).tags_exist(final(registry)),
    {
        let ghost st = self.state(registry);
        assert(registry@.tags.len() == registry.tags.len());
        proof {
            lemma_after_install_wf(
                st,
                self.id,
                target_path@,
                target_inode_id,
                root,
                propagation,
                source@,
                fstype@,
                mount_flags,
            );
        }
        registry.join(propagation, self.id, target_path);
        match find_path(&self.nodes, target_path) {
            Some(i) => {
                proof {
                    forest::lemma_index_of(self@, i as int);
                }
                let old_data = self.nodes[i].data.clone();
                registry.leave(old_data.propagation, self.id, target_path);
                let in_use: usize = registry.new_tag(mount_flags);
                let data = MountEntry {
                    target_inode_id,
                    root,
                    propagation,
                    in_use,
                    source: source.to_owned(),
                    fstype: fstype.to_owned(),
                };
                let ghost nodes = self.nodes@;
                let ghost was = self.nodes@[i as int];
                let node = &mut self.nodes[i];
                node.shadowed.push(old_data);
                node.data = data;
                proof {
                    let now = self.nodes@[i as int];
                    lemma_view_update(nodes, i as int, now);
                    assert(now@.shadowed =~= was@.shadowed.push(was@.data));
                    assert(self.nodes@ =~= nodes.update(i as int, now));
                    assert(self.state(registry) =~= after_install(
                        st,
                        self.id,
                        target_path@,
                        target_inode_id,
                        root,
                        propagation,
                        source@,
                        fstype@,
                        mount_flags,
                    ));
                }
            },
            None => {
                let in_use: usize = registry.new_tag(mount_flags);
                let data = MountEntry {
                    target_inode_id,
                    root,
                    propagation,
                    in_use,
                    source: source.to_owned(),
                    fstype: fstype.to_owned(),
                };
                let node = MountNode {
                    mountpoint: target_path.to_owned(),
                    data,
                    shadowed: Vec::new(),
                };
                assert(node@.shadowed =~= Seq::empty());
                forest::link_into_tree(&mut self.nodes, node);
            },
        }
    }

    /// The inode at the root of what is mounted at a path.
    pub fn lookup(&self, target_path: &str) -> (root: Option<u64>)
        requires
            self.wf(),
        ensures
            root == (match forest::node_at(self@, target_path@) {
                Some(node) => Some(node.data.root),
                None => None,
            }),
    {
        match find_path(&self.nodes, target_path) {
            Some(i) => {
                proof {
                    forest::lemma_index_of(self@, i as int);
                }
                Some(self.nodes[i].data.root)
            },
            None => None,
        }
    }

    /// Sets the flags of the mount at a path. Says whether there is one.
    pub fn set_flags_at(&self, registry: &mut MountRegistry, target_path: &str, mount_flags: u64)
        -> (found: bool)
        requires
            self.wf(),
            self.tags_exist(old(registry)),
        ensures
            found == forest::has_path(self@, target_path@),
            found ==> final(registry)@ == flags_set(
                old(registry)@,
                forest::node_at(self@, target_path@)->0.data.in_use,
                mount_flags,
            ),
            !found ==> *final(registry) == *old(registry),
    {
        match find_path(&self.nodes, target_path) {
            Some(i) => {
                proof {
                    forest::lemma_index_of(self@, i as int);
                    assert(node_tags_below(
                        forest::node_at(self@, target_path@)->0,
                        registry@.tags.len(),
                    ));
                }
                let tag: usize = self.nodes[i].data.in_use;
                set_tag_flags(registry, tag, mount_flags);
                true
            },
            None => false,
        }
    }

    /// Every mount's in-use tag is one of the registry.
    pub open spec fn tags_exist(&self, registry: &MountRegistry) -> bool {
        tags_below(self@, registry@.tags.len())
    }

    /// The mount at a path.
    pub fn snapshot_one(&self, target_path: &str) -> (entry: Option<MountEntry>)
        requires
            self.wf(),
        ensures
            match entry {
                Some(e) => forest::node_at(self@, target_path@) is Some && e@ == forest::node_at(
                    self@,
                    target_path@,
                )->0.data,
                None => forest::node_at(self@, target_path@) is None,
            },
    {
        match find_path(&self.nodes, target_path) {
            Some(i) => {
                proof {
                    forest::lemma_index_of(self@, i as int);
                }
                Some(self.nodes[i].data.clone())
            },
            None => None,
        }
    }

    /// Takes the mount on top at a path away. Returns the inode at its root.
    pub fn remove(&mut self, registry: &mut MountRegistry, target_path: &str) -> (root: Option<u64>)
        requires
            old(self).wf(),
        ensures
            final(self).wf(),
            final(self).id == old(self).id,
            final(self).owner_user_ns == old(self).owner_user_ns,
            root == (match forest::node_at(old(self)@, target_path@) {
                Some(node) => Some(node.data.root),
                None => None,
            }),
            final(self).state(final(registry)) == after_remove(
                old(self).state(old(registry)),
                old(self).id,
                target_path@,
            ),
            old(self).tags_exist(old(registry)) ==> final(self).tags_exist(final(registry)),
    {
        let ghost st = self.state(registry);
        proof {
            lemma_after_remove_wf(st, self.id, target_path@);
        }
        let i: usize = match find_path(&self.nodes, target_path) {
            Some(i) => i,
            None => return None,
        };
        proof {
            forest::lemma_index_of(self@, i as int);
        }
        let propagation = self.nodes[i].data.propagation;
        let root: u64 = self.nodes[i].data.root;
        registry.leave(propagation, self.id, target_path);
        let ghost nodes = self.nodes@;
        let ghost was = self.nodes@[i as int];
        let next = self.nodes[i].shadowed.pop();
        match next {
            Some(under) => {
                registry.join(under.propagation, self.id, target_path);
                let ghost top = under@;
                self.nodes[i].data = under;
                proof {
                    let now = self.nodes@[i as int];
                    lemma_view_update(nodes, i as int, now);
                    assert(now@.shadowed =~= was@.shadowed.drop_last());
                    assert(self.nodes@ =~= nodes.update(i as int, now));
                    assert(self.state(registry) =~= after_remove(st, self.id, target_path@));
                }
            },
            None => {
                proof {
                    let now = self.nodes@[i as int];
                    lemma_view_update(nodes, i as int, now);
                    assert(now@.shadowed =~= was@.shadowed);
                    assert(self.nodes@ =~= nodes.update(i as int, now));
                    assert(self@ =~= forest::nodes_view(nodes));
                }
                forest::unlink_from_tree(&mut self.nodes, target_path);
            },
        }
        Some(root)
    }
}

/// The registry once the flags of one tag are set.
pub open spec fn flags_set(
    registry: registry::RegistryView,
    tag: usize,
    flags: u64,
) -> registry::RegistryView {
    registry::RegistryView {
        tags: registry.tags.update(
            tag as int,
            MountInUseTag { refs: registry.tags[tag as int].refs, flags },
        ),
        ..registry
    }
}

/// Sets the flags of a tag.
pub fn set_tag_flags(registry: &mut MountRegistry, tag: usize, flags: u64)
    requires
        tag < old(registry)@.tags.len(),
    ensures
        final(registry)@ == flags_set(old(registry)@, tag, flags),
{
    let refs: usize = registry.tags[tag].refs;
    registry.tags[tag] = MountInUseTag { refs, flags };
}

} // verus!
