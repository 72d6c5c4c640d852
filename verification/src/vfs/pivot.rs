//! Copying a whole mount table, and turning it round a new root.

use vstd::prelude::*;
use vstd::string::*;

use crate::errno;
use crate::text;
use crate::vfs::context;
use crate::vfs::forest;
use crate::vfs::forest::{find_path, MountNode};
use crate::vfs::forest_order;
use crate::vfs::mount_queries;
use crate::vfs::mount_queries::path_len;
use crate::vfs::mount_table;
use crate::vfs::mount_table::MountTable;
use crate::vfs::path;
use crate::vfs::registry;
use crate::vfs::registry::MountRegistry;
use crate::vfs::MountInUseTag;

verus! {

/// The child's table after the first `n` mount points were copied: each mount on top is
/// mounted anew, takes its own place in its group, and has a tag of its own with the
/// same flags. Hidden mounts stay behind.
pub open spec fn copied(
    parent: Seq<forest::NodeView>,
    registry: registry::RegistryView,
    child_id: u64,
    n: int,
) -> mount_table::TableState
    decreases n,
{
    if n <= 0 {
        mount_table::TableState { nodes: Seq::empty(), registry }
    } else {
        let st = copied(parent, registry, child_id, n - 1);
        let node = parent[n - 1];
        let tag = st.registry.tags.len() as usize;
        let flags = st.registry.tags[node.data.in_use as int].flags;
        mount_table::TableState {
            nodes: forest::linked(
                st.nodes,
                forest::NodeView {
                    path: node.path,
                    data: forest::EntryView { in_use: tag, ..node.data },
                    shadowed: Seq::empty(),
                },
            ),
            registry: registry::RegistryView {
                peers: registry::joined(
                    st.registry.peers,
                    node.data.propagation,
                    child_id,
                    node.path,
                ),
                tags: st.registry.tags.push(MountInUseTag { refs: 0, flags }),
                ..st.registry
            },
        }
    }
}

/// The copy has at each of the first `n` paths the same mount, with the same flags, and
/// nothing anywhere else.
pub open spec fn is_copy(
    parent: Seq<forest::NodeView>,
    tags: Seq<MountInUseTag>,
    child: Seq<forest::NodeView>,
    child_tags: Seq<MountInUseTag>,
    n: int,
) -> bool {
    &&& forall|i: int|
        0 <= i < n ==> {
            let was = (#[trigger] parent[i]).data;
            forest::node_at(child, parent[i].path) matches Some(node) && node.shadowed.len() == 0
                && node.data == (forest::EntryView { in_use: node.data.in_use, ..was })
                && child_tags[node.data.in_use as int] == (MountInUseTag {
                refs: 0,
                flags: tags[was.in_use as int].flags,
            }) && tags.len() <= node.data.in_use < child_tags.len()
        }
    &&& forall|p: Seq<char>|
        (#[trigger] forest::node_at(child, p)) is Some ==> exists|i: int|
            0 <= i < n && (#[trigger] parent[i]).path == p
}

proof fn lemma_copied(
    parent: Seq<forest::NodeView>,
    registry: registry::RegistryView,
    child_id: u64,
    n: int,
)
    requires
        mount_table::well_formed(parent),
        mount_table::tags_below(parent, registry.tags.len()),
        0 <= n <= parent.len(),
        registry.tags.len() + n <= usize::MAX,
    ensures
        mount_table::well_formed(copied(parent, registry, child_id, n).nodes),
        copied(parent, registry, child_id, n).registry.tags.len() == registry.tags.len() + n,
        forall|t: int|
            0 <= t < registry.tags.len() ==> copied(
                parent,
                registry,
                child_id,
                n,
            ).registry.tags[t] == registry.tags[t],
        is_copy(
            parent,
            registry.tags,
            copied(parent, registry, child_id, n).nodes,
            copied(parent, registry, child_id, n).registry.tags,
            n,
        ),
        copied(parent, registry, child_id, n).registry.next_group == registry.next_group,
    decreases n,
{
    let now = copied(parent, registry, child_id, n);
    if n > 0 {
        lemma_copied(parent, registry, child_id, n - 1);
        let st = copied(parent, registry, child_id, n - 1);
        let node = parent[n - 1];
        let tag = st.registry.tags.len() as usize;
        let new_node = forest::NodeView {
            path: node.path,
            data: forest::EntryView { in_use: tag, ..node.data },
            shadowed: Seq::empty(),
        };
        forest::lemma_index_of(parent, n - 1);
        assert(mount_table::node_tags_below(
            forest::node_at(parent, node.path)->0,
            registry.tags.len(),
        ));
        assert(!forest::has_path(st.nodes, node.path)) by {
            if forest::has_path(st.nodes, node.path) {
                assert(forest::node_at(st.nodes, node.path) is Some);
                let i = choose|i: int| 0 <= i < n - 1 && (#[trigger] parent[i]).path == node.path;
            }
        }
        forest::lemma_linked(st.nodes, new_node);
        forest_order::law_link_keeps_tree_order(st.nodes, new_node);
        assert forall|i: int| 0 <= i < n implies {
            let was = (#[trigger] parent[i]).data;
            forest::node_at(now.nodes, parent[i].path) matches Some(found) && found.shadowed.len()
                == 0 && found.data == (forest::EntryView { in_use: found.data.in_use, ..was })
                && now.registry.tags[found.data.in_use as int] == (MountInUseTag {
                refs: 0,
                flags: registry.tags[was.in_use as int].flags,
            }) && registry.tags.len() <= found.data.in_use < now.registry.tags.len()
        } by {
            if i < n - 1 {
                assert(parent[i].path != node.path);
                assert(forest::node_at(now.nodes, parent[i].path) == forest::node_at(
                    st.nodes,
                    parent[i].path,
                ));
            }
        }
        assert forall|p: Seq<char>|
            (#[trigger] forest::node_at(now.nodes, p)) is Some implies exists|i: int|
            0 <= i < n && (#[trigger] parent[i]).path == p by {
            if p == node.path {
                assert(parent[n - 1].path == p);
            } else {
                assert(forest::node_at(st.nodes, p) is Some);
                let i = choose|i: int| 0 <= i < n - 1 && (#[trigger] parent[i]).path == p;
                assert(parent[i].path == p);
            }
        }
    } else {
        assert forall|p: Seq<char>|
            (#[trigger] forest::node_at(now.nodes, p)) is Some implies false by {}
        assert(forest::unique_paths(now.nodes));
    }
}

/// A copied table has at every path the mount that its source has on top there, with
/// the same flags, not in use, and its changes do not touch the tags of the source.
pub proof fn law_copy_looks_like_its_source(
    parent: Seq<forest::NodeView>,
    registry: registry::RegistryView,
    child_id: u64,
)
    requires
        mount_table::well_formed(parent),
        mount_table::tags_below(parent, registry.tags.len()),
        registry.tags.len() + parent.len() <= usize::MAX,
    ensures
        ({
            let child = copied(parent, registry, child_id, parent.len() as int);
            &&& mount_table::well_formed(child.nodes)
            &&& is_copy(
                parent,
                registry.tags,
                child.nodes,
                child.registry.tags,
                parent.len() as int,
            )
            &&& child.registry.tags.take(registry.tags.len() as int) == registry.tags
        }),
{
    lemma_copied(parent, registry, child_id, parent.len() as int);
    assert(copied(parent, registry, child_id, parent.len() as int).registry.tags.take(
        registry.tags.len() as int,
    ) =~= registry.tags);
}

impl MountTable {
    /// A copy of the table for a new mount namespace.
    pub fn snapshot(
        &self,
        registry: &mut MountRegistry,
        child_id: u64,
        owner_user_ns: Option<u64>,
    ) -> (child: MountTable)
        requires
            self.wf(),
            self.tags_exist(old(registry)),
            old(registry)@.tags.len() + self@.len() <= usize::MAX,
        ensures
            child.wf(),
            child.id == child_id,
            child.owner_user_ns == owner_user_ns,
            child.tags_exist(final(registry)),
            child.state(final(registry)) == copied(
                self@,
                old(registry)@,
                child_id,
                self@.len() as int,
            ),
    {
        let ghost reg = registry@;
        let mut child = MountTable { id: child_id, nodes: Vec::new(), owner_user_ns };
        let mut i: usize = 0;
        assert(child@ =~= Seq::empty());
        while i < self.nodes.len()
            invariant
                self.wf(),
                mount_table::tags_below(self@, reg.tags.len()),
                reg.tags.len() + self@.len() <= usize::MAX,
                reg == old(registry)@,
                i <= self.nodes@.len(),
                child.id == child_id,
                child.owner_user_ns == owner_user_ns,
                child.state(registry) == copied(self@, reg, child_id, i as int),
            decreases self.nodes.len() - i,
        {
            let node = &self.nodes[i];
            proof {
                assert(self@[i as int] == node@);
                lemma_copied(self@, reg, child_id, i as int);
                forest::lemma_index_of(self@, i as int);
                assert(mount_table::node_tags_below(
                    forest::node_at(self@, node@.path)->0,
                    reg.tags.len(),
                ));
                assert(registry@.tags.len() == reg.tags.len() + i);
            }
            registry.join(node.data.propagation, child_id, node.mountpoint.as_str());
            let flags: u64 = registry.tags[node.data.in_use].flags;
            let in_use: usize = registry.new_tag(flags);
            let mut data = node.data.clone();
            data.in_use = in_use;
            let copy = MountNode {
                mountpoint: node.mountpoint.clone(),
                data,
                shadowed: Vec::new(),
            };
            assert(copy@.shadowed =~= Seq::empty());
            forest::link_into_tree(&mut child.nodes, copy);
            i += 1;
        }
        proof {
            lemma_copied(self@, reg, child_id, i as int);
        }
        child
    }
}

/// `path` seen from inside `prefix`; a path that is not inside stays as it is.
pub open spec fn stripped(path: Seq<char>, prefix: Seq<char>) -> Seq<char> {
    if path == prefix {
        seq!['/']
    } else if text::begins_with(path, prefix) && path.len() > prefix.len() && path[
        prefix.len() as int] == '/' {
        path.skip(prefix.len() as int)
    } else {
        path
    }
}

/// `path` moved into the directory `base`.
pub open spec fn rebased(base: Seq<char>, path: Seq<char>) -> Seq<char> {
    if forest::is_root(path) {
        base
    } else if forest::is_root(base) {
        path
    } else {
        base + path
    }
}

/// The path is `new_root` or inside it.
pub open spec fn is_inside(path: Seq<char>, new_root: Seq<char>) -> bool {
    path == new_root || (text::begins_with(path, new_root) && path.len() > new_root.len() && path[
        new_root.len() as int] == '/')
}

/// `path` seen from inside `prefix`.
pub fn strip_prefix_path(path: &str, prefix: &str) -> (rest: String)
    ensures
        rest@ == stripped(path@, prefix@),
{
    proof {
        reveal_strlit("/");
        assert("/"@ =~= seq!['/']);
    }
    if text::equal(path, prefix) {
        return String::from_str("/");
    }
    let p = text::to_chars(path);
    let q = text::to_chars(prefix);
    if text::starts_with(&p, &q) && q.len() < p.len() && p[q.len()] == '/' {
        let rest = text::slice(path, q.len(), p.len());
        assert(path@.subrange(q@.len() as int, p@.len() as int) =~= path@.skip(q@.len() as int));
        rest
    } else {
        path.to_owned()
    }
}

/// `path` moved into the directory `base`.
pub fn rebase_into(base: &str, path: &str) -> (moved: String)
    ensures
        moved@ == rebased(base@, path@),
{
    if forest::root_chars(&text::to_chars(path)) {
        return base.to_owned();
    }
    if forest::root_chars(&text::to_chars(base)) {
        return path.to_owned();
    }
    base.to_owned().concat(path)
}

fn inside(path: &str, new_root: &str) -> (r: bool)
    ensures
        r == is_inside(path@, new_root@),
{
    if text::equal(path, new_root) {
        return true;
    }
    let p = text::to_chars(path);
    let q = text::to_chars(new_root);
    text::starts_with(&p, &q) && q.len() < p.len() && p[q.len()] == '/'
}

/// What is stripped off and what is moved are paths that something can be mounted at.
pub proof fn lemma_moved_paths(path: Seq<char>, other: Seq<char>)
    requires
        forest::is_mount_path(path),
        forest::is_mount_path(other),
    ensures
        forest::is_mount_path(stripped(path, other)),
        forest::is_mount_path(rebased(other, path)),
{
    if path != other && text::begins_with(path, other) && path.len() > other.len() && path[
        other.len() as int] == '/' {
        let rest = path.skip(other.len() as int);
        assert(rest[0] == '/');
        assert(rest.last() == path.last());
    }
    if !forest::is_root(path) && !forest::is_root(other) {
        if path.len() == 1 {
            assert(path =~= seq!['/']);
        }
        if other.len() == 1 {
            assert(other =~= seq!['/']);
        }
        let moved = other + path;
        assert(moved.last() == path.last());
        assert(moved[0] == other[0]);
    }
}

/// The mount points inside `new_root` among the first `n`, by their paths seen from
/// there.
pub open spec fn kept(nodes: Seq<forest::NodeView>, new_root: Seq<char>, n: int) -> Seq<
    forest::NodeView,
>
    decreases n,
{
    if n <= 0 {
        Seq::empty()
    } else if is_inside(nodes[n - 1].path, new_root) {
        kept(nodes, new_root, n - 1).push(
            forest::NodeView { path: stripped(nodes[n - 1].path, new_root), ..nodes[n - 1] },
        )
    } else {
        kept(nodes, new_root, n - 1)
    }
}

/// The mounts on top outside `new_root` among the first `n`, moved into the directory
/// `base`.
pub open spec fn set_aside(
    nodes: Seq<forest::NodeView>,
    new_root: Seq<char>,
    base: Seq<char>,
    n: int,
) -> Seq<forest::NodeView>
    decreases n,
{
    if n <= 0 {
        Seq::empty()
    } else if is_inside(nodes[n - 1].path, new_root) {
        set_aside(nodes, new_root, base, n - 1)
    } else {
        set_aside(nodes, new_root, base, n - 1).push(
            forest::NodeView {
                path: rebased(base, nodes[n - 1].path),
                data: nodes[n - 1].data,
                shadowed: Seq::empty(),
            },
        )
    }
}

/// The mounts that are put back under the old root. Where the old root is to go on top
/// of the new one, it is the old root's mount alone.
pub open spec fn put_back(
    nodes: Seq<forest::NodeView>,
    new_root: Seq<char>,
    put_old: Seq<char>,
) -> Seq<forest::NodeView> {
    if put_old == new_root {
        match forest::node_at(nodes, seq!['/']) {
            Some(node) => seq![
                forest::NodeView { path: seq!['/'], data: node.data, shadowed: Seq::empty() },
            ],
            None => Seq::empty(),
        }
    } else {
        set_aside(nodes, new_root, stripped(put_old, new_root), nodes.len() as int)
    }
}

/// The place behind the last of the first `n` mount points whose path is not longer.
pub open spec fn len_rank(s: Seq<forest::NodeView>, path: Seq<char>, n: int) -> int
    decreases n,
{
    if n <= 0 {
        0
    } else if mount_queries::byte_len(s[n - 1].path) <= mount_queries::byte_len(path) {
        n
    } else {
        len_rank(s, path, n - 1)
    }
}

/// The first `n` mount points, shorter paths first; those as long stay in their order.
pub open spec fn by_len(s: Seq<forest::NodeView>, n: int) -> Seq<forest::NodeView>
    decreases n,
{
    if n <= 0 {
        Seq::empty()
    } else {
        let front = by_len(s, n - 1);
        front.insert(len_rank(front, s[n - 1].path, front.len() as int), s[n - 1])
    }
}

/// The places in the groups once the first `n` mount points have given up theirs.
pub open spec fn all_left(
    peers: Seq<registry::PeerView>,
    nodes: Seq<forest::NodeView>,
    id: u64,
    n: int,
) -> Seq<registry::PeerView>
    decreases n,
{
    if n <= 0 {
        peers
    } else {
        registry::left(
            all_left(peers, nodes, id, n - 1),
            nodes[n - 1].data.propagation,
            id,
            nodes[n - 1].path,
        )
    }
}

/// The table after the first `n` of `list` were put into it as new mount points.
pub open spec fn with_kept(
    st: mount_table::TableState,
    id: u64,
    list: Seq<forest::NodeView>,
    n: int,
) -> mount_table::TableState
    decreases n,
{
    if n <= 0 {
        st
    } else {
        let prev = with_kept(st, id, list, n - 1);
        let node = list[n - 1];
        mount_table::TableState {
            nodes: forest::linked(prev.nodes, node),
            registry: registry::RegistryView {
                peers: registry::joined(
                    prev.registry.peers,
                    node.data.propagation,
                    id,
                    node.path,
                ),
                ..prev.registry
            },
        }
    }
}

/// The table after one mount was put back: on top of what is there, or as a new mount
/// point, with a tag of its own with the same flags.
pub open spec fn with_old(
    prev: mount_table::TableState,
    id: u64,
    node: forest::NodeView,
) -> mount_table::TableState {
    let peers = registry::joined(prev.registry.peers, node.data.propagation, id, node.path);
    match forest::node_at(prev.nodes, node.path) {
        Some(there) => mount_table::TableState {
            nodes: prev.nodes.update(
                forest::index_of(prev.nodes, node.path),
                forest::NodeView {
                    path: node.path,
                    data: node.data,
                    shadowed: there.shadowed.push(there.data),
                },
            ),
            registry: registry::RegistryView { peers, ..prev.registry },
        },
        None => mount_table::TableState {
            nodes: forest::linked(
                prev.nodes,
                forest::NodeView {
                    path: node.path,
                    data: forest::EntryView {
                        in_use: prev.registry.tags.len() as usize,
                        ..node.data
                    },
                    shadowed: Seq::empty(),
                },
            ),
            registry: registry::RegistryView {
                peers,
                tags: prev.registry.tags.push(
                    MountInUseTag {
                        refs: 0,
                        flags: prev.registry.tags[node.data.in_use as int].flags,
                    },
                ),
                ..prev.registry
            },
        },
    }
}

/// The table after the first `n` of `list` were put back.
pub open spec fn with_olds(
    st: mount_table::TableState,
    id: u64,
    list: Seq<forest::NodeView>,
    n: int,
) -> mount_table::TableState
    decreases n,
{
    if n <= 0 {
        st
    } else {
        with_old(with_olds(st, id, list, n - 1), id, list[n - 1])
    }
}

/// The table turned round `new_root`: what was mounted inside it is seen from there, and
/// the rest is put back under `put_old`, shorter paths first.
pub open spec fn after_pivot(
    st: mount_table::TableState,
    id: u64,
    new_root: Seq<char>,
    put_old: Seq<char>,
) -> mount_table::TableState {
    let n = st.nodes.len() as int;
    let inside = kept(st.nodes, new_root, n);
    let back = put_back(st.nodes, new_root, put_old);
    let start = mount_table::TableState {
        nodes: Seq::empty(),
        registry: registry::RegistryView {
            peers: all_left(st.registry.peers, st.nodes, id, n),
            ..st.registry
        },
    };
    let turned = with_kept(
        start,
        id,
        by_len(inside, inside.len() as int),
        inside.len() as int,
    );
    with_olds(turned, id, by_len(back, back.len() as int), back.len() as int)
}

proof fn lemma_len_rank(s: Seq<forest::NodeView>, path: Seq<char>, n: int)
    requires
        0 <= n <= s.len(),
    ensures
        0 <= len_rank(s, path, n) <= n,
    decreases n,
{
    if n > 0 {
        lemma_len_rank(s, path, n - 1);
    }
}

/// Sorting only changes the order.
proof fn lemma_by_len(s: Seq<forest::NodeView>, n: int) -> (from: Seq<int>)
    requires
        0 <= n <= s.len(),
    ensures
        by_len(s, n).len() == n,
        from.len() == n,
        forall|i: int|
            0 <= i < n ==> 0 <= #[trigger] from[i] < n && by_len(s, n)[i] == s[from[i]],
        forall|i: int, j: int| 0 <= i < j < n ==> #[trigger] from[i] != #[trigger] from[j],
        forall|k: int| 0 <= k < n ==> #[trigger] from.contains(k),
    decreases n,
{
    if n <= 0 {
        Seq::empty()
    } else {
        let prev = lemma_by_len(s, n - 1);
        let front = by_len(s, n - 1);
        let r = len_rank(front, s[n - 1].path, front.len() as int);
        lemma_len_rank(front, s[n - 1].path, front.len() as int);
        let from = prev.insert(r, n - 1);
        assert forall|i: int| 0 <= i < n implies 0 <= #[trigger] from[i] < n && by_len(s, n)[i]
            == s[from[i]] by {
            if i < r {
                assert(from[i] == prev[i]);
            } else if i > r {
                assert(from[i] == prev[i - 1]);
            }
        }
        assert forall|i: int, j: int| 0 <= i < j < n implies #[trigger] from[i]
            != #[trigger] from[j] by {
            if i < r {
                assert(from[i] == prev[i]);
            } else if i > r {
                assert(from[i] == prev[i - 1]);
            }
            if j < r {
                assert(from[j] == prev[j]);
            } else if j > r {
                assert(from[j] == prev[j - 1]);
            }
        }
        assert forall|k: int| 0 <= k < n implies #[trigger] from.contains(k) by {
            if k == n - 1 {
                assert(from[r] == k);
            } else {
                assert(prev.contains(k));
                let w = choose|w: int| 0 <= w < prev.len() && prev[w] == k;
                if w < r {
                    assert(from[w] == k);
                } else {
                    assert(from[w + 1] == k);
                }
            }
        }
        from
    }
}

proof fn lemma_sorted_paths(s: Seq<forest::NodeView>, bound: nat)
    requires
        forest::mount_paths(s),
        list_tags_below(s, bound),
    ensures
        by_len(s, s.len() as int).len() == s.len(),
        forest::mount_paths(by_len(s, s.len() as int)),
        list_tags_below(by_len(s, s.len() as int), bound),
        forest::unique_paths(s) ==> forest::unique_paths(by_len(s, s.len() as int)),
        forall|i: int|
            0 <= i < s.len() ==> by_len(s, s.len() as int).contains(#[trigger] s[i]),
{
    let t = by_len(s, s.len() as int);
    let from = lemma_by_len(s, s.len() as int);
    assert forall|i: int| 0 <= i < t.len() implies forest::is_mount_path((#[trigger] t[i]).path) by {
        assert(t[i] == s[from[i]]);
    }
    assert forall|i: int| 0 <= i < t.len() implies mount_table::node_tags_below(
        #[trigger] t[i],
        bound,
    ) by {
        assert(t[i] == s[from[i]]);
    }
    if forest::unique_paths(s) {
        assert forall|i: int, j: int| 0 <= i < j < t.len() implies (#[trigger] t[i]).path != (
        #[trigger] t[j]).path by {
            assert(t[i] == s[from[i]] && t[j] == s[from[j]]);
            assert(from[i] != from[j]);
        }
    }
    assert forall|i: int| 0 <= i < s.len() implies t.contains(#[trigger] s[i]) by {
        assert(from.contains(i));
        let w = choose|w: int| 0 <= w < from.len() && from[w] == i;
        assert(t[w] == s[i]);
    }
}

/// The tags of all mounts of a list are among the first `n`.
pub open spec fn list_tags_below(s: Seq<forest::NodeView>, n: nat) -> bool {
    forall|i: int| 0 <= i < s.len() ==> mount_table::node_tags_below(#[trigger] s[i], n)
}

proof fn lemma_stripped_injective(a: Seq<char>, b: Seq<char>, new_root: Seq<char>)
    requires
        forest::is_mount_path(a),
        forest::is_mount_path(b),
        is_inside(a, new_root),
        is_inside(b, new_root),
        stripped(a, new_root) == stripped(b, new_root),
    ensures
        a == b,
{
    if a != b {
        if a == new_root {
            let rest = b.skip(new_root.len() as int);
            assert(rest.len() == 1);
            assert(rest.last() == b.last());
        } else if b == new_root {
            let rest = a.skip(new_root.len() as int);
            assert(rest.len() == 1);
            assert(rest.last() == a.last());
        } else {
            assert(a =~= a.take(new_root.len() as int) + a.skip(new_root.len() as int));
            assert(b =~= b.take(new_root.len() as int) + b.skip(new_root.len() as int));
        }
    }
}

/// `node` is the mount point at place `k`, which is inside `new_root`, seen from there.
pub open spec fn is_seen_from(
    nodes: Seq<forest::NodeView>,
    new_root: Seq<char>,
    k: int,
    node: forest::NodeView,
) -> bool {
    is_inside(nodes[k].path, new_root) && node == (forest::NodeView {
        path: stripped(nodes[k].path, new_root),
        ..nodes[k]
    })
}

/// `node` is one of the first `n` mount points, seen from inside `new_root`.
pub open spec fn is_seen_from_some(
    nodes: Seq<forest::NodeView>,
    new_root: Seq<char>,
    n: int,
    node: forest::NodeView,
) -> bool {
    exists|k: int| 0 <= k < n && #[trigger] is_seen_from(nodes, new_root, k, node)
}

proof fn lemma_kept(nodes: Seq<forest::NodeView>, new_root: Seq<char>, n: int, bound: nat)
    requires
        0 <= n <= nodes.len(),
        mount_table::well_formed(nodes),
        forest::is_mount_path(new_root),
        mount_table::tags_below(nodes, bound),
    ensures
        forest::mount_paths(kept(nodes, new_root, n)),
        forest::unique_paths(kept(nodes, new_root, n)),
        list_tags_below(kept(nodes, new_root, n), bound),
        kept(nodes, new_root, n).len() <= n,
        forall|i: int|
            0 <= i < kept(nodes, new_root, n).len() ==> is_seen_from_some(
                nodes,
                new_root,
                n,
                #[trigger] kept(nodes, new_root, n)[i],
            ),
        forall|k: int|
            0 <= k < n && is_inside((#[trigger] nodes[k]).path, new_root) ==> kept(
                nodes,
                new_root,
                n,
            ).contains(
                forest::NodeView { path: stripped(nodes[k].path, new_root), ..nodes[k] },
            ),
    decreases n,
{
    let list = kept(nodes, new_root, n);
    if n > 0 {
        lemma_kept(nodes, new_root, n - 1, bound);
        let prev = kept(nodes, new_root, n - 1);
        let node = nodes[n - 1];
        let moved = forest::NodeView { path: stripped(node.path, new_root), ..node };
        forest::lemma_index_of(nodes, n - 1);
        assert(mount_table::node_tags_below(forest::node_at(nodes, node.path)->0, bound));
        if is_inside(node.path, new_root) {
            lemma_moved_paths(node.path, new_root);
            assert forall|i: int| 0 <= i < list.len() implies is_seen_from_some(
                nodes,
                new_root,
                n,
                #[trigger] list[i],
            ) by {
                if i < prev.len() {
                    assert(list[i] == prev[i]);
                    assert(is_seen_from_some(nodes, new_root, n - 1, prev[i]));
                    let k = choose|k: int|
                        0 <= k < n - 1 && #[trigger] is_seen_from(nodes, new_root, k, prev[i]);
                    assert(is_seen_from(nodes, new_root, k, list[i]));
                } else {
                    assert(is_seen_from(nodes, new_root, n - 1, list[i]));
                }
            }
            assert forall|i: int, j: int| 0 <= i < j < list.len() implies (#[trigger] list[i]).path
                != (#[trigger] list[j]).path by {
                if j == prev.len() {
                    assert(is_seen_from_some(nodes, new_root, n - 1, prev[i]));
                    let k = choose|k: int|
                        0 <= k < n - 1 && #[trigger] is_seen_from(nodes, new_root, k, prev[i]);
                    assert(list[i] == prev[i]);
                    if list[i].path == list[j].path {
                        lemma_stripped_injective(nodes[k].path, node.path, new_root);
                    }
                } else {
                    assert(prev[i].path != prev[j].path);
                }
            }
            assert forall|k: int|
                0 <= k < n && is_inside((#[trigger] nodes[k]).path, new_root) implies list.contains(
                forest::NodeView { path: stripped(nodes[k].path, new_root), ..nodes[k] },
            ) by {
                let m = forest::NodeView { path: stripped(nodes[k].path, new_root), ..nodes[k] };
                if k < n - 1 {
                    assert(prev.contains(m));
                    let w = choose|w: int| 0 <= w < prev.len() && prev[w] == m;
                    assert(list[w] == m);
                } else {
                    assert(list[prev.len() as int] == m);
                }
            }
        } else {
            assert forall|i: int| 0 <= i < list.len() implies is_seen_from_some(
                nodes,
                new_root,
                n,
                #[trigger] list[i],
            ) by {
                assert(is_seen_from_some(nodes, new_root, n - 1, prev[i]));
                let k = choose|k: int|
                    0 <= k < n - 1 && #[trigger] is_seen_from(nodes, new_root, k, prev[i]);
                assert(is_seen_from(nodes, new_root, k, list[i]));
            }
        }
    }
}

proof fn lemma_put_back(
    nodes: Seq<forest::NodeView>,
    new_root: Seq<char>,
    base: Seq<char>,
    n: int,
    bound: nat,
)
    requires
        0 <= n <= nodes.len(),
        mount_table::well_formed(nodes),
        forest::is_mount_path(base),
        mount_table::tags_below(nodes, bound),
    ensures
        forest::mount_paths(set_aside(nodes, new_root, base, n)),
        list_tags_below(set_aside(nodes, new_root, base, n), bound),
        set_aside(nodes, new_root, base, n).len() <= n,
    decreases n,
{
    if n > 0 {
        lemma_put_back(nodes, new_root, base, n - 1, bound);
        let node = nodes[n - 1];
        lemma_moved_paths(node.path, base);
        forest::lemma_index_of(nodes, n - 1);
        assert(mount_table::node_tags_below(forest::node_at(nodes, node.path)->0, bound));
    }
}

proof fn lemma_with_kept(
    st: mount_table::TableState,
    id: u64,
    list: Seq<forest::NodeView>,
    n: int,
)
    requires
        st.nodes.len() == 0,
        0 <= n <= list.len(),
        forest::unique_paths(list),
        forest::mount_paths(list),
        list_tags_below(list, st.registry.tags.len()),
    ensures
        ({
            let now = with_kept(st, id, list, n);
            &&& mount_table::well_formed(now.nodes)
            &&& now.registry.tags == st.registry.tags
            &&& now.registry.next_group == st.registry.next_group
            &&& mount_table::tags_below(now.nodes, st.registry.tags.len())
            &&& forall|i: int|
                0 <= i < n ==> #[trigger] forest::node_at(now.nodes, list[i].path) == Some(list[i])
            &&& forall|p: Seq<char>|
                (#[trigger] forest::node_at(now.nodes, p)) is Some ==> exists|i: int|
                    0 <= i < n && (#[trigger] list[i]).path == p
        }),
    decreases n,
{
    let now = with_kept(st, id, list, n);
    if n > 0 {
        lemma_with_kept(st, id, list, n - 1);
        let prev = with_kept(st, id, list, n - 1);
        let node = list[n - 1];
        assert(!forest::has_path(prev.nodes, node.path)) by {
            if forest::has_path(prev.nodes, node.path) {
                assert(forest::node_at(prev.nodes, node.path) is Some);
                let i = choose|i: int| 0 <= i < n - 1 && (#[trigger] list[i]).path == node.path;
            }
        }
        forest::lemma_linked(prev.nodes, node);
        forest_order::law_link_keeps_tree_order(prev.nodes, node);
        assert forall|i: int| 0 <= i < n implies #[trigger] forest::node_at(
            now.nodes,
            list[i].path,
        ) == Some(list[i]) by {
            if i < n - 1 {
                assert(list[i].path != node.path);
                assert(forest::node_at(prev.nodes, list[i].path) == Some(list[i]));
            }
        }
        assert forall|p: Seq<char>|
            (#[trigger] forest::node_at(now.nodes, p)) is Some implies exists|i: int|
            0 <= i < n && (#[trigger] list[i]).path == p by {
            if p == node.path {
                assert(list[n - 1].path == p);
            } else {
                assert(forest::node_at(prev.nodes, p) is Some);
                let i = choose|i: int| 0 <= i < n - 1 && (#[trigger] list[i]).path == p;
                assert(list[i].path == p);
            }
        }
        assert forall|p: Seq<char>|
            (#[trigger] forest::node_at(now.nodes, p)) is Some implies mount_table::node_tags_below(
            forest::node_at(now.nodes, p)->0,
            st.registry.tags.len(),
        ) by {
            if p == node.path {
                assert(mount_table::node_tags_below(list[n - 1], st.registry.tags.len()));
            } else {
                assert(forest::node_at(prev.nodes, p) is Some);
            }
        }
    } else {
        assert(forall|p: Seq<char>| !(#[trigger] forest::has_path(now.nodes, p)));
    }
}

/// What a mount point held, on top or hidden, it still holds.
pub open spec fn still_holds(before: forest::NodeView, after: Option<forest::NodeView>) -> bool {
    after matches Some(node) && (node.data == before.data || node.shadowed.contains(before.data))
        && forall|e: forest::EntryView|
        before.shadowed.contains(e) ==> #[trigger] node.shadowed.contains(e)
}

proof fn lemma_still_holds_push(
    first: forest::NodeView,
    node: forest::NodeView,
    after: forest::NodeView,
)
    requires
        still_holds(first, Some(node)),
        after.shadowed == node.shadowed.push(node.data),
    ensures
        still_holds(first, Some(after)),
{
    let m = node.shadowed.len() as int;
    assert(after.shadowed[m] == node.data);
    assert forall|e: forest::EntryView| node.shadowed.contains(e) implies after.shadowed.contains(
        e,
    ) by {
        let w = choose|w: int| 0 <= w < node.shadowed.len() && node.shadowed[w] == e;
        assert(after.shadowed[w] == e);
    }
}

proof fn lemma_with_olds(
    st: mount_table::TableState,
    id: u64,
    list: Seq<forest::NodeView>,
    n: int,
)
    requires
        mount_table::well_formed(st.nodes),
        0 <= n <= list.len(),
        forest::mount_paths(list),
        list_tags_below(list, st.registry.tags.len()),
        mount_table::tags_below(st.nodes, st.registry.tags.len()),
        st.registry.tags.len() + n <= usize::MAX,
    ensures
        ({
            let now = with_olds(st, id, list, n);
            &&& mount_table::well_formed(now.nodes)
            &&& st.registry.tags.len() <= now.registry.tags.len() <= st.registry.tags.len() + n
            &&& mount_table::tags_below(now.nodes, now.registry.tags.len())
            &&& forall|p: Seq<char>|
                (#[trigger] forest::node_at(st.nodes, p)) matches Some(node) ==> still_holds(
                    node,
                    forest::node_at(now.nodes, p),
                )
        }),
    decreases n,
{
    let now = with_olds(st, id, list, n);
    if n > 0 {
        lemma_with_olds(st, id, list, n - 1);
        let prev = with_olds(st, id, list, n - 1);
        let node = list[n - 1];
        assert(mount_table::node_tags_below(node, st.registry.tags.len()));
        if forest::has_path(prev.nodes, node.path) {
            let i = forest::index_of(prev.nodes, node.path);
            let there = prev.nodes[i];
            mount_table::lemma_update_node(
                prev.nodes,
                i,
                node.data,
                there.shadowed.push(there.data),
            );
            assert(forest::node_at(prev.nodes, node.path) == Some(there));
            assert forall|p: Seq<char>|
                (#[trigger] forest::node_at(st.nodes, p)) is Some implies still_holds(
                forest::node_at(st.nodes, p)->0,
                forest::node_at(now.nodes, p),
            ) by {
                if p == node.path {
                    lemma_still_holds_push(
                        forest::node_at(st.nodes, p)->0,
                        there,
                        forest::node_at(now.nodes, p)->0,
                    );
                }
            }
        } else {
            let new_node = forest::NodeView {
                path: node.path,
                data: forest::EntryView {
                    in_use: prev.registry.tags.len() as usize,
                    ..node.data
                },
                shadowed: Seq::empty(),
            };
            forest::lemma_linked(prev.nodes, new_node);
            forest_order::law_link_keeps_tree_order(prev.nodes, new_node);
            assert forall|p: Seq<char>|
                (#[trigger] forest::node_at(st.nodes, p)) is Some implies still_holds(
                forest::node_at(st.nodes, p)->0,
                forest::node_at(now.nodes, p),
            ) by {
                if p == node.path {
                    assert(forest::node_at(prev.nodes, p) is Some);
                }
            }
        }
        assert forall|p: Seq<char>|
            (#[trigger] forest::node_at(now.nodes, p)) is Some implies mount_table::node_tags_below(
            forest::node_at(now.nodes, p)->0,
            now.registry.tags.len(),
        ) by {
            if forest::node_at(prev.nodes, p) is Some {
                assert(mount_table::node_tags_below(
                    forest::node_at(prev.nodes, p)->0,
                    prev.registry.tags.len(),
                ));
            }
        }
    }
}

proof fn lemma_after_pivot(
    st: mount_table::TableState,
    id: u64,
    new_root: Seq<char>,
    put_old: Seq<char>,
)
    requires
        mount_table::well_formed(st.nodes),
        mount_table::tags_below(st.nodes, st.registry.tags.len()),
        st.registry.tags.len() + st.nodes.len() + 1 <= usize::MAX,
        forest::is_mount_path(new_root),
        forest::is_mount_path(put_old),
    ensures
        ({
            let after = after_pivot(st, id, new_root, put_old);
            &&& mount_table::well_formed(after.nodes)
            &&& mount_table::tags_below(after.nodes, after.registry.tags.len())
            &&& forall|i: int|
                0 <= i < st.nodes.len() && is_inside((#[trigger] st.nodes[i]).path, new_root)
                    ==> still_holds(
                    st.nodes[i],
                    forest::node_at(after.nodes, stripped(st.nodes[i].path, new_root)),
                )
        }),
{
    let n = st.nodes.len() as int;
    let bound = st.registry.tags.len();
    let inside = kept(st.nodes, new_root, n);
    let back = put_back(st.nodes, new_root, put_old);
    lemma_kept(st.nodes, new_root, n, bound);
    lemma_sorted_paths(inside, bound);
    lemma_moved_paths(put_old, new_root);
    lemma_put_back(st.nodes, new_root, stripped(put_old, new_root), n, bound);
    if put_old == new_root {
        let top: Seq<char> = seq!['/'];
        if forest::has_path(st.nodes, top) {
            assert(mount_table::node_tags_below(forest::node_at(st.nodes, top)->0, bound));
        }
        assert(forest::mount_paths(back));
        assert(list_tags_below(back, bound));
    }
    lemma_sorted_paths(back, bound);
    let start = mount_table::TableState {
        nodes: Seq::empty(),
        registry: registry::RegistryView {
            peers: all_left(st.registry.peers, st.nodes, id, n),
            ..st.registry
        },
    };
    let kept_list = by_len(inside, inside.len() as int);
    let turned = with_kept(start, id, kept_list, inside.len() as int);
    lemma_with_kept(start, id, kept_list, inside.len() as int);
    lemma_with_olds(turned, id, by_len(back, back.len() as int), back.len() as int);
    let after = after_pivot(st, id, new_root, put_old);
    assert forall|i: int|
        0 <= i < st.nodes.len() && is_inside(
            (#[trigger] st.nodes[i]).path,
            new_root,
        ) implies still_holds(
        st.nodes[i],
        forest::node_at(after.nodes, stripped(st.nodes[i].path, new_root)),
    ) by {
        let moved = forest::NodeView {
            path: stripped(st.nodes[i].path, new_root),
            ..st.nodes[i]
        };
        assert(inside.contains(moved));
        let w = choose|w: int| 0 <= w < inside.len() && inside[w] == moved;
        assert(kept_list.contains(inside[w]));
        let v = choose|v: int| 0 <= v < kept_list.len() && kept_list[v] == moved;
        assert(forest::node_at(turned.nodes, kept_list[v].path) == Some(kept_list[v]));
        assert(still_holds(moved, forest::node_at(after.nodes, moved.path)));
    }
}

/// Turning the table round a new root keeps the forest in order, and everything that was
/// mounted inside the new root, on top or hidden, is found at its path seen from there.
pub proof fn law_pivot_keeps_what_is_inside(
    st: mount_table::TableState,
    id: u64,
    new_root: Seq<char>,
    put_old: Seq<char>,
    i: int,
)
    requires
        mount_table::well_formed(st.nodes),
        mount_table::tags_below(st.nodes, st.registry.tags.len()),
        st.registry.tags.len() + st.nodes.len() + 1 <= usize::MAX,
        forest::is_mount_path(new_root),
        forest::is_mount_path(put_old),
        0 <= i < st.nodes.len(),
        is_inside(st.nodes[i].path, new_root),
    ensures
        mount_table::well_formed(after_pivot(st, id, new_root, put_old).nodes),
        still_holds(
            st.nodes[i],
            forest::node_at(
                after_pivot(st, id, new_root, put_old).nodes,
                stripped(st.nodes[i].path, new_root),
            ),
        ),
{
    lemma_after_pivot(st, id, new_root, put_old);
}

/// A mount is what another one was, but for the tag that counts its uses.
pub open spec fn is_same_mount(now: forest::EntryView, was: forest::EntryView) -> bool {
    &&& now.root == was.root
    &&& now.target_inode_id == was.target_inode_id
    &&& now.propagation == was.propagation
    &&& now.source == was.source
    &&& now.fstype == was.fstype
}

/// The last mounts that are put back are on top at their paths.
proof fn lemma_olds_on_top(
    st: mount_table::TableState,
    id: u64,
    list: Seq<forest::NodeView>,
    n: int,
    j: int,
)
    requires
        mount_table::well_formed(st.nodes),
        0 <= j < n <= list.len(),
        forest::mount_paths(list),
        forest::unique_paths(list),
        list_tags_below(list, st.registry.tags.len()),
        mount_table::tags_below(st.nodes, st.registry.tags.len()),
        st.registry.tags.len() + n <= usize::MAX,
    ensures
        forest::node_at(with_olds(st, id, list, n).nodes, list[j].path) matches Some(node)
            && is_same_mount(node.data, list[j].data),
    decreases n,
{
    lemma_with_olds(st, id, list, n - 1);
    let prev = with_olds(st, id, list, n - 1);
    let node = list[n - 1];
    if forest::has_path(prev.nodes, node.path) {
        let i = forest::index_of(prev.nodes, node.path);
        let there = prev.nodes[i];
        mount_table::lemma_update_node(prev.nodes, i, node.data, there.shadowed.push(there.data));
        assert(forest::node_at(prev.nodes, node.path) == Some(there));
    } else {
        let new_node = forest::NodeView {
            path: node.path,
            data: forest::EntryView { in_use: prev.registry.tags.len() as usize, ..node.data },
            shadowed: Seq::empty(),
        };
        forest::lemma_linked(prev.nodes, new_node);
    }
    if j < n - 1 {
        lemma_olds_on_top(st, id, list, n - 1, j);
        assert(list[j].path != list[n - 1].path);
    }
}

proof fn lemma_set_aside(
    nodes: Seq<forest::NodeView>,
    new_root: Seq<char>,
    base: Seq<char>,
    n: int,
    i: int,
)
    requires
        0 <= n <= nodes.len(),
        mount_table::well_formed(nodes),
        base.len() > 1,
    ensures
        forest::unique_paths(set_aside(nodes, new_root, base, n)),
        forall|k: int|
            0 <= k < set_aside(nodes, new_root, base, n).len() ==> exists|m: int|
                0 <= m < n && (#[trigger] set_aside(nodes, new_root, base, n)[k]).path == rebased(
                    base,
                    (#[trigger] nodes[m]).path,
                ),
        0 <= i < n && !is_inside(nodes[i].path, new_root) ==> set_aside(
            nodes,
            new_root,
            base,
            n,
        ).contains(
            forest::NodeView {
                path: rebased(base, nodes[i].path),
                data: nodes[i].data,
                shadowed: Seq::empty(),
            },
        ),
    decreases n,
{
    if n > 0 {
        lemma_set_aside(nodes, new_root, base, n - 1, i);
        let before = set_aside(nodes, new_root, base, n - 1);
        let all = set_aside(nodes, new_root, base, n);
        let path = nodes[n - 1].path;
        if is_inside(path, new_root) {
            assert forall|k: int| 0 <= k < all.len() implies exists|m: int|
                0 <= m < n && (#[trigger] all[k]).path == rebased(base, (#[trigger] nodes[m]).path) by {
                let m = choose|m: int|
                    0 <= m < n - 1 && before[k].path == rebased(base, (#[trigger] nodes[m]).path);
                assert(all[k].path == rebased(base, nodes[m].path));
            }
        } else {
            let own = forest::NodeView {
                path: rebased(base, path),
                data: nodes[n - 1].data,
                shadowed: Seq::empty(),
            };
            assert(all == before.push(own));
            assert(all[before.len() as int] == own);
            assert forall|k: int| 0 <= k < before.len() implies (#[trigger] before[k]).path
                != own.path by {
                let m = choose|m: int|
                    0 <= m < n - 1 && before[k].path == rebased(base, (#[trigger] nodes[m]).path);
                assert(nodes[m].path != path);
                lemma_rebased_apart(base, nodes[m].path, path);
            }
            assert forall|a: int, b: int| 0 <= a < b < all.len() implies (#[trigger] all[a]).path
                != (#[trigger] all[b]).path by {
                assert(all[a] == before[a]);
                if b < before.len() {
                    assert(all[b] == before[b]);
                }
            }
            assert forall|k: int| 0 <= k < all.len() implies exists|m: int|
                0 <= m < n && (#[trigger] all[k]).path == rebased(base, (#[trigger] nodes[m]).path) by {
                if k < before.len() {
                    assert(all[k] == before[k]);
                    let m = choose|m: int|
                        0 <= m < n - 1 && before[k].path == rebased(
                            base,
                            (#[trigger] nodes[m]).path,
                        );
                    assert(all[k].path == rebased(base, nodes[m].path));
                } else {
                    assert(all[k].path == rebased(base, nodes[n - 1].path));
                }
            }
            if 0 <= i < n - 1 && !is_inside(nodes[i].path, new_root) {
                let moved = forest::NodeView {
                    path: rebased(base, nodes[i].path),
                    data: nodes[i].data,
                    shadowed: Seq::empty(),
                };
                let k = choose|k: int| 0 <= k < before.len() && before[k] == moved;
                assert(all[k] == moved);
            }
        }
    }
}

proof fn lemma_rebased_apart(base: Seq<char>, a: Seq<char>, b: Seq<char>)
    requires
        base.len() > 1,
        a != b,
        a.len() > 0,
        b.len() > 0,
    ensures
        rebased(base, a) != rebased(base, b),
{
    if rebased(base, a) == rebased(base, b) {
        if !forest::is_root(a) && !forest::is_root(b) {
            assert((base + a).skip(base.len() as int) =~= a);
            assert((base + b).skip(base.len() as int) =~= b);
        }
    }
}

/// Turning the table round a new root sets all that was mounted outside of it aside: each mount
/// that could be seen there stands below the place for the old root, at the path that it had.
pub proof fn law_pivot_sets_the_rest_aside(
    st: mount_table::TableState,
    id: u64,
    new_root: Seq<char>,
    place: Seq<char>,
    i: int,
)
    requires
        mount_table::well_formed(st.nodes),
        mount_table::tags_below(st.nodes, st.registry.tags.len()),
        st.registry.tags.len() + st.nodes.len() + 1 <= usize::MAX,
        forest::is_mount_path(new_root),
        !forest::is_root(new_root),
        forest::is_mount_path(place),
        place.len() > 1,
        0 <= i < st.nodes.len(),
        !is_inside(st.nodes[i].path, new_root),
    ensures
        ({
            let after = after_pivot(st, id, new_root, new_root + place).nodes;
            let path = st.nodes[i].path;
            forest::node_at(
                after,
                if path == seq!['/'] {
                    place
                } else {
                    place + path
                },
            ) matches Some(node) && is_same_mount(node.data, st.nodes[i].data)
        }),
{
    let n = st.nodes.len() as int;
    let bound = st.registry.tags.len();
    let put_old = new_root + place;
    assert(put_old[0] == new_root[0]);
    assert(put_old.last() == place.last());
    assert(put_old.take(new_root.len() as int) =~= new_root);
    assert(put_old[new_root.len() as int] == place[0]);
    assert(put_old.skip(new_root.len() as int) =~= place);
    assert(put_old != new_root) by {
        assert(put_old.len() > new_root.len());
    }
    assert(stripped(put_old, new_root) == place);
    let inside = kept(st.nodes, new_root, n);
    let back = put_back(st.nodes, new_root, put_old);
    lemma_kept(st.nodes, new_root, n, bound);
    lemma_sorted_paths(inside, bound);
    lemma_put_back(st.nodes, new_root, place, n, bound);
    lemma_set_aside(st.nodes, new_root, place, n, i);
    lemma_sorted_paths(back, bound);
    let start = mount_table::TableState {
        nodes: Seq::empty(),
        registry: registry::RegistryView {
            peers: all_left(st.registry.peers, st.nodes, id, n),
            ..st.registry
        },
    };
    let kept_list = by_len(inside, inside.len() as int);
    let turned = with_kept(start, id, kept_list, inside.len() as int);
    lemma_with_kept(start, id, kept_list, inside.len() as int);
    let olds = by_len(back, back.len() as int);
    let moved = forest::NodeView {
        path: rebased(place, st.nodes[i].path),
        data: st.nodes[i].data,
        shadowed: Seq::empty(),
    };
    let w = choose|w: int| 0 <= w < back.len() && back[w] == moved;
    assert(olds.contains(back[w]));
    let j = choose|j: int| 0 <= j < olds.len() && olds[j] == moved;
    lemma_olds_on_top(turned, id, olds, back.len() as int, j);
}

/// Sorts mount points by the length of their paths; those as long stay in their order.
fn sort_by_len(list: Vec<MountNode>) -> (sorted: Vec<MountNode>)
    ensures
        forest::nodes_view(sorted@) == by_len(
            forest::nodes_view(list@),
            forest::nodes_view(list@).len() as int,
        ),
{
    let ghost all = forest::nodes_view(list@);
    let mut rest = list;
    let mut sorted: Vec<MountNode> = Vec::new();
    let ghost mut n: int = 0;
    assert(forest::nodes_view(sorted@) =~= by_len(all, 0));
    assert(all.skip(0) =~= all);
    while rest.len() > 0
        invariant
            0 <= n <= all.len(),
            sorted@.len() == n,
            forest::nodes_view(rest@) == all.skip(n),
            forest::nodes_view(sorted@) == by_len(all, n),
        decreases rest@.len(),
    {
        let ghost before = rest@;
        let ghost front = forest::nodes_view(sorted@);
        proof {
            assert(forest::nodes_view(before).len() == all.skip(n).len());
            assert(forest::nodes_view(before)[0] == all[n]);
        }
        let node = rest.remove(0);
        proof {
            assert(forest::nodes_view(rest@) =~= forest::nodes_view(before).skip(1));
            assert(all.skip(n).skip(1) =~= all.skip(n + 1));
        }
        let len: usize = path_len(node.mountpoint.as_str());
        let ghost path = node.mountpoint@;
        let mut r: usize = sorted.len();
        while r > 0 && path_len(sorted[r - 1].mountpoint.as_str()) > len
            invariant
                r <= sorted@.len(),
                front == forest::nodes_view(sorted@),
                len == mount_queries::byte_len(path),
                len_rank(front, path, front.len() as int) == len_rank(front, path, r as int),
            decreases r,
        {
            assert(front[r - 1].path == sorted@[r - 1].mountpoint@);
            r -= 1;
        }
        assert(r > 0 ==> front[r - 1].path == sorted@[r - 1].mountpoint@);
        let ghost prev = sorted@;
        let ghost nv = node@;
        sorted.insert(r, node);
        proof {
            assert(forest::nodes_view(sorted@) =~= front.insert(r as int, nv));
            n = n + 1;
        }
    }
    assert(all.skip(n).len() == 0);
    sorted
}

proof fn lemma_nodes_push(s: Seq<MountNode>, node: MountNode)
    ensures
        forest::nodes_view(s.push(node)) == forest::nodes_view(s).push(node@),
{
    assert(forest::nodes_view(s.push(node)) =~= forest::nodes_view(s).push(node@));
}

impl MountTable {
    /// Takes all mount points out of the table: those inside `new_root`, by their paths
    /// seen from there, and, where `base` is given, the mounts on top of the others, moved
    /// into that directory. All give up their places in their groups.
    fn take_apart(
        &mut self,
        registry: &mut MountRegistry,
        new_root: &str,
        base: Option<&str>,
    ) -> (parts: (Vec<MountNode>, Vec<MountNode>))
        ensures
            final(self)@ == Seq::<forest::NodeView>::empty(),
            final(self).id == old(self).id,
            final(self).owner_user_ns == old(self).owner_user_ns,
            ({
                let n = old(self)@.len() as int;
                &&& forest::nodes_view(parts.0@) == kept(old(self)@, new_root@, n)
                &&& forest::nodes_view(parts.1@) == (match base {
                    Some(dir) => set_aside(old(self)@, new_root@, dir@, n),
                    None => Seq::empty(),
                })
                &&& final(registry)@ == (registry::RegistryView {
                    peers: all_left(old(registry)@.peers, old(self)@, old(self).id, n),
                    ..old(registry)@
                })
            }),
    {
        let ghost all = self@;
        let mut inside_list: Vec<MountNode> = Vec::new();
        let mut outside: Vec<MountNode> = Vec::new();
        let ghost mut n: int = 0;
        proof {
            assert(forest::nodes_view(inside_list@) =~= kept(all, new_root@, 0));
            assert(forest::nodes_view(outside@) =~= Seq::empty());
            assert(all.skip(0) =~= all);
        }
        while self.nodes.len() > 0
            invariant
                all == old(self)@,
                self.id == old(self).id,
                self.owner_user_ns == old(self).owner_user_ns,
                0 <= n <= all.len(),
                self@ == all.skip(n),
                forest::nodes_view(inside_list@) == kept(all, new_root@, n),
                forest::nodes_view(outside@) == (match base {
                    Some(dir) => set_aside(all, new_root@, dir@, n),
                    None => Seq::empty(),
                }),
                registry@ == (registry::RegistryView {
                    peers: all_left(old(registry)@.peers, all, self.id, n),
                    ..old(registry)@
                }),
            decreases self.nodes@.len(),
        {
            let ghost before = self@;
            let node = self.nodes.remove(0);
            proof {
                assert(before.len() == all.skip(n).len());
                assert(before[0] == all[n]);
                assert(self@ =~= before.skip(1));
                assert(all.skip(n).skip(1) =~= all.skip(n + 1));
                assert(node@ == all[n]);
            }
            registry.leave(node.data.propagation, self.id, node.mountpoint.as_str());
            if inside(node.mountpoint.as_str(), new_root) {
                let moved = strip_prefix_path(node.mountpoint.as_str(), new_root);
                let item = MountNode {
                    mountpoint: moved,
                    data: node.data,
                    shadowed: node.shadowed,
                };
                proof {
                    lemma_nodes_push(inside_list@, item);
                    assert(item@ == (forest::NodeView {
                        path: stripped(all[n].path, new_root@),
                        ..all[n]
                    }));
                }
                inside_list.push(item);
            } else {
                match base {
                    Some(dir) => {
                        let item = MountNode {
                            mountpoint: rebase_into(dir, node.mountpoint.as_str()),
                            data: node.data,
                            shadowed: Vec::new(),
                        };
                        proof {
                            lemma_nodes_push(outside@, item);
                            assert(item@.shadowed =~= Seq::empty());
                        }
                        outside.push(item);
                    },
                    None => {},
                }
            }
            proof {
                n = n + 1;
            }
        }
        proof {
            assert(all.skip(n).len() == 0);
            assert(self@ =~= Seq::empty());
        }
        (inside_list, outside)
    }

    /// Puts mount points into the empty table.
    fn put_kept(&mut self, registry: &mut MountRegistry, list: Vec<MountNode>)
        ensures
            final(self).id == old(self).id,
            final(self).owner_user_ns == old(self).owner_user_ns,
            final(self).state(final(registry)) == with_kept(
                old(self).state(old(registry)),
                old(self).id,
                forest::nodes_view(list@),
                list@.len() as int,
            ),
    {
        let ghost all = forest::nodes_view(list@);
        let ghost st = self.state(registry);
        let mut rest = list;
        let ghost mut n: int = 0;
        assert(all.skip(0) =~= all);
        while rest.len() > 0
            invariant
                all == forest::nodes_view(list@),
                st == old(self).state(old(registry)),
                self.id == old(self).id,
                self.owner_user_ns == old(self).owner_user_ns,
                0 <= n <= all.len(),
                forest::nodes_view(rest@) == all.skip(n),
                self.state(registry) == with_kept(st, self.id, all, n),
            decreases rest@.len(),
        {
            let ghost before = forest::nodes_view(rest@);
            let node = rest.remove(0);
            proof {
                assert(before.len() == all.skip(n).len());
                assert(before[0] == all[n]);
                assert(forest::nodes_view(rest@) =~= before.skip(1));
                assert(all.skip(n).skip(1) =~= all.skip(n + 1));
            }
            registry.join(node.data.propagation, self.id, node.mountpoint.as_str());
            forest::link_into_tree(&mut self.nodes, node);
            proof {
                n = n + 1;
            }
        }
        assert(all.skip(n).len() == 0);
    }

    /// Puts mounts back into the table.
    fn put_olds(&mut self, registry: &mut MountRegistry, list: Vec<MountNode>)
        requires
            old(self).wf(),
            old(self).tags_exist(old(registry)),
            forest::mount_paths(forest::nodes_view(list@)),
            list_tags_below(forest::nodes_view(list@), old(registry)@.tags.len()),
            old(registry)@.tags.len() + list@.len() <= usize::MAX,
        ensures
            final(self).wf(),
            final(self).id == old(self).id,
            final(self).owner_user_ns == old(self).owner_user_ns,
            final(self).tags_exist(final(registry)),
            final(self).state(final(registry)) == with_olds(
                old(self).state(old(registry)),
                old(self).id,
                forest::nodes_view(list@),
                list@.len() as int,
            ),
    {
        let ghost all = forest::nodes_view(list@);
        let ghost st = self.state(registry);
        let mut rest = list;
        let ghost mut n: int = 0;
        proof {
            assert(all.skip(0) =~= all);
            lemma_with_olds(st, self.id, all, 0);
        }
        while rest.len() > 0
            invariant
                all == forest::nodes_view(list@),
                st == old(self).state(old(registry)),
                mount_table::well_formed(st.nodes),
                mount_table::tags_below(st.nodes, st.registry.tags.len()),
                forest::mount_paths(all),
                list_tags_below(all, st.registry.tags.len()),
                st.registry.tags.len() + all.len() <= usize::MAX,
                self.wf(),
                self.id == old(self).id,
                self.owner_user_ns == old(self).owner_user_ns,
                0 <= n <= all.len(),
                forest::nodes_view(rest@) == all.skip(n),
                self.state(registry) == with_olds(st, self.id, all, n),
            decreases rest@.len(),
        {
            let ghost before = forest::nodes_view(rest@);
            let node = rest.remove(0);
            proof {
                assert(before.len() == all.skip(n).len());
                assert(before[0] == all[n]);
                assert(forest::nodes_view(rest@) =~= before.skip(1));
                assert(all.skip(n).skip(1) =~= all.skip(n + 1));
                lemma_with_olds(st, self.id, all, n);
                lemma_with_olds(st, self.id, all, n + 1);
                assert(mount_table::node_tags_below(all[n], st.registry.tags.len()));
            }
            self.put_old(registry, node);
            proof {
                n = n + 1;
            }
        }
        proof {
            assert(all.skip(n).len() == 0);
            lemma_with_olds(st, self.id, all, n);
        }
    }

    fn put_old(&mut self, registry: &mut MountRegistry, node: MountNode)
        requires
            old(self).wf(),
            node.data.in_use < old(registry)@.tags.len(),
        ensures
            final(self).id == old(self).id,
            final(self).owner_user_ns == old(self).owner_user_ns,
            final(self).state(final(registry)) == with_old(
                old(self).state(old(registry)),
                old(self).id,
                node@,
            ),
    {
        let ghost st = self.state(registry);
        let ghost view = node@;
        registry.join(node.data.propagation, self.id, node.mountpoint.as_str());
        match find_path(&self.nodes, node.mountpoint.as_str()) {
            Some(i) => {
                proof {
                    forest::lemma_index_of(self@, i as int);
                }
                let ghost nodes = self.nodes@;
                let ghost was = self.nodes@[i as int];
                let prev = self.nodes[i].data.clone();
                let there = &mut self.nodes[i];
                there.shadowed.push(prev);
                there.data = node.data;
                proof {
                    let now = self.nodes@[i as int];
                    mount_table::lemma_view_update(nodes, i as int, now);
                    assert(now@.shadowed =~= was@.shadowed.push(was@.data));
                    assert(self.nodes@ =~= nodes.update(i as int, now));
                    assert(self.state(registry) =~= with_old(st, self.id, view));
                }
            },
            None => {
                let flags: u64 = registry.tags[node.data.in_use].flags;
                let mut data = node.data;
                data.in_use = registry.new_tag(flags);
                let item = MountNode { mountpoint: node.mountpoint, data, shadowed: Vec::new() };
                assert(item@.shadowed =~= Seq::empty());
                forest::link_into_tree(&mut self.nodes, item);
            },
        }
    }

    /// Makes `new_root` the root of the table, and puts what was mounted outside it under
    /// `put_old`, which must be `new_root` or inside it.
    pub fn pivot_root(
        &mut self,
        registry: &mut MountRegistry,
        new_root: &str,
        put_old: &str,
    ) -> (result: Result<(), i64>)
        requires
            old(self).wf(),
            old(self).tags_exist(old(registry)),
            old(registry)@.tags.len() + old(self)@.len() + 1 <= usize::MAX,
            forest::is_mount_path(new_root@),
            forest::is_mount_path(put_old@),
        ensures
            final(self).wf(),
            final(self).id == old(self).id,
            final(self).owner_user_ns == old(self).owner_user_ns,
            final(self).tags_exist(final(registry)),
            forest::is_root(new_root@) || !is_inside(put_old@, new_root@) ==> result == Err::<
                (),
                i64,
            >(errno::EINVAL) && final(self).state(final(registry)) == old(self).state(old(registry)),
            !forest::is_root(new_root@) && is_inside(put_old@, new_root@) ==> result is Ok && final(
                self).state(final(registry)) == after_pivot(
                old(self).state(old(registry)),
                old(self).id,
                new_root@,
                put_old@,
            ),
    {
        let ghost st = self.state(registry);
        if forest::root_chars(&text::to_chars(new_root)) {
            return Err(errno::EINVAL);
        }
        if !inside(put_old, new_root) {
            return Err(errno::EINVAL);
        }
        let ghost n = self@.len() as int;
        let ghost bound = registry@.tags.len();
        proof {
            reveal_strlit("/");
            assert("/"@ =~= seq!['/']);
            lemma_after_pivot(st, self.id, new_root@, put_old@);
            lemma_kept(st.nodes, new_root@, n, bound);
            lemma_moved_paths(put_old@, new_root@);
            lemma_put_back(st.nodes, new_root@, stripped(put_old@, new_root@), n, bound);
        }
        let same_dir = text::equal(put_old, new_root);
        let old_root = self.snapshot_one("/");
        let rebased_dir = strip_prefix_path(put_old, new_root);
        let (inside_list, mut back) = self.take_apart(
            registry,
            new_root,
            if same_dir {
                None
            } else {
                Some(rebased_dir.as_str())
            },
        );
        if same_dir {
            match old_root {
                Some(data) => {
                    let item = MountNode {
                        mountpoint: String::from_str("/"),
                        data,
                        shadowed: Vec::new(),
                    };
                    proof {
                        lemma_nodes_push(back@, item);
                        assert(item@.shadowed =~= Seq::empty());
                    }
                    back.push(item);
                },
                None => {},
            }
        }
        proof {
            assert(forest::nodes_view(back@) =~= put_back(st.nodes, new_root@, put_old@));
            if same_dir && forest::has_path(st.nodes, seq!['/']) {
                assert(mount_table::node_tags_below(
                    forest::node_at(st.nodes, seq!['/'])->0,
                    bound,
                ));
            }
            assert(list_tags_below(forest::nodes_view(back@), bound));
            assert(forest::mount_paths(forest::nodes_view(back@)));
            lemma_sorted_paths(forest::nodes_view(inside_list@), bound);
            lemma_sorted_paths(forest::nodes_view(back@), bound);
        }
        let kept_sorted = sort_by_len(inside_list);
        let back_sorted = sort_by_len(back);
        proof {
            lemma_with_kept(
                self.state(registry),
                self.id,
                forest::nodes_view(kept_sorted@),
                kept_sorted@.len() as int,
            );
        }
        self.put_kept(registry, kept_sorted);
        self.put_olds(registry, back_sorted);
        Ok(())
    }
}

/// The places that a copied table's mounts take in the groups are known ones.
pub proof fn lemma_copied_known(
    parent: Seq<forest::NodeView>,
    registry: registry::RegistryView,
    child_id: u64,
    n: int,
    tables: nat,
)
    requires
        0 <= n <= parent.len(),
        forest::mount_paths(parent),
        context::peers_known(registry.peers, tables),
        child_id < tables,
    ensures
        context::peers_known(copied(parent, registry, child_id, n).registry.peers, tables),
        copied(parent, registry, child_id, n).registry.tags.len() == registry.tags.len() + n,
    decreases n,
{
    if n > 0 {
        lemma_copied_known(parent, registry, child_id, n - 1, tables);
        context::lemma_joined_known(
            copied(parent, registry, child_id, n - 1).registry.peers,
            parent[n - 1].data.propagation,
            child_id,
            parent[n - 1].path,
            tables,
        );
    }
}

proof fn lemma_all_left_known(
    peers: Seq<registry::PeerView>,
    nodes: Seq<forest::NodeView>,
    id: u64,
    n: int,
    tables: nat,
)
    requires
        context::peers_known(peers, tables),
    ensures
        context::peers_known(all_left(peers, nodes, id, n), tables),
    decreases n,
{
    if n > 0 {
        lemma_all_left_known(peers, nodes, id, n - 1, tables);
        context::lemma_left_known(
            all_left(peers, nodes, id, n - 1),
            nodes[n - 1].data.propagation,
            id,
            nodes[n - 1].path,
            tables,
        );
    }
}

proof fn lemma_with_kept_known(
    st: mount_table::TableState,
    id: u64,
    list: Seq<forest::NodeView>,
    n: int,
    tables: nat,
)
    requires
        0 <= n <= list.len(),
        forest::mount_paths(list),
        context::peers_known(st.registry.peers, tables),
        id < tables,
    ensures
        context::peers_known(with_kept(st, id, list, n).registry.peers, tables),
        with_kept(st, id, list, n).registry.tags == st.registry.tags,
    decreases n,
{
    if n > 0 {
        lemma_with_kept_known(st, id, list, n - 1, tables);
        context::lemma_joined_known(
            with_kept(st, id, list, n - 1).registry.peers,
            list[n - 1].data.propagation,
            id,
            list[n - 1].path,
            tables,
        );
    }
}

proof fn lemma_with_olds_known(
    st: mount_table::TableState,
    id: u64,
    list: Seq<forest::NodeView>,
    n: int,
    tables: nat,
)
    requires
        0 <= n <= list.len(),
        forest::mount_paths(list),
        context::peers_known(st.registry.peers, tables),
        id < tables,
    ensures
        context::peers_known(with_olds(st, id, list, n).registry.peers, tables),
        with_olds(st, id, list, n).registry.tags.len() >= st.registry.tags.len(),
    decreases n,
{
    if n > 0 {
        lemma_with_olds_known(st, id, list, n - 1, tables);
        context::lemma_joined_known(
            with_olds(st, id, list, n - 1).registry.peers,
            list[n - 1].data.propagation,
            id,
            list[n - 1].path,
            tables,
        );
    }
}

/// The places that the mounts of a table turned round take in the groups are known ones, and
/// no tag goes away.
pub proof fn lemma_pivot_known(
    st: mount_table::TableState,
    id: u64,
    new_root: Seq<char>,
    put_old: Seq<char>,
    tables: nat,
)
    requires
        mount_table::well_formed(st.nodes),
        mount_table::tags_below(st.nodes, st.registry.tags.len()),
        forest::is_mount_path(new_root),
        forest::is_mount_path(put_old),
        context::peers_known(st.registry.peers, tables),
        id < tables,
    ensures
        context::peers_known(after_pivot(st, id, new_root, put_old).registry.peers, tables),
        after_pivot(st, id, new_root, put_old).registry.tags.len() >= st.registry.tags.len(),
{
    let n = st.nodes.len() as int;
    let bound = st.registry.tags.len();
    let inside = kept(st.nodes, new_root, n);
    let back = put_back(st.nodes, new_root, put_old);
    lemma_kept(st.nodes, new_root, n, bound);
    lemma_sorted_paths(inside, bound);
    lemma_moved_paths(put_old, new_root);
    lemma_put_back(st.nodes, new_root, stripped(put_old, new_root), n, bound);
    if put_old == new_root {
        let top: Seq<char> = seq!['/'];
        if forest::has_path(st.nodes, top) {
            assert(mount_table::node_tags_below(forest::node_at(st.nodes, top)->0, bound));
        }
        assert(forest::mount_paths(back));
        assert(list_tags_below(back, bound));
    }
    lemma_sorted_paths(back, bound);
    lemma_all_left_known(st.registry.peers, st.nodes, id, n, tables);
    let start = mount_table::TableState {
        nodes: Seq::empty(),
        registry: registry::RegistryView {
            peers: all_left(st.registry.peers, st.nodes, id, n),
            ..st.registry
        },
    };
    let kept_list = by_len(inside, inside.len() as int);
    let back_list = by_len(back, back.len() as int);
    lemma_with_kept_known(start, id, kept_list, inside.len() as int, tables);
    let turned = with_kept(start, id, kept_list, inside.len() as int);
    lemma_with_olds_known(turned, id, back_list, back.len() as int, tables);
}

} // verus!
