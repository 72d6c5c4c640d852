//! The forest of mount points.

use vstd::prelude::*;
use vstd::string::*;

use crate::seqs;
use crate::text;
use crate::vfs::path;
use crate::vfs::registry::MountPropagation;

verus! {

/// One mount: the inode it covers, the inode at its root, how it takes part in passing
/// events on, the number of its in-use tag, and what was mounted.
pub struct MountEntry {
    pub target_inode_id: u64,
    pub root: u64,
    pub propagation: MountPropagation,
    pub in_use: usize,
    pub source: String,
    pub fstype: String,
}

/// One mount.
#[verifier::ext_equal]
pub struct EntryView {
    pub target_inode_id: u64,
    pub root: u64,
    pub propagation: MountPropagation,
    pub in_use: usize,
    pub source: Seq<char>,
    pub fstype: Seq<char>,
}

impl View for MountEntry {
    type V = EntryView;

    open spec fn view(&self) -> EntryView {
        EntryView {
            target_inode_id: self.target_inode_id,
            root: self.root,
            propagation: self.propagation,
            in_use: self.in_use,
            source: self.source@,
            fstype: self.fstype@,
        }
    }
}

impl Clone for MountEntry {
    fn clone(&self) -> (copy: MountEntry)
        ensures
            copy@ == self@,
    {
        MountEntry {
            target_inode_id: self.target_inode_id,
            root: self.root,
            propagation: self.propagation,
            in_use: self.in_use,
            source: self.source.clone(),
            fstype: self.fstype.clone(),
        }
    }
}

/// A mount point: the mount on top, and those that it hides, the oldest first.
pub struct MountNode {
    pub mountpoint: String,
    pub data: MountEntry,
    pub shadowed: Vec<MountEntry>,
}

/// A mount point.
#[verifier::ext_equal]
pub struct NodeView {
    pub path: Seq<char>,
    pub data: EntryView,
    pub shadowed: Seq<EntryView>,
}

impl View for MountNode {
    type V = NodeView;

    open spec fn view(&self) -> NodeView {
        NodeView {
            path: self.mountpoint@,
            data: self.data@,
            shadowed: self.shadowed@.map_values(|e: MountEntry| e@),
        }
    }
}

/// The mount points of a list, seen from outside.
pub open spec fn nodes_view(nodes: Seq<MountNode>) -> Seq<NodeView> {
    nodes.map_values(|n: MountNode| n@)
}

/// The root directory's path.
pub open spec fn is_root(path: Seq<char>) -> bool {
    path == seq!['/']
}

/// `child` lies below `ancestor`.
pub open spec fn is_below(child: Seq<char>, ancestor: Seq<char>) -> bool {
    if is_root(ancestor) {
        !is_root(child)
    } else {
        text::begins_with(child, ancestor) && ancestor.len() < child.len() && child[
            ancestor.len() as int] == '/'
    }
}

/// Some mount point has this path.
pub open spec fn has_path(nodes: Seq<NodeView>, path: Seq<char>) -> bool {
    exists|i: int| 0 <= i < nodes.len() && (#[trigger] nodes[i]).path == path
}

/// Where the mount point with this path stands.
pub open spec fn index_of(nodes: Seq<NodeView>, path: Seq<char>) -> int {
    choose|i: int| 0 <= i < nodes.len() && (#[trigger] nodes[i]).path == path
}

/// No path has two mount points.
pub open spec fn unique_paths(nodes: Seq<NodeView>) -> bool {
    forall|i: int, j: int|
        0 <= i < j < nodes.len() ==> (#[trigger] nodes[i]).path != (#[trigger] nodes[j]).path
}

/// A path that something can be mounted at: it starts at the root, and has no slash at
/// its end unless it is the root.
pub open spec fn is_mount_path(path: Seq<char>) -> bool {
    path::is_absolute(path) && (path.len() > 1 ==> path.last() != '/')
}

/// All paths are such that something can be mounted there.
pub open spec fn mount_paths(nodes: Seq<NodeView>) -> bool {
    forall|i: int| 0 <= i < nodes.len() ==> is_mount_path((#[trigger] nodes[i]).path)
}

/// The mount point at a path.
pub open spec fn node_at(nodes: Seq<NodeView>, path: Seq<char>) -> Option<NodeView> {
    if has_path(nodes, path) {
        Some(nodes[index_of(nodes, path)])
    } else {
        None
    }
}

/// Which of the first `n` mount points is the deepest above `path`.
pub open spec fn deepest_above(nodes: Seq<NodeView>, path: Seq<char>, n: int) -> Option<int>
    decreases n,
{
    if n <= 0 {
        None
    } else {
        let best = deepest_above(nodes, path, n - 1);
        if is_below(path, nodes[n - 1].path) && (best is None || nodes[n - 1].path.len() > nodes[
            best->0].path.len()) {
            Some(n - 1)
        } else {
            best
        }
    }
}

/// The deepest mount point above `path`.
pub open spec fn parent_of(nodes: Seq<NodeView>, path: Seq<char>) -> Option<int> {
    deepest_above(nodes, path, nodes.len() as int)
}

/// Where, from `i` on, the run of mount points below `path` ends.
pub open spec fn run_end(nodes: Seq<NodeView>, path: Seq<char>, i: int) -> int
    decreases nodes.len() - i,
{
    if 0 <= i < nodes.len() && is_below(nodes[i].path, path) {
        run_end(nodes, path, i + 1)
    } else {
        i
    }
}

/// Where the mount points below a parent start; without a parent, those of the whole
/// forest.
pub open spec fn block_start(parent: Option<int>) -> int {
    match parent {
        Some(p) => p + 1,
        None => 0,
    }
}

/// Where the mount points below a parent end.
pub open spec fn block_end(nodes: Seq<NodeView>, parent: Option<int>) -> int {
    match parent {
        Some(p) => run_end(nodes, nodes[p].path, p + 1),
        None => nodes.len() as int,
    }
}

/// Says of a mount point that it lies below `path`.
pub open spec fn below(path: Seq<char>) -> spec_fn(NodeView) -> bool {
    |n: NodeView| is_below(n.path, path)
}

/// Says of a mount point that it is neither at `path` nor below it.
pub open spec fn apart(path: Seq<char>) -> spec_fn(NodeView) -> bool {
    |n: NodeView| n.path != path && !is_below(n.path, path)
}

/// The forest with a new mount point: the last child of its parent, with those children
/// of the parent below it that lie below the new mount point.
pub open spec fn linked(nodes: Seq<NodeView>, node: NodeView) -> Seq<NodeView> {
    let parent = parent_of(nodes, node.path);
    let b = block_start(parent);
    let e = block_end(nodes, parent);
    let block = nodes.subrange(b, e);
    nodes.take(b) + block.filter(apart(node.path)) + seq![node] + block.filter(below(node.path))
        + nodes.skip(e)
}

/// The forest without the mount point at `path`: what lay below it becomes the last of
/// its parent's children.
pub open spec fn unlinked(nodes: Seq<NodeView>, path: Seq<char>) -> Seq<NodeView> {
    let parent = parent_of(nodes, path);
    let b = block_start(parent);
    let e = block_end(nodes, parent);
    let block = nodes.subrange(b, e);
    nodes.take(b) + block.filter(apart(path)) + block.filter(below(path)) + nodes.skip(e)
}

proof fn lemma_run_end(nodes: Seq<NodeView>, path: Seq<char>, i: int)
    requires
        0 <= i <= nodes.len(),
    ensures
        i <= run_end(nodes, path, i) <= nodes.len(),
    decreases nodes.len() - i,
{
    if i < nodes.len() && is_below(nodes[i].path, path) {
        lemma_run_end(nodes, path, i + 1);
    }
}

/// The deepest mount point above a path is one above it, and none above it is deeper.
pub proof fn lemma_deepest_above(nodes: Seq<NodeView>, path: Seq<char>, n: int)
    requires
        0 <= n <= nodes.len(),
    ensures
        match deepest_above(nodes, path, n) {
            Some(i) => 0 <= i < n && is_below(path, nodes[i].path) && forall|j: int|
                0 <= j < n && is_below(path, (#[trigger] nodes[j]).path) ==> nodes[j].path.len()
                    <= nodes[i].path.len(),
            None => forall|j: int| 0 <= j < n ==> !is_below(path, (#[trigger] nodes[j]).path),
        },
    decreases n,
{
    if n > 0 {
        lemma_deepest_above(nodes, path, n - 1);
    }
}

proof fn lemma_block_bounds(nodes: Seq<NodeView>, path: Seq<char>)
    ensures
        0 <= block_start(parent_of(nodes, path)) <= block_end(nodes, parent_of(nodes, path))
            <= nodes.len(),
{
    lemma_deepest_above(nodes, path, nodes.len() as int);
    match parent_of(nodes, path) {
        Some(p) => {
            lemma_run_end(nodes, nodes[p].path, p + 1);
        },
        None => {},
    }
}

pub fn root_chars(chars: &Vec<char>) -> (r: bool)
    ensures
        r == is_root(chars@),
{
    let r = chars.len() == 1 && chars[0] == '/';
    assert(r ==> chars@ =~= seq!['/']);
    r
}

/// Whether `child` lies below `ancestor`.
pub fn is_descendant_path(child: &str, ancestor: &str) -> (r: bool)
    ensures
        r == is_below(child@, ancestor@),
{
    let c = text::to_chars(child);
    let a = text::to_chars(ancestor);
    if root_chars(&a) {
        return !root_chars(&c);
    }
    text::starts_with(&c, &a) && a.len() < c.len() && c[a.len()] == '/'
}

/// The number of characters of a string.
pub fn char_len(s: &str) -> (n: usize)
    ensures
        n == s@.len(),
{
    s.unicode_len()
}

pub fn find_path(nodes: &Vec<MountNode>, path: &str) -> (at: Option<usize>)
    ensures
        match at {
            Some(i) => i < nodes@.len() && nodes_view(nodes@)[i as int].path == path@ && forall|
                j: int,
            |
                0 <= j < i ==> (#[trigger] nodes_view(nodes@)[j]).path != path@,
            None => !has_path(nodes_view(nodes@), path@),
        },
{
    let mut i: usize = 0;
    while i < nodes.len()
        invariant
            i <= nodes.len(),
            forall|j: int| 0 <= j < i ==> (#[trigger] nodes_view(nodes@)[j]).path != path@,
        decreases nodes.len() - i,
    {
        if text::equal(nodes[i].mountpoint.as_str(), path) {
            return Some(i);
        }
        i += 1;
    }
    None
}

pub fn deepest_existing_ancestor(nodes: &Vec<MountNode>, path: &str) -> (parent: Option<usize>)
    ensures
        match parent {
            Some(p) => parent_of(nodes_view(nodes@), path@) == Some(p as int) && p < nodes@.len(),
            None => parent_of(nodes_view(nodes@), path@) is None,
        },
{
    let ghost all = nodes_view(nodes@);
    let mut best: Option<usize> = None;
    let mut i: usize = 0;
    while i < nodes.len()
        invariant
            i <= nodes@.len(),
            all == nodes_view(nodes@),
            match best {
                Some(p) => deepest_above(all, path@, i as int) == Some(p as int) && p < i,
                None => deepest_above(all, path@, i as int) is None,
            },
        decreases nodes.len() - i,
    {
        let mountpoint = nodes[i].mountpoint.as_str();
        assert(all[i as int].path == mountpoint@);
        if is_descendant_path(path, mountpoint) {
            match best {
                None => {
                    best = Some(i);
                },
                Some(p) => {
                    assert(all[p as int].path == nodes@[p as int].mountpoint@);
                    if char_len(mountpoint) > char_len(nodes[p].mountpoint.as_str()) {
                        best = Some(i);
                    }
                },
            }
        }
        i += 1;
    }
    best
}

/// The block of mount points below the parent of `path`.
pub fn find_block(nodes: &Vec<MountNode>, path: &str) -> (block: (usize, usize))
    ensures
        block.0 == block_start(parent_of(nodes_view(nodes@), path@)),
        block.1 == block_end(nodes_view(nodes@), parent_of(nodes_view(nodes@), path@)),
        block.0 <= block.1 <= nodes@.len(),
{
    let ghost all = nodes_view(nodes@);
    proof {
        lemma_block_bounds(all, path@);
    }
    match deepest_existing_ancestor(nodes, path) {
        None => (0, nodes.len()),
        Some(p) => {
            let parent_path = nodes[p].mountpoint.as_str();
            assert(all[p as int].path == parent_path@);
            assert(p < nodes.len());
            let mut e: usize = p + 1;
            while e < nodes.len() && is_descendant_path(nodes[e].mountpoint.as_str(), parent_path)
                invariant
                    p < e <= nodes@.len(),
                    all == nodes_view(nodes@),
                    run_end(all, parent_path@, p + 1) == run_end(all, parent_path@, e as int),
                decreases nodes.len() - e,
            {
                assert(all[e as int].path == nodes@[e as int].mountpoint@);
                e += 1;
            }
            assert(e < nodes@.len() ==> all[e as int].path == nodes@[e as int].mountpoint@);
            (p + 1, e)
        },
    }
}

proof fn lemma_nodes_view_add(a: Seq<MountNode>, b: Seq<MountNode>)
    ensures
        nodes_view(a + b) == nodes_view(a) + nodes_view(b),
{
    assert(nodes_view(a + b) =~= nodes_view(a) + nodes_view(b));
}

/// Parts a block of mount points into those apart from `path` and those below it. One
/// at `path` itself is dropped.
fn part_block(block: Vec<MountNode>, path: &str) -> (parts: (Vec<MountNode>, Vec<MountNode>))
    ensures
        nodes_view(parts.0@) == nodes_view(block@).filter(apart(path@)),
        nodes_view(parts.1@) == nodes_view(block@).filter(below(path@)),
{
    let ghost all = nodes_view(block@);
    let mut rest = block;
    let mut kept: Vec<MountNode> = Vec::new();
    let mut moved: Vec<MountNode> = Vec::new();
    let ghost mut n: int = 0;
    proof {
        seqs::lemma_filter_len(all.take(0), apart(path@));
        seqs::lemma_filter_len(all.take(0), below(path@));
        assert(nodes_view(kept@) =~= all.take(0).filter(apart(path@)));
        assert(nodes_view(moved@) =~= all.take(0).filter(below(path@)));
        assert(all.skip(0) =~= all);
    }
    while rest.len() > 0
        invariant
            0 <= n <= all.len(),
            nodes_view(rest@) == all.skip(n),
            nodes_view(kept@) == all.take(n).filter(apart(path@)),
            nodes_view(moved@) == all.take(n).filter(below(path@)),
        decreases rest@.len(),
    {
        let ghost before = rest@;
        proof {
            assert(nodes_view(before).len() == all.skip(n).len());
            assert(nodes_view(before)[0] == all[n]);
            seqs::lemma_filter_step(all, n, apart(path@));
            seqs::lemma_filter_step(all, n, below(path@));
        }
        let node = rest.remove(0);
        assert(nodes_view(rest@) =~= nodes_view(before).skip(1));
        assert(all.skip(n).skip(1) =~= all.skip(n + 1));
        assert(node@ == all[n]);
        let ghost kept_before = kept@;
        let ghost moved_before = moved@;
        if is_descendant_path(node.mountpoint.as_str(), path) {
            assert(!apart(path@)(node@));
            moved.push(node);
            assert(nodes_view(moved@) =~= nodes_view(moved_before).push(all[n]));
        } else if !text::equal(node.mountpoint.as_str(), path) {
            kept.push(node);
            assert(nodes_view(kept@) =~= nodes_view(kept_before).push(all[n]));
        }
        proof {
            n = n + 1;
        }
    }
    assert(all.skip(n).len() == 0);
    assert(all.take(n) =~= all);
    (kept, moved)
}

/// Puts a new mount point into the forest.
pub fn link_into_tree(nodes: &mut Vec<MountNode>, node: MountNode)
    ensures
        nodes_view(final(nodes)@) == linked(nodes_view(old(nodes)@), node@),
{
    let ghost all = nodes_view(nodes@);
    let ghost new_node = node@;
    let (b, e) = find_block(nodes, node.mountpoint.as_str());
    let mut tail = nodes.split_off(e);
    let block = nodes.split_off(b);
    proof {
        assert(nodes_view(tail@) =~= all.skip(e as int));
        assert(nodes_view(block@) =~= all.subrange(b as int, e as int));
        assert(nodes_view(nodes@) =~= all.take(b as int));
    }
    let (mut kept, mut moved) = part_block(block, node.mountpoint.as_str());
    let ghost head = nodes@;
    let ghost k = kept@;
    let ghost m = moved@;
    let ghost t = tail@;
    nodes.append(&mut kept);
    nodes.push(node);
    nodes.append(&mut moved);
    nodes.append(&mut tail);
    proof {
        assert(nodes@ =~= head + k + seq![node] + m + t);
        lemma_nodes_view_add(head + k + seq![node] + m, t);
        lemma_nodes_view_add(head + k + seq![node], m);
        lemma_nodes_view_add(head + k, seq![node]);
        lemma_nodes_view_add(head, k);
        assert(nodes_view(seq![node]) =~= seq![new_node]);
    }
}

/// Takes the mount point at `path` out of the forest.
pub fn unlink_from_tree(nodes: &mut Vec<MountNode>, path: &str)
    ensures
        nodes_view(final(nodes)@) == unlinked(nodes_view(old(nodes)@), path@),
{
    let ghost all = nodes_view(nodes@);
    let (b, e) = find_block(nodes, path);
    let mut tail = nodes.split_off(e);
    let block = nodes.split_off(b);
    proof {
        assert(nodes_view(tail@) =~= all.skip(e as int));
        assert(nodes_view(block@) =~= all.subrange(b as int, e as int));
        assert(nodes_view(nodes@) =~= all.take(b as int));
    }
    let (mut kept, mut moved) = part_block(block, path);
    let ghost head = nodes@;
    let ghost k = kept@;
    let ghost m = moved@;
    let ghost t = tail@;
    nodes.append(&mut kept);
    nodes.append(&mut moved);
    nodes.append(&mut tail);
    proof {
        assert(nodes@ =~= head + k + m + t);
        lemma_nodes_view_add(head + k + m, t);
        lemma_nodes_view_add(head + k, m);
        lemma_nodes_view_add(head, k);
    }
}

/// Among unique paths the one that is found is the one.
pub proof fn lemma_index_of(nodes: Seq<NodeView>, i: int)
    requires
        unique_paths(nodes),
        0 <= i < nodes.len(),
    ensures
        has_path(nodes, nodes[i].path),
        index_of(nodes, nodes[i].path) == i,
        node_at(nodes, nodes[i].path) == Some(nodes[i]),
{
    let j = index_of(nodes, nodes[i].path);
    assert(0 <= j < nodes.len() && nodes[j].path == nodes[i].path);
}

/// A rearranged list falls into five runs: what stood before the block, what of the
/// block is apart from `path`, a new element, what of the block is below `path`, and
/// what stood behind the block; each run is in its old order.
pub open spec fn in_segments(
    nodes: Seq<NodeView>,
    from: Seq<int>,
    path: Seq<char>,
    b: int,
    e: int,
    kept: int,
    middle: int,
    moved: int,
) -> bool {
    let n2 = b + kept;
    let n3 = n2 + middle;
    let n4 = n3 + moved;
    &&& from.len() == n4 + (nodes.len() - e)
    &&& forall|i: int|
        0 <= i < from.len() ==> {
            let f = #[trigger] from[i];
            if i < b {
                f == i
            } else if i < n2 {
                b <= f < e && apart(path)(nodes[f])
            } else if i < n3 {
                f == -1
            } else if i < n4 {
                b <= f < e && below(path)(nodes[f])
            } else {
                f == e + (i - n4)
            }
        }
    &&& forall|i: int, j: int|
        b <= i < j < n2 || n3 <= i < j < n4 ==> #[trigger] from[i] < #[trigger] from[j]
}

/// Where each element of a rearranged block came from.
pub proof fn lemma_rearranged(
    nodes: Seq<NodeView>,
    path: Seq<char>,
    b: int,
    e: int,
    middle: Seq<NodeView>,
) -> (from: Seq<int>)
    requires
        0 <= b <= e <= nodes.len(),
        middle.len() <= 1,
    ensures
        ({
            let block = nodes.subrange(b, e);
            let all = nodes.take(b) + block.filter(apart(path)) + middle + block.filter(below(path))
                + nodes.skip(e);
            &&& from.len() == all.len()
            &&& forall|i: int|
                0 <= i < all.len() ==> (#[trigger] from[i] == -1 && middle.len() == 1 && all[i]
                    == middle[0]) || (0 <= from[i] < nodes.len() && all[i] == nodes[from[i]])
            &&& forall|i: int, j: int|
                0 <= i < j < all.len() ==> #[trigger] from[i] != #[trigger] from[j]
            &&& middle.len() == 1 ==> from.contains(-1)
            &&& forall|k: int|
                0 <= k < nodes.len() && !(b <= k < e && nodes[k].path == path) ==> #[trigger]
                from.contains(k)
            &&& forall|i: int|
                0 <= i < from.len() && b <= #[trigger] from[i] < e ==> nodes[from[i]].path != path
                    || is_below(path, path)
            &&& in_segments(
                nodes,
                from,
                path,
                b,
                e,
                block.filter(apart(path)).len() as int,
                middle.len() as int,
                block.filter(below(path)).len() as int,
            )
        }),
{
    let block = nodes.subrange(b, e);
    let kept = block.filter(apart(path));
    let moved = block.filter(below(path));
    let all = nodes.take(b) + kept + middle + moved + nodes.skip(e);
    let fk = seqs::lemma_filter_origin(block, apart(path));
    let fm = seqs::lemma_filter_origin(block, below(path));
    let head = Seq::new(b as nat, |i: int| i);
    let k = Seq::new(kept.len(), |i: int| b + fk[i]);
    let mid = Seq::new(middle.len(), |i: int| -1int);
    let m = Seq::new(moved.len(), |i: int| b + fm[i]);
    let tail = Seq::new((nodes.len() - e) as nat, |i: int| e + i);
    let from = head + k + mid + m + tail;
    let n1 = b;
    let n2 = n1 + kept.len();
    let n3 = n2 + middle.len();
    let n4 = n3 + moved.len();
    assert forall|i: int| 0 <= i < all.len() implies (#[trigger] from[i] == -1 && middle.len() == 1
        && all[i] == middle[0]) || (0 <= from[i] < nodes.len() && all[i] == nodes[from[i]]) by {
        if i < n1 {
        } else if i < n2 {
            assert(all[i] == kept[i - n1]);
            assert(kept[i - n1] == block[fk[i - n1]]);
        } else if i < n3 {
            assert(all[i] == middle[i - n2]);
        } else if i < n4 {
            assert(all[i] == moved[i - n3]);
            assert(moved[i - n3] == block[fm[i - n3]]);
        } else {
            assert(all[i] == nodes.skip(e)[i - n4]);
        }
    }
    assert forall|i: int, j: int| 0 <= i < j < all.len() implies #[trigger] from[i]
        != #[trigger] from[j] by {
        if n1 <= i < n2 && n1 <= j < n2 {
            assert(fk[i - n1] < fk[j - n1]);
        } else if n3 <= i < n4 && n3 <= j < n4 {
            assert(fm[i - n3] < fm[j - n3]);
        } else if n1 <= i < n2 && n3 <= j < n4 {
            assert(0 <= fk[i - n1] < block.len() && apart(path)(block[fk[i - n1]]));
            assert(0 <= fm[j - n3] < block.len() && below(path)(block[fm[j - n3]]));
        } else {
            assert(n1 <= i < n2 ==> 0 <= fk[i - n1] < block.len());
            assert(n1 <= j < n2 ==> 0 <= fk[j - n1] < block.len());
            assert(n3 <= i < n4 ==> 0 <= fm[i - n3] < block.len());
            assert(n3 <= j < n4 ==> 0 <= fm[j - n3] < block.len());
        }
    }
    if middle.len() == 1 {
        assert(from[n2 as int] == -1);
    }
    assert forall|i: int| 0 <= i < from.len() implies {
        let f = #[trigger] from[i];
        if i < b {
            f == i
        } else if i < n2 {
            b <= f < e && apart(path)(nodes[f])
        } else if i < n3 {
            f == -1
        } else if i < n4 {
            b <= f < e && below(path)(nodes[f])
        } else {
            f == e + (i - n4)
        }
    } by {
        if n1 <= i < n2 {
            assert(0 <= fk[i - n1] < block.len() && apart(path)(block[fk[i - n1]]));
        } else if n3 <= i < n4 {
            assert(0 <= fm[i - n3] < block.len() && below(path)(block[fm[i - n3]]));
        }
    }
    assert forall|i: int, j: int| b <= i < j < n2 || n3 <= i < j < n4 implies #[trigger] from[i]
        < #[trigger] from[j] by {
        if i < n2 {
            assert(fk[i - n1] < fk[j - n1]);
        } else {
            assert(fm[i - n3] < fm[j - n3]);
        }
    }
    assert forall|q: int|
        0 <= q < nodes.len() && !(b <= q < e && nodes[q].path == path) implies #[trigger] from.contains(
        q,
    ) by {
        if q < b {
            assert(from[q] == q);
        } else if q < e {
            assert(block[q - b] == nodes[q]);
            if below(path)(nodes[q]) {
                assert(fm.contains(q - b));
                let w = choose|w: int| 0 <= w < fm.len() && fm[w] == q - b;
                assert(from[n3 + w] == q);
            } else {
                assert(apart(path)(nodes[q]));
                assert(fk.contains(q - b));
                let w = choose|w: int| 0 <= w < fk.len() && fk[w] == q - b;
                assert(from[n1 + w] == q);
            }
        } else {
            assert(from[n4 + (q - e)] == q);
        }
    }
    assert forall|i: int| 0 <= i < from.len() && b <= #[trigger] from[i] < e implies nodes[
        from[i]].path != path || is_below(path, path) by {
        if n1 <= i < n2 {
            assert(apart(path)(block[fk[i - n1]]));
        } else if n3 <= i < n4 {
            assert(below(path)(block[fm[i - n3]]));
        }
    }
    from
}

/// Nothing lies below itself.
pub proof fn lemma_not_below_itself(path: Seq<char>)
    ensures
        !is_below(path, path),
{
}

/// A new mount point is there, and every other one is as it was.
pub proof fn lemma_linked(nodes: Seq<NodeView>, node: NodeView)
    requires
        unique_paths(nodes),
        mount_paths(nodes),
        is_mount_path(node.path),
        !has_path(nodes, node.path),
    ensures
        unique_paths(linked(nodes, node)),
        mount_paths(linked(nodes, node)),
        linked(nodes, node).len() == nodes.len() + 1,
        node_at(linked(nodes, node), node.path) == Some(node),
        forall|p: Seq<char>|
            p != node.path ==> #[trigger] node_at(linked(nodes, node), p) == node_at(nodes, p),
{
    let all = linked(nodes, node);
    let parent = parent_of(nodes, node.path);
    let b = block_start(parent);
    let e = block_end(nodes, parent);
    lemma_block_bounds(nodes, node.path);
    let from = lemma_rearranged(nodes, node.path, b, e, seq![node]);
    assert forall|i: int, j: int| 0 <= i < j < all.len() implies (#[trigger] all[i]).path != (
    #[trigger] all[j]).path by {
        assert(from[i] != from[j]);
        if from[i] == -1 {
            assert(all[j] == nodes[from[j]]);
        } else if from[j] == -1 {
            assert(all[i] == nodes[from[i]]);
        }
    }
    assert forall|i: int| 0 <= i < all.len() implies is_mount_path((#[trigger] all[i]).path) by {
        if from[i] != -1 {
            assert(all[i] == nodes[from[i]]);
        }
    }
    let w = choose|w: int| 0 <= w < from.len() && from[w] == -1;
    lemma_index_of(all, w);
    assert forall|p: Seq<char>| p != node.path implies #[trigger] node_at(all, p) == node_at(
        nodes,
        p,
    ) by {
        if has_path(nodes, p) {
            let k = index_of(nodes, p);
            assert(from.contains(k));
            let i = choose|i: int| 0 <= i < from.len() && from[i] == k;
            assert(all[i] == nodes[k]);
            lemma_index_of(all, i);
        } else if has_path(all, p) {
            let i = index_of(all, p);
            assert(from[i] != -1);
            assert(nodes[from[i]].path == p);
        }
    }
    lemma_rearranged_len(nodes, node.path, b, e);
}

proof fn lemma_rearranged_len(nodes: Seq<NodeView>, path: Seq<char>, b: int, e: int)
    requires
        0 <= b <= e <= nodes.len(),
        !has_path(nodes, path),
    ensures
        nodes.subrange(b, e).filter(apart(path)).len() + nodes.subrange(b, e).filter(
            below(path),
        ).len() == e - b,
    decreases e - b,
{
    reveal(Seq::filter);
    let block = nodes.subrange(b, e);
    if b < e {
        lemma_rearranged_len(nodes, path, b, e - 1);
        assert(block.drop_last() =~= nodes.subrange(b, e - 1));
        assert(block.last() == nodes[e - 1]);
        assert(nodes[e - 1].path != path);
    }
}

/// A mount point that was taken out is gone, and every other one is as it was.
pub proof fn lemma_unlinked(nodes: Seq<NodeView>, path: Seq<char>)
    requires
        unique_paths(nodes),
        mount_paths(nodes),
    ensures
        unique_paths(unlinked(nodes, path)),
        mount_paths(unlinked(nodes, path)),
        forall|p: Seq<char>|
            p != path ==> #[trigger] node_at(unlinked(nodes, path), p) == node_at(nodes, p),
{
    let all = unlinked(nodes, path);
    let parent = parent_of(nodes, path);
    let b = block_start(parent);
    let e = block_end(nodes, parent);
    let block = nodes.subrange(b, e);
    lemma_block_bounds(nodes, path);
    let from = lemma_rearranged(nodes, path, b, e, Seq::empty());
    assert(all =~= nodes.take(b) + block.filter(apart(path)) + Seq::<NodeView>::empty()
        + block.filter(below(path)) + nodes.skip(e));
    assert forall|i: int, j: int| 0 <= i < j < all.len() implies (#[trigger] all[i]).path != (
    #[trigger] all[j]).path by {
        assert(from[i] != from[j]);
    }
    assert forall|i: int| 0 <= i < all.len() implies is_mount_path((#[trigger] all[i]).path) by {
        assert(all[i] == nodes[from[i]]);
    }
    assert forall|p: Seq<char>| p != path implies #[trigger] node_at(all, p) == node_at(
        nodes,
        p,
    ) by {
        if has_path(nodes, p) {
            let k = index_of(nodes, p);
            assert(from.contains(k));
            let i = choose|i: int| 0 <= i < from.len() && from[i] == k;
            assert(all[i] == nodes[k]);
            lemma_index_of(all, i);
        } else if has_path(all, p) {
            let i = index_of(all, p);
            assert(nodes[from[i]].path == p);
        }
    }
}

} // verus!
