//! That the list of mount points stays in the order of the forest: every mount point is
//! followed at once by all that lie below it.

use vstd::prelude::*;

use crate::vfs::forest;
use crate::vfs::path;

verus! {

/// A mount point stands before those below it, and nothing else stands between.
pub open spec fn in_tree_order(nodes: Seq<forest::NodeView>) -> bool {
    &&& forall|i: int, k: int|
        0 <= i < nodes.len() && 0 <= k < nodes.len() && #[trigger] forest::is_below(
            nodes[k].path,
            nodes[i].path,
        ) ==> i < k
    &&& forall|i: int, j: int, k: int|
        0 <= i < j < k < nodes.len() && #[trigger] forest::is_below(nodes[k].path, nodes[i].path)
            ==> #[trigger] forest::is_below(nodes[j].path, nodes[i].path)
}

/// What lies below something that lies below `c` lies below `c`.
pub proof fn lemma_below_transitive(a: Seq<char>, b: Seq<char>, c: Seq<char>)
    requires
        forest::is_mount_path(a),
        forest::is_mount_path(b),
        forest::is_mount_path(c),
        forest::is_below(a, b),
        forest::is_below(b, c),
    ensures
        forest::is_below(a, c),
        !forest::is_below(b, a),
        a != b,
{
    if forest::is_root(c) {
        if forest::is_root(a) {
            assert(forest::is_root(b) || b.len() < a.len());
        }
    } else if forest::is_root(b) {
        assert(c.len() < b.len());
    } else {
        assert(a.take(b.len() as int) == b);
        assert(b.take(c.len() as int) == c);
        assert(a.take(c.len() as int) =~= b.take(c.len() as int));
        assert(a[c.len() as int] == a.take(b.len() as int)[c.len() as int]);
    }
}

/// What lies below is not above.
pub proof fn lemma_below_asymmetric(a: Seq<char>, b: Seq<char>)
    requires
        forest::is_mount_path(a),
        forest::is_mount_path(b),
        forest::is_below(a, b),
    ensures
        !forest::is_below(b, a),
        a != b,
        b.len() < a.len(),
{
    if forest::is_root(b) {
        if a.len() == 1 {
            assert(a =~= seq!['/']);
        }
    }
}

/// Of two paths above a third, one lies below the other.
pub proof fn lemma_above_comparable(x: Seq<char>, a: Seq<char>, b: Seq<char>)
    requires
        forest::is_mount_path(x),
        forest::is_mount_path(a),
        forest::is_mount_path(b),
        forest::is_below(x, a),
        forest::is_below(x, b),
        a != b,
    ensures
        forest::is_below(a, b) || forest::is_below(b, a),
        a.len() > b.len() ==> forest::is_below(a, b),
        b.len() > a.len() ==> forest::is_below(b, a),
{
    if forest::is_root(a) {
        lemma_below_asymmetric(x, b);
        if b.len() == 1 {
            assert(b =~= seq!['/']);
        }
    } else if forest::is_root(b) {
        if a.len() == 1 {
            assert(a =~= seq!['/']);
        }
    } else {
        let xa = x.take(a.len() as int);
        let xb = x.take(b.len() as int);
        if a.len() == b.len() {
            assert(a == xa && b == xb);
        } else if a.len() > b.len() {
            assert(a.take(b.len() as int) =~= xb) by {
                assert(xa.take(b.len() as int) =~= xb);
            }
            assert(a[b.len() as int] == xa[b.len() as int]);
        } else {
            assert(b.take(a.len() as int) =~= xa) by {
                assert(xb.take(a.len() as int) =~= xa);
            }
            assert(b[a.len() as int] == xb[a.len() as int]);
        }
    }
}

/// In tree order, what lies below a mount point stands in the run behind it.
pub proof fn lemma_in_run(nodes: Seq<forest::NodeView>, p: int, k: int, i: int)
    requires
        in_tree_order(nodes),
        0 <= p < i <= k < nodes.len(),
        forest::is_below(nodes[k].path, nodes[p].path),
    ensures
        k < forest::run_end(nodes, nodes[p].path, i),
    decreases k - i,
{
    assert(forest::is_below(nodes[i].path, nodes[p].path)) by {
        if i < k {
            assert(forest::is_below(nodes[k].path, nodes[p].path));
        }
    }
    if i < k {
        lemma_in_run(nodes, p, k, i + 1);
    } else {
        lemma_run_end_le(nodes, nodes[p].path, i + 1);
    }
}

proof fn lemma_run_end_le(nodes: Seq<forest::NodeView>, path: Seq<char>, i: int)
    requires
        0 <= i <= nodes.len(),
    ensures
        i <= forest::run_end(nodes, path, i) <= nodes.len(),
        forall|j: int|
            i <= j < forest::run_end(nodes, path, i) ==> forest::is_below(
                (#[trigger] nodes[j]).path,
                path,
            ),
    decreases nodes.len() - i,
{
    if i < nodes.len() && forest::is_below(nodes[i].path, path) {
        lemma_run_end_le(nodes, path, i + 1);
    }
}

/// The block below the parent of `path` holds all that lies below the parent, and only
/// that: in it stand `path` itself and all that lies below `path`. A mount point before
/// the block is the parent or above it, or has nothing in the block below it; one above
/// `path` stands before the block.
pub proof fn lemma_block(nodes: Seq<forest::NodeView>, path: Seq<char>)
    requires
        in_tree_order(nodes),
        forest::unique_paths(nodes),
        forest::mount_paths(nodes),
        forest::is_mount_path(path),
    ensures
        ({
            let parent = forest::parent_of(nodes, path);
            let b = forest::block_start(parent);
            let e = forest::block_end(nodes, parent);
            &&& 0 <= b <= e <= nodes.len()
            &&& forall|k: int|
                0 <= k < nodes.len() && (nodes[k].path == path || forest::is_below(
                    (#[trigger] nodes[k]).path,
                    path,
                )) ==> b <= k < e
            &&& forall|i: int|
                0 <= i < nodes.len() && forest::is_below(path, (#[trigger] nodes[i]).path) ==> i < b
                    && forall|j: int|
                    b <= j < e ==> forest::is_below((#[trigger] nodes[j]).path, nodes[i].path)
            &&& forall|i: int, k: int|
                0 <= i < b && b <= k < e && #[trigger] forest::is_below(nodes[k].path, nodes[i].path)
                    ==> forest::is_below(path, nodes[i].path)
            &&& forall|i: int, k: int|
                b <= i < e && e <= k < nodes.len() ==> !#[trigger] forest::is_below(
                    nodes[k].path,
                    nodes[i].path,
                )
            &&& forall|i: int, k: int|
                0 <= i < b && e <= k < nodes.len() && #[trigger] forest::is_below(
                    nodes[k].path,
                    nodes[i].path,
                ) && b < nodes.len() ==> (b == 0 || i == b - 1 || forest::is_below(
                    nodes[b - 1].path,
                    nodes[i].path,
                )) && forest::is_below(path, nodes[i].path)
        }),
{
    let parent = forest::parent_of(nodes, path);
    let b = forest::block_start(parent);
    let e = forest::block_end(nodes, parent);
    forest::lemma_deepest_above(nodes, path, nodes.len() as int);
    if parent is Some {
        let p = parent->0;
        let pp = nodes[p].path;
        lemma_run_end_le(nodes, pp, p + 1);
        assert forall|k: int|
            0 <= k < nodes.len() && (nodes[k].path == path || forest::is_below(
                (#[trigger] nodes[k]).path,
                path,
            )) implies b <= k < e by {
            if forest::is_below(nodes[k].path, path) {
                lemma_below_transitive(nodes[k].path, path, pp);
            }
            lemma_in_run(nodes, p, k, p + 1);
        }
        assert forall|i: int|
            0 <= i < nodes.len() && forest::is_below(path, (#[trigger] nodes[i]).path) implies i < b
            && forall|j: int|
            b <= j < e ==> forest::is_below((#[trigger] nodes[j]).path, nodes[i].path) by {
            if nodes[i].path != pp {
                lemma_above_comparable(path, pp, nodes[i].path);
                if forest::is_below(nodes[i].path, pp) {
                    lemma_below_asymmetric(nodes[i].path, pp);
                }
                assert(forest::is_below(pp, nodes[i].path));
                assert(i < p);
            } else {
                assert(i == p);
            }
            assert forall|j: int| b <= j < e implies forest::is_below(
                (#[trigger] nodes[j]).path,
                nodes[i].path,
            ) by {
                if nodes[i].path != pp {
                    lemma_below_transitive(nodes[j].path, pp, nodes[i].path);
                }
            }
        }
        assert forall|i: int, k: int|
            0 <= i < b && b <= k < e && #[trigger] forest::is_below(
                nodes[k].path,
                nodes[i].path,
            ) implies forest::is_below(path, nodes[i].path) by {
            if nodes[i].path != pp {
                lemma_above_comparable(nodes[k].path, pp, nodes[i].path);
                if forest::is_below(nodes[i].path, pp) {
                    assert(p < i);
                }
                lemma_below_transitive(path, pp, nodes[i].path);
            }
        }
        assert forall|i: int, k: int|
            b <= i < e && e <= k < nodes.len() implies !#[trigger] forest::is_below(
            nodes[k].path,
            nodes[i].path,
        ) by {
            if forest::is_below(nodes[k].path, nodes[i].path) {
                lemma_below_transitive(nodes[k].path, nodes[i].path, pp);
                lemma_in_run(nodes, p, k, p + 1);
            }
        }
        assert forall|i: int, k: int|
            0 <= i < b && e <= k < nodes.len() && #[trigger] forest::is_below(
                nodes[k].path,
                nodes[i].path,
            ) implies (b == 0 || i == b - 1 || forest::is_below(nodes[b - 1].path, nodes[i].path))
            && forest::is_below(path, nodes[i].path) by {
            if i == p {
                lemma_in_run(nodes, p, k, p + 1);
            } else {
                assert(forest::is_below(nodes[p].path, nodes[i].path));
                lemma_below_transitive(path, pp, nodes[i].path);
            }
        }
    }
}

/// The order is kept when a block is rearranged as linking and unlinking do.
proof fn lemma_rearranged_order(
    nodes: Seq<forest::NodeView>,
    path: Seq<char>,
    middle: Seq<forest::NodeView>,
)
    requires
        in_tree_order(nodes),
        forest::unique_paths(nodes),
        forest::mount_paths(nodes),
        forest::is_mount_path(path),
        middle.len() <= 1,
        middle.len() == 1 ==> middle[0].path == path && !forest::has_path(nodes, path),
    ensures
        ({
            let parent = forest::parent_of(nodes, path);
            let b = forest::block_start(parent);
            let e = forest::block_end(nodes, parent);
            let block = nodes.subrange(b, e);
            in_tree_order(
                nodes.take(b) + block.filter(forest::apart(path)) + middle + block.filter(
                    forest::below(path),
                ) + nodes.skip(e),
            )
        }),
{
    let parent = forest::parent_of(nodes, path);
    let b = forest::block_start(parent);
    let e = forest::block_end(nodes, parent);
    let block = nodes.subrange(b, e);
    let kept = block.filter(forest::apart(path));
    let moved = block.filter(forest::below(path));
    let all = nodes.take(b) + kept + middle + moved + nodes.skip(e);
    lemma_block(nodes, path);
    let from = forest::lemma_rearranged(nodes, path, b, e, middle);
    let n2 = b + kept.len();
    let n3 = n2 + middle.len();
    let n4 = n3 + moved.len();
    assert(forest::in_segments(
        nodes,
        from,
        path,
        b,
        e,
        kept.len() as int,
        middle.len() as int,
        moved.len() as int,
    ));
    assert forall|i: int| 0 <= i < all.len() && !(n2 <= i < n3) implies #[trigger] all[i]
        == nodes[from[i]] && 0 <= from[i] < nodes.len() by {
        assert(from[i] != -1);
    }
    assert forall|i: int| n2 <= i < n3 implies (#[trigger] all[i]).path == path by {
        assert(from[i] == -1);
    }
    // A mount point of the block that is apart from `path` is not above it.
    assert forall|i: int| b <= i < n2 implies !forest::is_below(
        path,
        (#[trigger] all[i]).path,
    ) by {
        assert(all[i] == nodes[from[i]]);
        assert(b <= from[i] < e);
    }
    assert forall|i: int, k: int|
        0 <= i < all.len() && 0 <= k < all.len() && #[trigger] forest::is_below(
            all[k].path,
            all[i].path,
        ) implies i < k by {
        lemma_pair_order(nodes, path, all, from, b, e, n2, n3, n4, i, k);
    }
    assert forall|i: int, j: int, k: int|
        0 <= i < j < k < all.len() && #[trigger] forest::is_below(
            all[k].path,
            all[i].path,
        ) implies #[trigger] forest::is_below(all[j].path, all[i].path) by {
        lemma_triple_order(nodes, path, all, from, b, e, n2, n3, n4, i, j, k);
    }
}

/// What the two lemmas below know of a rearranged list.
spec fn rearranged(
    nodes: Seq<forest::NodeView>,
    path: Seq<char>,
    all: Seq<forest::NodeView>,
    from: Seq<int>,
    b: int,
    e: int,
    n2: int,
    n3: int,
    n4: int,
) -> bool {
    &&& in_tree_order(nodes)
    &&& forest::unique_paths(nodes)
    &&& forest::mount_paths(nodes)
    &&& forest::is_mount_path(path)
    &&& b == forest::block_start(forest::parent_of(nodes, path))
    &&& e == forest::block_end(nodes, forest::parent_of(nodes, path))
    &&& 0 <= b <= n2 <= n3 <= n4 <= all.len()
    &&& n3 <= n2 + 1
    &&& from.len() == all.len()
    &&& forest::in_segments(nodes, from, path, b, e, n2 - b, n3 - n2, n4 - n3)
    &&& forall|i: int|
        0 <= i < all.len() && !(n2 <= i < n3) ==> #[trigger] all[i] == nodes[from[i]] && 0
            <= from[i] < nodes.len()
    &&& forall|i: int| n2 <= i < n3 ==> (#[trigger] all[i]).path == path
    &&& forall|i: int| b <= i < n2 ==> !forest::is_below(path, (#[trigger] all[i]).path)
}

proof fn lemma_pair_order(
    nodes: Seq<forest::NodeView>,
    path: Seq<char>,
    all: Seq<forest::NodeView>,
    from: Seq<int>,
    b: int,
    e: int,
    n2: int,
    n3: int,
    n4: int,
    i: int,
    k: int,
)
    requires
        rearranged(nodes, path, all, from, b, e, n2, n3, n4),
        0 <= i < all.len(),
        0 <= k < all.len(),
        forest::is_below(all[k].path, all[i].path),
    ensures
        i < k,
{
    lemma_block(nodes, path);
    let fi = from[i];
    let fk = from[k];
    lemma_mount_path(nodes, path, all, from, b, e, n2, n3, n4, i);
    lemma_mount_path(nodes, path, all, from, b, e, n2, n3, n4, k);
    lemma_below_asymmetric(all[k].path, all[i].path);
    if n2 <= i < n3 {
        // `k` lies below `path`
        if !(n2 <= k < n3) {
            assert(all[k] == nodes[fk]);
            assert(b <= fk < e);
            assert(b <= k < n4);
        }
    } else if n2 <= k < n3 {
        assert(all[i] == nodes[fi]);
        assert(fi < b);
    } else {
        assert(all[i] == nodes[fi] && all[k] == nodes[fk]);
        assert(forest::is_below(nodes[fk].path, nodes[fi].path));
        assert(fi < fk);
        if k < i {
            if b <= k < n2 && n3 <= i < n4 {
                lemma_below_transitive(all[k].path, all[i].path, path);
            }
        }
    }
}

proof fn lemma_mount_path(
    nodes: Seq<forest::NodeView>,
    path: Seq<char>,
    all: Seq<forest::NodeView>,
    from: Seq<int>,
    b: int,
    e: int,
    n2: int,
    n3: int,
    n4: int,
    i: int,
)
    requires
        rearranged(nodes, path, all, from, b, e, n2, n3, n4),
        0 <= i < all.len(),
    ensures
        forest::is_mount_path(all[i].path),
{
    if !(n2 <= i < n3) {
        assert(all[i] == nodes[from[i]]);
    }
}

proof fn lemma_triple_order(
    nodes: Seq<forest::NodeView>,
    path: Seq<char>,
    all: Seq<forest::NodeView>,
    from: Seq<int>,
    b: int,
    e: int,
    n2: int,
    n3: int,
    n4: int,
    i: int,
    j: int,
    k: int,
)
    requires
        rearranged(nodes, path, all, from, b, e, n2, n3, n4),
        0 <= i < j < k < all.len(),
        forest::is_below(all[k].path, all[i].path),
    ensures
        forest::is_below(all[j].path, all[i].path),
{
    lemma_block(nodes, path);
    lemma_mount_path(nodes, path, all, from, b, e, n2, n3, n4, i);
    lemma_mount_path(nodes, path, all, from, b, e, n2, n3, n4, j);
    lemma_mount_path(nodes, path, all, from, b, e, n2, n3, n4, k);
    let fi = from[i];
    let fj = from[j];
    let fk = from[k];
    if n2 <= i < n3 {
        // all below `path` stand in the run behind it
        assert(all[k] == nodes[fk]);
        assert(b <= fk < e);
        assert(n3 <= k < n4);
        assert(n3 <= j < n4);
        assert(all[j] == nodes[fj]);
    } else if i < b {
        assert(all[i] == nodes[fi] && fi == i);
        if j < b {
            assert(all[j] == nodes[fj] && fj == j);
            if k < b {
                assert(all[k] == nodes[fk] && fk == k);
                assert(forest::is_below(nodes[fk].path, nodes[fi].path));
            } else if n2 <= k < n3 {
                // `path` lies below `i`; so does its parent, the last before the block
                lemma_parent_below(nodes, path, i, j);
            } else {
                assert(all[k] == nodes[fk]);
                assert(b <= fk);
                assert(forest::is_below(nodes[fk].path, nodes[fi].path));
            }
        } else if n2 <= j < n3 {
            assert(all[k] == nodes[fk]);
            assert(forest::is_below(nodes[fk].path, nodes[fi].path));
            if n4 <= k {
                assert(e <= fk < nodes.len());
                lemma_behind_block(nodes, path, i, fk);
            }
        } else {
            assert(all[j] == nodes[fj]);
            if n2 <= k < n3 {
                assert(b <= fj < e);
            } else {
                assert(all[k] == nodes[fk]);
                assert(forest::is_below(nodes[fk].path, nodes[fi].path));
                if b <= fk < e {
                    assert(b <= fj < e);
                } else if fj < fk {
                    assert(forest::is_below(nodes[fj].path, nodes[fi].path));
                }
            }
        }
    } else if i < n2 {
        assert(all[i] == nodes[fi] && b <= fi < e);
        if n2 <= k < n3 {
            assert(false);
        }
        assert(all[k] == nodes[fk]);
        assert(forest::is_below(nodes[fk].path, nodes[fi].path));
        if n3 <= k < n4 {
            // both `path` and `i` are above `k`
            if nodes[fi].path != path {
                lemma_above_comparable(nodes[fk].path, nodes[fi].path, path);
            }
            assert(false);
        }
        assert(k < n2);
        assert(all[j] == nodes[fj]);
        assert(fi < fj < fk);
    } else if i < n4 {
        assert(all[i] == nodes[fi] && b <= fi < e);
        assert(all[k] == nodes[fk]);
        assert(forest::is_below(nodes[fk].path, nodes[fi].path));
        assert(k < n4);
        assert(all[j] == nodes[fj]);
        assert(fi < fj < fk);
    } else {
        assert(all[i] == nodes[fi] && all[j] == nodes[fj] && all[k] == nodes[fk]);
        assert(forest::is_below(nodes[fk].path, nodes[fi].path));
    }
}

/// A mount point above `path` is its parent or above it; so it has below it whatever
/// stands between the two.
proof fn lemma_parent_below(nodes: Seq<forest::NodeView>, path: Seq<char>, i: int, j: int)
    requires
        in_tree_order(nodes),
        forest::unique_paths(nodes),
        forest::mount_paths(nodes),
        forest::is_mount_path(path),
        0 <= i < j < forest::block_start(forest::parent_of(nodes, path)),
        forest::is_below(path, nodes[i].path),
    ensures
        forest::is_below(nodes[j].path, nodes[i].path),
{
    forest::lemma_deepest_above(nodes, path, nodes.len() as int);
    let p = forest::parent_of(nodes, path)->0;
    lemma_above_comparable(path, nodes[p].path, nodes[i].path);
    if forest::is_below(nodes[i].path, nodes[p].path) {
        lemma_below_asymmetric(nodes[i].path, nodes[p].path);
    }
    assert(forest::is_below(nodes[p].path, nodes[i].path));
    if j < p {
        assert(forest::is_below(nodes[j].path, nodes[i].path));
    }
}

/// A mount point before the block that has something behind the block below it has
/// `path` below it.
proof fn lemma_behind_block(nodes: Seq<forest::NodeView>, path: Seq<char>, i: int, k: int)
    requires
        in_tree_order(nodes),
        forest::unique_paths(nodes),
        forest::mount_paths(nodes),
        forest::is_mount_path(path),
        0 <= i < forest::block_start(forest::parent_of(nodes, path)),
        forest::block_end(nodes, forest::parent_of(nodes, path)) <= k < nodes.len(),
        forest::is_below(nodes[k].path, nodes[i].path),
    ensures
        forest::is_below(path, nodes[i].path),
{
    forest::lemma_deepest_above(nodes, path, nodes.len() as int);
    let p = forest::parent_of(nodes, path)->0;
    if i == p {
        lemma_run_end_le(nodes, nodes[p].path, p + 1);
        lemma_in_run(nodes, p, k, p + 1);
    } else {
        lemma_run_end_le(nodes, nodes[p].path, p + 1);
        assert(forest::is_below(nodes[p].path, nodes[i].path));
        lemma_below_transitive(path, nodes[p].path, nodes[i].path);
    }
}

/// Mounting at a new place keeps the order of the forest.
pub proof fn law_link_keeps_tree_order(nodes: Seq<forest::NodeView>, node: forest::NodeView)
    requires
        in_tree_order(nodes),
        forest::unique_paths(nodes),
        forest::mount_paths(nodes),
        forest::is_mount_path(node.path),
        !forest::has_path(nodes, node.path),
    ensures
        in_tree_order(forest::linked(nodes, node)),
{
    lemma_rearranged_order(nodes, node.path, seq![node]);
}

/// Taking a mount point out keeps the order of the forest, and it is gone.
pub proof fn law_unlink_keeps_tree_order(nodes: Seq<forest::NodeView>, path: Seq<char>)
    requires
        in_tree_order(nodes),
        forest::unique_paths(nodes),
        forest::mount_paths(nodes),
        forest::is_mount_path(path),
    ensures
        in_tree_order(forest::unlinked(nodes, path)),
        !forest::has_path(forest::unlinked(nodes, path), path),
{
    let parent = forest::parent_of(nodes, path);
    let b = forest::block_start(parent);
    let e = forest::block_end(nodes, parent);
    let block = nodes.subrange(b, e);
    let none = Seq::<forest::NodeView>::empty();
    let all = forest::unlinked(nodes, path);
    lemma_block(nodes, path);
    lemma_rearranged_order(nodes, path, none);
    assert(all =~= nodes.take(b) + block.filter(forest::apart(path)) + none + block.filter(
        forest::below(path),
    ) + nodes.skip(e));
    let from = forest::lemma_rearranged(nodes, path, b, e, none);
    if forest::has_path(all, path) {
        let i = forest::index_of(all, path);
        assert(all[i] == nodes[from[i]]);
        assert(b <= from[i] < e);
        forest::lemma_not_below_itself(path);
    }
}

} // verus!
