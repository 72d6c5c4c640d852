//! What moving mounts, detaching them and changing how they pass events on come to, path by
//! path.

use vstd::prelude::*;

use crate::vfs::context;
use crate::vfs::context::Context;
use crate::vfs::forest;
use crate::vfs::forest_order;
use crate::vfs::mount;
use crate::vfs::mount_queries;
use crate::vfs::mount_table;
use crate::vfs::registry::MountPropagation;
use crate::vfs::resolve;
use crate::vfs::resolve::Inode;
use crate::vfs::MountInUseTag;

verus! {

/// The mounts at a path, the oldest first: each hides those before it.
pub open spec fn stack_at(nodes: Seq<forest::NodeView>, path: Seq<char>) -> Seq<
    forest::EntryView,
> {
    match forest::node_at(nodes, path) {
        Some(node) => node.shadowed.push(node.data),
        None => Seq::empty(),
    }
}

/// A stack of mounts without the one on top.
pub open spec fn popped(stack: Seq<forest::EntryView>) -> Seq<forest::EntryView> {
    if stack.len() == 0 {
        stack
    } else {
        stack.drop_last()
    }
}

/// `path` is `base`, or lies below it.
pub open spec fn is_within(path: Seq<char>, base: Seq<char>) -> bool {
    path == base || forest::is_below(path, base)
}

/// Something is mounted at `path`, which is `base` or lies below it.
pub open spec fn is_mount_within(
    nodes: Seq<forest::NodeView>,
    base: Seq<char>,
    path: Seq<char>,
) -> bool {
    forest::has_path(nodes, path) && is_within(path, base)
}

/// What is left of a path behind `base`.
pub open spec fn rest_of(path: Seq<char>, base: Seq<char>) -> Seq<char> {
    if path == base {
        Seq::empty()
    } else {
        mount_queries::suffix_of(path, base)
    }
}

pub(crate) proof fn lemma_stack_after_unmount(w: context::WorldView, t: int, path: Seq<char>)
    requires
        context::in_order(w),
        0 <= t < w.tables.len() <= u64::MAX,
    ensures
        ({
            let after = context::after_unmount(w, t, path);
            &&& context::in_order(after)
            &&& after.tables.len() == w.tables.len()
            &&& after.owners == w.owners
            &&& after.registry.tags == w.registry.tags
            &&& forall|u: int|
                0 <= u < w.tables.len() && u != t ==> #[trigger] after.tables[u] == w.tables[u]
            &&& forall|p: Seq<char>| #[trigger]
                stack_at(after.tables[t], p) == (if p == path {
                    popped(stack_at(w.tables[t], p))
                } else {
                    stack_at(w.tables[t], p)
                })
        }),
{
    context::lemma_after_unmount(w, t, path);
    let st = context::table_state(w, t);
    mount_table::lemma_after_remove_wf(st, t as u64, path);
    let after = context::after_unmount(w, t, path);
    assert(after.tables[t] == mount_table::after_remove(st, t as u64, path).nodes);
    assert forall|p: Seq<char>| #[trigger]
        stack_at(after.tables[t], p) == (if p == path {
            popped(stack_at(w.tables[t], p))
        } else {
            stack_at(w.tables[t], p)
        }) by {
        match forest::node_at(st.nodes, path) {
            Some(node) => {
                assert(node.shadowed.push(node.data).drop_last() =~= node.shadowed);
                if node.shadowed.len() > 0 {
                    assert(node.shadowed.drop_last().push(node.shadowed.last())
                        =~= node.shadowed);
                }
            },
            None => {},
        }
        if p == path {
            assert(stack_at(after.tables[t], p) =~= popped(stack_at(w.tables[t], p)));
        }
    }
}

/// What is put on top of a stack by mounting something.
pub open spec fn new_entry(
    target: u64,
    what: context::NewMountView,
    tag: nat,
) -> forest::EntryView {
    forest::EntryView {
        target_inode_id: target,
        root: what.root,
        propagation: what.propagation,
        in_use: tag as usize,
        source: what.source,
        fstype: what.fstype,
    }
}

pub(crate) proof fn lemma_stack_after_mount(
    w: context::WorldView,
    t: int,
    path: Seq<char>,
    target: u64,
    what: context::NewMountView,
)
    requires
        context::in_order(w),
        0 <= t < w.tables.len() <= u64::MAX,
        w.registry.tags.len() <= usize::MAX,
        forest::is_mount_path(path),
    ensures
        ({
            let after = context::after_mount(w, t, path, target, what);
            &&& context::in_order(after)
            &&& after.tables.len() == w.tables.len()
            &&& after.owners == w.owners
            &&& after.registry.tags == w.registry.tags.push(
                MountInUseTag { refs: 0, flags: what.flags },
            )
            &&& forall|u: int|
                0 <= u < w.tables.len() && u != t ==> #[trigger] after.tables[u] == w.tables[u]
            &&& forall|p: Seq<char>| #[trigger]
                stack_at(after.tables[t], p) == (if p == path {
                    stack_at(w.tables[t], p).push(
                        new_entry(target, what, w.registry.tags.len()),
                    )
                } else {
                    stack_at(w.tables[t], p)
                })
        }),
{
    context::lemma_after_mount(w, t, path, target, what);
    let st = context::table_state(w, t);
    mount_table::lemma_after_install_wf(
        st,
        t as u64,
        path,
        target,
        what.root,
        what.propagation,
        what.source,
        what.fstype,
        what.flags,
    );
}

pub(crate) proof fn lemma_rest(path: Seq<char>, base: Seq<char>)
    requires
        forest::is_mount_path(path),
        is_within(path, base),
    ensures
        context::mirror_path(base, rest_of(path, base)) == path,
        base.len() > 0 ==> rest_of(path, base).len() != 1,
{
    if path != base {
        if forest::is_root(base) {
            if path.len() == 1 {
                assert(path =~= seq!['/']);
            }
        } else {
            let rest = rest_of(path, base);
            assert(path =~= path.take(base.len() as int) + rest);
            assert(rest.last() == path.last());
            assert(rest[0] == path[base.len() as int]);
        }
    }
}

pub(crate) proof fn lemma_mirror_apart(base: Seq<char>, a: Seq<char>, b: Seq<char>)
    requires
        a.len() != 1,
        b.len() != 1,
        a != b,
    ensures
        context::mirror_path(base, a) != context::mirror_path(base, b),
{
    if context::mirror_path(base, a) == context::mirror_path(base, b) {
        if a.len() > 0 && b.len() > 0 && !forest::is_root(base) {
            assert((base + a).skip(base.len() as int) =~= a);
            assert((base + b).skip(base.len() as int) =~= b);
        } else if a.len() == 0 && b.len() == 0 {
            assert(a =~= b);
        }
    }
}

/// The mount found is one of those at and below `base`.
pub open spec fn is_listed(
    nodes: Seq<forest::NodeView>,
    base: Seq<char>,
    f: mount_queries::FoundView,
) -> bool {
    let path = context::mirror_path(base, f.suffix);
    &&& is_mount_within(nodes, base, path)
    &&& forest::is_mount_path(path)
    &&& f.suffix == rest_of(path, base)
    &&& f.entry == forest::node_at(nodes, path)->0.data
}

/// The list holds the mounts on top at `base` and below it, all of them.
pub open spec fn lists(
    list: Seq<mount_queries::FoundView>,
    nodes: Seq<forest::NodeView>,
    base: Seq<char>,
) -> bool {
    &&& forall|i: int| 0 <= i < list.len() ==> is_listed(nodes, base, #[trigger] list[i])
    &&& forall|p: Seq<char>| #[trigger]
        is_mount_within(nodes, base, p) ==> exists|i: int|
            0 <= i < list.len() && (#[trigger] list[i]).suffix == rest_of(p, base)
}

/// No two mounts of the list have the same place.
pub open spec fn distinct(list: Seq<mount_queries::FoundView>) -> bool {
    forall|i: int, j: int|
        0 <= i < j < list.len() ==> (#[trigger] list[i]).suffix != (#[trigger] list[j]).suffix
}

proof fn lemma_found_listed(nodes: Seq<forest::NodeView>, base: Seq<char>, k: int)
    requires
        mount_table::well_formed(nodes),
        0 <= k < nodes.len(),
        forest::is_below(nodes[k].path, base),
    ensures
        is_listed(nodes, base, mount_queries::found_at(nodes[k], base)),
        mount_queries::found_at(nodes[k], base).suffix == rest_of(nodes[k].path, base),
        nodes[k].path != base,
{
    let path = nodes[k].path;
    assert(forest::is_mount_path(path));
    if path == base && forest::is_root(base) {
        assert(false);
    }
    lemma_rest(path, base);
    forest::lemma_index_of(nodes, k);
}

pub(crate) proof fn lemma_subtree_lists(nodes: Seq<forest::NodeView>, base: Seq<char>)
    requires
        mount_table::well_formed(nodes),
    ensures
        lists(mount_queries::subtree(nodes, base), nodes, base),
{
    let sub = mount_queries::subtree(nodes, base);
    if forest::has_path(nodes, base) {
        let k = forest::index_of(nodes, base);
        let end = forest::run_end(nodes, base, k + 1);
        mount::lemma_run(nodes, base, k + 1);
        assert(forest::is_mount_path(nodes[k].path));
        lemma_rest(base, base);
        assert forall|i: int| 0 <= i < sub.len() implies is_listed(
            nodes,
            base,
            #[trigger] sub[i],
        ) by {
            if i > 0 {
                assert(nodes.subrange(k + 1, end)[i - 1] == nodes[k + i]);
                assert(sub[i] == mount_queries::found_at(nodes[k + i], base));
                lemma_found_listed(nodes, base, k + i);
            }
        }
        assert forall|p: Seq<char>| #[trigger] is_mount_within(nodes, base, p) implies exists|
            i: int,
        |
            0 <= i < sub.len() && (#[trigger] sub[i]).suffix == rest_of(p, base) by {
            if p == base {
                assert(sub[0].suffix == rest_of(p, base));
            } else {
                let j = forest::index_of(nodes, p);
                assert(forest::is_below(nodes[j].path, nodes[k].path));
                forest_order::lemma_in_run(nodes, k, j, k + 1);
                assert(nodes.subrange(k + 1, end)[j - k - 1] == nodes[j]);
                assert(sub[j - k] == mount_queries::found_at(nodes[j], base));
                lemma_found_listed(nodes, base, j);
                assert(sub[j - k].suffix == rest_of(p, base));
            }
        }
    } else {
        let places = mount_queries::sorted_below(nodes, base, nodes.len() as int);
        mount_queries::lemma_sorted_below(nodes, base, nodes.len() as int);
        assert forall|i: int| 0 <= i < sub.len() implies is_listed(
            nodes,
            base,
            #[trigger] sub[i],
        ) by {
            assert(sub[i] == mount_queries::found_at(nodes[places[i]], base));
            lemma_found_listed(nodes, base, places[i]);
        }
        assert forall|p: Seq<char>| #[trigger] is_mount_within(nodes, base, p) implies exists|
            i: int,
        |
            0 <= i < sub.len() && (#[trigger] sub[i]).suffix == rest_of(p, base) by {
            let j = forest::index_of(nodes, p);
            assert(forest::is_below(nodes[j].path, base));
            assert(places.contains(j));
            let i = choose|i: int| 0 <= i < places.len() && places[i] == j;
            assert(sub[i] == mount_queries::found_at(nodes[j], base));
            lemma_found_listed(nodes, base, j);
            assert(sub[i].suffix == rest_of(p, base));
        }
    }
}

pub(crate) proof fn lemma_subtree_distinct(nodes: Seq<forest::NodeView>, base: Seq<char>)
    requires
        mount_table::well_formed(nodes),
        forest::has_path(nodes, base),
    ensures
        distinct(mount_queries::subtree(nodes, base)),
{
    let sub = mount_queries::subtree(nodes, base);
    let k = forest::index_of(nodes, base);
    let end = forest::run_end(nodes, base, k + 1);
    mount::lemma_run(nodes, base, k + 1);
    assert(forest::is_mount_path(nodes[k].path));
    lemma_rest(base, base);
    assert forall|i: int| 0 <= i < sub.len() implies context::mirror_path(
        base,
        (#[trigger] sub[i]).suffix,
    ) == nodes[k + i].path by {
        if i > 0 {
            assert(nodes.subrange(k + 1, end)[i - 1] == nodes[k + i]);
            assert(sub[i] == mount_queries::found_at(nodes[k + i], base));
            lemma_found_listed(nodes, base, k + i);
        }
    }
    assert forall|i: int, j: int| 0 <= i < j < sub.len() implies (#[trigger] sub[i]).suffix != (
    #[trigger] sub[j]).suffix by {
        assert(nodes[k + i].path != nodes[k + j].path);
    }
}

proof fn lemma_ordered_keeps(s: Seq<mount_queries::FoundView>, longer_first: bool, n: int)
    requires
        0 <= n <= s.len(),
    ensures
        mount::ordered(s, longer_first, n).len() == n,
        forall|i: int|
            0 <= i < n ==> s.take(n).contains(#[trigger] mount::ordered(s, longer_first, n)[i]),
        forall|j: int|
            0 <= j < n ==> mount::ordered(s, longer_first, n).contains(#[trigger] s[j]),
        distinct(s) ==> distinct(mount::ordered(s, longer_first, n)),
    decreases n,
{
    if n > 0 {
        lemma_ordered_keeps(s, longer_first, n - 1);
        let front = mount::ordered(s, longer_first, n - 1);
        let earlier = s.take(n - 1);
        let r = mount::order_rank(front, s[n - 1].suffix, longer_first, front.len() as int);
        mount::lemma_order_rank(front, s[n - 1].suffix, longer_first, front.len() as int);
        let all = mount::ordered(s, longer_first, n);
        assert(all == front.insert(r, s[n - 1]));
        assert forall|i: int| 0 <= i < n implies s.take(n).contains(#[trigger] all[i]) by {
            if i == r {
                assert(s.take(n)[n - 1] == all[i]);
            } else {
                let k = if i < r {
                    i
                } else {
                    i - 1
                };
                assert(all[i] == front[k]);
                assert(earlier.contains(front[k]));
                let j = choose|j: int| 0 <= j < n - 1 && earlier[j] == front[k];
                assert(s.take(n)[j] == all[i]);
            }
        }
        assert forall|j: int| 0 <= j < n implies all.contains(#[trigger] s[j]) by {
            if j == n - 1 {
                assert(all[r] == s[j]);
            } else {
                assert(front.contains(s[j]));
                let k = choose|k: int| 0 <= k < front.len() && front[k] == s[j];
                if k < r {
                    assert(all[k] == s[j]);
                } else {
                    assert(all[k + 1] == s[j]);
                }
            }
        }
        if distinct(s) {
            assert forall|k: int| 0 <= k < front.len() implies (#[trigger] front[k]).suffix != s[n
                - 1].suffix by {
                assert(earlier.contains(front[k]));
                let j = choose|j: int| 0 <= j < n - 1 && earlier[j] == front[k];
                assert(s[j].suffix != s[n - 1].suffix);
            }
            assert forall|i: int, j: int| 0 <= i < j < all.len() implies (#[trigger] all[i]).suffix
                != (#[trigger] all[j]).suffix by {
                let a = if i < r {
                    i
                } else {
                    i - 1
                };
                let b = if j < r {
                    j
                } else {
                    j - 1
                };
                if i == r {
                    assert(all[j] == front[b]);
                } else if j == r {
                    assert(all[i] == front[a]);
                } else {
                    assert(all[i] == front[a]);
                    assert(all[j] == front[b]);
                }
            }
        }
    }
}

/// The ordered mounts of a subtree are all of them, each once.
proof fn lemma_list(nodes: Seq<forest::NodeView>, base: Seq<char>, longer_first: bool)
    requires
        mount_table::well_formed(nodes),
        forest::has_path(nodes, base),
    ensures
        ({
            let sub = mount_queries::subtree(nodes, base);
            let list = mount::ordered(sub, longer_first, sub.len() as int);
            &&& lists(list, nodes, base)
            &&& distinct(list)
            &&& list.len() == sub.len()
        }),
{
    let sub = mount_queries::subtree(nodes, base);
    let list = mount::ordered(sub, longer_first, sub.len() as int);
    lemma_subtree_lists(nodes, base);
    lemma_subtree_distinct(nodes, base);
    lemma_ordered_keeps(sub, longer_first, sub.len() as int);
    assert(sub.take(sub.len() as int) =~= sub);
    assert forall|i: int| 0 <= i < list.len() implies is_listed(
        nodes,
        base,
        #[trigger] list[i],
    ) by {
        assert(sub.contains(list[i]));
        let j = choose|j: int| 0 <= j < sub.len() && sub[j] == list[i];
        assert(is_listed(nodes, base, sub[j]));
    }
    assert forall|p: Seq<char>| #[trigger] is_mount_within(nodes, base, p) implies exists|i: int|
        0 <= i < list.len() && (#[trigger] list[i]).suffix == rest_of(p, base) by {
        let j = choose|j: int| 0 <= j < sub.len() && (#[trigger] sub[j]).suffix == rest_of(p, base);
        assert(list.contains(sub[j]));
        let i = choose|i: int| 0 <= i < list.len() && list[i] == sub[j];
        assert(list[i].suffix == rest_of(p, base));
    }
}

/// One of the mounts of the list from the `lo`-th to before the `hi`-th has this path behind
/// `base`.
pub open spec fn is_among(
    list: Seq<mount_queries::FoundView>,
    base: Seq<char>,
    lo: int,
    hi: int,
    path: Seq<char>,
) -> bool {
    exists|j: int|
        lo <= j < hi && context::mirror_path(base, (#[trigger] list[j]).suffix) == path
}

/// No mount of the list stands behind a path by a single character.
pub open spec fn proper_places(list: Seq<mount_queries::FoundView>) -> bool {
    forall|i: int| 0 <= i < list.len() ==> (#[trigger] list[i]).suffix.len() != 1
}

proof fn lemma_taken_off(
    w: context::WorldView,
    t: int,
    list: Seq<mount_queries::FoundView>,
    base: Seq<char>,
    k: int,
)
    requires
        context::in_order(w),
        0 <= t < w.tables.len() <= u64::MAX,
        0 <= k <= list.len(),
        distinct(list),
        proper_places(list),
    ensures
        ({
            let off = mount::taken_off(w, t, list, base, k);
            &&& context::in_order(off)
            &&& off.tables.len() == w.tables.len()
            &&& off.owners == w.owners
            &&& off.registry.tags == w.registry.tags
            &&& forall|u: int|
                0 <= u < w.tables.len() && u != t ==> #[trigger] off.tables[u] == w.tables[u]
            &&& forall|p: Seq<char>| #[trigger]
                stack_at(off.tables[t], p) == (if is_among(
                    list,
                    base,
                    k,
                    list.len() as int,
                    p,
                ) {
                    popped(stack_at(w.tables[t], p))
                } else {
                    stack_at(w.tables[t], p)
                })
        }),
    decreases list.len() - k,
{
    if k < list.len() {
        lemma_taken_off(w, t, list, base, k + 1);
        let prev = mount::taken_off(w, t, list, base, k + 1);
        let path = context::mirror_path(base, list[k].suffix);
        lemma_stack_after_unmount(prev, t, path);
        let off = mount::taken_off(w, t, list, base, k);
        let n = list.len() as int;
        assert(!is_among(list, base, k + 1, n, path)) by {
            if is_among(list, base, k + 1, n, path) {
                let j = choose|j: int|
                    k + 1 <= j < n && context::mirror_path(base, (#[trigger] list[j]).suffix)
                        == path;
                assert(list[k].suffix != list[j].suffix);
                lemma_mirror_apart(base, list[k].suffix, list[j].suffix);
            }
        }
        assert forall|p: Seq<char>| #[trigger]
            stack_at(off.tables[t], p) == (if is_among(list, base, k, n, p) {
                popped(stack_at(w.tables[t], p))
            } else {
                stack_at(w.tables[t], p)
            }) by {
            assert(stack_at(prev.tables[t], p) == stack_at(prev.tables[t], p));
            if p == path {
                assert(context::mirror_path(base, list[k].suffix) == p);
                assert(is_among(list, base, k, n, p));
            } else if is_among(list, base, k, n, p) {
                let j = choose|j: int|
                    k <= j < n && context::mirror_path(base, (#[trigger] list[j]).suffix) == p;
                assert(j != k);
                assert(is_among(list, base, k + 1, n, p));
            } else if is_among(list, base, k + 1, n, p) {
                let j = choose|j: int|
                    k + 1 <= j < n && context::mirror_path(base, (#[trigger] list[j]).suffix)
                        == p;
                assert(is_among(list, base, k, n, p));
            }
        }
    }
}

/// A mount is what another one was, but for what it is mounted on: the same root, the same way
/// to pass events on, the same source, kind and flags. Nobody uses it yet.
pub open spec fn is_carried(
    was: forest::EntryView,
    tags_before: Seq<MountInUseTag>,
    now: forest::EntryView,
    tags_after: Seq<MountInUseTag>,
) -> bool {
    &&& now.root == was.root
    &&& now.propagation == was.propagation
    &&& now.source == was.source
    &&& now.fstype == was.fstype
    &&& now.in_use < tags_after.len()
    &&& tags_after[now.in_use as int] == (MountInUseTag {
        refs: 0,
        flags: tags_before[was.in_use as int].flags,
    })
}

/// All but the top of a stack is what was there before, and the top is what `f` was; where `f`
/// stood at the top of its subtree, it is mounted on `target`.
pub open spec fn is_put_on(
    before: Seq<forest::EntryView>,
    after: Seq<forest::EntryView>,
    f: mount_queries::FoundView,
    target: u64,
    tags_before: Seq<MountInUseTag>,
    tags_after: Seq<MountInUseTag>,
) -> bool {
    &&& after.len() == before.len() + 1
    &&& after.drop_last() == before
    &&& is_carried(f.entry, tags_before, after.last(), tags_after)
    &&& f.suffix.len() == 0 ==> after.last().target_inode_id == target
}

proof fn lemma_put_on<F: Inode>(
    fs: &F,
    ctx: Context,
    w: context::WorldView,
    list: Seq<mount_queries::FoundView>,
    base: Seq<char>,
    target: u64,
    n: int,
)
    requires
        context::in_order(w),
        ctx.mounts < w.tables.len() <= u64::MAX,
        0 <= n <= list.len(),
        distinct(list),
        proper_places(list),
        w.registry.tags.len() + n <= usize::MAX,
        forall|i: int|
            0 <= i < list.len() ==> (#[trigger] list[i]).entry.in_use < w.registry.tags.len()
                && forest::is_mount_path(context::mirror_path(base, list[i].suffix)),
    ensures
        ({
            let t = ctx.mounts as int;
            let on = mount::put_on(fs, ctx, w, list, base, target, n);
            &&& context::in_order(on)
            &&& on.tables.len() == w.tables.len()
            &&& on.owners == w.owners
            &&& on.registry.tags.len() == w.registry.tags.len() + n
            &&& on.registry.tags.take(w.registry.tags.len() as int) == w.registry.tags
            &&& forall|u: int|
                0 <= u < w.tables.len() && u != t ==> #[trigger] on.tables[u] == w.tables[u]
            &&& forall|p: Seq<char>|
                !is_among(list, base, 0, n, p) ==> #[trigger] stack_at(on.tables[t], p)
                    == stack_at(w.tables[t], p)
            &&& forall|j: int|
                0 <= j < n ==> is_put_on(
                    stack_at(w.tables[t], context::mirror_path(base, list[j].suffix)),
                    stack_at(on.tables[t], context::mirror_path(base, list[j].suffix)),
                    #[trigger] list[j],
                    target,
                    w.registry.tags,
                    on.registry.tags,
                )
        }),
    decreases n,
{
    let t = ctx.mounts as int;
    let tags = w.registry.tags;
    if n <= 0 {
        assert(tags.take(tags.len() as int) =~= tags);
    } else {
        lemma_put_on(fs, ctx, w, list, base, target, n - 1);
        let prev = mount::put_on(fs, ctx, w, list, base, target, n - 1);
        let on = mount::put_on(fs, ctx, w, list, base, target, n);
        let f = list[n - 1];
        let path = context::mirror_path(base, f.suffix);
        let inode = if f.suffix.len() == 0 {
            target
        } else {
            match resolve::resolved(fs, ctx.root, prev.tables[t], ctx.root, path, true) {
                Ok(r) => r.inode,
                Err(_) => f.entry.target_inode_id,
            }
        };
        let flags = prev.registry.tags[f.entry.in_use as int].flags;
        let what = mount::as_new_mount(f.entry, flags);
        assert(on == context::after_mount(prev, t, path, inode, what));
        lemma_stack_after_mount(prev, t, path, inode, what);
        assert(on.registry.tags.take(tags.len() as int) =~= prev.registry.tags.take(
            tags.len() as int,
        ));
        assert(prev.registry.tags[f.entry.in_use as int] == prev.registry.tags.take(
            tags.len() as int,
        )[f.entry.in_use as int]);
        assert forall|j: int| 0 <= j < n - 1 implies context::mirror_path(
            base,
            (#[trigger] list[j]).suffix,
        ) != path by {
            assert(list[j].suffix != list[n - 1].suffix);
            lemma_mirror_apart(base, list[j].suffix, f.suffix);
        }
        assert(!is_among(list, base, 0, n - 1, path));
        assert forall|p: Seq<char>| !is_among(list, base, 0, n, p) implies #[trigger] stack_at(
            on.tables[t],
            p,
        ) == stack_at(w.tables[t], p) by {
            assert(p != path) by {
                assert(context::mirror_path(base, list[n - 1].suffix) == path);
            }
            assert(!is_among(list, base, 0, n - 1, p)) by {
                if is_among(list, base, 0, n - 1, p) {
                    let j = choose|j: int|
                        0 <= j < n - 1 && context::mirror_path(base, (#[trigger] list[j]).suffix)
                            == p;
                    assert(is_among(list, base, 0, n, p));
                }
            }
            assert(stack_at(prev.tables[t], p) == stack_at(w.tables[t], p));
        }
        assert forall|j: int| 0 <= j < n implies is_put_on(
            stack_at(w.tables[t], context::mirror_path(base, list[j].suffix)),
            stack_at(on.tables[t], context::mirror_path(base, list[j].suffix)),
            #[trigger] list[j],
            target,
            tags,
            on.registry.tags,
        ) by {
            let p = context::mirror_path(base, list[j].suffix);
            let before = stack_at(w.tables[t], p);
            if j < n - 1 {
                assert(is_put_on(
                    before,
                    stack_at(prev.tables[t], p),
                    list[j],
                    target,
                    tags,
                    prev.registry.tags,
                ));
                assert(stack_at(on.tables[t], p) == stack_at(prev.tables[t], p));
            } else {
                assert(stack_at(prev.tables[t], p) == before);
                let top = new_entry(inode, what, prev.registry.tags.len());
                assert(stack_at(on.tables[t], p) == before.push(top));
                assert(before.push(top).drop_last() =~= before);
            }
        }
    }
}

/// Where a move from `source` to `target` carries what is mounted at a path.
pub open spec fn moved_to(path: Seq<char>, source: Seq<char>, target: Seq<char>) -> Seq<char> {
    context::mirror_path(target, rest_of(path, source))
}

/// A move from `source` to `target` carries some mount to this path.
pub open spec fn receives(
    nodes: Seq<forest::NodeView>,
    source: Seq<char>,
    target: Seq<char>,
    path: Seq<char>,
) -> bool {
    exists|q: Seq<char>| #[trigger]
        is_mount_within(nodes, source, q) && moved_to(q, source, target) == path
}

/// The mounts that a move from `source` leaves at a path: those that the moved one hid, and
/// outside of `source` all.
pub open spec fn left_behind(
    nodes: Seq<forest::NodeView>,
    source: Seq<char>,
    path: Seq<char>,
) -> Seq<forest::EntryView> {
    if is_within(path, source) {
        popped(stack_at(nodes, path))
    } else {
        stack_at(nodes, path)
    }
}

/// The tables are in order, the move is one from a mount point to a path that leads somewhere,
/// and the tags of all mounts can be numbered.
pub open spec fn can_move<F: Inode>(
    fs: &F,
    ctx: Context,
    w: context::WorldView,
    source: Seq<char>,
    target: Seq<char>,
) -> bool {
    let nodes = w.tables[ctx.mounts as int];
    &&& context::in_order(w)
    &&& ctx.mounts < w.tables.len() <= u64::MAX
    &&& forest::has_path(nodes, source)
    &&& forest::is_mount_path(target)
    &&& resolve::resolved(fs, ctx.root, nodes, ctx.root, target, true) is Ok
    &&& w.registry.tags.len() + mount_queries::subtree(nodes, source).len() <= usize::MAX
}

proof fn lemma_among(
    list: Seq<mount_queries::FoundView>,
    nodes: Seq<forest::NodeView>,
    source: Seq<char>,
    target: Seq<char>,
    path: Seq<char>,
)
    requires
        mount_table::well_formed(nodes),
        lists(list, nodes, source),
    ensures
        is_among(list, target, 0, list.len() as int, path) <==> receives(
            nodes,
            source,
            target,
            path,
        ),
        is_among(list, source, 0, list.len() as int, path) <==> is_mount_within(
            nodes,
            source,
            path,
        ),
{
    let n = list.len() as int;
    if is_among(list, target, 0, n, path) {
        let j = choose|j: int|
            0 <= j < n && context::mirror_path(target, (#[trigger] list[j]).suffix) == path;
        assert(is_listed(nodes, source, list[j]));
        let q = context::mirror_path(source, list[j].suffix);
        assert(is_mount_within(nodes, source, q) && moved_to(q, source, target) == path);
    }
    if receives(nodes, source, target, path) {
        let q = choose|q: Seq<char>| #[trigger]
            is_mount_within(nodes, source, q) && moved_to(q, source, target) == path;
        let i = choose|i: int|
            0 <= i < list.len() && (#[trigger] list[i]).suffix == rest_of(q, source);
        assert(context::mirror_path(target, list[i].suffix) == path);
    }
    if is_among(list, source, 0, n, path) {
        let j = choose|j: int|
            0 <= j < n && context::mirror_path(source, (#[trigger] list[j]).suffix) == path;
        assert(is_listed(nodes, source, list[j]));
    }
    if is_mount_within(nodes, source, path) {
        let i = choose|i: int|
            0 <= i < list.len() && (#[trigger] list[i]).suffix == rest_of(path, source);
        let k = forest::index_of(nodes, path);
        assert(forest::is_mount_path(nodes[k].path));
        lemma_rest(path, source);
        assert(context::mirror_path(source, list[i].suffix) == path);
    }
}

proof fn lemma_list_places(
    list: Seq<mount_queries::FoundView>,
    nodes: Seq<forest::NodeView>,
    source: Seq<char>,
    target: Seq<char>,
    tags: nat,
)
    requires
        mount_table::well_formed(nodes),
        mount_table::tags_below(nodes, tags),
        forest::has_path(nodes, source),
        lists(list, nodes, source),
        forest::is_mount_path(target),
    ensures
        proper_places(list),
        forall|i: int|
            0 <= i < list.len() ==> (#[trigger] list[i]).entry.in_use < tags
                && forest::is_mount_path(context::mirror_path(target, list[i].suffix)),
{
    let k = forest::index_of(nodes, source);
    assert(forest::is_mount_path(nodes[k].path));
    assert forall|i: int| 0 <= i < list.len() implies (#[trigger] list[i]).entry.in_use < tags
        && list[i].suffix.len() != 1 && forest::is_mount_path(
        context::mirror_path(target, list[i].suffix),
    ) by {
        assert(is_listed(nodes, source, list[i]));
        let path = context::mirror_path(source, list[i].suffix);
        assert(mount_table::node_tags_below(forest::node_at(nodes, path)->0, tags));
        lemma_rest(path, source);
        if path != source {
            context::lemma_mirror_path(target, path, source);
        }
    }
}

proof fn lemma_after_move<F: Inode>(
    fs: &F,
    ctx: Context,
    w: context::WorldView,
    source: Seq<char>,
    target: Seq<char>,
    p: Seq<char>,
    q: Seq<char>,
)
    requires
        can_move(fs, ctx, w, source, target),
    ensures
        ({
            let t = ctx.mounts as int;
            let nodes = w.tables[t];
            let (code, after) = mount::after_move(fs, ctx, w, source, target);
            let to = moved_to(q, source, target);
            let inode = resolve::resolved(fs, ctx.root, nodes, ctx.root, target, true)->Ok_0.inode;
            &&& code == 0
            &&& context::in_order(after)
            &&& after.owners == w.owners
            &&& after.tables.len() == w.tables.len()
            &&& forall|u: int|
                0 <= u < w.tables.len() && u != t ==> #[trigger] after.tables[u] == w.tables[u]
            &&& !receives(nodes, source, target, p) ==> stack_at(after.tables[t], p)
                == left_behind(nodes, source, p)
            &&& is_mount_within(nodes, source, q) ==> is_put_on(
                left_behind(nodes, source, to),
                stack_at(after.tables[t], to),
                mount_queries::FoundView {
                    suffix: rest_of(q, source),
                    entry: forest::node_at(nodes, q)->0.data,
                },
                inode,
                w.registry.tags,
                after.registry.tags,
            )
        }),
{
    let t = ctx.mounts as int;
    let nodes = w.tables[t];
    let sub = mount_queries::subtree(nodes, source);
    let list = mount::ordered(sub, false, sub.len() as int);
    let n = list.len() as int;
    let inode = resolve::resolved(fs, ctx.root, nodes, ctx.root, target, true)->Ok_0.inode;
    assert(mount_table::well_formed(nodes));
    lemma_list(nodes, source, false);
    lemma_list_places(list, nodes, source, target, w.registry.tags.len());
    let off = mount::taken_off(w, t, list, source, 0);
    lemma_taken_off(w, t, list, source, 0);
    lemma_put_on(fs, ctx, off, list, target, inode, n);
    let on = mount::put_on(fs, ctx, off, list, target, inode, n);
    assert(mount::after_move(fs, ctx, w, source, target) == (0i64, on));
    assert forall|x: Seq<char>| stack_at(off.tables[t], x) == left_behind(nodes, source, x) by {
        lemma_among(list, nodes, source, target, x);
    }
    lemma_among(list, nodes, source, target, p);
    assert(stack_at(off.tables[t], p) == left_behind(nodes, source, p));
    if is_mount_within(nodes, source, q) {
        let i = choose|i: int|
            0 <= i < list.len() && (#[trigger] list[i]).suffix == rest_of(q, source);
        assert(is_listed(nodes, source, list[i]));
        let k = forest::index_of(nodes, q);
        assert(forest::is_mount_path(nodes[k].path));
        lemma_rest(q, source);
        assert(list[i] == mount_queries::FoundView {
            suffix: rest_of(q, source),
            entry: forest::node_at(nodes, q)->0.data,
        });
        assert(stack_at(off.tables[t], moved_to(q, source, target)) == left_behind(
            nodes,
            source,
            moved_to(q, source, target),
        ));
    }
}

/// A move carries each mount at the source and below it over to the same place behind the
/// target: it has the same root, source, kind, flags and way to pass events on, lies on top of
/// what is there, and hides nothing else. The mount at the source comes to lie on the inode that
/// the target leads to.
pub proof fn law_move_carries_each_mount<F: Inode>(
    fs: &F,
    ctx: Context,
    w: context::WorldView,
    source: Seq<char>,
    target: Seq<char>,
    path: Seq<char>,
)
    requires
        can_move(fs, ctx, w, source, target),
        is_mount_within(w.tables[ctx.mounts as int], source, path),
    ensures
        ({
            let nodes = w.tables[ctx.mounts as int];
            let (code, after) = mount::after_move(fs, ctx, w, source, target);
            let stack = stack_at(after.tables[ctx.mounts as int], moved_to(path, source, target));
            &&& code == 0
            &&& stack.len() > 0
            &&& stack.drop_last() == left_behind(nodes, source, moved_to(path, source, target))
            &&& is_carried(
                forest::node_at(nodes, path)->0.data,
                w.registry.tags,
                stack.last(),
                after.registry.tags,
            )
            &&& path == source ==> stack.last().target_inode_id == resolve::resolved(
                fs,
                ctx.root,
                nodes,
                ctx.root,
                target,
                true,
            )->Ok_0.inode
        }),
{
    lemma_after_move(fs, ctx, w, source, target, path, path);
}

/// A move leaves nothing at the source and below it, but for what a moved mount hid and what the
/// move itself carries there.
pub proof fn law_move_leaves_nothing_behind<F: Inode>(
    fs: &F,
    ctx: Context,
    w: context::WorldView,
    source: Seq<char>,
    target: Seq<char>,
    path: Seq<char>,
)
    requires
        can_move(fs, ctx, w, source, target),
        is_within(path, source),
        stack_at(w.tables[ctx.mounts as int], path).len() <= 1,
        !receives(w.tables[ctx.mounts as int], source, target, path),
    ensures
        !forest::has_path(
            mount::after_move(fs, ctx, w, source, target).1.tables[ctx.mounts as int],
            path,
        ),
{
    lemma_after_move(fs, ctx, w, source, target, path, path);
    let after = mount::after_move(fs, ctx, w, source, target).1;
    assert(stack_at(after.tables[ctx.mounts as int], path).len() == 0);
}

/// A move succeeds if something is mounted at the source and the target leads somewhere; a bind,
/// if both paths lead somewhere and what the source lies in may be bound. Otherwise a negative
/// number says so, and nothing changes.
pub proof fn law_refusal_changes_nothing<F: Inode>(
    fs: &F,
    ctx: Context,
    root: u64,
    w: context::WorldView,
    source: Seq<char>,
    target: Seq<char>,
    flags: u64,
)
    ensures
        ({
            let nodes = w.tables[ctx.mounts as int];
            let found = resolve::resolved(fs, ctx.root, nodes, ctx.root, source, true);
            let on = resolve::resolved(fs, ctx.root, nodes, ctx.root, target, true);
            let (moved, after_move) = mount::after_move(fs, ctx, w, source, target);
            let (bound, after_bind) = mount::after_bind(fs, ctx, root, w, source, target, flags);
            &&& moved == 0 <==> forest::has_path(nodes, source) && on is Ok
            &&& moved != 0 ==> moved < 0 && after_move == w
            &&& bound == 0 <==> found is Ok && on is Ok && !(mount_queries::containing(
                nodes,
                source,
            ) matches Some(node) && node.data.propagation is Unbindable)
            &&& bound != 0 ==> bound < 0 && after_bind == w
        }),
{
    let nodes = w.tables[ctx.mounts as int];
    resolve::law_resolve_errors_are_negative(fs, ctx.root, nodes, ctx.root, source, true);
    resolve::law_resolve_errors_are_negative(fs, ctx.root, nodes, ctx.root, target, true);
}

/// Outside of the source, and where it carries nothing to, a move leaves the mounts as they
/// are; and so in all other tables.
pub proof fn law_move_leaves_others_alone<F: Inode>(
    fs: &F,
    ctx: Context,
    w: context::WorldView,
    source: Seq<char>,
    target: Seq<char>,
    path: Seq<char>,
    other: int,
)
    requires
        can_move(fs, ctx, w, source, target),
        !is_within(path, source),
        !receives(w.tables[ctx.mounts as int], source, target, path),
    ensures
        ({
            let after = mount::after_move(fs, ctx, w, source, target).1;
            &&& stack_at(after.tables[ctx.mounts as int], path) == stack_at(
                w.tables[ctx.mounts as int],
                path,
            )
            &&& after.tables.len() == w.tables.len()
            &&& 0 <= other < w.tables.len() && other != ctx.mounts ==> after.tables[other]
                == w.tables[other]
            &&& after.owners == w.owners
        }),
{
    lemma_after_move(fs, ctx, w, source, target, path, path);
}

/// A stack is the lower part of another: some mounts on top may be gone.
pub open spec fn is_lower_part(
    part: Seq<forest::EntryView>,
    stack: Seq<forest::EntryView>,
) -> bool {
    part.len() <= stack.len() && part == stack.take(part.len() as int)
}

pub(crate) proof fn lemma_lower_part(
    a: Seq<forest::EntryView>,
    b: Seq<forest::EntryView>,
    c: Seq<forest::EntryView>,
)
    requires
        is_lower_part(a, b),
        is_lower_part(b, c),
    ensures
        is_lower_part(a, c),
        is_lower_part(popped(b), popped(c)),
        is_lower_part(popped(b), c),
{
    assert(a =~= c.take(a.len() as int)) by {
        assert(b.take(a.len() as int) =~= c.take(a.len() as int));
    }
    assert(popped(b) =~= popped(c).take(popped(b).len() as int));
    assert(popped(b) =~= c.take(popped(b).len() as int));
}

/// Nothing is added anywhere: at each path of each table the mounts are the lower part of
/// those that were there.
pub open spec fn only_takes_away(w: context::WorldView, after: context::WorldView) -> bool {
    &&& after.tables.len() == w.tables.len()
    &&& after.owners == w.owners
    &&& after.registry.tags == w.registry.tags
    &&& forall|u: int, p: Seq<char>|
        0 <= u < w.tables.len() ==> is_lower_part(
            #[trigger] stack_at(after.tables[u], p),
            stack_at(w.tables[u], p),
        )
}

proof fn lemma_takes_nothing(w: context::WorldView)
    ensures
        only_takes_away(w, w),
{
    assert forall|u: int, p: Seq<char>| 0 <= u < w.tables.len() implies is_lower_part(
        #[trigger] stack_at(w.tables[u], p),
        stack_at(w.tables[u], p),
    ) by {
        let s = stack_at(w.tables[u], p);
        assert(s =~= s.take(s.len() as int));
    }
}

proof fn lemma_takes_on(a: context::WorldView, b: context::WorldView, c: context::WorldView)
    requires
        only_takes_away(a, b),
        only_takes_away(b, c),
    ensures
        only_takes_away(a, c),
{
    assert forall|u: int, p: Seq<char>| 0 <= u < a.tables.len() implies is_lower_part(
        #[trigger] stack_at(c.tables[u], p),
        stack_at(a.tables[u], p),
    ) by {
        assert(is_lower_part(stack_at(b.tables[u], p), stack_at(a.tables[u], p)));
        lemma_lower_part(
            stack_at(c.tables[u], p),
            stack_at(b.tables[u], p),
            stack_at(a.tables[u], p),
        );
    }
}

proof fn lemma_unmount_takes_away(w: context::WorldView, t: int, path: Seq<char>)
    requires
        context::in_order(w),
        0 <= t < w.tables.len() <= u64::MAX,
    ensures
        context::in_order(context::after_unmount(w, t, path)),
        only_takes_away(w, context::after_unmount(w, t, path)),
{
    lemma_stack_after_unmount(w, t, path);
    lemma_takes_nothing(w);
    let after = context::after_unmount(w, t, path);
    assert forall|u: int, p: Seq<char>| 0 <= u < w.tables.len() implies is_lower_part(
        #[trigger] stack_at(after.tables[u], p),
        stack_at(w.tables[u], p),
    ) by {
        assert(is_lower_part(stack_at(w.tables[u], p), stack_at(w.tables[u], p)));
        lemma_lower_part(
            stack_at(w.tables[u], p),
            stack_at(w.tables[u], p),
            stack_at(w.tables[u], p),
        );
        if u != t {
            assert(after.tables[u] == w.tables[u]);
        }
    }
}

proof fn lemma_unmirrored_takes_away(
    w: context::WorldView,
    places: Seq<(u64, Seq<char>)>,
    skip: Option<(u64, Seq<char>)>,
    suffix: Seq<char>,
    n: int,
)
    requires
        context::in_order(w),
        w.tables.len() <= u64::MAX,
        context::places_known(places, w.tables.len()),
        n <= places.len(),
    ensures
        context::in_order(context::unmirrored(w, places, skip, suffix, n)),
        only_takes_away(w, context::unmirrored(w, places, skip, suffix, n)),
    decreases n,
{
    if n <= 0 {
        lemma_takes_nothing(w);
    } else {
        lemma_unmirrored_takes_away(w, places, skip, suffix, n - 1);
        let prev = context::unmirrored(w, places, skip, suffix, n - 1);
        let (table, peer_path) = places[n - 1];
        if Some(places[n - 1]) != skip {
            let p = context::mirror_path(peer_path, suffix);
            lemma_unmount_takes_away(prev, table as int, p);
            lemma_takes_on(w, prev, context::after_unmount(prev, table as int, p));
        }
    }
}

proof fn lemma_passed_on_takes_away(w: context::WorldView, t: int, path: Seq<char>)
    requires
        context::in_order(w),
        0 <= t < w.tables.len() <= u64::MAX,
    ensures
        ({
            let after = context::after_unmount_propagating(w, t, path);
            &&& context::in_order(after)
            &&& only_takes_away(w, after)
            &&& is_lower_part(
                stack_at(after.tables[t], path),
                popped(stack_at(w.tables[t], path)),
            )
        }),
{
    let after = context::after_unmount_propagating(w, t, path);
    let unmounted = context::after_unmount(w, t, path);
    lemma_takes_nothing(w);
    lemma_takes_nothing(unmounted);
    if forest::has_path(w.tables[t], path) {
        lemma_unmount_takes_away(w, t, path);
        lemma_stack_after_unmount(w, t, path);
        match mount_queries::proper_containing(w.tables[t], path) {
            None => {},
            Some(containing) => match containing.data.propagation {
                MountPropagation::Shared(group) => {
                    let suffix = mount_queries::suffix_of(path, containing.path);
                    let skip = Some((t as u64, containing.path));
                    let peers = context::group_places(unmounted, group, false);
                    context::lemma_group_places(unmounted, group, false);
                    let n = peers.len() as int;
                    lemma_unmirrored_takes_away(unmounted, peers, skip, suffix, n);
                    let w1 = context::unmirrored(unmounted, peers, skip, suffix, n);
                    let slaves = context::group_places(w1, group, true);
                    context::lemma_group_places(w1, group, true);
                    let m = slaves.len() as int;
                    lemma_unmirrored_takes_away(w1, slaves, None, suffix, m);
                    lemma_takes_on(unmounted, w1, after);
                    lemma_takes_on(w, unmounted, after);
                },
                _ => {},
            },
        }
        assert(is_lower_part(stack_at(after.tables[t], path), stack_at(unmounted.tables[t], path)));
    } else {
        assert(stack_at(w.tables[t], path).len() == 0);
        assert(is_lower_part(stack_at(w.tables[t], path), stack_at(w.tables[t], path)));
    }
}

proof fn lemma_all_unmounted(
    w: context::WorldView,
    t: int,
    list: Seq<mount_queries::FoundView>,
    base: Seq<char>,
    n: int,
)
    requires
        context::in_order(w),
        0 <= t < w.tables.len() <= u64::MAX,
        0 <= n <= list.len(),
    ensures
        ({
            let after = mount::all_unmounted(w, t, list, base, n);
            &&& context::in_order(after)
            &&& only_takes_away(w, after)
            &&& forall|p: Seq<char>|
                is_among(list, base, 0, n, p) ==> is_lower_part(
                    #[trigger] stack_at(after.tables[t], p),
                    popped(stack_at(w.tables[t], p)),
                )
        }),
    decreases n,
{
    if n <= 0 {
        lemma_takes_nothing(w);
    } else {
        lemma_all_unmounted(w, t, list, base, n - 1);
        let prev = mount::all_unmounted(w, t, list, base, n - 1);
        let path = context::mirror_path(base, list[n - 1].suffix);
        let after = mount::all_unmounted(w, t, list, base, n);
        lemma_passed_on_takes_away(prev, t, path);
        lemma_takes_on(w, prev, after);
        assert forall|p: Seq<char>| is_among(list, base, 0, n, p) implies is_lower_part(
            #[trigger] stack_at(after.tables[t], p),
            popped(stack_at(w.tables[t], p)),
        ) by {
            let now = stack_at(after.tables[t], p);
            let then = stack_at(prev.tables[t], p);
            let first = stack_at(w.tables[t], p);
            assert(is_lower_part(then, first));
            assert(is_lower_part(now, then));
            if p == path {
                lemma_lower_part(now, then, first);
                lemma_lower_part(now, popped(then), popped(first));
            } else {
                let j = choose|j: int|
                    0 <= j < n && context::mirror_path(base, (#[trigger] list[j]).suffix) == p;
                assert(j < n - 1);
                assert(is_among(list, base, 0, n - 1, p));
                lemma_lower_part(now, then, popped(first));
            }
        }
    }
}

/// An unmount of `path` with these flags gets past its refusals: the path, where links are not
/// to be followed, leads somewhere; something is mounted there; and what is asked for is a
/// detach.
pub open spec fn is_detach<F: Inode>(
    fs: &F,
    ctx: Context,
    w: context::WorldView,
    path: Seq<char>,
    flags: u64,
) -> bool {
    let nodes = w.tables[ctx.mounts as int];
    &&& context::in_order(w)
    &&& ctx.mounts < w.tables.len() <= u64::MAX
    &&& forest::has_path(nodes, path)
    &&& flags & mount::MNT_DETACH != 0
    &&& flags & mount::UMOUNT_NOFOLLOW != 0 ==> resolve::resolved(
        fs,
        ctx.root,
        nodes,
        ctx.root,
        path,
        false,
    ) is Ok
}

proof fn lemma_detach<F: Inode>(
    fs: &F,
    ctx: Context,
    w: context::WorldView,
    path: Seq<char>,
    flags: u64,
)
    requires
        is_detach(fs, ctx, w, path, flags),
        stack_at(w.tables[ctx.mounts as int], path).len() == 1,
        !forest::is_root(path),
    ensures
        ({
            let nodes = w.tables[ctx.mounts as int];
            let sub = mount_queries::subtree(nodes, path);
            let list = mount::ordered(sub, true, sub.len() as int);
            mount::after_umount(fs, ctx, w, path, flags) == (
                0i64,
                mount::all_unmounted(w, ctx.mounts as int, list, path, list.len() as int),
                false,
            )
        }),
{
    assert(flags & mount::MNT_DETACH != 0 ==> flags & (mount::MNT_DETACH | mount::MNT_FORCE) != 0)
        by (bit_vector);
}

/// Detaching a mount that hides no other leaves nothing at its path and below it, but for what
/// a mount below it hid.
pub proof fn law_detach_leaves_nothing_below<F: Inode>(
    fs: &F,
    ctx: Context,
    w: context::WorldView,
    path: Seq<char>,
    flags: u64,
    any: Seq<char>,
)
    requires
        is_detach(fs, ctx, w, path, flags),
        stack_at(w.tables[ctx.mounts as int], path).len() == 1,
        !forest::is_root(path),
        is_within(any, path),
        stack_at(w.tables[ctx.mounts as int], any).len() <= 1,
    ensures
        ({
            let (code, after, _) = mount::after_umount(fs, ctx, w, path, flags);
            code == 0 && !forest::has_path(after.tables[ctx.mounts as int], any)
        }),
{
    let t = ctx.mounts as int;
    let nodes = w.tables[t];
    let sub = mount_queries::subtree(nodes, path);
    let list = mount::ordered(sub, true, sub.len() as int);
    let n = list.len() as int;
    lemma_detach(fs, ctx, w, path, flags);
    assert(mount_table::well_formed(nodes));
    lemma_list(nodes, path, true);
    lemma_all_unmounted(w, t, list, path, n);
    lemma_among(list, nodes, path, path, any);
    let after = mount::all_unmounted(w, t, list, path, n);
    if is_mount_within(nodes, path, any) {
        assert(is_lower_part(stack_at(after.tables[t], any), popped(stack_at(nodes, any))));
    } else {
        assert(is_lower_part(stack_at(after.tables[t], any), stack_at(nodes, any)));
    }
    assert(stack_at(after.tables[t], any).len() == 0);
}

/// No mount at a path, below it or above it is shared, not even a hidden one.
pub open spec fn none_shared(nodes: Seq<forest::NodeView>, path: Seq<char>) -> bool {
    forall|p: Seq<char>, i: int|
        (is_within(p, path) || forest::is_below(path, p)) && 0 <= i < stack_at(nodes, p).len()
            ==> !((#[trigger] stack_at(nodes, p)[i]).propagation is Shared)
}

proof fn lemma_not_passed_on(
    w: context::WorldView,
    prev: context::WorldView,
    t: int,
    base: Seq<char>,
    path: Seq<char>,
)
    requires
        context::in_order(w),
        context::in_order(prev),
        0 <= t < w.tables.len(),
        prev.tables.len() == w.tables.len(),
        none_shared(w.tables[t], base),
        forest::is_mount_path(base),
        forest::is_mount_path(path),
        is_within(path, base),
        forest::has_path(prev.tables[t], path),
        forall|p: Seq<char>|
            is_lower_part(#[trigger] stack_at(prev.tables[t], p), stack_at(w.tables[t], p)),
    ensures
        context::after_unmount_propagating(prev, t, path) == context::after_unmount(prev, t, path),
{
    let nodes = prev.tables[t];
    forest::lemma_deepest_above(nodes, path, nodes.len() as int);
    match forest::parent_of(nodes, path) {
        None => {},
        Some(i) => {
            let above = nodes[i].path;
            assert(mount_table::well_formed(nodes));
            assert(forest::is_mount_path(above));
            forest::lemma_index_of(nodes, i);
            let stack = stack_at(nodes, above);
            let before = stack_at(w.tables[t], above);
            assert(stack.last() == nodes[i].data);
            assert(is_lower_part(stack, before));
            let k = stack.len() - 1;
            assert(before.take(stack.len() as int)[k] == before[k]);
            assert(is_within(above, base) || forest::is_below(base, above)) by {
                if path != base && above != base {
                    forest_order::lemma_above_comparable(path, base, above);
                }
            }
            assert(!(stack_at(w.tables[t], above)[k].propagation is Shared));
        },
    }
}

proof fn lemma_all_unmounted_here(
    w: context::WorldView,
    t: int,
    list: Seq<mount_queries::FoundView>,
    base: Seq<char>,
    n: int,
)
    requires
        context::in_order(w),
        0 <= t < w.tables.len() <= u64::MAX,
        0 <= n <= list.len(),
        lists(list, w.tables[t], base),
        distinct(list),
        proper_places(list),
        forest::is_mount_path(base),
        none_shared(w.tables[t], base),
    ensures
        ({
            let after = mount::all_unmounted(w, t, list, base, n);
            &&& context::in_order(after)
            &&& after.tables.len() == w.tables.len()
            &&& forall|u: int|
                0 <= u < w.tables.len() && u != t ==> #[trigger] after.tables[u] == w.tables[u]
            &&& forall|p: Seq<char>| #[trigger]
                stack_at(after.tables[t], p) == (if is_among(list, base, 0, n, p) {
                    popped(stack_at(w.tables[t], p))
                } else {
                    stack_at(w.tables[t], p)
                })
        }),
    decreases n,
{
    if n > 0 {
        lemma_all_unmounted_here(w, t, list, base, n - 1);
        lemma_all_unmounted(w, t, list, base, n - 1);
        let prev = mount::all_unmounted(w, t, list, base, n - 1);
        let after = mount::all_unmounted(w, t, list, base, n);
        let path = context::mirror_path(base, list[n - 1].suffix);
        assert(is_listed(w.tables[t], base, list[n - 1]));
        assert(!is_among(list, base, 0, n - 1, path)) by {
            if is_among(list, base, 0, n - 1, path) {
                let j = choose|j: int|
                    0 <= j < n - 1 && context::mirror_path(base, (#[trigger] list[j]).suffix)
                        == path;
                assert(list[j].suffix != list[n - 1].suffix);
                lemma_mirror_apart(base, list[j].suffix, list[n - 1].suffix);
            }
        }
        assert(stack_at(prev.tables[t], path) == stack_at(w.tables[t], path));
        assert(forest::has_path(prev.tables[t], path));
        lemma_not_passed_on(w, prev, t, base, path);
        lemma_stack_after_unmount(prev, t, path);
        assert forall|p: Seq<char>| #[trigger]
            stack_at(after.tables[t], p) == (if is_among(list, base, 0, n, p) {
                popped(stack_at(w.tables[t], p))
            } else {
                stack_at(w.tables[t], p)
            }) by {
            assert(stack_at(prev.tables[t], p) == stack_at(prev.tables[t], p));
            if p == path {
                assert(context::mirror_path(base, list[n - 1].suffix) == p);
            } else if is_among(list, base, 0, n, p) {
                let j = choose|j: int|
                    0 <= j < n && context::mirror_path(base, (#[trigger] list[j]).suffix) == p;
                assert(j != n - 1);
                assert(is_among(list, base, 0, n - 1, p));
            } else if is_among(list, base, 0, n - 1, p) {
                let j = choose|j: int|
                    0 <= j < n - 1 && context::mirror_path(base, (#[trigger] list[j]).suffix)
                        == p;
                assert(is_among(list, base, 0, n, p));
            }
        }
    }
}

/// Where nothing around a mount is shared, detaching it takes one mount from each path at it and
/// below it, and leaves everything else as it is, in all tables.
pub proof fn law_detach_leaves_others_alone<F: Inode>(
    fs: &F,
    ctx: Context,
    w: context::WorldView,
    path: Seq<char>,
    flags: u64,
    any: Seq<char>,
    other: int,
)
    requires
        is_detach(fs, ctx, w, path, flags),
        stack_at(w.tables[ctx.mounts as int], path).len() == 1,
        !forest::is_root(path),
        none_shared(w.tables[ctx.mounts as int], path),
    ensures
        ({
            let t = ctx.mounts as int;
            let after = mount::after_umount(fs, ctx, w, path, flags).1;
            &&& stack_at(after.tables[t], any) == (if is_within(any, path) {
                popped(stack_at(w.tables[t], any))
            } else {
                stack_at(w.tables[t], any)
            })
            &&& 0 <= other < w.tables.len() && other != t ==> after.tables[other]
                == w.tables[other]
        }),
{
    let t = ctx.mounts as int;
    let nodes = w.tables[t];
    let sub = mount_queries::subtree(nodes, path);
    let list = mount::ordered(sub, true, sub.len() as int);
    let n = list.len() as int;
    lemma_detach(fs, ctx, w, path, flags);
    assert(mount_table::well_formed(nodes));
    let k = forest::index_of(nodes, path);
    assert(forest::is_mount_path(nodes[k].path));
    lemma_list(nodes, path, true);
    lemma_list_places(list, nodes, path, path, w.registry.tags.len());
    lemma_all_unmounted_here(w, t, list, path, n);
    lemma_among(list, nodes, path, path, any);
}

/// An unmount, of whatever kind, adds nothing anywhere; and where it succeeds, the mount that
/// was on top at the path is gone. Where it fails, nothing changes.
pub proof fn law_unmount_takes_away<F: Inode>(
    fs: &F,
    ctx: Context,
    w: context::WorldView,
    path: Seq<char>,
    flags: u64,
)
    requires
        context::in_order(w),
        ctx.mounts < w.tables.len() <= u64::MAX,
    ensures
        ({
            let t = ctx.mounts as int;
            let (code, after, _) = mount::after_umount(fs, ctx, w, path, flags);
            &&& only_takes_away(w, after)
            &&& code == 0 ==> forest::has_path(w.tables[t], path) && is_lower_part(
                stack_at(after.tables[t], path),
                popped(stack_at(w.tables[t], path)),
            )
            &&& code != 0 ==> code < 0 && after == w
        }),
{
    resolve::law_resolve_errors_are_negative(
        fs,
        ctx.root,
        w.tables[ctx.mounts as int],
        ctx.root,
        path,
        false,
    );
    let t = ctx.mounts as int;
    let nodes = w.tables[t];
    let sub = mount_queries::subtree(nodes, path);
    let list = mount::ordered(sub, true, sub.len() as int);
    let n = list.len() as int;
    lemma_takes_nothing(w);
    lemma_passed_on_takes_away(w, t, path);
    if forest::has_path(nodes, path) {
        assert(mount_table::well_formed(nodes));
        lemma_list(nodes, path, true);
        lemma_all_unmounted(w, t, list, path, n);
        lemma_among(list, nodes, path, path, path);
        let all = mount::all_unmounted(w, t, list, path, n);
        assert(is_lower_part(stack_at(all.tables[t], path), popped(stack_at(nodes, path))));
    }
}

/// What the flags of a change make of the way a mount passes events on. A mount that was not
/// shared and is to be gets a group with a number of at least `fresh`.
pub open spec fn is_changed(
    was: MountPropagation,
    now: MountPropagation,
    flags: u64,
    fresh: u64,
) -> bool {
    if flags & mount::MS_UNBINDABLE != 0 {
        now is Unbindable
    } else if flags & mount::MS_PRIVATE != 0 {
        now is Private
    } else if flags & mount::MS_SHARED != 0 {
        match was {
            MountPropagation::Shared(_) => now == was,
            _ => now matches MountPropagation::Shared(g) && fresh <= g.0,
        }
    } else if flags & mount::MS_SLAVE != 0 {
        match was {
            MountPropagation::Shared(g) => now == MountPropagation::Slave(g),
            _ => now == was,
        }
    } else {
        now == was
    }
}

/// The mount point is the same but for the way the mount on top passes events on.
pub open spec fn same_but_propagation(was: forest::NodeView, now: forest::NodeView) -> bool {
    now == (forest::NodeView {
        data: forest::EntryView { propagation: now.data.propagation, ..was.data },
        ..was
    })
}

/// At this path a mount that was not shared is shared now.
pub open spec fn is_newly_shared(
    nodes: Seq<forest::NodeView>,
    after: Seq<forest::NodeView>,
    path: Seq<char>,
) -> bool {
    &&& forest::node_at(nodes, path) matches Some(was) && !(was.data.propagation is Shared)
    &&& forest::node_at(after, path) matches Some(now) && now.data.propagation is Shared
}

/// The group of the shared mount at a path.
pub open spec fn group_at(nodes: Seq<forest::NodeView>, path: Seq<char>) -> u64 {
    forest::node_at(nodes, path)->0.data.propagation->Shared_0.0
}

/// What a change of the mounts at the first `n` paths does to the one at `p`.
spec fn is_changed_at(
    w: context::WorldView,
    after: context::WorldView,
    t: int,
    paths: Seq<Seq<char>>,
    flags: u64,
    n: int,
    p: Seq<char>,
) -> bool {
    match (forest::node_at(w.tables[t], p), forest::node_at(after.tables[t], p)) {
        (None, None) => true,
        (Some(was), Some(now)) => {
            &&& same_but_propagation(was, now)
            &&& if paths.take(n).contains(p) {
                is_changed(
                    was.data.propagation,
                    now.data.propagation,
                    flags,
                    w.registry.next_group,
                )
            } else {
                now == was
            }
        },
        _ => false,
    }
}

proof fn lemma_one_changed(w: context::WorldView, t: int, path: Seq<char>, flags: u64)
    requires
        context::in_order(w),
        0 <= t < w.tables.len() <= u64::MAX,
        w.registry.next_group < u64::MAX,
    ensures
        ({
            let after = mount::with_changed(w, t, path, flags);
            &&& context::in_order(after)
            &&& after.tables.len() == w.tables.len()
            &&& after.owners == w.owners
            &&& after.registry.tags == w.registry.tags
            &&& w.registry.next_group <= after.registry.next_group <= w.registry.next_group + 1
            &&& forall|u: int|
                0 <= u < w.tables.len() && u != t ==> #[trigger] after.tables[u] == w.tables[u]
            &&& forall|p: Seq<char>|
                p != path ==> #[trigger] forest::node_at(after.tables[t], p) == forest::node_at(
                    w.tables[t],
                    p,
                )
            &&& match forest::node_at(w.tables[t], path) {
                None => forest::node_at(after.tables[t], path) is None,
                Some(was) => {
                    &&& forest::node_at(after.tables[t], path) is Some
                    &&& same_but_propagation(was, forest::node_at(after.tables[t], path)->0)
                    &&& is_changed(
                        was.data.propagation,
                        forest::node_at(after.tables[t], path)->0.data.propagation,
                        flags,
                        w.registry.next_group,
                    )
                },
            }
            &&& is_newly_shared(w.tables[t], after.tables[t], path) ==> group_at(
                after.tables[t],
                path,
            ) == w.registry.next_group && after.registry.next_group == w.registry.next_group + 1
        }),
{
    mount::lemma_with_changed(w, t, path, flags);
    match forest::node_at(w.tables[t], path) {
        None => {},
        Some(node) => {
            let prop = mount::changed(w.registry, node.data.propagation, flags).0;
            mount_table::lemma_update_node(
                w.tables[t],
                forest::index_of(w.tables[t], path),
                forest::EntryView { propagation: prop, ..node.data },
                node.shadowed,
            );
        },
    }
}

proof fn lemma_all_changed(
    w: context::WorldView,
    t: int,
    paths: Seq<Seq<char>>,
    flags: u64,
    n: int,
)
    requires
        context::in_order(w),
        0 <= t < w.tables.len() <= u64::MAX,
        0 <= n <= paths.len(),
        w.registry.next_group + n < u64::MAX,
    ensures
        ({
            let after = mount::with_all_changed(w, t, paths, flags, n);
            &&& context::in_order(after)
            &&& after.tables.len() == w.tables.len()
            &&& after.owners == w.owners
            &&& after.registry.tags == w.registry.tags
            &&& w.registry.next_group <= after.registry.next_group <= w.registry.next_group + n
            &&& forall|u: int|
                0 <= u < w.tables.len() && u != t ==> #[trigger] after.tables[u] == w.tables[u]
            &&& forall|p: Seq<char>| #[trigger] is_changed_at(w, after, t, paths, flags, n, p)
            &&& forall|p: Seq<char>| #[trigger]
                is_newly_shared(w.tables[t], after.tables[t], p) ==> group_at(after.tables[t], p)
                    < after.registry.next_group
            &&& forall|p: Seq<char>, q: Seq<char>|
                p != q && #[trigger] is_newly_shared(w.tables[t], after.tables[t], p)
                    && #[trigger] is_newly_shared(w.tables[t], after.tables[t], q) ==> group_at(
                    after.tables[t],
                    p,
                ) != group_at(after.tables[t], q)
        }),
    decreases n,
{
    let after = mount::with_all_changed(w, t, paths, flags, n);
    if n <= 0 {
        assert forall|p: Seq<char>| #[trigger] is_changed_at(w, after, t, paths, flags, n, p) by {
            assert(paths.take(n) =~= Seq::empty());
        }
    } else {
        lemma_all_changed(w, t, paths, flags, n - 1);
        let prev = mount::with_all_changed(w, t, paths, flags, n - 1);
        let path = paths[n - 1];
        lemma_one_changed(prev, t, path, flags);
        assert(after == mount::with_changed(prev, t, path, flags));
        assert forall|p: Seq<char>| #[trigger] is_changed_at(w, after, t, paths, flags, n, p) by {
            assert(is_changed_at(w, prev, t, paths, flags, n - 1, p));
            let front = paths.take(n - 1);
            let all = paths.take(n);
            assert(all =~= front.push(path));
            if p == path {
                assert(all[n - 1] == p);
            } else if all.contains(p) {
                let j = choose|j: int| 0 <= j < n && all[j] == p;
                assert(front[j] == p);
            } else if front.contains(p) {
                let j = choose|j: int| 0 <= j < n - 1 && front[j] == p;
                assert(all[j] == p);
            }
        }
        assert forall|p: Seq<char>| #[trigger]
            is_newly_shared(w.tables[t], after.tables[t], p) implies group_at(after.tables[t], p)
            < after.registry.next_group && (p != path ==> is_newly_shared(
            w.tables[t],
            prev.tables[t],
            p,
        ) && group_at(after.tables[t], p) < prev.registry.next_group) by {
            assert(is_changed_at(w, prev, t, paths, flags, n - 1, p));
            if p == path {
                if !is_newly_shared(prev.tables[t], after.tables[t], p) {
                    assert(is_newly_shared(w.tables[t], prev.tables[t], p));
                }
            } else {
                assert(is_newly_shared(w.tables[t], prev.tables[t], p));
            }
        }
        assert forall|p: Seq<char>, q: Seq<char>|
            p != q && #[trigger] is_newly_shared(w.tables[t], after.tables[t], p)
                && #[trigger] is_newly_shared(w.tables[t], after.tables[t], q) implies group_at(
            after.tables[t],
            p,
        ) != group_at(after.tables[t], q) by {
            assert(is_changed_at(w, prev, t, paths, flags, n - 1, p));
            assert(is_changed_at(w, prev, t, paths, flags, n - 1, q));
            if !is_newly_shared(prev.tables[t], after.tables[t], path) {
                assert(is_newly_shared(w.tables[t], prev.tables[t], p));
                assert(is_newly_shared(w.tables[t], prev.tables[t], q));
            } else if p != path && q != path {
                assert(is_newly_shared(w.tables[t], prev.tables[t], p));
                assert(is_newly_shared(w.tables[t], prev.tables[t], q));
            }
        }
    }
}

/// A change of propagation at `base` is meant for the mount at this path: the one at `base`, or
/// with `MS_REC` also each one below it.
pub open spec fn is_meant(
    nodes: Seq<forest::NodeView>,
    base: Seq<char>,
    flags: u64,
    path: Seq<char>,
) -> bool {
    &&& forest::has_path(nodes, path)
    &&& path == base || (flags & mount::MS_REC != 0 && forest::is_below(path, base))
}

pub(crate) proof fn lemma_meant(nodes: Seq<forest::NodeView>, base: Seq<char>, flags: u64, path: Seq<char>)
    requires
        mount_table::well_formed(nodes),
        forest::has_path(nodes, path),
    ensures
        mount::change_targets(nodes, base, flags).contains(path) <==> is_meant(
            nodes,
            base,
            flags,
            path,
        ),
{
    let targets = mount::change_targets(nodes, base, flags);
    let sub = mount_queries::subtree(nodes, base);
    let paths = mount::subtree_paths(nodes, base);
    lemma_subtree_lists(nodes, base);
    lemma_among(sub, nodes, base, base, path);
    assert(paths.contains(path) <==> is_mount_within(nodes, base, path)) by {
        if paths.contains(path) {
            let i = choose|i: int| 0 <= i < paths.len() && paths[i] == path;
            assert(context::mirror_path(base, sub[i].suffix) == path);
        }
        if is_among(sub, base, 0, sub.len() as int, path) {
            let i = choose|i: int|
                0 <= i < sub.len() && context::mirror_path(base, (#[trigger] sub[i]).suffix)
                    == path;
            assert(paths[i] == path);
        }
    }
    if targets != paths {
        assert(targets == seq![base]);
        assert(targets[0] == base);
        if flags & mount::MS_REC != 0 && is_mount_within(nodes, base, path) {
            assert(paths.contains(path));
        }
    }
}

/// A change of propagation changes nothing but the way events are passed on, and that only of
/// the mounts it is meant for: there to what the flags say. All other mounts, those that are
/// hidden and all other tables stay as they are.
pub proof fn law_propagation_change_leaves_others_alone(
    w: context::WorldView,
    t: int,
    base: Seq<char>,
    flags: u64,
    path: Seq<char>,
    other: int,
)
    requires
        context::in_order(w),
        0 <= t < w.tables.len() <= u64::MAX,
        w.registry.next_group + mount::change_targets(w.tables[t], base, flags).len() < u64::MAX,
    ensures
        ({
            let targets = mount::change_targets(w.tables[t], base, flags);
            let after = mount::with_all_changed(w, t, targets, flags, targets.len() as int);
            let was = forest::node_at(w.tables[t], path);
            let now = forest::node_at(after.tables[t], path);
            &&& now is Some <==> was is Some
            &&& !is_meant(w.tables[t], base, flags, path) ==> now == was
            &&& is_meant(w.tables[t], base, flags, path) ==> same_but_propagation(was->0, now->0)
                && is_changed(
                was->0.data.propagation,
                now->0.data.propagation,
                flags,
                w.registry.next_group,
            )
            &&& after.tables.len() == w.tables.len()
            &&& 0 <= other < w.tables.len() && other != t ==> after.tables[other]
                == w.tables[other]
            &&& after.owners == w.owners
            &&& after.registry.tags == w.registry.tags
        }),
{
    let targets = mount::change_targets(w.tables[t], base, flags);
    let n = targets.len() as int;
    let after = mount::with_all_changed(w, t, targets, flags, n);
    lemma_all_changed(w, t, targets, flags, n);
    assert(is_changed_at(w, after, t, targets, flags, n, path));
    assert(targets.take(n) =~= targets);
    if forest::has_path(w.tables[t], path) {
        assert(mount_table::well_formed(w.tables[t]));
        lemma_meant(w.tables[t], base, flags, path);
    }
}

/// Mounts that a change makes shared are each in a group of their own.
pub proof fn law_newly_shared_mounts_are_alone(
    w: context::WorldView,
    t: int,
    base: Seq<char>,
    flags: u64,
    path: Seq<char>,
    other: Seq<char>,
)
    requires
        context::in_order(w),
        0 <= t < w.tables.len() <= u64::MAX,
        w.registry.next_group + mount::change_targets(w.tables[t], base, flags).len() < u64::MAX,
        path != other,
    ensures
        ({
            let targets = mount::change_targets(w.tables[t], base, flags);
            let after = mount::with_all_changed(w, t, targets, flags, targets.len() as int);
            is_newly_shared(w.tables[t], after.tables[t], path) && is_newly_shared(
                w.tables[t],
                after.tables[t],
                other,
            ) ==> group_at(after.tables[t], path) != group_at(after.tables[t], other)
        }),
{
    let targets = mount::change_targets(w.tables[t], base, flags);
    lemma_all_changed(w, t, targets, flags, targets.len() as int);
}

} // verus!
