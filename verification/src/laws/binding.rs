//! What binding a part of the file tree to a second place comes to, path by path.

use vstd::prelude::*;

use super::bits;
use crate::vfs::context;
use crate::vfs::context::Context;
use crate::vfs::forest;
use crate::vfs::mount;
use crate::vfs::mount_laws;
use crate::vfs::mount_laws::{
    is_carried, is_listed, is_lower_part, is_mount_within, is_within, lists, moved_to, rest_of,
    stack_at,
};
use crate::vfs::mount_queries;
use crate::vfs::mount_table;
use crate::vfs::registry::MountPropagation;
use crate::vfs::resolve;
use crate::vfs::resolve::Inode;
use crate::vfs::MountInUseTag;

verus! {

/// No mount that can be seen passes on what is mounted below it.
pub open spec fn shares_nothing(nodes: Seq<forest::NodeView>) -> bool {
    forall|p: Seq<char>|
        (#[trigger] forest::node_at(nodes, p)) matches Some(node) ==> !(
        node.data.propagation is Shared)
}

/// The tables are in order, both paths lead somewhere, what is bound may be bound, and the tags of
/// all mounts can be numbered.
pub open spec fn can_bind<F: Inode>(
    fs: &F,
    ctx: Context,
    w: context::WorldView,
    source: Seq<char>,
    target: Seq<char>,
) -> bool {
    let nodes = w.tables[ctx.mounts as int];
    &&& context::in_order(w)
    &&& ctx.mounts < w.tables.len() <= u64::MAX
    &&& forest::is_mount_path(source)
    &&& forest::is_mount_path(target)
    &&& shares_nothing(nodes)
    &&& resolve::resolved(fs, ctx.root, nodes, ctx.root, source, true) is Ok
    &&& resolve::resolved(fs, ctx.root, nodes, ctx.root, target, true) is Ok
    &&& mount_queries::containing(nodes, source) matches Some(node) ==> !(
    node.data.propagation is Unbindable)
    &&& w.registry.tags.len() < usize::MAX
}

pub(crate) proof fn lemma_mounted_here<F: Inode>(
    fs: &F,
    root: u64,
    w: context::WorldView,
    t: int,
    path: Seq<char>,
    target: u64,
    what: context::NewMountView,
)
    requires
        context::in_order(w),
        0 <= t < w.tables.len(),
        shares_nothing(w.tables[t]),
    ensures
        context::after_mount_propagating(fs, root, w, t, path, target, what).0
            == context::after_mount(w, t, path, target, what),
{
    let nodes = w.tables[t];
    assert(mount_table::well_formed(nodes));
    forest::lemma_deepest_above(nodes, path, nodes.len() as int);
    match forest::parent_of(nodes, path) {
        None => {},
        Some(i) => {
            forest::lemma_index_of(nodes, i);
            assert(forest::node_at(nodes, nodes[i].path) == Some(nodes[i]));
        },
    }
}

proof fn lemma_shares_nothing(
    before: Seq<forest::NodeView>,
    after: Seq<forest::NodeView>,
    path: Seq<char>,
    top: forest::EntryView,
)
    requires
        shares_nothing(before),
        !(top.propagation is Shared),
        forall|p: Seq<char>| #[trigger]
            stack_at(after, p) == (if p == path {
                stack_at(before, p).push(top)
            } else {
                stack_at(before, p)
            }),
    ensures
        shares_nothing(after),
{
    assert forall|p: Seq<char>|
        (#[trigger] forest::node_at(after, p)) matches Some(node) implies !(
    forest::node_at(after, p)->0.data.propagation is Shared) by {
        let node = forest::node_at(after, p)->0;
        let stack = stack_at(after, p);
        assert(stack.last() == node.data);
        if p != path {
            assert(stack == stack_at(before, p));
            assert(forest::node_at(before, p) is Some);
            assert(stack_at(before, p).last() == forest::node_at(before, p)->0.data);
        }
    }
}

/// How a bound mount passes events on: as asked where that is asked, and otherwise as the mount
/// that the source lies in does, which here is not shared.
pub open spec fn is_way_asked(way: MountPropagation, flags: u64) -> bool {
    if (flags / 0x0002_0000) % 2 == 1 {
        way is Unbindable
    } else if (flags / 0x0010_0000) % 2 == 1 {
        way is Shared
    } else if (flags / 0x0002_0000) % 16 != 0 {
        way is Private
    } else {
        way is Private || way is Slave
    }
}

proof fn lemma_bound<F: Inode>(
    fs: &F,
    ctx: Context,
    root: u64,
    w: context::WorldView,
    source: Seq<char>,
    target: Seq<char>,
    flags: u64,
)
    requires
        can_bind(fs, ctx, w, source, target),
        (flags / 0x4000) % 2 == 0,
    ensures
        ({
            let t = ctx.mounts as int;
            let nodes = w.tables[t];
            let (code, after) = mount::after_bind(fs, ctx, root, w, source, target, flags);
            let was = stack_at(nodes, target);
            let now = stack_at(after.tables[t], target);
            &&& code == 0
            &&& context::in_order(after)
            &&& after.tables.len() == w.tables.len()
            &&& after.registry.tags == w.registry.tags.push(
                MountInUseTag { refs: 0, flags: flags % 16 },
            )
            &&& forall|u: int|
                0 <= u < w.tables.len() && u != t ==> #[trigger] after.tables[u] == w.tables[u]
            &&& forall|p: Seq<char>|
                p != target ==> #[trigger] stack_at(after.tables[t], p) == stack_at(nodes, p)
            &&& now.len() == was.len() + 1
            &&& now.drop_last() == was
            &&& Ok::<u64, i64>(now.last().root) == resolve::inode_of(
                resolve::resolved(fs, ctx.root, nodes, ctx.root, source, true),
            )
            &&& Ok::<u64, i64>(now.last().target_inode_id) == resolve::inode_of(
                resolve::resolved(fs, ctx.root, nodes, ctx.root, target, true),
            )
            &&& now.last().source == source
            &&& now.last().in_use == w.registry.tags.len()
            &&& is_way_asked(now.last().propagation, flags)
            &&& (!(now.last().propagation is Shared) ==> shares_nothing(after.tables[t]))
        }),
{
    let t = ctx.mounts as int;
    let nodes = w.tables[t];
    bits::lemma_mount_bits(flags);
    let inside = mount_queries::containing(nodes, source);
    let (way, r) = mount::bind_propagation(w.registry, inside, flags);
    let w1 = context::WorldView { registry: r, ..w };
    assert(r.tags == w.registry.tags && r.peers == w.registry.peers);
    assert(context::in_order(w1)) by {
        assert forall|u: int| 0 <= u < w1.tables.len() implies mount_table::well_formed(
            #[trigger] w1.tables[u],
        ) && mount_table::tags_below(w1.tables[u], w1.registry.tags.len()) by {
            assert(w1.tables[u] == w.tables[u]);
        }
    }
    let src = resolve::resolved(fs, ctx.root, nodes, ctx.root, source, true)->Ok_0.inode;
    let tgt = resolve::resolved(fs, ctx.root, nodes, ctx.root, target, true)->Ok_0.inode;
    let what = context::NewMountView {
        root: src,
        propagation: way,
        source,
        fstype: mount::bind_fstype(inside),
        flags: flags & mount::MOUNT_FLAG_MASK,
    };
    lemma_mounted_here(fs, root, w1, t, target, tgt, what);
    mount_laws::lemma_stack_after_mount(w1, t, target, tgt, what);
    let after = context::after_mount(w1, t, target, tgt, what);
    assert(mount::after_bind(fs, ctx, root, w, source, target, flags) == (0i64, after));
    let top = mount_laws::new_entry(tgt, what, w.registry.tags.len());
    let was = stack_at(nodes, target);
    assert(stack_at(after.tables[t], target) == was.push(top));
    assert(was.push(top).drop_last() =~= was);
    if inside is Some {
        assert(!(inside->0.data.propagation is Shared)) by {
            if forest::node_at(nodes, source) is None {
                assert(mount_table::well_formed(nodes));
                forest::lemma_deepest_above(nodes, source, nodes.len() as int);
                let i = forest::parent_of(nodes, source)->0;
                forest::lemma_index_of(nodes, i);
                assert(forest::node_at(nodes, nodes[i].path) == Some(nodes[i]));
            }
        }
    }
    if !(way is Shared) {
        lemma_shares_nothing(nodes, after.tables[t], target, top);
    }
}

/// Where nothing is shared, a bind mounts at the target what the source leads to, on top of what
/// is there. All other paths, and all other tables, are as they were: what is mounted below the
/// source is not carried along.
pub proof fn law_bind_mounts_at_the_target_alone<F: Inode>(
    fs: &F,
    ctx: Context,
    root: u64,
    w: context::WorldView,
    source: Seq<char>,
    target: Seq<char>,
    flags: u64,
)
    requires
        can_bind(fs, ctx, w, source, target),
        (flags / 0x4000) % 2 == 0,
    ensures
        ({
            let t = ctx.mounts as int;
            let nodes = w.tables[t];
            let (code, after) = mount::after_bind(fs, ctx, root, w, source, target, flags);
            let was = stack_at(nodes, target);
            let now = stack_at(after.tables[t], target);
            &&& code == 0
            &&& forall|u: int|
                0 <= u < w.tables.len() && u != t ==> #[trigger] after.tables[u] == w.tables[u]
            &&& forall|p: Seq<char>|
                p != target ==> #[trigger] stack_at(after.tables[t], p) == stack_at(nodes, p)
            &&& now.len() == was.len() + 1
            &&& now.drop_last() == was
            &&& Ok::<u64, i64>(now.last().root) == resolve::inode_of(
                resolve::resolved(fs, ctx.root, nodes, ctx.root, source, true),
            )
            &&& Ok::<u64, i64>(now.last().target_inode_id) == resolve::inode_of(
                resolve::resolved(fs, ctx.root, nodes, ctx.root, target, true),
            )
            &&& now.last().source == source
            &&& is_way_asked(now.last().propagation, flags)
            &&& after.registry.tags[now.last().in_use as int] == (MountInUseTag {
                refs: 0,
                flags: flags % 16,
            })
        }),
{
    lemma_bound(fs, ctx, root, w, source, target, flags);
}

/// At each path, `low` has the lower part of what `middle` has, and `middle` of what `high` has.
pub open spec fn lies_between(
    low: Seq<forest::NodeView>,
    middle: Seq<forest::NodeView>,
    high: Seq<forest::NodeView>,
) -> bool {
    forall|p: Seq<char>|
        is_lower_part(stack_at(low, p), #[trigger] stack_at(middle, p)) && is_lower_part(
            stack_at(middle, p),
            stack_at(high, p),
        )
}

/// The path leads nowhere at some time between two.
pub open spec fn leads_nowhere_between<F: Inode>(
    fs: &F,
    ctx: Context,
    low: Seq<forest::NodeView>,
    high: Seq<forest::NodeView>,
    path: Seq<char>,
) -> bool {
    exists|middle: Seq<forest::NodeView>| #[trigger]
        lies_between(low, middle, high) && resolve::resolved(
            fs,
            ctx.root,
            middle,
            ctx.root,
            path,
            true,
        ) is Err
}

/// On top of what was at a path stands one mount more, which is what another one is.
pub open spec fn is_added(
    before: Seq<forest::EntryView>,
    after: Seq<forest::EntryView>,
    what: forest::EntryView,
    tags_before: Seq<MountInUseTag>,
    tags_after: Seq<MountInUseTag>,
) -> bool {
    &&& after.len() == before.len() + 1
    &&& after.drop_last() == before
    &&& is_carried(what, tags_before, after.last(), tags_after)
}

/// The place of a mount of a list behind `target`.
spec fn place(list: Seq<mount_queries::FoundView>, target: Seq<char>, j: int) -> Seq<char> {
    context::mirror_path(target, list[j].suffix)
}

spec fn is_one_of(
    list: Seq<mount_queries::FoundView>,
    target: Seq<char>,
    n: int,
    path: Seq<char>,
) -> bool {
    exists|j: int| 0 <= j < n && list[j].suffix.len() > 0 && #[trigger] place(list, target, j) == path
}

spec fn can_follow(
    w: context::WorldView,
    t: int,
    list: Seq<mount_queries::FoundView>,
    target: Seq<char>,
) -> bool {
    &&& context::in_order(w)
    &&& 0 <= t < w.tables.len() <= u64::MAX
    &&& shares_nothing(w.tables[t])
    &&& mount_laws::distinct(list)
    &&& w.registry.tags.len() + list.len() <= usize::MAX
    &&& forall|i: int|
        0 <= i < list.len() ==> {
            &&& (#[trigger] list[i]).entry.in_use < w.registry.tags.len()
            &&& !(list[i].entry.propagation is Shared)
            &&& list[i].suffix.len() != 1
            &&& forest::is_mount_path(context::mirror_path(target, list[i].suffix))
        }
}

proof fn lemma_with_bound<F: Inode>(
    fs: &F,
    ctx: Context,
    root: u64,
    w: context::WorldView,
    list: Seq<mount_queries::FoundView>,
    target: Seq<char>,
    n: int,
)
    requires
        can_follow(w, ctx.mounts as int, list, target),
        0 <= n <= list.len(),
    ensures
        ({
            let t = ctx.mounts as int;
            let on = mount::with_bound(fs, ctx, root, w, list, target, n);
            &&& context::in_order(on)
            &&& on.tables.len() == w.tables.len()
            &&& shares_nothing(on.tables[t])
            &&& w.registry.tags.len() <= on.registry.tags.len() <= w.registry.tags.len() + n
            &&& on.registry.tags.take(w.registry.tags.len() as int) == w.registry.tags
            &&& forall|u: int|
                0 <= u < w.tables.len() && u != t ==> #[trigger] on.tables[u] == w.tables[u]
            &&& forall|p: Seq<char>|
                is_lower_part(stack_at(w.tables[t], p), #[trigger] stack_at(on.tables[t], p))
            &&& forall|p: Seq<char>|
                !is_one_of(list, target, n, p) ==> #[trigger] stack_at(on.tables[t], p)
                    == stack_at(w.tables[t], p)
            &&& forall|j: int|
                0 <= j < n && list[j].suffix.len() > 0 ==> is_added(
                    stack_at(w.tables[t], place(list, target, j)),
                    stack_at(on.tables[t], place(list, target, j)),
                    list[j].entry,
                    w.registry.tags,
                    on.registry.tags,
                ) || (stack_at(on.tables[t], #[trigger] place(list, target, j)) == stack_at(
                    w.tables[t],
                    place(list, target, j),
                ) && leads_nowhere_between(
                    fs,
                    ctx,
                    w.tables[t],
                    on.tables[t],
                    place(list, target, j),
                ))
        }),
    decreases n,
{
    let t = ctx.mounts as int;
    let tags = w.registry.tags;
    if n <= 0 {
        assert(tags.take(tags.len() as int) =~= tags);
        assert forall|p: Seq<char>| is_lower_part(
            stack_at(w.tables[t], p),
            #[trigger] stack_at(w.tables[t], p),
        ) by {
            let s = stack_at(w.tables[t], p);
            assert(s.take(s.len() as int) =~= s);
        }
    } else {
        lemma_with_bound(fs, ctx, root, w, list, target, n - 1);
        let prev = mount::with_bound(fs, ctx, root, w, list, target, n - 1);
        let on = mount::with_bound(fs, ctx, root, w, list, target, n);
        let f = list[n - 1];
        let path = context::mirror_path(target, f.suffix);
        let found = resolve::resolved(fs, ctx.root, prev.tables[t], ctx.root, path, true);
        let mounts = f.suffix.len() > 0 && found is Ok;
        assert forall|p: Seq<char>| !is_one_of(list, target, n, p) implies !is_one_of(
            list,
            target,
            n - 1,
            p,
        ) by {
            if is_one_of(list, target, n - 1, p) {
                let j = choose|j: int|
                    0 <= j < n - 1 && list[j].suffix.len() > 0 && #[trigger] place(list, target, j)
                        == p;
                assert(place(list, target, j) == p);
            }
        }
        if f.suffix.len() > 0 {
            assert(place(list, target, n - 1) == path);
            assert forall|j: int| 0 <= j < n - 1 implies #[trigger] place(list, target, j)
                != path by {
                assert(list[j].suffix != list[n - 1].suffix);
                mount_laws::lemma_mirror_apart(target, list[j].suffix, f.suffix);
            }
            assert(!is_one_of(list, target, n - 1, path));
            assert(stack_at(prev.tables[t], path) == stack_at(w.tables[t], path));
        }
        if mounts {
            let inode = found->Ok_0.inode;
            let what = mount::as_new_mount(f.entry, prev.registry.tags[f.entry.in_use as int].flags);
            lemma_mounted_here(fs, root, prev, t, path, inode, what);
            mount_laws::lemma_stack_after_mount(prev, t, path, inode, what);
            assert(on == context::after_mount(prev, t, path, inode, what));
            let top = mount_laws::new_entry(inode, what, prev.registry.tags.len());
            lemma_shares_nothing(prev.tables[t], on.tables[t], path, top);
            assert(on.registry.tags.take(tags.len() as int) =~= prev.registry.tags.take(
                tags.len() as int,
            ));
            assert(prev.registry.tags[f.entry.in_use as int] == prev.registry.tags.take(
                tags.len() as int,
            )[f.entry.in_use as int]);
            let before = stack_at(w.tables[t], path);
            assert(stack_at(on.tables[t], path) == before.push(top));
            assert(before.push(top).drop_last() =~= before);
            assert(is_added(
                before,
                stack_at(on.tables[t], path),
                f.entry,
                tags,
                on.registry.tags,
            ));
        } else {
            assert(on == prev);
        }
        assert forall|p: Seq<char>| is_lower_part(
            stack_at(prev.tables[t], p),
            #[trigger] stack_at(on.tables[t], p),
        ) by {
            let s = stack_at(prev.tables[t], p);
            if mounts && p == path {
                assert(s =~= stack_at(on.tables[t], p).take(s.len() as int));
            } else {
                assert(stack_at(on.tables[t], p) == s);
                assert(s.take(s.len() as int) =~= s);
            }
        }
        assert forall|p: Seq<char>| is_lower_part(
            stack_at(w.tables[t], p),
            #[trigger] stack_at(on.tables[t], p),
        ) by {
            assert(is_lower_part(stack_at(w.tables[t], p), stack_at(prev.tables[t], p)));
            assert(is_lower_part(stack_at(prev.tables[t], p), stack_at(on.tables[t], p)));
            mount_laws::lemma_lower_part(
                stack_at(w.tables[t], p),
                stack_at(prev.tables[t], p),
                stack_at(on.tables[t], p),
            );
        }
        assert forall|p: Seq<char>| !is_one_of(list, target, n, p) implies #[trigger] stack_at(
            on.tables[t],
            p,
        ) == stack_at(w.tables[t], p) by {
            assert(!is_one_of(list, target, n - 1, p));
            assert(stack_at(prev.tables[t], p) == stack_at(w.tables[t], p));
            if mounts {
                assert(place(list, target, n - 1) == path);
                assert(p != path);
            }
        }
        assert forall|j: int| 0 <= j < n && list[j].suffix.len() > 0 implies is_added(
            stack_at(w.tables[t], place(list, target, j)),
            stack_at(on.tables[t], place(list, target, j)),
            list[j].entry,
            tags,
            on.registry.tags,
        ) || (stack_at(on.tables[t], #[trigger] place(list, target, j)) == stack_at(
            w.tables[t],
            place(list, target, j),
        ) && leads_nowhere_between(
            fs,
            ctx,
            w.tables[t],
            on.tables[t],
            place(list, target, j),
        )) by {
            let p = place(list, target, j);
            if j < n - 1 {
                if mounts {
                    assert(p != path);
                }
                assert(stack_at(on.tables[t], p) == stack_at(prev.tables[t], p));
                let now = stack_at(on.tables[t], p);
                if is_added(
                    stack_at(w.tables[t], p),
                    stack_at(prev.tables[t], p),
                    list[j].entry,
                    tags,
                    prev.registry.tags,
                ) {
                    assert(on.registry.tags[now.last().in_use as int]
                        == prev.registry.tags[now.last().in_use as int]);
                } else {
                    let middle = choose|middle: Seq<forest::NodeView>| #[trigger]
                        lies_between(w.tables[t], middle, prev.tables[t]) && resolve::resolved(
                            fs,
                            ctx.root,
                            middle,
                            ctx.root,
                            p,
                            true,
                        ) is Err;
                    assert(lies_between(w.tables[t], middle, on.tables[t])) by {
                        assert forall|q: Seq<char>|
                            is_lower_part(
                                stack_at(w.tables[t], q),
                                #[trigger] stack_at(middle, q),
                            ) && is_lower_part(
                                stack_at(middle, q),
                                stack_at(on.tables[t], q),
                            ) by {
                            assert(is_lower_part(
                                stack_at(prev.tables[t], q),
                                stack_at(on.tables[t], q),
                            ));
                            mount_laws::lemma_lower_part(
                                stack_at(middle, q),
                                stack_at(prev.tables[t], q),
                                stack_at(on.tables[t], q),
                            );
                        }
                    }
                }
            } else if !mounts {
                assert(lies_between(w.tables[t], prev.tables[t], on.tables[t])) by {
                    assert forall|q: Seq<char>|
                        is_lower_part(
                            stack_at(w.tables[t], q),
                            #[trigger] stack_at(prev.tables[t], q),
                        ) && is_lower_part(
                            stack_at(prev.tables[t], q),
                            stack_at(on.tables[t], q),
                        ) by {
                        assert(is_lower_part(
                            stack_at(prev.tables[t], q),
                            stack_at(on.tables[t], q),
                        ));
                    }
                }
                assert(stack_at(on.tables[t], p) == stack_at(w.tables[t], p));
            }
        }
    }
}

proof fn lemma_places_differ(nodes: Seq<forest::NodeView>, base: Seq<char>, n: int)
    requires
        0 <= n <= nodes.len(),
    ensures
        ({
            let places = mount_queries::sorted_below(nodes, base, n);
            forall|i: int, j: int|
                0 <= i < j < places.len() ==> #[trigger] places[i] != #[trigger] places[j]
        }),
    decreases n,
{
    if n > 0 {
        lemma_places_differ(nodes, base, n - 1);
        mount_queries::lemma_sorted_below(nodes, base, n - 1);
        let before = mount_queries::sorted_below(nodes, base, n - 1);
        let path = nodes[n - 1].path;
        if forest::is_below(path, base) {
            let r = mount_queries::rank(nodes, before, path, before.len() as int);
            mount_queries::lemma_rank(nodes, before, path, before.len() as int);
            let places = before.insert(r, n - 1);
            assert forall|i: int, j: int| 0 <= i < j < places.len() implies #[trigger] places[i]
                != #[trigger] places[j] by {
                let a = if i < r {
                    i
                } else {
                    i - 1
                };
                let b = if j < r {
                    j
                } else {
                    j - 1
                };
                if i == r {
                    assert(places[j] == before[b]);
                } else if j == r {
                    assert(places[i] == before[a]);
                } else {
                    assert(places[i] == before[a]);
                    assert(places[j] == before[b]);
                }
            }
        }
    }
}

proof fn lemma_subtree(
    w: context::WorldView,
    t: int,
    source: Seq<char>,
    target: Seq<char>,
)
    requires
        context::in_order(w),
        0 <= t < w.tables.len() <= u64::MAX,
        shares_nothing(w.tables[t]),
        forest::is_mount_path(source),
        forest::is_mount_path(target),
        w.registry.tags.len() + mount_queries::subtree(w.tables[t], source).len() <= usize::MAX,
    ensures
        lists(mount_queries::subtree(w.tables[t], source), w.tables[t], source),
        can_follow(w, t, mount_queries::subtree(w.tables[t], source), target),
{
    let nodes = w.tables[t];
    let list = mount_queries::subtree(nodes, source);
    assert(mount_table::well_formed(nodes));
    mount_laws::lemma_subtree_lists(nodes, source);
    if forest::has_path(nodes, source) {
        mount_laws::lemma_subtree_distinct(nodes, source);
    } else {
        let places = mount_queries::sorted_below(nodes, source, nodes.len() as int);
        mount_queries::lemma_sorted_below(nodes, source, nodes.len() as int);
        lemma_places_differ(nodes, source, nodes.len() as int);
        assert forall|i: int, j: int| 0 <= i < j < list.len() implies (#[trigger] list[i]).suffix
            != (#[trigger] list[j]).suffix by {
            assert(list[i] == mount_queries::found_at(nodes[places[i]], source));
            assert(list[j] == mount_queries::found_at(nodes[places[j]], source));
            assert(is_within(nodes[places[i]].path, source));
            assert(is_within(nodes[places[j]].path, source));
            assert(forest::is_mount_path(nodes[places[i]].path));
            assert(forest::is_mount_path(nodes[places[j]].path));
            mount_laws::lemma_rest(nodes[places[i]].path, source);
            mount_laws::lemma_rest(nodes[places[j]].path, source);
            assert(nodes[places[i]].path != source) by {
                forest::lemma_index_of(nodes, places[i]);
            }
            assert(nodes[places[j]].path != source) by {
                forest::lemma_index_of(nodes, places[j]);
            }
            assert(places[i] != places[j]);
        }
    }
    assert forall|i: int| 0 <= i < list.len() implies {
        &&& (#[trigger] list[i]).entry.in_use < w.registry.tags.len()
        &&& !(list[i].entry.propagation is Shared)
        &&& list[i].suffix.len() != 1
        &&& forest::is_mount_path(context::mirror_path(target, list[i].suffix))
    } by {
        assert(is_listed(nodes, source, list[i]));
        let path = context::mirror_path(source, list[i].suffix);
        assert(mount_table::node_tags_below(
            forest::node_at(nodes, path)->0,
            w.registry.tags.len(),
        ));
        mount_laws::lemma_rest(path, source);
        if path != source {
            context::lemma_mirror_path(target, path, source);
        }
    }
}

/// A bind with all that is mounted below carries each mount below the source to the same place
/// below the target, on top of what is there, unless that place leads nowhere when its turn
/// comes. Nothing else is changed that the bind alone would not change.
pub proof fn law_recursive_bind_carries_each_mount<F: Inode>(
    fs: &F,
    ctx: Context,
    root: u64,
    w: context::WorldView,
    source: Seq<char>,
    target: Seq<char>,
    plain: u64,
    full: u64,
    path: Seq<char>,
)
    requires
        can_bind(fs, ctx, w, source, target),
        full == plain + 0x4000,
        (plain / 0x4000) % 2 == 0,
        (plain / 0x0010_0000) % 2 == 0 || (plain / 0x0002_0000) % 2 == 1,
        w.registry.tags.len() + 1 + mount_queries::subtree(
            mount::after_bind(fs, ctx, root, w, source, target, plain).1.tables[ctx.mounts as int],
            source,
        ).len() <= usize::MAX,
    ensures
        ({
            let t = ctx.mounts as int;
            let alone = mount::after_bind(fs, ctx, root, w, source, target, plain).1;
            let (code, all) = mount::after_bind(fs, ctx, root, w, source, target, full);
            let place = moved_to(path, source, target);
            let before = stack_at(alone.tables[t], place);
            let after = stack_at(all.tables[t], place);
            &&& code == 0
            &&& forall|u: int|
                0 <= u < w.tables.len() && u != t ==> #[trigger] all.tables[u] == w.tables[u]
            &&& is_mount_within(alone.tables[t], source, path) && path != source
                && !leads_nowhere_between(fs, ctx, alone.tables[t], all.tables[t], place)
                ==> is_added(
                before,
                after,
                stack_at(alone.tables[t], path).last(),
                alone.registry.tags,
                all.registry.tags,
            )
            &&& (forall|q: Seq<char>|
                #![trigger moved_to(q, source, target)]
                is_mount_within(alone.tables[t], source, q) && q != source ==> moved_to(
                    q,
                    source,
                    target,
                ) != path) ==> stack_at(all.tables[t], path) == stack_at(alone.tables[t], path)
        }),
{
    let t = ctx.mounts as int;
    bits::lemma_binding_bits(plain, full);
    bits::lemma_mount_bits(plain);
    lemma_bound(fs, ctx, root, w, source, target, plain);
    let alone = mount::after_bind(fs, ctx, root, w, source, target, plain).1;
    let all = mount::after_bind(fs, ctx, root, w, source, target, full).1;
    let nodes = alone.tables[t];
    let list = mount_queries::subtree(nodes, source);
    lemma_subtree(alone, t, source, target);
    lemma_with_bound(fs, ctx, root, alone, list, target, list.len() as int);
    assert(all == mount::with_bound(fs, ctx, root, alone, list, target, list.len() as int));
    if is_mount_within(nodes, source, path) && path != source {
        let j = choose|j: int|
            0 <= j < list.len() && (#[trigger] list[j]).suffix == rest_of(path, source);
        assert(is_listed(nodes, source, list[j]));
        let k = forest::index_of(nodes, path);
        assert(mount_table::well_formed(nodes));
        assert(forest::is_mount_path(nodes[k].path));
        mount_laws::lemma_rest(path, source);
        assert(list[j].suffix.len() > 0) by {
            if list[j].suffix.len() == 0 {
                assert(context::mirror_path(source, list[j].suffix) == source);
            }
        }
        assert(place(list, target, j) == moved_to(path, source, target));
        assert(stack_at(nodes, path).last() == list[j].entry);
    }
    if forall|q: Seq<char>|
        #![trigger moved_to(q, source, target)]
        is_mount_within(nodes, source, q) && q != source ==> moved_to(q, source, target) != path {
        assert(!is_one_of(list, target, list.len() as int, path)) by {
            if is_one_of(list, target, list.len() as int, path) {
                let j = choose|j: int|
                    0 <= j < list.len() && list[j].suffix.len() > 0 && #[trigger] place(
                        list,
                        target,
                        j,
                    ) == path;
                assert(is_listed(nodes, source, list[j]));
                let q = context::mirror_path(source, list[j].suffix);
                assert(moved_to(q, source, target) == path);
                assert(is_mount_within(nodes, source, q));
                if q == source {
                    assert(rest_of(q, source).len() == 0);
                }
            }
        }
    }
}

} // verus!
