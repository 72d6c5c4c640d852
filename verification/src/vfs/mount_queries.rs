//! Questions about a mount table.

use vstd::prelude::*;
use vstd::string::*;
use vstd::utf8::*;

use crate::text;
use crate::vfs::forest;
use crate::vfs::forest::{find_path, is_descendant_path, MountEntry};
use crate::vfs::mount_table;
use crate::vfs::mount_table::MountTable;
use crate::vfs::registry;
use crate::vfs::registry::{MountPropagation, MountRegistry};

verus! {

/// How many bytes a path takes.
pub open spec fn byte_len(path: Seq<char>) -> usize {
    encode_utf8(path).len() as usize
}

/// How many bytes a path takes.
pub fn path_len(path: &str) -> (n: usize)
    ensures
        n == byte_len(path@),
{
    path.len()
}

/// What is left of a path below `base`: the part behind it; below the root all of it.
pub open spec fn suffix_of(path: Seq<char>, base: Seq<char>) -> Seq<char> {
    if forest::is_root(base) {
        path
    } else {
        path.skip(base.len() as int)
    }
}

/// A mount found below a path, by what is left of its own path.
pub struct Found {
    pub suffix: String,
    pub entry: MountEntry,
}

/// A mount found below a path.
#[verifier::ext_equal]
pub struct FoundView {
    pub suffix: Seq<char>,
    pub entry: forest::EntryView,
}

impl View for Found {
    type V = FoundView;

    open spec fn view(&self) -> FoundView {
        FoundView { suffix: self.suffix@, entry: self.entry@ }
    }
}

/// Several mounts, seen from outside.
pub open spec fn found_view(found: Seq<Found>) -> Seq<FoundView> {
    found.map_values(|f: Found| f@)
}

/// A mount as it is found below `base`.
pub open spec fn found_at(node: forest::NodeView, base: Seq<char>) -> FoundView {
    FoundView { suffix: suffix_of(node.path, base), entry: node.data }
}

/// How many of the first `n` of several mount points, by their places, have a path
/// before `path`.
pub open spec fn rank(
    nodes: Seq<forest::NodeView>,
    places: Seq<int>,
    path: Seq<char>,
    n: int,
) -> int
    decreases n,
{
    if n <= 0 {
        0
    } else if text::before(nodes[places[n - 1]].path, path) {
        n
    } else {
        rank(nodes, places, path, n - 1)
    }
}

/// The places of those of the first `n` mount points that lie below `base`, in the
/// order of their paths.
pub open spec fn sorted_below(nodes: Seq<forest::NodeView>, base: Seq<char>, n: int) -> Seq<int>
    decreases n,
{
    if n <= 0 {
        Seq::empty()
    } else {
        let places = sorted_below(nodes, base, n - 1);
        let path = nodes[n - 1].path;
        if forest::is_below(path, base) {
            places.insert(rank(nodes, places, path, places.len() as int), n - 1)
        } else {
            places
        }
    }
}

/// The mounts at and below a path. Where the path is a mount point they come in the
/// order of the forest, the mount point itself first; where it is not, in the order of
/// their paths.
pub open spec fn subtree(nodes: Seq<forest::NodeView>, base: Seq<char>) -> Seq<FoundView> {
    if forest::has_path(nodes, base) {
        let i = forest::index_of(nodes, base);
        let run = nodes.subrange(i + 1, forest::run_end(nodes, base, i + 1));
        seq![FoundView { suffix: Seq::empty(), entry: nodes[i].data }] + run.map_values(
            |n: forest::NodeView| found_at(n, base),
        )
    } else {
        sorted_below(nodes, base, nodes.len() as int).map_values(
            |k: int| found_at(nodes[k], base),
        )
    }
}

pub(crate) proof fn lemma_rank(nodes: Seq<forest::NodeView>, places: Seq<int>, path: Seq<char>, n: int)
    requires
        0 <= n <= places.len(),
    ensures
        0 <= rank(nodes, places, path, n) <= n,
        rank(nodes, places, path, n) > 0 ==> text::before(
            nodes[places[rank(nodes, places, path, n) - 1]].path,
            path,
        ),
        forall|j: int|
            rank(nodes, places, path, n) <= j < n ==> !text::before(
                nodes[#[trigger] places[j]].path,
                path,
            ),
    decreases n,
{
    if n > 0 && !text::before(nodes[places[n - 1]].path, path) {
        lemma_rank(nodes, places, path, n - 1);
    }
}

/// The sorted places are those of the mount points below the path.
pub proof fn lemma_sorted_below(nodes: Seq<forest::NodeView>, base: Seq<char>, n: int)
    requires
        0 <= n <= nodes.len(),
    ensures
        sorted_below(nodes, base, n).len() <= n,
        forall|j: int|
            0 <= j < sorted_below(nodes, base, n).len() ==> 0 <= #[trigger] sorted_below(
                nodes,
                base,
                n,
            )[j] < n && forest::is_below(nodes[sorted_below(nodes, base, n)[j]].path, base),
        forall|k: int|
            0 <= k < n && forest::is_below((#[trigger] nodes[k]).path, base) ==> sorted_below(
                nodes,
                base,
                n,
            ).contains(k),
    decreases n,
{
    if n > 0 {
        lemma_sorted_below(nodes, base, n - 1);
        let places = sorted_below(nodes, base, n - 1);
        let all = sorted_below(nodes, base, n);
        let path = nodes[n - 1].path;
        if forest::is_below(path, base) {
            let r = rank(nodes, places, path, places.len() as int);
            lemma_rank(nodes, places, path, places.len() as int);
            assert forall|j: int| 0 <= j < all.len() implies 0 <= #[trigger] all[j] < n
                && forest::is_below(nodes[all[j]].path, base) by {
                if j < r {
                    assert(all[j] == places[j]);
                } else if j > r {
                    assert(all[j] == places[j - 1]);
                }
            }
            assert forall|k: int|
                0 <= k < n && forest::is_below(
                    (#[trigger] nodes[k]).path,
                    base,
                ) implies all.contains(k) by {
                if k == n - 1 {
                    assert(all[r] == k);
                } else {
                    let w = choose|w: int| 0 <= w < places.len() && places[w] == k;
                    if w < r {
                        assert(all[w] == k);
                    } else {
                        assert(all[w + 1] == k);
                    }
                }
            }
        } else {
            assert forall|k: int|
                0 <= k < n && forest::is_below(
                    (#[trigger] nodes[k]).path,
                    base,
                ) implies all.contains(k) by {
                assert(k < n - 1);
            }
        }
    }
}

fn suffix(path: &str, base: &str) -> (rest: String)
    requires
        forest::is_below(path@, base@),
    ensures
        rest@ == suffix_of(path@, base@),
{
    let b = text::to_chars(base);
    if forest::root_chars(&b) {
        path.to_owned()
    } else {
        let n: usize = path.unicode_len();
        let rest = text::slice(path, b.len(), n);
        assert(path@.subrange(b@.len() as int, n as int) =~= path@.skip(b@.len() as int));
        rest
    }
}

/// The deepest mount point above a path, with its path.
pub open spec fn proper_containing(nodes: Seq<forest::NodeView>, path: Seq<char>) -> Option<
    forest::NodeView,
> {
    match forest::parent_of(nodes, path) {
        Some(p) => Some(nodes[p]),
        None => None,
    }
}

/// The mount point at a path, or else the deepest one above it.
pub open spec fn containing(nodes: Seq<forest::NodeView>, path: Seq<char>) -> Option<
    forest::NodeView,
> {
    match forest::node_at(nodes, path) {
        Some(node) => Some(node),
        None => proper_containing(nodes, path),
    }
}

/// `best` is one of the mount points whose root is the given inode; none of them has a
/// longer path, and among those with a path as long none comes before it.
pub open spec fn is_longest_path(
    nodes: Seq<forest::NodeView>,
    inode_id: u64,
    n: int,
    best: Seq<char>,
) -> bool {
    &&& exists|i: int|
        0 <= i < n && (#[trigger] nodes[i]).data.root == inode_id && nodes[i].path == best
    &&& forall|i: int|
        0 <= i < n && (#[trigger] nodes[i]).data.root == inode_id ==> byte_len(nodes[i].path)
            < byte_len(best) || (byte_len(nodes[i].path) == byte_len(best) && !text::before(
            nodes[i].path,
            best,
        ))
}

impl MountTable {
    /// Sets the flags of the one mount whose root is the given inode. Says whether there
    /// is exactly one.
    pub fn set_flags_by_inode(
        &self,
        registry: &mut MountRegistry,
        inode_id: u64,
        mount_flags: u64,
    ) -> (found: bool)
        requires
            self.wf(),
            self.tags_exist(old(registry)),
        ensures
            found <==> exists|i: int| #[trigger] is_only_root(self@, inode_id, i),
            found ==> exists|i: int| #[trigger]
                is_only_root(self@, inode_id, i) && final(registry)@ == mount_table::flags_set(
                    old(registry)@,
                    self@[i].data.in_use,
                    mount_flags,
                ),
            !found ==> *final(registry) == *old(registry),
    {
        let mut hit: Option<usize> = None;
        let mut i: usize = 0;
        while i < self.nodes.len()
            invariant
                i <= self.nodes@.len(),
                *registry == *old(registry),
                match hit {
                    Some(h) => h < i && self@[h as int].data.root == inode_id && forall|j: int|
                        0 <= j < i && (#[trigger] self@[j]).data.root == inode_id ==> j == h,
                    None => forall|j: int|
                        0 <= j < i ==> (#[trigger] self@[j]).data.root != inode_id,
                },
            decreases self.nodes.len() - i,
        {
            assert(self@[i as int].data.root == self.nodes@[i as int].data.root);
            if self.nodes[i].data.root == inode_id {
                if hit.is_some() {
                    assert(!exists|k: int| #[trigger] is_only_root(self@, inode_id, k)) by {
                        if exists|k: int| #[trigger] is_only_root(self@, inode_id, k) {
                            let k = choose|k: int| #[trigger] is_only_root(self@, inode_id, k);
                            assert(self@[hit->0 as int].data.root == inode_id);
                            assert(self@[i as int].data.root == inode_id);
                        }
                    }
                    return false;
                }
                hit = Some(i);
            }
            i += 1;
        }
        match hit {
            Some(h) => {
                assert(is_only_root(self@, inode_id, h as int));
                proof {
                    forest::lemma_index_of(self@, h as int);
                    assert(mount_table::node_tags_below(
                        forest::node_at(self@, self@[h as int].path)->0,
                        registry@.tags.len(),
                    ));
                }
                let tag: usize = self.nodes[h].data.in_use;
                mount_table::set_tag_flags(registry, tag, mount_flags);
                true
            },
            None => false,
        }
    }

    /// Whether something is mounted on the given inode.
    pub fn is_mountpoint_inode(&self, inode_id: u64) -> (r: bool)
        ensures
            r <==> exists|i: int|
                0 <= i < self@.len() && (#[trigger] self@[i]).data.target_inode_id == inode_id,
    {
        let mut i: usize = 0;
        while i < self.nodes.len()
            invariant
                i <= self.nodes@.len(),
                forall|j: int|
                    0 <= j < i ==> (#[trigger] self@[j]).data.target_inode_id != inode_id,
            decreases self.nodes.len() - i,
        {
            assert(self@[i as int].data.target_inode_id
                == self.nodes@[i as int].data.target_inode_id);
            if self.nodes[i].data.target_inode_id == inode_id {
                return true;
            }
            i += 1;
        }
        false
    }

    /// The mount that a path lies in.
    pub fn containing_mount(&self, path: &str) -> (entry: Option<MountEntry>)
        requires
            self.wf(),
        ensures
            match entry {
                Some(e) => containing(self@, path@) is Some && e@ == containing(
                    self@,
                    path@,
                )->0.data,
                None => containing(self@, path@) is None,
            },
    {
        match self.containing_mount_with_path(path) {
            Some((_, entry)) => Some(entry),
            None => None,
        }
    }

    /// The mount that a path lies in, and where it is mounted.
    pub fn containing_mount_with_path(&self, path: &str) -> (found: Option<(String, MountEntry)>)
        requires
            self.wf(),
        ensures
            match found {
                Some((at, e)) => containing(self@, path@) is Some && at@ == containing(
                    self@,
                    path@,
                )->0.path && e@ == containing(self@, path@)->0.data,
                None => containing(self@, path@) is None,
            },
    {
        match find_path(&self.nodes, path) {
            Some(i) => {
                proof {
                    forest::lemma_index_of(self@, i as int);
                }
                Some((path.to_owned(), self.nodes[i].data.clone()))
            },
            None => self.proper_containing_mount_with_path(path),
        }
    }

    /// The mount that the mount point at a path lies in, and where it is mounted.
    pub fn proper_containing_mount_with_path(&self, path: &str) -> (found: Option<
        (String, MountEntry),
    >)
        ensures
            match found {
                Some((at, e)) => proper_containing(self@, path@) is Some && at@
                    == proper_containing(self@, path@)->0.path && e@ == proper_containing(
                    self@,
                    path@,
                )->0.data,
                None => proper_containing(self@, path@) is None,
            },
    {
        match forest::deepest_existing_ancestor(&self.nodes, path) {
            Some(p) => Some((self.nodes[p].mountpoint.clone(), self.nodes[p].data.clone())),
            None => None,
        }
    }

    /// Whether something is mounted below a path.
    pub fn has_child_mount(&self, path: &str) -> (r: bool)
        ensures
            r <==> exists|k: int|
                0 <= k < self@.len() && forest::is_below((#[trigger] self@[k]).path, path@),
    {
        let mut i: usize = 0;
        while i < self.nodes.len()
            invariant
                i <= self.nodes@.len(),
                forall|j: int|
                    0 <= j < i ==> !forest::is_below((#[trigger] self@[j]).path, path@),
            decreases self.nodes.len() - i,
        {
            assert(self@[i as int].path == self.nodes@[i as int].mountpoint@);
            if is_descendant_path(self.nodes[i].mountpoint.as_str(), path) {
                return true;
            }
            i += 1;
        }
        false
    }

    fn found(&self, k: usize, base: &str) -> (f: Found)
        requires
            k < self.nodes@.len(),
            forest::is_below(self@[k as int].path, base@),
        ensures
            f@ == found_at(self@[k as int], base@),
    {
        Found {
            suffix: suffix(self.nodes[k].mountpoint.as_str(), base),
            entry: self.nodes[k].data.clone(),
        }
    }

    /// The places of the mount points below a path, in the order of their paths.
    fn places_below(&self, base: &str) -> (places: Vec<usize>)
        ensures
            places@.map_values(|k: usize| k as int) == sorted_below(
                self@,
                base@,
                self@.len() as int,
            ),
            forall|j: int| 0 <= j < places@.len() ==> #[trigger] places@[j] < self.nodes@.len(),
    {
        let ghost nodes = self@;
        let mut places: Vec<usize> = Vec::new();
        let mut i: usize = 0;
        assert(places@.map_values(|k: usize| k as int) =~= sorted_below(nodes, base@, 0));
        while i < self.nodes.len()
            invariant
                i <= self.nodes@.len(),
                nodes == self@,
                places@.map_values(|k: usize| k as int) == sorted_below(nodes, base@, i as int),
                places@.len() <= i,
                forall|j: int| 0 <= j < places@.len() ==> #[trigger] places@[j] < i,
            decreases self.nodes.len() - i,
        {
            let path = self.nodes[i].mountpoint.as_str();
            assert(nodes[i as int].path == path@);
            let ghost before = places@.map_values(|k: usize| k as int);
            if is_descendant_path(path, base) {
                let chars = text::to_chars(path);
                let mut r: usize = places.len();
                while r > 0 && !text::is_before(
                    &text::to_chars(self.nodes[places[r - 1]].mountpoint.as_str()),
                    &chars,
                )
                    invariant
                        r <= places@.len() <= i < self.nodes@.len(),
                        nodes == self@,
                        chars@ == path@,
                        before == places@.map_values(|k: usize| k as int),
                        forall|j: int| 0 <= j < places@.len() ==> #[trigger] places@[j] < i,
                        rank(nodes, before, path@, places@.len() as int) == rank(
                            nodes,
                            before,
                            path@,
                            r as int,
                        ),
                    decreases r,
                {
                    assert(before[r - 1] == places@[r - 1]);
                    assert(nodes[before[r - 1]].path == self.nodes@[places@[r
                        - 1] as int].mountpoint@);
                    r -= 1;
                }
                proof {
                    if r > 0 {
                        assert(before[r - 1] == places@[r - 1]);
                        assert(nodes[before[r - 1]].path == self.nodes@[places@[r
                            - 1] as int].mountpoint@);
                    }
                }
                let ghost prev = places@;
                places.insert(r, i);
                proof {
                    assert(places@.map_values(|k: usize| k as int) =~= before.insert(
                        r as int,
                        i as int,
                    ));
                    assert forall|j: int| 0 <= j < places@.len() implies #[trigger] places@[j]
                        < i + 1 by {
                        if j < r {
                            assert(places@[j] == prev[j]);
                        } else if j > r {
                            assert(places@[j] == prev[j - 1]);
                        }
                    }
                }
            }
            i += 1;
        }
        places
    }

    /// The mounts at and below a path.
    pub fn collect_subtree(&self, path: &str) -> (mounts: Vec<Found>)
        requires
            self.wf(),
        ensures
            found_view(mounts@) == subtree(self@, path@),
    {
        let ghost nodes = self@;
        let mut mounts: Vec<Found> = Vec::new();
        match find_path(&self.nodes, path) {
            Some(at) => {
                proof {
                    forest::lemma_index_of(nodes, at as int);
                }
                let ghost head = FoundView { suffix: Seq::empty(), entry: nodes[at as int].data };
                mounts.push(Found { suffix: String::new(), entry: self.nodes[at].data.clone() });
                assert(at < self.nodes.len());
                let mut e: usize = at + 1;
                let ghost f = |n: forest::NodeView| found_at(n, path@);
                assert(found_view(mounts@) =~= seq![head] + nodes.subrange(
                    at + 1,
                    e as int,
                ).map_values(f));
                while e < self.nodes.len() && is_descendant_path(
                    self.nodes[e].mountpoint.as_str(),
                    path,
                )
                    invariant
                        at < e <= self.nodes@.len(),
                        nodes == self@,
                        f == (|n: forest::NodeView| found_at(n, path@)),
                        forest::run_end(nodes, path@, at + 1) == forest::run_end(
                            nodes,
                            path@,
                            e as int,
                        ),
                        found_view(mounts@) == seq![head] + nodes.subrange(
                            at + 1,
                            e as int,
                        ).map_values(f),
                    decreases self.nodes.len() - e,
                {
                    assert(nodes[e as int].path == self.nodes@[e as int].mountpoint@);
                    let item = self.found(e, path);
                    let ghost before = mounts@;
                    mounts.push(item);
                    proof {
                        assert(found_view(mounts@) =~= found_view(before).push(item@));
                        assert(nodes.subrange(at + 1, e + 1).map_values(f) =~= nodes.subrange(
                            at + 1,
                            e as int,
                        ).map_values(f).push(found_at(nodes[e as int], path@)));
                        assert(found_view(mounts@) =~= seq![head] + nodes.subrange(
                            at + 1,
                            e + 1,
                        ).map_values(f));
                    }
                    e += 1;
                }
                assert(e < self.nodes@.len() ==> nodes[e as int].path
                    == self.nodes@[e as int].mountpoint@);
                mounts
            },
            None => {
                let places = self.places_below(path);
                let ghost sorted = sorted_below(nodes, path@, nodes.len() as int);
                let ghost f = |k: int| found_at(nodes[k], path@);
                proof {
                    lemma_sorted_below(nodes, path@, nodes.len() as int);
                }
                let mut i: usize = 0;
                assert(found_view(mounts@) =~= sorted.take(0).map_values(f));
                while i < places.len()
                    invariant
                        i <= places@.len(),
                        nodes == self@,
                        f == (|k: int| found_at(nodes[k], path@)),
                        places@.map_values(|k: usize| k as int) == sorted,
                        forall|j: int|
                            0 <= j < places@.len() ==> #[trigger] places@[j] < self.nodes@.len(),
                        forall|j: int|
                            0 <= j < sorted.len() ==> forest::is_below(
                                nodes[#[trigger] sorted[j]].path,
                                path@,
                            ),
                        found_view(mounts@) == sorted.take(i as int).map_values(f),
                    decreases places.len() - i,
                {
                    assert(sorted[i as int] == places@[i as int]);
                    let item = self.found(places[i], path);
                    let ghost before = mounts@;
                    mounts.push(item);
                    proof {
                        assert(found_view(mounts@) =~= found_view(before).push(item@));
                        assert(sorted.take(i + 1).map_values(f) =~= sorted.take(
                            i as int,
                        ).map_values(f).push(f(sorted[i as int])));
                    }
                    i += 1;
                }
                assert(sorted.take(i as int) =~= sorted);
                mounts
            },
        }
    }

    /// Changes how the mount at a path takes part in passing events on. Says whether there
    /// is one.
    pub fn set_propagation(
        &mut self,
        registry: &mut MountRegistry,
        path: &str,
        new_prop: MountPropagation,
    ) -> (found: bool)
        requires
            old(self).wf(),
        ensures
            final(self).wf(),
            final(self).id == old(self).id,
            final(self).owner_user_ns == old(self).owner_user_ns,
            found == forest::has_path(old(self)@, path@),
            final(self).state(final(registry)) == after_set_propagation(
                old(self).state(old(registry)),
                old(self).id,
                path@,
                new_prop,
            ),
            old(self).tags_exist(old(registry)) ==> final(self).tags_exist(final(registry)),
    {
        let ghost st = self.state(registry);
        let i: usize = match find_path(&self.nodes, path) {
            Some(i) => i,
            None => return false,
        };
        proof {
            forest::lemma_index_of(self@, i as int);
            lemma_set_propagation_wf(st, self.id, path@, new_prop);
        }
        let was_prop = self.nodes[i].data.propagation;
        registry.leave(was_prop, self.id, path);
        registry.join(new_prop, self.id, path);
        let ghost nodes = self.nodes@;
        self.nodes[i].data.propagation = new_prop;
        proof {
            let now = self.nodes@[i as int];
            mount_table::lemma_view_update(nodes, i as int, now);
            assert(self.nodes@ =~= nodes.update(i as int, now));
            assert(self.state(registry) =~= after_set_propagation(st, self.id, path@, new_prop));
        }
        true
    }

    /// Whether the mount at a path hides another.
    pub fn is_stacked(&self, path: &str) -> (r: bool)
        requires
            self.wf(),
        ensures
            r == (match forest::node_at(self@, path@) {
                Some(node) => node.shadowed.len() > 0,
                None => false,
            }),
    {
        match find_path(&self.nodes, path) {
            Some(i) => {
                proof {
                    forest::lemma_index_of(self@, i as int);
                }
                self.nodes[i].shadowed.len() > 0
            },
            None => false,
        }
    }

    /// The longest path at which something with the given root is mounted; of several as
    /// long, the first in the order of their characters.
    pub fn mount_path_for_root_inode(&self, inode_id: u64) -> (best: Option<String>)
        ensures
            match best {
                Some(path) => is_longest_path(self@, inode_id, self@.len() as int, path@),
                None => forall|i: int|
                    0 <= i < self@.len() ==> (#[trigger] self@[i]).data.root != inode_id,
            },
    {
        let mut best: Option<usize> = None;
        let mut i: usize = 0;
        while i < self.nodes.len()
            invariant
                i <= self.nodes@.len(),
                match best {
                    Some(b) => b < i && is_longest_path(
                        self@,
                        inode_id,
                        i as int,
                        self@[b as int].path,
                    ),
                    None => forall|j: int|
                        0 <= j < i ==> (#[trigger] self@[j]).data.root != inode_id,
                },
            decreases self.nodes.len() - i,
        {
            assert(self@[i as int] == self.nodes@[i as int]@);
            if self.nodes[i].data.root == inode_id {
                let path = self.nodes[i].mountpoint.as_str();
                match best {
                    None => {
                        best = Some(i);
                        proof {
                            text::lemma_before_irreflexive(path@);
                        }
                    },
                    Some(b) => {
                        let best_path = self.nodes[b].mountpoint.as_str();
                        assert(self@[b as int] == self.nodes@[b as int]@);
                        let n: usize = path_len(path);
                        let m: usize = path_len(best_path);
                        let first = text::is_before(
                            &text::to_chars(path),
                            &text::to_chars(best_path),
                        );
                        if n > m || (n == m && first) {
                            proof {
                                text::lemma_before_irreflexive(path@);
                                assert forall|j: int|
                                    0 <= j < i + 1 && (#[trigger] self@[j]).data.root
                                        == inode_id implies byte_len(self@[j].path) < byte_len(
                                    path@,
                                ) || (byte_len(self@[j].path) == byte_len(path@) && !text::before(
                                    self@[j].path,
                                    path@,
                                )) by {
                                    if j < i && n == m {
                                        if text::before(self@[j].path, path@) {
                                            text::lemma_before_transitive(
                                                self@[j].path,
                                                path@,
                                                best_path@,
                                            );
                                        }
                                    }
                                }
                            }
                            best = Some(i);
                        }
                    },
                }
            }
            i += 1;
        }
        match best {
            Some(b) => {
                assert(self@[b as int] == self.nodes@[b as int]@);
                Some(self.nodes[b].mountpoint.clone())
            },
            None => None,
        }
    }
}

/// The mount point at place `i`, and no other, has the given inode as its root.
pub open spec fn is_only_root(nodes: Seq<forest::NodeView>, inode_id: u64, i: int) -> bool {
    &&& 0 <= i < nodes.len()
    &&& nodes[i].data.root == inode_id
    &&& forall|j: int|
        0 <= j < nodes.len() && (#[trigger] nodes[j]).data.root == inode_id ==> j == i
}

/// The table once the mount at `path` takes part in passing events on as said.
pub open spec fn after_set_propagation(
    st: mount_table::TableState,
    id: u64,
    path: Seq<char>,
    new_prop: MountPropagation,
) -> mount_table::TableState {
    match forest::node_at(st.nodes, path) {
        None => st,
        Some(node) => {
            let peers = registry::joined(
                registry::left(st.registry.peers, node.data.propagation, id, path),
                new_prop,
                id,
                path,
            );
            mount_table::TableState {
                nodes: st.nodes.update(
                    forest::index_of(st.nodes, path),
                    forest::NodeView {
                        path,
                        data: forest::EntryView { propagation: new_prop, ..node.data },
                        shadowed: node.shadowed,
                    },
                ),
                registry: registry::RegistryView { peers, ..st.registry },
            }
        },
    }
}

/// Changing the propagation keeps the forest in order.
pub proof fn lemma_set_propagation_wf(
    st: mount_table::TableState,
    id: u64,
    path: Seq<char>,
    new_prop: MountPropagation,
)
    requires
        mount_table::well_formed(st.nodes),
    ensures
        mount_table::well_formed(after_set_propagation(st, id, path, new_prop).nodes),
        forall|n: nat|
            mount_table::tags_below(st.nodes, n) ==> #[trigger] mount_table::tags_below(
                after_set_propagation(st, id, path, new_prop).nodes,
                n,
            ),
{
    let after = after_set_propagation(st, id, path, new_prop);
    if forest::has_path(st.nodes, path) {
        let i = forest::index_of(st.nodes, path);
        let node = st.nodes[i];
        mount_table::lemma_update_node(
            st.nodes,
            i,
            forest::EntryView { propagation: new_prop, ..node.data },
            node.shadowed,
        );
        assert forall|n: nat|
            mount_table::tags_below(st.nodes, n) implies #[trigger] mount_table::tags_below(
            after.nodes,
            n,
        ) by {
            assert forall|p: Seq<char>|
                (#[trigger] forest::node_at(after.nodes, p)) is Some implies
                mount_table::node_tags_below(forest::node_at(after.nodes, p)->0, n) by {
                assert(forest::node_at(st.nodes, p) is Some ==> mount_table::node_tags_below(
                    forest::node_at(st.nodes, p)->0,
                    n,
                ));
            }
        }
    }
}

} // verus!
