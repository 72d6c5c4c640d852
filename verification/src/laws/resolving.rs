//! Where paths lead: through directories, over mount points and along symbolic links.

use vstd::prelude::*;

use crate::seqs;
use crate::vfs::forest;
use crate::vfs::path;
use crate::vfs::resolve;
use crate::vfs::resolve::{inode_of, resolved, Inode, Place, ResolveResult};
use crate::vfs::tree;
use crate::vfs::InodeKind;

verus! {

/// The inode that names lead to from the root, each held by the directory before it, where none
/// of them is a symbolic link. What is mounted at a path stands in for what the directory holds.
pub open spec fn plainly<F: Inode>(
    fs: &F,
    root: u64,
    nodes: Seq<forest::NodeView>,
    names: Seq<Seq<char>>,
) -> Option<u64>
    decreases names.len(),
{
    if names.len() == 0 {
        Some(root)
    } else {
        match plainly(fs, root, nodes, names.drop_last()) {
            None => None,
            Some(dir) => match fs.child_of(dir, names.last()) {
                Err(_) => None,
                Ok(child) => {
                    let here = match forest::node_at(nodes, path::render(names)) {
                        Some(node) => node.data.root,
                        None => child,
                    };
                    if fs.kind_of(here) == InodeKind::Symlink {
                        None
                    } else {
                        Some(here)
                    }
                },
            },
        }
    }
}

/// The tag of the last mount on the way through these names.
pub open spec fn last_mount(nodes: Seq<forest::NodeView>, names: Seq<Seq<char>>) -> Option<usize>
    decreases names.len(),
{
    if names.len() == 0 {
        None
    } else {
        match forest::node_at(nodes, path::render(names)) {
            Some(node) => Some(node.data.in_use),
            None => last_mount(nodes, names.drop_last()),
        }
    }
}

/// The place after a plain walk.
spec fn place_after<F: Inode>(
    fs: &F,
    root: u64,
    nodes: Seq<forest::NodeView>,
    names: Seq<Seq<char>>,
) -> Place {
    Place {
        inode: plainly(fs, root, nodes, names)->0,
        canonical: path::render(names),
        mount_tag: last_mount(nodes, names),
    }
}

proof fn lemma_proper_front(names: Seq<Seq<char>>, k: int)
    requires
        path::all_proper(names),
        0 <= k <= names.len(),
    ensures
        path::all_proper(names.take(k)),
{
    assert forall|i: int| 0 <= i < k implies path::is_proper(#[trigger] names.take(k)[i]) by {
        assert(names.take(k)[i] == names[i]);
    }
}

proof fn lemma_joined(names: Seq<Seq<char>>, name: Seq<char>)
    requires
        path::all_proper(names),
    ensures
        resolve::joined(path::render(names), name) == path::render(names.push(name)),
{
    let all = names.push(name);
    assert(all.drop_last() =~= names);
    if names.len() == 0 {
        assert(path::slashed(names) =~= Seq::empty());
        assert(seq!['/'] + name =~= Seq::<char>::empty().push('/') + name);
    } else {
        assert(path::is_proper(names[names.len() - 1]));
        assert(path::slashed(names).len() > 1);
    }
}

proof fn lemma_steps(names: Seq<Seq<char>>)
    requires
        path::all_proper(names),
    ensures
        resolve::steps(path::render(names)) == names,
        path::is_absolute(path::render(names)),
{
    path::law_render_is_faithful(seq![], names);
    let empty = Seq::<char>::empty();
    if names.len() == 0 {
        reveal_with_fuel(path::split_slash, 3);
        let root = seq!['/'];
        assert(root.drop_last() =~= Seq::empty());
        assert(path::split_slash(root) =~= seq![empty, empty]);
        assert(Seq::<Seq<char>>::empty().push(empty).push(empty) =~= seq![empty, empty]);
        seqs::lemma_filter_push(Seq::<Seq<char>>::empty().push(empty), empty, resolve::is_step());
        seqs::lemma_filter_push(Seq::<Seq<char>>::empty(), empty, resolve::is_step());
        seqs::lemma_filter_len(Seq::<Seq<char>>::empty(), resolve::is_step());
        assert(resolve::steps(root) =~= names);
    } else {
        path::lemma_split_slashed(names);
        lemma_filter_names(names);
    }
}

proof fn lemma_filter_names(names: Seq<Seq<char>>)
    requires
        path::all_proper(names),
    ensures
        (seq![Seq::<char>::empty()] + names).filter(resolve::is_step()) == names,
{
    let keep = resolve::is_step();
    let first = seq![Seq::<char>::empty()];
    Seq::filter_distributes_over_add(first, names, keep);
    assert forall|i: int| 0 <= i < names.len() implies keep(#[trigger] names[i]) by {
        assert(path::is_proper(names[i]));
    }
    seqs::lemma_filter_len(names, keep);
    seqs::lemma_filter_len(first, keep);
    assert(!keep(first[0]));
    assert(first.filter(keep).len() == 0);
    assert(first.filter(keep) + names =~= names);
}

proof fn lemma_plain_front<F: Inode>(
    fs: &F,
    root: u64,
    nodes: Seq<forest::NodeView>,
    names: Seq<Seq<char>>,
    k: int,
)
    requires
        0 <= k <= names.len(),
        plainly(fs, root, nodes, names) is Some,
    ensures
        plainly(fs, root, nodes, names.take(k)) is Some,
    decreases names.len() - k,
{
    if k < names.len() {
        lemma_plain_front(fs, root, nodes, names, k + 1);
        assert(names.take(k + 1).drop_last() =~= names.take(k));
    } else {
        assert(names.take(k) =~= names);
    }
}

/// A walk that goes plainly through the first names goes on from where they lead.
proof fn lemma_walk_plainly<F: Inode>(
    fs: &F,
    root: u64,
    nodes: Seq<forest::NodeView>,
    names: Seq<Seq<char>>,
    k: int,
    depth: int,
    follow_last: bool,
)
    requires
        path::all_proper(names),
        0 <= k <= names.len(),
        0 <= depth <= 40,
        plainly(fs, root, nodes, names.take(k)) is Some,
    ensures
        resolve::walked(
            fs,
            root,
            nodes,
            names,
            0,
            Place { inode: root, canonical: seq!['/'], mount_tag: None },
            depth,
            follow_last,
        ) == resolve::walked(
            fs,
            root,
            nodes,
            names,
            k,
            place_after(fs, root, nodes, names.take(k)),
            depth,
            follow_last,
        ),
    decreases k,
{
    if k == 0 {
        assert(names.take(0) =~= Seq::empty());
    } else {
        let front = names.take(k - 1);
        assert(names.take(k).drop_last() =~= front);
        assert(names.take(k).last() == names[k - 1]);
        lemma_walk_plainly(fs, root, nodes, names, k - 1, depth, follow_last);
        lemma_proper_front(names, k - 1);
        lemma_joined(front, names[k - 1]);
        assert(front.push(names[k - 1]) =~= names.take(k));
        assert(path::is_proper(names[k - 1]));
    }
}

/// A path through directories leads to what the last of them holds, or to what is mounted
/// there, wherever the walk begins, and it is known which mount was crossed last.
pub proof fn law_plain_path_leads_to_its_inode<F: Inode>(
    fs: &F,
    root: u64,
    nodes: Seq<forest::NodeView>,
    start: u64,
    names: Seq<Seq<char>>,
    follow_last: bool,
)
    requires
        path::all_proper(names),
        plainly(fs, root, nodes, names) is Some,
    ensures
        resolved(fs, root, nodes, start, path::render(names), follow_last) == Ok::<
            ResolveResult,
            i64,
        >(
            ResolveResult {
                inode: plainly(fs, root, nodes, names)->0,
                mount_tag: last_mount(nodes, names),
            },
        ),
{
    lemma_steps(names);
    let n = names.len() as int;
    assert(names.take(n) =~= names);
    lemma_walk_plainly(fs, root, nodes, names, n, 0, follow_last);
}

/// The directory that the names `dir` lead to holds a symbolic link `name` with the text `text`,
/// and nothing is mounted over it.
pub open spec fn holds_link<F: Inode>(
    fs: &F,
    root: u64,
    nodes: Seq<forest::NodeView>,
    dir: Seq<Seq<char>>,
    name: Seq<char>,
    text: Seq<char>,
) -> bool {
    &&& path::all_proper(dir.push(name))
    &&& plainly(fs, root, nodes, dir) is Some
    &&& forest::node_at(nodes, path::render(dir.push(name))) is None
    &&& fs.child_of(plainly(fs, root, nodes, dir)->0, name) matches Ok(link) && {
        &&& fs.kind_of(link) == InodeKind::Symlink
        &&& fs.magic_of(link) is None
        &&& fs.link_of(link) == Ok::<Seq<char>, i64>(text)
    }
}

/// What the names lead to from the root, behind as many links as `depth` says.
pub open spec fn walked_behind<F: Inode>(
    fs: &F,
    root: u64,
    nodes: Seq<forest::NodeView>,
    names: Seq<Seq<char>>,
    depth: int,
    follow_last: bool,
) -> Result<ResolveResult, i64> {
    resolve::walked(
        fs,
        root,
        nodes,
        names,
        0,
        Place { inode: root, canonical: seq!['/'], mount_tag: None },
        depth,
        follow_last,
    )
}

proof fn lemma_walk_to_link<F: Inode>(
    fs: &F,
    root: u64,
    nodes: Seq<forest::NodeView>,
    dir: Seq<Seq<char>>,
    name: Seq<char>,
    text: Seq<char>,
    rest: Seq<Seq<char>>,
    depth: int,
    follow_last: bool,
)
    requires
        holds_link(fs, root, nodes, dir, name, text),
        path::all_proper(dir.push(name) + rest),
        0 <= depth <= 40,
        rest.len() > 0 || follow_last,
    ensures
        ({
            let target = path::names_of(path::render(dir), text);
            let names = dir.push(name) + rest;
            let behind = walked_behind(fs, root, nodes, target, depth + 1, true);
            walked_behind(fs, root, nodes, names, depth, follow_last) == (match behind {
                Err(e) => Err(e),
                Ok(r) => resolve::walked(
                    fs,
                    root,
                    nodes,
                    names,
                    dir.len() as int + 1,
                    Place {
                        inode: r.inode,
                        canonical: path::render(target),
                        mount_tag: if r.mount_tag is Some {
                            r.mount_tag
                        } else {
                            last_mount(nodes, dir)
                        },
                    },
                    depth,
                    follow_last,
                ),
            })
        }),
{
    let names = dir.push(name) + rest;
    let k = dir.len() as int;
    assert(names.take(k) =~= dir);
    assert(names[k] == name);
    assert(path::is_proper(names[k]));
    lemma_walk_plainly(fs, root, nodes, names, k, depth, follow_last);
    lemma_proper_front(names, k);
    lemma_joined(dir, name);
    let from = if path::is_absolute(text) {
        seq!['/']
    } else {
        path::render(dir)
    };
    assert(path::names_of(from, text) == path::names_of(path::render(dir), text));
    path::law_names_are_proper(from, text);
    lemma_steps(path::names_of(from, text));
    assert(k + 1 < names.len() || follow_last);
}

/// A link leads where its text leads from the directory that it stands in: resolving it, one
/// link deeper, is resolving the text from there. Where the text leads plainly to an inode, that
/// is the answer. Not followed, the link itself is.
pub proof fn law_link_counts_from_its_directory<F: Inode>(
    fs: &F,
    root: u64,
    nodes: Seq<forest::NodeView>,
    start: u64,
    dir: Seq<Seq<char>>,
    name: Seq<char>,
    text: Seq<char>,
)
    requires
        holds_link(fs, root, nodes, dir, name, text),
    ensures
        ({
            let at = path::render(dir.push(name));
            let target = path::names_of(path::render(dir), text);
            let found = inode_of(resolved(fs, root, nodes, start, at, true));
            &&& found == inode_of(walked_behind(fs, root, nodes, target, 1, true))
            &&& plainly(fs, root, nodes, target) matches Some(inode) ==> found == Ok::<u64, i64>(
                inode,
            )
            &&& inode_of(resolved(fs, root, nodes, start, at, false)) == fs.child_of(
                plainly(fs, root, nodes, dir)->0,
                name,
            )
        }),
{
    reveal_with_fuel(resolve::walked, 2);
    let names = dir.push(name);
    let k = dir.len() as int;
    lemma_steps(names);
    assert(names + Seq::<Seq<char>>::empty() =~= names);
    lemma_walk_to_link(fs, root, nodes, dir, name, text, Seq::empty(), 0, true);
    let target = path::names_of(path::render(dir), text);
    if plainly(fs, root, nodes, target) is Some {
        path::law_names_are_proper(path::render(dir), text);
        let n = target.len() as int;
        assert(target.take(n) =~= target);
        lemma_walk_plainly(fs, root, nodes, target, n, 1, true);
    }
    assert(names.take(k) =~= dir);
    assert(names[k] == name);
    assert(path::is_proper(names[k]));
    lemma_walk_plainly(fs, root, nodes, names, k, 0, false);
    lemma_proper_front(names, k);
    lemma_joined(dir, name);
}

/// A link whose text is one proper name leads to what its own directory holds under that name.
pub proof fn law_link_to_a_neighbour<F: Inode>(
    fs: &F,
    root: u64,
    nodes: Seq<forest::NodeView>,
    start: u64,
    dir: Seq<Seq<char>>,
    name: Seq<char>,
    neighbour: Seq<char>,
    inode: u64,
)
    requires
        holds_link(fs, root, nodes, dir, name, neighbour),
        path::is_proper(neighbour),
        fs.child_of(plainly(fs, root, nodes, dir)->0, neighbour) == Ok::<u64, i64>(inode),
        fs.kind_of(inode) != InodeKind::Symlink,
        forest::node_at(nodes, path::render(dir.push(neighbour))) is None,
    ensures
        inode_of(resolved(fs, root, nodes, start, path::render(dir.push(name)), true)) == Ok::<
            u64,
            i64,
        >(inode),
{
    law_link_counts_from_its_directory(fs, root, nodes, start, dir, name, neighbour);
    lemma_proper_front(dir.push(name), dir.len() as int);
    assert(dir.push(name).take(dir.len() as int) =~= dir);
    lemma_name_below(dir, neighbour);
    assert(dir.push(neighbour).drop_last() =~= dir);
}

proof fn lemma_name_below(dir: Seq<Seq<char>>, name: Seq<char>)
    requires
        path::all_proper(dir),
        path::is_proper(name),
    ensures
        path::names_of(path::render(dir), name) == dir.push(name),
{
    assert(!path::is_absolute(name)) by {
        if path::is_absolute(name) {
            assert(name.contains(name[0]));
        }
    }
    path::law_render_is_faithful(seq![], dir);
    path::lemma_split_name(name);
    let parts = path::split_slash(name);
    assert(parts.drop_last() =~= Seq::empty());
    assert(path::walk(dir, parts) == path::step(path::walk(dir, parts.drop_last()), name));
}

/// What stands behind a link in a path counts from where the link leads.
pub proof fn law_path_goes_on_behind_a_link<F: Inode>(
    fs: &F,
    root: u64,
    nodes: Seq<forest::NodeView>,
    start: u64,
    dir: Seq<Seq<char>>,
    name: Seq<char>,
    text: Seq<char>,
    next: Seq<char>,
    inode: u64,
    follow_last: bool,
)
    requires
        holds_link(fs, root, nodes, dir, name, text),
        path::is_proper(next),
        ({
            let target = path::names_of(path::render(dir), text);
            &&& plainly(fs, root, nodes, target) matches Some(there) && fs.child_of(there, next)
                == Ok::<u64, i64>(inode)
            &&& forest::node_at(nodes, path::render(target.push(next))) is None
        }),
        fs.kind_of(inode) != InodeKind::Symlink,
    ensures
        inode_of(
            resolved(
                fs,
                root,
                nodes,
                start,
                path::render(dir.push(name).push(next)),
                follow_last,
            ),
        ) == Ok::<u64, i64>(inode),
{
    reveal_with_fuel(resolve::walked, 2);
    let names = dir.push(name).push(next);
    let rest = seq![next];
    assert(dir.push(name) + rest =~= names);
    assert forall|i: int| 0 <= i < names.len() implies path::is_proper(#[trigger] names[i]) by {
        if i < dir.len() + 1 {
            assert(path::is_proper(dir.push(name)[i]));
        }
    }
    lemma_steps(names);
    lemma_walk_to_link(fs, root, nodes, dir, name, text, rest, 0, follow_last);
    let target = path::names_of(path::render(dir), text);
    path::law_names_are_proper(path::render(dir), text);
    let n = target.len() as int;
    assert(target.take(n) =~= target);
    lemma_walk_plainly(fs, root, nodes, target, n, 1, true);
    lemma_joined(target, next);
    assert(names[dir.len() as int + 1] == next);
    assert(!path::is_dotdot(next));
}

proof fn lemma_loop<F: Inode>(
    fs: &F,
    root: u64,
    nodes: Seq<forest::NodeView>,
    dir: Seq<Seq<char>>,
    name: Seq<char>,
    text: Seq<char>,
    depth: int,
)
    requires
        holds_link(fs, root, nodes, dir, name, text),
        path::names_of(path::render(dir), text) == dir.push(name),
        0 <= depth,
    ensures
        walked_behind(fs, root, nodes, dir.push(name), depth, true) is Err,
    decreases 41 - depth,
{
    if depth <= 40 {
        lemma_loop(fs, root, nodes, dir, name, text, depth + 1);
        assert(dir.push(name) + Seq::<Seq<char>>::empty() =~= dir.push(name));
        lemma_walk_to_link(fs, root, nodes, dir, name, text, Seq::empty(), depth, true);
    }
}

/// A link that leads to itself leads nowhere.
pub proof fn law_link_to_itself_leads_nowhere<F: Inode>(
    fs: &F,
    root: u64,
    nodes: Seq<forest::NodeView>,
    start: u64,
    dir: Seq<Seq<char>>,
    name: Seq<char>,
    text: Seq<char>,
)
    requires
        holds_link(fs, root, nodes, dir, name, text),
        path::names_of(path::render(dir), text) == dir.push(name),
    ensures
        resolved(fs, root, nodes, start, path::render(dir.push(name)), true) is Err,
{
    lemma_steps(dir.push(name));
    lemma_loop(fs, root, nodes, dir, name, text, 0);
}

/// A path through a directory that does not hold the next name is answered as that directory
/// answers, whatever would follow.
pub proof fn law_missing_name_is_told<F: Inode>(
    fs: &F,
    root: u64,
    nodes: Seq<forest::NodeView>,
    start: u64,
    dir: Seq<Seq<char>>,
    name: Seq<char>,
    rest: Seq<Seq<char>>,
    follow_last: bool,
)
    requires
        path::all_proper(dir.push(name) + rest),
        plainly(fs, root, nodes, dir) is Some,
        fs.child_of(plainly(fs, root, nodes, dir)->0, name) is Err,
    ensures
        inode_of(
            resolved(fs, root, nodes, start, path::render(dir.push(name) + rest), follow_last),
        ) == fs.child_of(plainly(fs, root, nodes, dir)->0, name),
{
    let names = dir.push(name) + rest;
    let k = dir.len() as int;
    lemma_steps(names);
    assert(names.take(k) =~= dir);
    assert(names[k] == name);
    assert(path::is_proper(names[k]));
    lemma_walk_plainly(fs, root, nodes, names, k, 0, follow_last);
}

/// A link of a special kind, where it is followed, is what it stands for.
pub proof fn law_magic_link_is_what_it_stands_for<F: Inode>(
    fs: &F,
    root: u64,
    nodes: Seq<forest::NodeView>,
    start: u64,
    dir: Seq<Seq<char>>,
    name: Seq<char>,
    link: u64,
    target: u64,
)
    requires
        path::all_proper(dir.push(name)),
        plainly(fs, root, nodes, dir) is Some,
        fs.child_of(plainly(fs, root, nodes, dir)->0, name) == Ok::<u64, i64>(link),
        forest::node_at(nodes, path::render(dir.push(name))) is None,
        fs.kind_of(link) == InodeKind::Symlink,
        fs.magic_of(link) == Some(target),
    ensures
        ({
            let at = path::render(dir.push(name));
            &&& inode_of(resolved(fs, root, nodes, start, at, true)) == Ok::<u64, i64>(target)
            &&& inode_of(resolved(fs, root, nodes, start, at, false)) == Ok::<u64, i64>(link)
        }),
{
    reveal_with_fuel(resolve::walked, 2);
    let names = dir.push(name);
    let k = dir.len() as int;
    lemma_steps(names);
    assert(names.take(k) =~= dir);
    assert(names[k] == name);
    assert(path::is_proper(names[k]));
    lemma_walk_plainly(fs, root, nodes, names, k, 0, true);
    lemma_walk_plainly(fs, root, nodes, names, k, 0, false);
    lemma_proper_front(names, k);
    lemma_joined(dir, name);
}

proof fn lemma_last_slash(front: Seq<char>, name: Seq<char>)
    requires
        !name.contains('/'),
    ensures
        resolve::last_slash(front.push('/') + name) == front.len(),
        resolve::last_slash(name) == -1,
    decreases name.len(),
{
    let whole = front.push('/') + name;
    if name.len() == 0 {
        assert(whole =~= front.push('/'));
    } else {
        let shorter = name.drop_last();
        assert(!shorter.contains('/')) by {
            if shorter.contains('/') {
                let k = choose|k: int| 0 <= k < shorter.len() && shorter[k] == '/';
                assert(name[k] == '/');
            }
        }
        lemma_last_slash(front, shorter);
        assert(whole.drop_last() =~= front.push('/') + shorter);
        assert(whole.last() == name.last());
        assert(name[name.len() - 1] != '/') by {
            if name[name.len() - 1] == '/' {
                assert(name.contains('/'));
            }
        }
    }
}

proof fn lemma_leaf(dir: Seq<Seq<char>>, leaf: Seq<char>)
    requires
        path::all_proper(dir.push(leaf)),
    ensures
        ({
            let p = path::render(dir.push(leaf));
            &&& resolve::trimmed(p) == p
            &&& resolve::trimmed(p.push('/')) == p
            &&& resolve::last_slash(p) == path::slashed(dir).len()
            &&& p == path::slashed(dir).push('/') + leaf
        }),
{
    let names = dir.push(leaf);
    let p = path::render(names);
    assert(path::is_proper(names[dir.len() as int]));
    assert(names.drop_last() =~= dir);
    lemma_last_slash(path::slashed(dir), leaf);
    assert(p == path::slashed(dir).push('/') + leaf);
    assert(leaf[leaf.len() - 1] != '/') by {
        if leaf[leaf.len() - 1] == '/' {
            assert(leaf.contains('/'));
        }
    }
    assert(p.len() > 0 && p.last() == leaf[leaf.len() - 1]);
    assert(resolve::trimmed(p) == p);
    let longer = p.push('/');
    assert(longer.drop_last() =~= p);
    assert(longer.last() == '/');
    assert(resolve::trimmed(longer) == resolve::trimmed(longer.drop_last()));
}

/// What a path names is held by the directory that the names before the last one lead to, under
/// the last one; a slash behind it changes nothing.
pub proof fn law_directory_holds_the_last_name<F: Inode>(
    fs: &F,
    root: u64,
    nodes: Seq<forest::NodeView>,
    start: u64,
    dir: Seq<Seq<char>>,
    leaf: Seq<char>,
)
    requires
        path::all_proper(dir.push(leaf)),
        plainly(fs, root, nodes, dir) is Some,
    ensures
        ({
            let d = plainly(fs, root, nodes, dir)->0;
            let at = path::render(dir.push(leaf));
            let held = if fs.kind_of(d) == InodeKind::Directory {
                Ok::<(u64, Seq<char>), i64>((d, leaf))
            } else {
                Err(-20i64)
            };
            &&& resolve::parent_resolved(fs, root, nodes, start, at) == held
            &&& resolve::parent_resolved(fs, root, nodes, start, at.push('/')) == held
        }),
{
    let at = path::render(dir.push(leaf));
    lemma_leaf(dir, leaf);
    let s = path::slashed(dir);
    assert(at.take(s.len() as int) =~= s);
    assert(at.skip(s.len() as int + 1) =~= leaf);
    assert(path::is_proper(dir.push(leaf)[dir.len() as int]));
    lemma_proper_front(dir.push(leaf), dir.len() as int);
    assert(dir.push(leaf).take(dir.len() as int) =~= dir);
    if dir.len() == 0 {
        assert(s =~= Seq::empty());
        assert(at[0] == '/');
    } else {
        assert(path::is_proper(dir[dir.len() - 1]));
        assert(s.len() > 0);
        assert(s == path::render(dir));
        law_plain_path_leads_to_its_inode(fs, root, nodes, start, dir, true);
    }
}

/// A name alone is held by the directory that the walk begins in, and leads to what that holds.
pub proof fn law_name_alone_is_held_by_the_start<F: Inode>(
    fs: &F,
    root: u64,
    nodes: Seq<forest::NodeView>,
    start: u64,
    name: Seq<char>,
)
    requires
        path::is_proper(name),
        fs.kind_of(start) == InodeKind::Directory,
    ensures
        resolve::parent_resolved(fs, root, nodes, start, name) == Ok::<(u64, Seq<char>), i64>(
            (start, name),
        ),
        resolve::parent_resolved(fs, root, nodes, start, seq!['/']) == Err::<(u64, Seq<char>), i64>(
            -22i64,
        ),
        resolve::parent_resolved(fs, root, nodes, start, seq![]) == Err::<(u64, Seq<char>), i64>(
            -22i64,
        ),
{
    lemma_last_slash(seq![], name);
    assert(name[name.len() - 1] != '/') by {
        if name[name.len() - 1] == '/' {
            assert(name.contains('/'));
        }
    }
    assert(name.skip(0) =~= name);
    reveal_with_fuel(resolve::trimmed, 3);
    reveal_with_fuel(resolve::last_slash, 3);
    let slash = seq!['/'];
    assert(slash.drop_last() =~= Seq::empty());
    assert(resolve::trimmed(slash) =~= Seq::empty());
    assert(resolve::trimmed(Seq::<char>::empty()) =~= Seq::empty());
}

/// From a directory, a name leads down, two dots lead up and at the root nowhere, and one dot
/// and no name stay.
pub proof fn law_one_step_from_a_directory(names: Seq<Seq<char>>, name: Seq<char>)
    requires
        path::all_proper(names),
        path::is_proper(name),
    ensures
        path::normalized(path::render(names), name) == path::render(names.push(name)),
        path::normalized(path::render(names), seq!['.', '.']) == path::render(
            if names.len() == 0 {
                names
            } else {
                names.drop_last()
            },
        ),
        path::normalized(path::render(names), seq!['.']) == path::render(names),
        path::normalized(path::render(names), seq![]) == path::render(names),
        path::normalized(path::render(names), seq!['/'] + name) == path::render(seq![name]),
{
    lemma_name_below(names, name);
    path::law_render_is_faithful(seq![], names);
    let up = seq!['.', '.'];
    let dot = seq!['.'];
    let none = Seq::<char>::empty();
    assert(!up.contains('/'));
    assert(!dot.contains('/'));
    assert(!none.contains('/'));
    path::lemma_split_name(up);
    path::lemma_split_name(dot);
    path::lemma_split_name(none);
    assert forall|one: Seq<char>| #[trigger] path::walk(names, seq![one]) == path::step(
        names,
        one,
    ) by {
        assert(seq![one].drop_last() =~= Seq::empty());
        assert(path::walk(names, seq![one].drop_last()) == names);
    }
    assert(path::walk(names, seq![up]) == path::step(names, up));
    assert(path::walk(names, seq![dot]) == path::step(names, dot));
    assert(path::walk(names, seq![none]) == path::step(names, none));
    assert(up != dot) by {
        assert(up.len() == 2 && dot.len() == 1);
    }
    let one = seq![name];
    assert forall|i: int| 0 <= i < one.len() implies path::is_proper(#[trigger] one[i]) by {}
    path::law_render_is_faithful(path::render(names), one);
    assert(one.drop_last() =~= Seq::empty());
    assert(path::slashed(one.drop_last()) =~= Seq::empty());
    assert(path::render(one) =~= seq!['/'] + name);
}

/// A directory gives for a name what stands under it first.
pub proof fn law_directory_gives_what_it_holds(children: Seq<(String, u64)>, name: Seq<char>, i: int)
    requires
        0 <= i < children.len(),
        children[i].0@ == name,
        forall|j: int| 0 <= j < i ==> (#[trigger] children[j]).0@ != name,
    ensures
        tree::named_child(children, name) == Some(children[i].1),
    decreases children.len(),
{
    if i > 0 {
        let rest = children.skip(1);
        assert(children[0].0@ != name);
        assert(rest[i - 1] == children[i]);
        assert forall|j: int| 0 <= j < i - 1 implies (#[trigger] rest[j]).0@ != name by {
            assert(rest[j] == children[j + 1]);
        }
        law_directory_gives_what_it_holds(rest, name, i - 1);
    }
}

/// A directory gives nothing for a name that it does not hold.
pub proof fn law_directory_gives_nothing_else(children: Seq<(String, u64)>, name: Seq<char>)
    requires
        forall|j: int| 0 <= j < children.len() ==> (#[trigger] children[j]).0@ != name,
    ensures
        tree::named_child(children, name) is None,
    decreases children.len(),
{
    if children.len() > 0 {
        let rest = children.skip(1);
        assert(children[0].0@ != name);
        assert forall|j: int| 0 <= j < rest.len() implies (#[trigger] rest[j]).0@ != name by {
            assert(rest[j] == children[j + 1]);
        }
        law_directory_gives_nothing_else(rest, name);
    }
}

/// A name alone leads to what the directory holds under it from which it counts.
pub proof fn law_name_alone_counts_from_the_start<F: Inode>(
    fs: &F,
    root: u64,
    nodes: Seq<forest::NodeView>,
    start: u64,
    name: Seq<char>,
    child: u64,
    follow: bool,
)
    requires
        path::is_proper(name),
        fs.child_of(start, name) == Ok::<u64, i64>(child),
        !(fs.kind_of(child) is Symlink),
        forest::node_at(nodes, seq!['/'] + name) is None,
    ensures
        resolved(fs, root, nodes, start, name, follow) == Ok::<ResolveResult, i64>(
            ResolveResult { inode: child, mount_tag: None },
        ),
{
    path::lemma_split_name(name);
    let none = Seq::<Seq<char>>::empty();
    seqs::lemma_filter_push(none, name, resolve::is_step());
    assert(none.push(name) =~= seq![name]);
    assert(none.filter(resolve::is_step()) =~= none) by {
        reveal(Seq::filter);
    }
    assert(resolve::steps(name) =~= seq![name]);
    assert(!path::is_absolute(name)) by {
        if path::is_absolute(name) {
            assert(name.contains(name[0]));
        }
    }
    reveal_with_fuel(resolve::walked, 2);
}

/// A walk does not go up by itself: that is settled before it begins.
pub proof fn law_walk_does_not_go_up<F: Inode>(
    fs: &F,
    root: u64,
    nodes: Seq<forest::NodeView>,
    start: u64,
    follow: bool,
)
    ensures
        resolved(fs, root, nodes, start, seq!['.', '.'], follow) == Err::<ResolveResult, i64>(
            -38i64,
        ),
{
    let up = seq!['.', '.'];
    assert(!up.contains('/'));
    path::lemma_split_name(up);
    let none = Seq::<Seq<char>>::empty();
    seqs::lemma_filter_push(none, up, resolve::is_step());
    assert(none.push(up) =~= seq![up]);
    assert(none.filter(resolve::is_step()) =~= none) by {
        reveal(Seq::filter);
    }
    assert(up != seq!['.']) by {
        assert(up.len() == 2 && seq!['.'].len() == 1);
    }
    assert(resolve::steps(up) =~= seq![up]);
}

} // verus!
