//! From a path to the inode it names.

use vstd::prelude::*;
use vstd::string::*;

use crate::errno;
use crate::seqs;
use crate::text;
use crate::vfs::forest;
use crate::vfs::mount_table::MountTable;
use crate::vfs::path;
use crate::vfs::path::normalize;
use crate::vfs::InodeKind;

verus! {

/// How many symbolic links may lead to one another.
pub const MAX_SYMLINK_DEPTH: u32 = 40;

/// What resolving a path asks of the inodes, each known by its id. File systems
/// implement it; while a path is resolved, the answers do not change.
pub trait Inode {
    spec fn kind_of(&self, inode: u64) -> InodeKind;

    spec fn child_of(&self, dir: u64, name: Seq<char>) -> Result<u64, i64>;

    spec fn link_of(&self, inode: u64) -> Result<Seq<char>, i64>;

    spec fn magic_of(&self, inode: u64) -> Option<u64>;

    /// What goes wrong is told by a negative number.
    proof fn errors_are_negative(&self, inode: u64, name: Seq<char>)
        ensures
            self.child_of(inode, name) matches Err(e) ==> e < 0,
            self.link_of(inode) matches Err(e) ==> e < 0,
    ;

    /// What the inode is.
    fn kind(&self, inode: u64) -> (kind: InodeKind)
        ensures
            kind == self.kind_of(inode),
    ;

    /// The inode under a name in a directory.
    fn lookup(&self, dir: u64, name: &str) -> (child: Result<u64, i64>)
        ensures
            child == self.child_of(dir, name@),
            child matches Err(e) ==> e < 0,
    ;

    /// Where a symbolic link leads.
    fn read_link(&self, inode: u64) -> (target: Result<String, i64>)
        ensures
            match target {
                Ok(s) => self.link_of(inode) == Ok::<Seq<char>, i64>(s@),
                Err(e) => self.link_of(inode) == Err::<Seq<char>, i64>(e) && e < 0,
            },
    ;

    /// The inode that a link of a special kind stands for.
    fn magic_resolve(&self, inode: u64) -> (target: Option<u64>)
        ensures
            target == self.magic_of(inode),
    ;
}

/// The inode that a path leads to, and the in-use tag of the last mount on the way.
#[derive(Clone, Copy, Debug, PartialEq, Eq, Structural)]
pub struct ResolveResult {
    pub inode: u64,
    pub mount_tag: Option<usize>,
}

/// A part of a path that a resolution goes by.
pub open spec fn is_step() -> spec_fn(Seq<char>) -> bool {
    |name: Seq<char>| name.len() > 0 && !path::is_dot(name)
}

/// The parts of a path that a resolution goes by.
pub open spec fn steps(path: Seq<char>) -> Seq<Seq<char>> {
    path::split_slash(path).filter(is_step())
}

/// A directory's path with a name added to it.
pub open spec fn joined(base: Seq<char>, name: Seq<char>) -> Seq<char> {
    if forest::is_root(base) {
        seq!['/'] + name
    } else {
        base.push('/') + name
    }
}

/// Where a resolution stands: the inode, its canonical path, and the last mount crossed.
pub struct Place {
    pub inode: u64,
    pub canonical: Seq<char>,
    pub mount_tag: Option<usize>,
}

/// The result of a walk through the parts of a path from the `i`-th on. A mount point is
/// crossed, then a symbolic link is followed, the last one only where `follow_last` says
/// so. `..` cannot be walked.
pub open spec fn walked<F: Inode>(
    fs: &F,
    root: u64,
    nodes: Seq<forest::NodeView>,
    names: Seq<Seq<char>>,
    i: int,
    at: Place,
    depth: int,
    follow_last: bool,
) -> Result<ResolveResult, i64>
    decreases 41 - depth, names.len() - i,
{
    if depth > 40 || i < 0 {
        Err(errno::EINVAL)
    } else if i >= names.len() {
        Ok(ResolveResult { inode: at.inode, mount_tag: at.mount_tag })
    } else if path::is_dotdot(names[i]) {
        Err(errno::ENOSYS)
    } else {
        match fs.child_of(at.inode, names[i]) {
            Err(e) => Err(e),
            Ok(child) => {
                let canonical = joined(at.canonical, names[i]);
                let there = match forest::node_at(nodes, canonical) {
                    Some(node) => Place {
                        inode: node.data.root,
                        canonical,
                        mount_tag: Some(node.data.in_use),
                    },
                    None => Place { inode: child, canonical, mount_tag: at.mount_tag },
                };
                let follow = i + 1 < names.len() || follow_last;
                if follow && fs.kind_of(there.inode) == InodeKind::Symlink {
                    match fs.magic_of(there.inode) {
                        Some(target) => walked(
                            fs,
                            root,
                            nodes,
                            names,
                            i + 1,
                            Place { inode: target, ..there },
                            depth,
                            follow_last,
                        ),
                        None => match fs.link_of(there.inode) {
                            Err(e) => Err(e),
                            Ok(link) => {
                                let target = path::normalized(
                                    if path::is_absolute(link) {
                                        seq!['/']
                                    } else {
                                        at.canonical
                                    },
                                    link,
                                );
                                match walked(
                                    fs,
                                    root,
                                    nodes,
                                    steps(target),
                                    0,
                                    Place { inode: root, canonical: seq!['/'], mount_tag: None },
                                    depth + 1,
                                    true,
                                ) {
                                    Err(e) => Err(e),
                                    Ok(r) => walked(
                                        fs,
                                        root,
                                        nodes,
                                        names,
                                        i + 1,
                                        Place {
                                            inode: r.inode,
                                            canonical: target,
                                            mount_tag: if r.mount_tag is Some {
                                                r.mount_tag
                                            } else {
                                                there.mount_tag
                                            },
                                        },
                                        depth,
                                        follow_last,
                                    ),
                                }
                            },
                        },
                    }
                } else {
                    walked(fs, root, nodes, names, i + 1, there, depth, follow_last)
                }
            },
        }
    }
}

/// What a path leads to, from the root where it is absolute and from `start` where it is
/// not.
pub open spec fn resolved<F: Inode>(
    fs: &F,
    root: u64,
    nodes: Seq<forest::NodeView>,
    start: u64,
    path: Seq<char>,
    follow_last: bool,
) -> Result<ResolveResult, i64> {
    walked(
        fs,
        root,
        nodes,
        steps(path),
        0,
        Place {
            inode: if path::is_absolute(path) {
                root
            } else {
                start
            },
            canonical: seq!['/'],
            mount_tag: None,
        },
        0,
        follow_last,
    )
}

/// A directory's path with a name added to it.
pub fn join_canonical(base_canonical: &str, component: &str) -> (path: String)
    ensures
        path@ == joined(base_canonical@, component@),
{
    proof {
        reveal_strlit("/");
        assert("/"@ =~= seq!['/']);
    }
    if forest::root_chars(&text::to_chars(base_canonical)) {
        String::from_str("/").concat(component)
    } else {
        let path = base_canonical.to_owned().concat("/").concat(component);
        assert(base_canonical@ + seq!['/'] =~= base_canonical@.push('/'));
        path
    }
}

proof fn lemma_views_push(s: Seq<String>, x: String)
    ensures
        path::views(s.push(x)) == path::views(s).push(x@),
{
    assert(path::views(s.push(x)) =~= path::views(s).push(x@));
}

/// Adds a part to those that a resolution goes by, where it is one.
fn add_step(names: &mut Vec<String>, name: String)
    ensures
        path::views(final(names)@) == (if is_step()(name@) {
            path::views(old(names)@).push(name@)
        } else {
            path::views(old(names)@)
        }),
{
    proof {
        reveal_strlit(".");
        assert("."@ =~= seq!['.']);
        lemma_views_push(names@, name);
    }
    if !name.as_str().is_empty() && !text::equal(name.as_str(), ".") {
        names.push(name);
    }
}

/// The parts of a path that a resolution goes by.
pub fn components(path: &str) -> (names: Vec<String>)
    ensures
        path::views(names@) == steps(path@),
{
    let chars = text::to_chars(path);
    let mut names: Vec<String> = Vec::new();
    let ghost mut done: Seq<Seq<char>> = Seq::empty();
    let mut start: usize = 0;
    let mut i: usize = 0;
    proof {
        assert(chars@.take(0) =~= Seq::<char>::empty());
        assert(path::split_slash(chars@.take(0)) =~= done.push(chars@.subrange(0, 0)));
        seqs::lemma_filter_len(done, is_step());
        assert(path::views(names@) =~= done.filter(is_step()));
    }
    while i < chars.len()
        invariant
            chars@ == path@,
            start <= i <= chars@.len(),
            path::split_slash(chars@.take(i as int)) == done.push(
                chars@.subrange(start as int, i as int),
            ),
            path::views(names@) == done.filter(is_step()),
        decreases chars.len() - i,
    {
        let ghost part = chars@.subrange(start as int, i as int);
        proof {
            assert(chars@.take(i + 1).drop_last() =~= chars@.take(i as int));
            assert(chars@.take(i + 1).last() == chars@[i as int]);
            assert(done.push(part).drop_last() =~= done);
        }
        if chars[i] == '/' {
            add_step(&mut names, text::slice(path, start, i));
            start = i + 1;
            proof {
                seqs::lemma_filter_push(done, part, is_step());
                done = done.push(part);
                assert(chars@.subrange(i + 1, i + 1) =~= Seq::<char>::empty());
            }
        } else {
            assert(chars@.subrange(start as int, i + 1) =~= part.push(chars@[i as int]));
        }
        i += 1;
    }
    add_step(&mut names, text::slice(path, start, i));
    proof {
        assert(chars@.take(i as int) =~= path@);
        let part = chars@.subrange(start as int, i as int);
        seqs::lemma_filter_push(done, part, is_step());
    }
    names
}

fn is_dotdot_name(name: &str) -> (r: bool)
    ensures
        r == path::is_dotdot(name@),
{
    proof {
        reveal_strlit("..");
        assert(".."@ =~= seq!['.', '.']);
    }
    text::equal(name, "..")
}

fn starts_absolute(path: &str) -> (r: bool)
    ensures
        r == path::is_absolute(path@),
{
    !path.is_empty() && path.get_char(0) == '/'
}

/// Resolves a path, `depth` links deep.
fn resolve_with_depth<F: Inode>(
    fs: &F,
    root: u64,
    mounts: &MountTable,
    start: u64,
    path: &str,
    depth: u32,
    follow_last: bool,
) -> (result: Result<ResolveResult, i64>)
    requires
        mounts.wf(),
        depth <= 41,
    ensures
        result == walked(
            fs,
            root,
            mounts@,
            steps(path@),
            0,
            Place {
                inode: if path::is_absolute(path@) {
                    root
                } else {
                    start
                },
                canonical: seq!['/'],
                mount_tag: None,
            },
            depth as int,
            follow_last,
        ),
        result matches Err(e) ==> e < 0,
    decreases 41 - depth,
{
    if depth > MAX_SYMLINK_DEPTH {
        return Err(errno::EINVAL);
    }
    proof {
        reveal_strlit("/");
        assert("/"@ =~= seq!['/']);
    }
    let mut current: u64 = if starts_absolute(path) {
        root
    } else {
        start
    };
    let mut canonical = String::from_str("/");
    let mut tag: Option<usize> = None;
    let names = components(path);
    let ghost parts = steps(path@);
    let ghost first = Place { inode: current, canonical: canonical@, mount_tag: tag };
    let mut i: usize = 0;
    while i < names.len()
        invariant
            mounts.wf(),
            depth <= 40,
            i <= names@.len(),
            "/"@ == seq!['/'],
            path::views(names@) == parts,
            parts == steps(path@),
            first == (Place {
                inode: if path::is_absolute(path@) {
                    root
                } else {
                    start
                },
                canonical: seq!['/'],
                mount_tag: None,
            }),
            walked(fs, root, mounts@, parts, 0, first, depth as int, follow_last) == walked(
                fs,
                root,
                mounts@,
                parts,
                i as int,
                Place { inode: current, canonical: canonical@, mount_tag: tag },
                depth as int,
                follow_last,
            ),
        decreases names.len() - i,
    {
        let name = names[i].as_str();
        assert(parts[i as int] == name@);
        if is_dotdot_name(name) {
            return Err(errno::ENOSYS);
        }
        let is_last = i + 1 == names.len();
        let mut child: u64 = match fs.lookup(current, name) {
            Ok(c) => c,
            Err(e) => return Err(e),
        };
        let child_canonical = join_canonical(canonical.as_str(), name);
        match mounts.snapshot_one(child_canonical.as_str()) {
            Some(entry) => {
                tag = Some(entry.in_use);
                child = entry.root;
            },
            None => {},
        }
        let should_follow = !is_last || follow_last;
        if should_follow && fs.kind(child) == InodeKind::Symlink {
            match fs.magic_resolve(child) {
                Some(target) => {
                    current = target;
                    canonical = child_canonical;
                },
                None => {
                    let link = match fs.read_link(child) {
                        Ok(l) => l,
                        Err(e) => return Err(e),
                    };
                    let target = if starts_absolute(link.as_str()) {
                        normalize("/", link.as_str())
                    } else {
                        normalize(canonical.as_str(), link.as_str())
                    };
                    proof {
                        path::law_names_are_proper(
                            if path::is_absolute(link@) {
                                seq!['/']
                            } else {
                                canonical@
                            },
                            link@,
                        );
                        path::law_render_is_faithful(
                            seq![],
                            path::names_of(
                                if path::is_absolute(link@) {
                                    seq!['/']
                                } else {
                                    canonical@
                                },
                                link@,
                            ),
                        );
                        assert(path::is_absolute(target@));
                    }
                    match resolve_with_depth(
                        fs,
                        root,
                        mounts,
                        root,
                        target.as_str(),
                        depth + 1,
                        true,
                    ) {
                        Ok(r) => {
                            if r.mount_tag.is_some() {
                                tag = r.mount_tag;
                            }
                            current = r.inode;
                            canonical = target;
                        },
                        Err(e) => return Err(e),
                    }
                },
            }
        } else {
            current = child;
            canonical = child_canonical;
        }
        i += 1;
    }
    Ok(ResolveResult { inode: current, mount_tag: tag })
}

/// The inode that a path leads to.
pub fn resolve<F: Inode>(fs: &F, root: u64, mounts: &MountTable, start: u64, path: &str) -> (inode:
    Result<u64, i64>)
    requires
        mounts.wf(),
    ensures
        inode == inode_of(resolved(fs, root, mounts@, start, path@, true)),
        inode matches Err(e) ==> e < 0,
{
    match resolve_with_mount(fs, root, mounts, start, path) {
        Ok(r) => Ok(r.inode),
        Err(e) => Err(e),
    }
}

/// The inode that a path leads to; a link at its end is not followed.
pub fn resolve_no_follow<F: Inode>(
    fs: &F,
    root: u64,
    mounts: &MountTable,
    start: u64,
    path: &str,
) -> (inode: Result<u64, i64>)
    requires
        mounts.wf(),
    ensures
        inode == inode_of(resolved(fs, root, mounts@, start, path@, false)),
        inode matches Err(e) ==> e < 0,
{
    match resolve_no_follow_with_mount(fs, root, mounts, start, path) {
        Ok(r) => Ok(r.inode),
        Err(e) => Err(e),
    }
}

/// The inode that a path leads to, and the mount it was reached through.
pub fn resolve_with_mount<F: Inode>(
    fs: &F,
    root: u64,
    mounts: &MountTable,
    start: u64,
    path: &str,
) -> (result: Result<ResolveResult, i64>)
    requires
        mounts.wf(),
    ensures
        result == resolved(fs, root, mounts@, start, path@, true),
        result matches Err(e) ==> e < 0,
{
    resolve_with_depth(fs, root, mounts, start, path, 0, true)
}

/// The inode that a path leads to, and the mount it was reached through; a link at its
/// end is not followed.
pub fn resolve_no_follow_with_mount<F: Inode>(
    fs: &F,
    root: u64,
    mounts: &MountTable,
    start: u64,
    path: &str,
) -> (result: Result<ResolveResult, i64>)
    requires
        mounts.wf(),
    ensures
        result == resolved(fs, root, mounts@, start, path@, false),
        result matches Err(e) ==> e < 0,
{
    resolve_with_depth(fs, root, mounts, start, path, 0, false)
}

/// The inode of a result.
pub open spec fn inode_of(r: Result<ResolveResult, i64>) -> Result<u64, i64> {
    match r {
        Ok(found) => Ok(found.inode),
        Err(e) => Err(e),
    }
}

/// A path without the slashes at its end.
pub open spec fn trimmed(path: Seq<char>) -> Seq<char>
    decreases path.len(),
{
    if path.len() > 0 && path.last() == '/' {
        trimmed(path.drop_last())
    } else {
        path
    }
}

/// Where the last slash of a path stands, or -1.
pub open spec fn last_slash(path: Seq<char>) -> int
    decreases path.len(),
{
    if path.len() == 0 {
        -1
    } else if path.last() == '/' {
        path.len() - 1
    } else {
        last_slash(path.drop_last())
    }
}

/// The name at the end of a path.
pub open spec fn leaf_of(path: Seq<char>) -> Seq<char> {
    trimmed(path).skip(last_slash(trimmed(path)) + 1)
}

/// What stands in front of the name at the end of a path.
pub open spec fn directory_of(path: Seq<char>) -> Seq<char> {
    let t = trimmed(path);
    if last_slash(t) < 0 {
        Seq::empty()
    } else {
        t.take(last_slash(t))
    }
}

/// The directory that holds, or would hold, the name at the end of a path. It is the
/// root where only a slash stands in front of the name, and `start` where nothing does.
pub open spec fn parent_resolved<F: Inode>(
    fs: &F,
    root: u64,
    nodes: Seq<forest::NodeView>,
    start: u64,
    path: Seq<char>,
) -> Result<(u64, Seq<char>), i64> {
    let dir = directory_of(path);
    if leaf_of(path).len() == 0 {
        Err(errno::EINVAL)
    } else {
        let parent = if dir.len() > 0 {
            inode_of(resolved(fs, root, nodes, start, dir, true))
        } else if path::is_absolute(trimmed(path)) {
            Ok(root)
        } else {
            Ok(start)
        };
        match parent {
            Err(e) => Err(e),
            Ok(p) => if fs.kind_of(p) != InodeKind::Directory {
                Err(errno::ENOTDIR)
            } else {
                Ok((p, leaf_of(path)))
            },
        }
    }
}

proof fn lemma_last_slash(path: Seq<char>)
    ensures
        -1 <= last_slash(path) < path.len(),
    decreases path.len(),
{
    if path.len() > 0 && path.last() != '/' {
        lemma_last_slash(path.drop_last());
    }
}

/// The parts of a path: how long it is without the slashes at its end, and where its
/// last slash before that stands.
fn split_leaf(chars: &Vec<char>) -> (split: (usize, Option<usize>))
    ensures
        split.0 <= chars@.len(),
        trimmed(chars@) == chars@.take(split.0 as int),
        match split.1 {
            Some(i) => i < split.0 && last_slash(trimmed(chars@)) == i,
            None => last_slash(trimmed(chars@)) == -1,
        },
{
    let mut n: usize = chars.len();
    assert(chars@.take(n as int) =~= chars@);
    while n > 0 && chars[n - 1] == '/'
        invariant
            n <= chars@.len(),
            trimmed(chars@) == trimmed(chars@.take(n as int)),
        decreases n,
    {
        assert(chars@.take(n as int).drop_last() =~= chars@.take(n - 1));
        n -= 1;
    }
    let mut i: usize = n;
    while i > 0 && chars[i - 1] != '/'
        invariant
            i <= n <= chars@.len(),
            last_slash(chars@.take(n as int)) == last_slash(chars@.take(i as int)),
        decreases i,
    {
        assert(chars@.take(i as int).drop_last() =~= chars@.take(i - 1));
        i -= 1;
    }
    if i == 0 {
        (n, None)
    } else {
        (n, Some(i - 1))
    }
}

/// The directory that holds, or would hold, the name at the end of a path, and that name.
pub fn resolve_parent<F: Inode>(
    fs: &F,
    root: u64,
    mounts: &MountTable,
    start: u64,
    path: &str,
) -> (result: Result<(u64, String), i64>)
    requires
        mounts.wf(),
    ensures
        match result {
            Ok((parent, leaf)) => parent_resolved(fs, root, mounts@, start, path@) == Ok::<
                (u64, Seq<char>),
                i64,
            >((parent, leaf@)),
            Err(e) => e < 0 && parent_resolved(fs, root, mounts@, start, path@) == Err::<
                (u64, Seq<char>),
                i64,
            >(e),
        },
{
    let chars = text::to_chars(path);
    let (n, split) = split_leaf(&chars);
    let ghost t = trimmed(path@);
    let leaf_start: usize = match split {
        Some(i) => i + 1,
        None => 0,
    };
    let leaf = text::slice(path, leaf_start, n);
    assert(leaf@ =~= leaf_of(path@));
    if leaf_start == n {
        return Err(errno::EINVAL);
    }
    let dir_end: usize = match split {
        Some(i) => i,
        None => 0,
    };
    assert(path@.subrange(0, dir_end as int) =~= directory_of(path@));
    let parent: u64 = if dir_end > 0 {
        let dir = text::slice(path, 0, dir_end);
        match resolve(fs, root, mounts, start, dir.as_str()) {
            Ok(p) => p,
            Err(e) => return Err(e),
        }
    } else if n > 0 && chars[0] == '/' {
        root
    } else {
        start
    };
    if fs.kind(parent) != InodeKind::Directory {
        return Err(errno::ENOTDIR);
    }
    Ok((parent, leaf))
}

/// An absolute path leads to the same place wherever the walk begins.
pub proof fn law_absolute_path_needs_no_start<F: Inode>(
    fs: &F,
    root: u64,
    nodes: Seq<forest::NodeView>,
    start: u64,
    other: u64,
    path: Seq<char>,
    follow_last: bool,
)
    requires
        path::is_absolute(path),
    ensures
        resolved(fs, root, nodes, start, path, follow_last) == resolved(
            fs,
            root,
            nodes,
            other,
            path,
            follow_last,
        ),
        parent_resolved(fs, root, nodes, start, path) == parent_resolved(
            fs,
            root,
            nodes,
            other,
            path,
        ),
{
    lemma_directory_of_absolute(path);
}

/// What stands in front of the last name of an absolute path is absolute, or nothing at all.
proof fn lemma_directory_of_absolute(path: Seq<char>)
    requires
        path::is_absolute(path),
    ensures
        directory_of(path).len() > 0 ==> path::is_absolute(directory_of(path)),
        directory_of(path).len() == 0 ==> leaf_of(path).len() == 0 || path::is_absolute(
            trimmed(path),
        ),
{
    lemma_trimmed_front(path);
    lemma_last_slash(trimmed(path));
}

proof fn lemma_trimmed_front(path: Seq<char>)
    ensures
        trimmed(path).len() <= path.len(),
        trimmed(path) == path.take(trimmed(path).len() as int),
    decreases path.len(),
{
    if path.len() > 0 && path.last() == '/' {
        lemma_trimmed_front(path.drop_last());
        let t = trimmed(path);
        assert(path.drop_last().take(t.len() as int) =~= path.take(t.len() as int));
    } else {
        assert(path.take(path.len() as int) =~= path);
    }
}

proof fn lemma_walked_errors<F: Inode>(
    fs: &F,
    root: u64,
    nodes: Seq<forest::NodeView>,
    names: Seq<Seq<char>>,
    i: int,
    at: Place,
    depth: int,
    follow_last: bool,
)
    ensures
        walked(fs, root, nodes, names, i, at, depth, follow_last) matches Err(e) ==> e < 0,
    decreases 41 - depth, names.len() - i,
{
    if depth <= 40 && 0 <= i < names.len() && !path::is_dotdot(names[i]) {
        fs.errors_are_negative(at.inode, names[i]);
        if let Ok(child) = fs.child_of(at.inode, names[i]) {
            let canonical = joined(at.canonical, names[i]);
            let there = match forest::node_at(nodes, canonical) {
                Some(node) => Place {
                    inode: node.data.root,
                    canonical,
                    mount_tag: Some(node.data.in_use),
                },
                None => Place { inode: child, canonical, mount_tag: at.mount_tag },
            };
            fs.errors_are_negative(there.inode, names[i]);
            if (i + 1 < names.len() || follow_last) && fs.kind_of(there.inode)
                == InodeKind::Symlink {
                match fs.magic_of(there.inode) {
                    Some(target) => lemma_walked_errors(
                        fs,
                        root,
                        nodes,
                        names,
                        i + 1,
                        Place { inode: target, ..there },
                        depth,
                        follow_last,
                    ),
                    None => if let Ok(link) = fs.link_of(there.inode) {
                        let target = path::normalized(
                            if path::is_absolute(link) {
                                seq!['/']
                            } else {
                                at.canonical
                            },
                            link,
                        );
                        let top = Place { inode: root, canonical: seq!['/'], mount_tag: None };
                        lemma_walked_errors(
                            fs,
                            root,
                            nodes,
                            steps(target),
                            0,
                            top,
                            depth + 1,
                            true,
                        );
                        if let Ok(r) = walked(
                            fs,
                            root,
                            nodes,
                            steps(target),
                            0,
                            top,
                            depth + 1,
                            true,
                        ) {
                            lemma_walked_errors(
                                fs,
                                root,
                                nodes,
                                names,
                                i + 1,
                                Place {
                                    inode: r.inode,
                                    canonical: target,
                                    mount_tag: if r.mount_tag is Some {
                                        r.mount_tag
                                    } else {
                                        there.mount_tag
                                    },
                                },
                                depth,
                                follow_last,
                            );
                        }
                    },
                }
            } else {
                lemma_walked_errors(
                    fs,
                    root,
                    nodes,
                    names,
                    i + 1,
                    there,
                    depth,
                    follow_last,
                );
            }
        }
    }
}

/// A path that leads nowhere is answered by a negative number, whichever way it is resolved.
pub proof fn law_resolve_errors_are_negative<F: Inode>(
    fs: &F,
    root: u64,
    nodes: Seq<forest::NodeView>,
    start: u64,
    path: Seq<char>,
    follow_last: bool,
)
    ensures
        resolved(fs, root, nodes, start, path, follow_last) matches Err(e) ==> e < 0,
        parent_resolved(fs, root, nodes, start, path) matches Err(e) ==> e < 0,
{
    let first = Place {
        inode: if path::is_absolute(path) {
            root
        } else {
            start
        },
        canonical: seq!['/'],
        mount_tag: None,
    };
    lemma_walked_errors(fs, root, nodes, steps(path), 0, first, 0, follow_last);
    let dir = directory_of(path);
    let above = Place {
        inode: if path::is_absolute(dir) {
            root
        } else {
            start
        },
        canonical: seq!['/'],
        mount_tag: None,
    };
    lemma_walked_errors(fs, root, nodes, steps(dir), 0, above, 0, true);
}

} // verus!
