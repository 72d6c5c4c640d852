//! A file tree as plain data: what resolving a path asks of the inodes, known beforehand.
use std::collections::BTreeMap;

use vstd::prelude::*;
use vstd::string::*;

use crate::errno;
use crate::text;
use crate::vfs::resolve::Inode;
use crate::vfs::InodeKind;

verus! {

/// What is known of one inode.
pub struct TreeNode {
    pub kind: InodeKind,
    /// The names in a directory.
    pub children: Vec<(String, u64)>,
    /// Where a symbolic link leads.
    pub link: String,
    /// The inode that a link of a special kind stands for.
    pub magic: Option<u64>,
}

impl TreeNode {
    /// A directory with names in it.
    pub fn directory(children: Vec<(String, u64)>) -> (node: TreeNode)
        ensures
            node.kind == InodeKind::Directory,
            node.children == children,
            node.magic is None,
    {
        TreeNode { kind: InodeKind::Directory, children, link: String::new(), magic: None }
    }

    /// A symbolic link.
    pub fn symlink(link: String) -> (node: TreeNode)
        ensures
            node.kind == InodeKind::Symlink,
            node.link == link,
            node.magic is None,
    {
        TreeNode { kind: InodeKind::Symlink, children: Vec::new(), link, magic: None }
    }

    /// Anything that is neither a directory nor a link.
    pub fn leaf(kind: InodeKind) -> (node: TreeNode)
        ensures
            node.kind == kind,
            node.children@.len() == 0,
            node.magic is None,
    {
        TreeNode { kind, children: Vec::new(), link: String::new(), magic: None }
    }
}

/// The first inode under a name.
pub open spec fn named_child(children: Seq<(String, u64)>, name: Seq<char>) -> Option<u64>
    decreases children.len(),
{
    if children.len() == 0 {
        None
    } else if children[0].0@ == name {
        Some(children[0].1)
    } else {
        named_child(children.skip(1), name)
    }
}

/// The inodes of a tree, each by its id. An inode that is not there is an empty file.
pub struct FileTree {
    nodes: BTreeMap<u64, TreeNode>,
}

impl FileTree {
    /// The inodes, each by its id.
    pub closed spec fn inodes(&self) -> Map<u64, TreeNode> {
        self.nodes@
    }

    /// No inodes.
    pub fn new() -> (tree: FileTree)
        ensures
            tree.inodes() == Map::<u64, TreeNode>::empty(),
    {
        FileTree { nodes: BTreeMap::new() }
    }

    /// The tree with one inode added or replaced.
    pub fn with(self, inode: u64, node: TreeNode) -> (tree: FileTree)
        ensures
            tree.inodes() == self.inodes().insert(inode, node),
    {
        let mut nodes = self.nodes;
        nodes.insert(inode, node);
        FileTree { nodes }
    }
}

fn find_child(children: &Vec<(String, u64)>, name: &str) -> (child: Option<u64>)
    ensures
        child == named_child(children@, name@),
{
    let mut i: usize = 0;
    assert(children@.skip(0) =~= children@);
    while i < children.len()
        invariant
            i <= children@.len(),
            named_child(children@, name@) == named_child(children@.skip(i as int), name@),
        decreases children.len() - i,
    {
        assert(children@.skip(i as int)[0] == children@[i as int]);
        assert(children@.skip(i as int).skip(1) =~= children@.skip(i + 1));
        if text::equal(children[i].0.as_str(), name) {
            return Some(children[i].1);
        }
        i += 1;
    }
    None
}

impl Inode for FileTree {
    open spec fn kind_of(&self, inode: u64) -> InodeKind {
        if self.inodes().contains_key(inode) {
            self.inodes()[inode].kind
        } else {
            InodeKind::Regular
        }
    }

    open spec fn child_of(&self, dir: u64, name: Seq<char>) -> Result<u64, i64> {
        if self.kind_of(dir) != InodeKind::Directory {
            Err(errno::ENOTDIR)
        } else {
            match named_child(self.inodes()[dir].children@, name) {
                Some(child) => Ok(child),
                None => Err(errno::ENOENT),
            }
        }
    }

    open spec fn link_of(&self, inode: u64) -> Result<Seq<char>, i64> {
        if self.kind_of(inode) != InodeKind::Symlink {
            Err(errno::EINVAL)
        } else {
            Ok(self.inodes()[inode].link@)
        }
    }

    open spec fn magic_of(&self, inode: u64) -> Option<u64> {
        if self.inodes().contains_key(inode) {
            self.inodes()[inode].magic
        } else {
            None
        }
    }

    proof fn errors_are_negative(&self, inode: u64, name: Seq<char>) {
    }

    fn kind(&self, inode: u64) -> (kind: InodeKind) {
        match self.nodes.get(&inode) {
            Some(node) => node.kind,
            None => InodeKind::Regular,
        }
    }

    fn lookup(&self, dir: u64, name: &str) -> (child: Result<u64, i64>) {
        match self.nodes.get(&dir) {
            None => Err(errno::ENOTDIR),
            Some(node) => {
                if node.kind != InodeKind::Directory {
                    return Err(errno::ENOTDIR);
                }
                match find_child(&node.children, name) {
                    Some(child) => Ok(child),
                    None => Err(errno::ENOENT),
                }
            },
        }
    }

    fn read_link(&self, inode: u64) -> (target: Result<String, i64>) {
        match self.nodes.get(&inode) {
            None => Err(errno::EINVAL),
            Some(node) => {
                if node.kind != InodeKind::Symlink {
                    return Err(errno::EINVAL);
                }
                Ok(node.link.as_str().to_owned())
            },
        }
    }

    fn magic_resolve(&self, inode: u64) -> (target: Option<u64>) {
        match self.nodes.get(&inode) {
            None => None,
            Some(node) => node.magic,
        }
    }
}

} // verus!
