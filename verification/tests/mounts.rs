use cyphera_kernel::errno;
use cyphera_kernel::process_model::Pid;
use cyphera_kernel::syscall::dispatch::AT_FDCWD;
use cyphera_kernel::syscall::fs::dir::{sys_chdir, sys_chroot, sys_mkdirat, sys_mknodat};
use cyphera_kernel::syscall::fs::link::{
    sys_linkat, sys_renameat, sys_renameat2, sys_symlinkat, sys_unlinkat, AT_REMOVEDIR,
};
use cyphera_kernel::syscall::fs::mount::{
    canon_proc_fd, plan_mount, sys_mount, sys_pivot_root, sys_umount2, Caller, MountArgs, MountPlan,
    NewRoot,
};
use cyphera_kernel::syscall::fs::open::{sys_openat, Opening, Pty};
use cyphera_kernel::syscall::fs::paths::{
    copy_path, read_path, resolve_at_inode, resolve_at_parent, resolve_path, resolve_path_writable, resolve_user_path, At,
    DirFile, PathRead,
};
use cyphera_kernel::vfs::context::{Context, MountWorld, NewMount};
use cyphera_kernel::vfs::mount::{
    MNT_DETACH, MNT_EXPIRE, MS_BIND, MS_MOVE, MS_RDONLY, MS_REC, MS_REMOUNT, MS_SHARED,
};
use cyphera_kernel::vfs::registry::{MountPropagation, MountRegistry, PeerGroup};
use cyphera_kernel::vfs::resolve::{resolve, resolve_no_follow, resolve_parent};
use cyphera_kernel::vfs::tree::{FileTree, TreeNode};
use cyphera_kernel::vfs::{
    InodeKind, MountInUseGuard, MountInUseTag, OpenFlags, O_CREAT, O_EXCL, O_WRONLY,
};

fn dir(children: Vec<(&str, u64)>) -> TreeNode {
    TreeNode::directory(children.iter().map(|(n, i)| (n.to_string(), *i)).collect())
}

fn file() -> TreeNode {
    TreeNode::leaf(InodeKind::Regular)
}

fn link(to: &str) -> TreeNode {
    TreeNode::symlink(to.to_string())
}

// 0 /        1 /a       2 /a/f     3 /mnt     4 /to_a -> a    5 /loop -> loop
// 6 other root   7 (other)/sub   8 (other)/sub/g   9 /a/d   10 /dangling -> nowhere
fn toy() -> FileTree {
    let nodes = vec![
        dir(vec![("a", 1), ("mnt", 3), ("to_a", 4), ("loop", 5), ("dangling", 10)]),
        dir(vec![("f", 2), ("d", 9)]),
        file(),
        dir(vec![("sub", 9)]),
        link("a"),
        link("loop"),
        dir(vec![("sub", 7)]),
        dir(vec![("g", 8)]),
        file(),
        dir(vec![]),
        link("nowhere"),
    ];
    let mut tree = FileTree::new();
    for (i, node) in nodes.into_iter().enumerate() {
        tree = tree.with(i as u64, node);
    }
    tree
}

fn at() -> At {
    At { dirfd: AT_FDCWD, dir: None, cwd_path: Some("/".to_string()), cwd_inode: Some(0) }
}

fn at_dir(inode: u64, kind: InodeKind, path: &str) -> At {
    At {
        dirfd: 3,
        dir: Some(DirFile { inode, kind, path: path.to_string() }),
        cwd_path: Some("/".to_string()),
        cwd_inode: Some(0),
    }
}

fn given(p: &str) -> PathRead {
    PathRead::Path(p.to_string())
}

fn world() -> MountWorld {
    let mut w = MountWorld::new();
    w.set_root(0);
    w
}

fn ctx() -> Context {
    Context { root: 0, mounts: 0 }
}

fn mount_other(w: &mut MountWorld, flags: u64) {
    let what = NewMount {
        root: 6,
        propagation: MountPropagation::Private,
        source: "none".to_string(),
        fstype: "tmpfs".to_string(),
        flags,
    };
    w.install_mount(0, "/mnt", 3, &what);
}

fn caller() -> Caller {
    Caller { at: at(), pid: 42, fd_paths: vec!["".to_string(), "/a".to_string()] }
}

fn args(source: Option<&str>, target: &str, fstype: &str, flags: u64) -> MountArgs {
    MountArgs {
        source: source.map(given),
        target: given(target),
        fstype: given(fstype),
        flags,
    }
}

#[test]
fn paths_lead_through_directories_links_and_mounts() {
    let fs = toy();
    let mut w = world();
    assert_eq!(resolve(&fs, 0, &w.tables[0], 0, "/a/f"), Ok(2));
    assert_eq!(resolve(&fs, 0, &w.tables[0], 0, "/to_a/f"), Ok(2));
    assert_eq!(resolve(&fs, 0, &w.tables[0], 0, "/to_a"), Ok(1));
    assert_eq!(resolve_no_follow(&fs, 0, &w.tables[0], 0, "/to_a"), Ok(4));
    assert_eq!(resolve(&fs, 0, &w.tables[0], 9, "/a/f"), Ok(2));
    assert_eq!(resolve(&fs, 0, &w.tables[0], 1, "f"), Ok(2));
    assert_eq!(resolve(&fs, 0, &w.tables[0], 0, "/nothing"), Err(errno::ENOENT));
    assert_eq!(resolve(&fs, 0, &w.tables[0], 0, "/a/f/x"), Err(errno::ENOTDIR));
    assert!(resolve(&fs, 0, &w.tables[0], 0, "/loop").is_err());
    assert_eq!(resolve(&fs, 0, &w.tables[0], 0, "/mnt/sub"), Ok(9));
    mount_other(&mut w, 0);
    assert_eq!(resolve(&fs, 0, &w.tables[0], 0, "/mnt"), Ok(6));
    assert_eq!(resolve(&fs, 0, &w.tables[0], 0, "/mnt/sub/g"), Ok(8));
    assert_eq!(w.remove_mount(0, "/mnt"), Some(6));
    assert_eq!(resolve(&fs, 0, &w.tables[0], 0, "/mnt/sub"), Ok(9));
}

#[test]
fn the_parent_of_a_path_is_the_directory_before_its_last_name() {
    let fs = toy();
    let w = world();
    assert_eq!(resolve_parent(&fs, 0, &w.tables[0], 0, "/a/new"), Ok((1, "new".to_string())));
    assert_eq!(resolve_parent(&fs, 0, &w.tables[0], 1, "new"), Ok((1, "new".to_string())));
    assert_eq!(resolve_parent(&fs, 0, &w.tables[0], 0, "/"), Err(errno::EINVAL));
    assert_eq!(resolve_parent(&fs, 0, &w.tables[0], 0, "/a/f/x"), Err(errno::ENOTDIR));
}

#[test]
fn a_mount_is_found_and_gone_again() {
    let mut w = world();
    mount_other(&mut w, 4);
    assert_eq!(w.lookup_mount(0, "/mnt"), Some(6));
    assert_eq!(w.mount_lookup("/mnt"), Some(6));
    let entry = w.lookup_mount_full(0, "/mnt").unwrap();
    assert_eq!((entry.target_inode_id, entry.root), (3, 6));
    assert!(w.is_mountpoint_inode(Some(0), 3));
    assert!(!w.is_mountpoint_inode(None, 4));
    assert_eq!(w.registry.tags[entry.in_use].flags, 4);
    assert!(w.set_mount_flags(0, "/mnt", 1));
    assert_eq!(w.registry.tags[entry.in_use].flags, 1);
    assert!(!w.set_mount_flags(0, "/elsewhere", 1));
    assert_eq!(w.mount_remove("/mnt"), Some(6));
    assert_eq!(w.mount_lookup("/mnt"), None);
    assert_eq!(w.mount_remove("/mnt"), None);
}

#[test]
fn a_second_mount_hides_the_first_until_it_goes() {
    let mut w = world();
    mount_other(&mut w, 0);
    w.mount_install("/mnt", 6, 7, MountPropagation::Private, "none", "tmpfs");
    assert_eq!(w.mount_lookup("/mnt"), Some(7));
    assert!(w.tables[0].is_stacked("/mnt"));
    assert_eq!(w.mount_remove("/mnt"), Some(7));
    assert_eq!(w.mount_lookup("/mnt"), Some(6));
}

#[test]
fn a_copied_table_looks_like_its_source() {
    let mut w = world();
    mount_other(&mut w, 2);
    let copy = w.copy_table(0, Some(9));
    assert_eq!(copy, 1);
    assert_eq!(w.lookup_mount(1, "/mnt"), Some(6));
    assert_eq!(w.tables[1].owner_user_ns(), Some(9));
    assert_eq!(w.remove_mount(1, "/mnt"), Some(6));
    assert_eq!(w.lookup_mount(0, "/mnt"), Some(6));
}

#[test]
fn a_caller_means_an_absolute_path() {
    assert_eq!(resolve_user_path(&at(), "/x/../y"), Ok("/y".to_string()));
    assert_eq!(resolve_user_path(&at(), ""), Err(errno::ENOENT));
    assert_eq!(resolve_user_path(&at_dir(1, InodeKind::Directory, "/a"), "f"), Ok("/a/f".to_string()));
    assert_eq!(resolve_user_path(&at_dir(1, InodeKind::Directory, ""), "f"), Err(errno::ENOSYS));
    assert_eq!(resolve_user_path(&at_dir(1, InodeKind::Directory, ""), "/f"), Ok("/f".to_string()));
    let closed = At { dirfd: 3, dir: None, cwd_path: None, cwd_inode: None };
    assert_eq!(resolve_user_path(&closed, "f"), Err(errno::EBADF));
}

#[test]
fn calls_start_at_the_directory_they_are_given() {
    let fs = toy();
    let mut w = world();
    let d = at_dir(1, InodeKind::Directory, "/a");
    assert_eq!(resolve_at_inode(&fs, 0, &w.tables[0], &d, "f"), Ok(2));
    assert_eq!(resolve_at_inode(&fs, 0, &w.tables[0], &d, "/mnt"), Ok(3));
    let f = at_dir(2, InodeKind::Regular, "/a/f");
    assert_eq!(resolve_at_inode(&fs, 0, &w.tables[0], &f, "x"), Err(errno::ENOTDIR));
    assert_eq!(
        resolve_at_parent(&fs, 0, &w.tables[0], &d, "n", 0),
        Ok((1, "n".to_string()))
    );
    assert_eq!(resolve_at_parent(&fs, 0, &w.tables[0], &d, "n", MS_RDONLY), Err(errno::EROFS));
    assert_eq!(resolve_path(&fs, 0, &w.tables[0], &at(), PathRead::TooLong, true), Err(errno::ENAMETOOLONG));
    assert_eq!(resolve_path(&fs, 0, &w.tables[0], &at(), PathRead::NotText, true), Err(errno::EINVAL));
    mount_other(&mut w, MS_RDONLY);
    assert_eq!(
        resolve_path_writable(&fs, 0, &w.tables[0], &w.registry.tags, &at(), given("/mnt/sub"), true),
        Err(errno::EROFS)
    );
    assert_eq!(
        resolve_path_writable(&fs, 0, &w.tables[0], &w.registry.tags, &at(), given("/a"), true),
        Ok(1)
    );
}

#[test]
fn directories_are_changed_and_made() {
    let fs = toy();
    let w = world();
    let cwd = Some("/a".to_string());
    assert_eq!(sys_chdir(&fs, 0, &w.tables[0], &cwd, given("d")), Ok((9, "/a/d".to_string())));
    assert_eq!(sys_chdir(&fs, 0, &w.tables[0], &cwd, given("f")), Err(errno::ENOTDIR));
    assert_eq!(sys_chdir(&fs, 0, &w.tables[0], &cwd, given("")), Err(errno::ENOENT));
    assert_eq!(sys_chroot(&fs, 0, &w.tables[0], &at(), given("/a"), true), Ok(1));
    assert_eq!(sys_chroot(&fs, 0, &w.tables[0], &at(), given("/a"), false), Err(errno::EPERM));
    let m = sys_mkdirat(&fs, 0, &w.tables[0], &at(), given("/a/n"), 0).ok().unwrap();
    assert_eq!((m.parent, m.leaf.as_str(), m.kind), (1, "n", InodeKind::Directory));
    assert_eq!(sys_mkdirat(&fs, 0, &w.tables[0], &at(), given("/"), 0).err(), Some(errno::EEXIST));
    let m = sys_mknodat(&fs, 0, &w.tables[0], &at(), given("/p"), 0, 0o010644, false).ok().unwrap();
    assert_eq!(m.kind, InodeKind::Pipe);
    let c = sys_mknodat(&fs, 0, &w.tables[0], &at(), given("/p"), 0, 0o020644, false);
    assert_eq!(c.err(), Some(errno::EPERM));
    let c = sys_mknodat(&fs, 0, &w.tables[0], &at(), given("/p"), 0, 0o060644, true);
    assert_eq!(c.err(), Some(errno::EINVAL));
}

#[test]
fn names_are_removed_by_their_kind_and_not_under_a_mount() {
    let fs = toy();
    let mut w = world();
    let (e, is_dir) = sys_unlinkat(&fs, &ctx(), &w, &at(), given("/a/f"), 0).ok().unwrap();
    assert_eq!((e.parent, e.leaf.as_str(), is_dir), (1, "f", false));
    assert_eq!(sys_unlinkat(&fs, &ctx(), &w, &at(), given("/a/f"), AT_REMOVEDIR).err(), Some(errno::ENOTDIR));
    assert_eq!(sys_unlinkat(&fs, &ctx(), &w, &at(), given("/a/d"), 0).err(), Some(errno::EISDIR));
    assert!(sys_unlinkat(&fs, &ctx(), &w, &at(), given("/mnt"), AT_REMOVEDIR).is_ok());
    mount_other(&mut w, 0);
    assert_eq!(sys_unlinkat(&fs, &ctx(), &w, &at(), given("/mnt"), AT_REMOVEDIR).err(), Some(errno::EBUSY));
}

#[test]
fn renaming_and_linking_find_both_entries() {
    let fs = toy();
    let w = world();
    let (a, b) = sys_renameat(&fs, &ctx(), &w, &at(), given("/a/f"), &at(), given("/g")).ok().unwrap();
    assert_eq!((a.parent, a.leaf.as_str(), b.parent, b.leaf.as_str()), (1, "f", 0, "g"));
    let r = sys_renameat(&fs, &ctx(), &w, &at(), PathRead::NotText, &at(), PathRead::TooLong);
    assert_eq!(r.err(), Some(errno::ENAMETOOLONG));
    let r = sys_renameat2(&fs, &ctx(), &w, &at(), PathRead::NotText, &at(), PathRead::TooLong);
    assert_eq!(r.err(), Some(errno::EINVAL));
    let (t, e) = sys_linkat(&fs, &ctx(), &w, &at(), given("/to_a/f"), &at(), given("/h")).ok().unwrap();
    assert_eq!((t, e.parent, e.leaf.as_str()), (2, 0, "h"));
    let r = sys_linkat(&fs, &ctx(), &w, &at(), given("/a"), &at(), given("/h"));
    assert_eq!(r.err(), Some(errno::EPERM));
    let (e, says) = sys_symlinkat(&fs, &ctx(), &w, given("x/y"), &at(), given("/s"), 0).ok().unwrap();
    assert_eq!((e.parent, e.leaf.as_str(), says.as_str()), (0, "s", "x/y"));
}

fn opening(flags: u32, path: &str, ptys: &Vec<u32>) -> Opening {
    let fs = toy();
    let w = world();
    sys_openat(&fs, 0, &w.tables[0], &at(), given(path), OpenFlags { bits: flags }, 0, ptys).0
}

#[test]
fn opening_finds_creates_or_fails() {
    let none: Vec<u32> = Vec::new();
    assert!(matches!(opening(0, "/a/f", &none), Opening::Found { inode: 2, mount: None }));
    assert!(matches!(opening(0, "/a/x", &none), Opening::Fail(errno::ENOENT)));
    assert!(matches!(opening(O_CREAT | O_EXCL, "/a/f", &none), Opening::Fail(errno::EEXIST)));
    match opening(O_CREAT | O_WRONLY, "/a/x", &none) {
        Opening::Create { parent, leaf } => assert_eq!((parent, leaf.as_str()), (1, "x")),
        _ => panic!("a new file was asked for"),
    }
    assert!(matches!(opening(0, "", &none), Opening::Fail(errno::ENOENT)));
}

#[test]
fn opening_a_terminal_by_its_path() {
    let known = vec![3u32];
    assert!(matches!(opening(0, "/dev/ptmx", &known), Opening::Pty(Pty::Master)));
    assert!(matches!(opening(0, "/dev/pts/3", &known), Opening::Pty(Pty::Slave(3))));
    assert!(matches!(opening(0, "/dev/pts/+03", &known), Opening::Pty(Pty::Slave(3))));
    assert!(matches!(opening(0, "/dev/pts/4", &known), Opening::Fail(errno::ENOENT)));
    assert!(matches!(opening(0, "/dev/pts/4294967299", &known), Opening::Fail(errno::ENOENT)));
}

#[test]
fn a_directory_without_a_path_is_opened_from_its_inode() {
    let fs = toy();
    let w = world();
    let d = at_dir(1, InodeKind::Directory, "");
    let (r, walk) = sys_openat(&fs, 0, &w.tables[0], &d, given("f"), OpenFlags { bits: 0 }, 0, &vec![]);
    assert!(matches!(r, Opening::Found { inode: 2, .. }));
    let walk = walk.unwrap();
    assert_eq!((walk.base, walk.search.as_str(), walk.known_as.as_str()), (1, "f", ""));
    let f = at_dir(2, InodeKind::Regular, "/a/f");
    let (r, _) = sys_openat(&fs, 0, &w.tables[0], &f, given("x"), OpenFlags { bits: 0 }, 0, &vec![]);
    assert!(matches!(r, Opening::Fail(errno::ENOTDIR)));
}

#[test]
fn a_path_through_a_descriptor_is_that_of_its_file() {
    let paths = vec!["".to_string(), "/a".to_string()];
    let c = |p: &str| canon_proc_fd(p.to_string(), 42, &paths);
    assert_eq!(c("/proc/self/fd/1"), "/a");
    assert_eq!(c("/proc/self/fd/1/d"), "/a/d");
    assert_eq!(c("/proc/42/fd/1/d"), "/a/d");
    assert_eq!(c("/proc/43/fd/1/d"), "/proc/43/fd/1/d");
    assert_eq!(c("/proc/self/fd/0"), "/proc/self/fd/0");
    assert_eq!(c("/proc/self/fd/-1"), "/proc/self/fd/-1");
    assert_eq!(c("/proc/self/fd/x"), "/proc/self/fd/x");
    assert_eq!(c("/proc/self/fd/2"), "/proc/self/fd/2");
}

#[test]
fn the_flags_of_mount_decide_what_is_meant() {
    let c = caller();
    assert!(matches!(plan_mount(&c, args(None, "/mnt", "tmpfs", 0), false), MountPlan::Fail(errno::EPERM)));
    assert!(matches!(plan_mount(&c, args(None, "/mnt", "nofs", 0), true), MountPlan::Fail(errno::ENODEV)));
    assert!(matches!(plan_mount(&c, args(None, "/mnt", "devpts", 0), true), MountPlan::Done));
    assert!(matches!(plan_mount(&c, args(None, "/mnt", "x", MS_BIND), true), MountPlan::Fail(errno::ENAMETOOLONG)));
    match plan_mount(&c, args(Some("/a"), "/proc/self/fd/1/d", "x", MS_MOVE), true) {
        MountPlan::Move { source, target } => assert_eq!((source.as_str(), target.as_str()), ("/a", "/a/d")),
        _ => panic!("a move was asked for"),
    }
    match plan_mount(&c, args(None, "/mnt", "x", MS_SHARED | MS_REC), true) {
        MountPlan::Propagation { target } => assert_eq!(target, "/mnt"),
        _ => panic!("a change of propagation was asked for"),
    }
    match plan_mount(&c, args(None, "/mnt", "tmpfs", 0), true) {
        MountPlan::New { source, target, fstype } => {
            assert_eq!((source.as_str(), target.as_str(), fstype.as_str()), ("none", "/mnt", "tmpfs"))
        }
        _ => panic!("a new file system was asked for"),
    }
}

fn do_mount(w: &mut MountWorld, a: MountArgs, root: NewRoot) -> (i64, bool) {
    let flags = a.flags;
    let plan = plan_mount(&caller(), a, true);
    sys_mount(&toy(), &ctx(), w, plan, flags, root)
}

#[test]
fn a_new_file_system_is_mounted_and_unmounted() {
    let mut w = world();
    assert_eq!(do_mount(&mut w, args(None, "/a/f", "tmpfs", 0), NewRoot::Root(6)), (errno::ENOTDIR, false));
    assert_eq!(do_mount(&mut w, args(None, "/mnt", "ext4", 0), NewRoot::Root(6)), (errno::ENODEV, false));
    assert_eq!(do_mount(&mut w, args(Some("/dev/vda"), "/mnt", "ext4", 0), NewRoot::Busy), (errno::EBUSY, false));
    assert_eq!(do_mount(&mut w, args(Some("/dev/vda"), "/mnt", "ext4", 0), NewRoot::NoDevice), (errno::ENODEV, true));
    assert_eq!(do_mount(&mut w, args(Some("/dev/vda"), "/mnt", "ext4", 0), NewRoot::Unreadable), (errno::EINVAL, true));
    assert_eq!(do_mount(&mut w, args(None, "/mnt", "tmpfs", MS_RDONLY), NewRoot::Root(6)), (0, false));
    assert_eq!(w.mount_lookup("/mnt"), Some(6));
    assert_eq!(w.registry.tags[w.lookup_mount_full(0, "/mnt").unwrap().in_use].flags, MS_RDONLY);
    let umount = |w: &mut MountWorld, flags: u64, capable: bool| {
        sys_umount2(&toy(), &ctx(), w, &caller(), given("/mnt"), flags, capable)
    };
    assert_eq!(umount(&mut w, 0, false).0, errno::EPERM);
    assert_eq!(umount(&mut w, MNT_EXPIRE, true).0, errno::EINVAL);
    assert_eq!(umount(&mut w, 0, true).0, 0);
    assert_eq!(umount(&mut w, 0, true).0, errno::EINVAL);
}

#[test]
fn new_flags_go_to_the_mount_that_is_meant() {
    let mut w = world();
    assert_eq!(do_mount(&mut w, args(None, "/mnt", "x", MS_REMOUNT | MS_RDONLY), NewRoot::Busy).0, errno::EINVAL);
    mount_other(&mut w, 0);
    assert_eq!(do_mount(&mut w, args(None, "/mnt", "x", MS_REMOUNT | MS_RDONLY), NewRoot::Busy).0, 0);
    assert_eq!(w.registry.tags[w.lookup_mount_full(0, "/mnt").unwrap().in_use].flags, MS_RDONLY);
}

#[test]
fn a_bound_directory_is_seen_at_both_places_and_can_move() {
    let mut w = world();
    assert_eq!(do_mount(&mut w, args(Some("/a"), "/mnt", "x", MS_BIND), NewRoot::Busy).0, 0);
    assert_eq!(resolve(&toy(), 0, &w.tables[0], 0, "/mnt/f"), Ok(2));
    assert_eq!(do_mount(&mut w, args(Some("/mnt"), "/a/d", "x", MS_MOVE), NewRoot::Busy).0, 0);
    assert_eq!(w.mount_lookup("/mnt"), None);
    assert_eq!(resolve(&toy(), 0, &w.tables[0], 0, "/a/d/f"), Ok(2));
    assert_eq!(do_mount(&mut w, args(Some("/mnt"), "/a", "x", MS_MOVE), NewRoot::Busy).0, errno::EINVAL);
}

#[test]
fn a_shared_mount_passes_on_what_is_mounted_below_it() {
    let mut w = world();
    mount_other(&mut w, 0);
    assert_eq!(do_mount(&mut w, args(None, "/mnt", "x", MS_SHARED), NewRoot::Busy).0, 0);
    assert!(w.lookup_mount_full(0, "/mnt").unwrap().propagation.is_shared());
    let other = w.copy_table(0, None);
    assert_eq!(do_mount(&mut w, args(None, "/mnt/sub", "tmpfs", 0), NewRoot::Root(9)).0, 0);
    assert_eq!(w.lookup_mount(0, "/mnt/sub"), Some(9));
    assert_eq!(w.lookup_mount(other, "/mnt/sub"), Some(9));
    let r = sys_umount2(&toy(), &ctx(), &mut w, &caller(), given("/mnt/sub"), 0, true);
    assert_eq!(r.0, 0);
    assert_eq!(w.lookup_mount(other, "/mnt/sub"), None);
}

#[test]
fn a_mount_in_use_stays_unless_it_is_detached() {
    let mut w = world();
    mount_other(&mut w, 0);
    let tag = w.lookup_mount_full(0, "/mnt").unwrap().in_use;
    let guard = MountInUseGuard::new(&mut w.registry.tags, tag);
    let umount = |w: &mut MountWorld, flags: u64| {
        sys_umount2(&toy(), &ctx(), w, &caller(), given("/mnt"), flags, true).0
    };
    assert_eq!(umount(&mut w, 0), errno::EBUSY);
    assert_eq!(w.mount_lookup("/mnt"), Some(6));
    assert_eq!(umount(&mut w, MNT_DETACH), 0);
    assert_eq!(w.mount_lookup("/mnt"), None);
    guard.release(&mut w.registry.tags);
}

fn umount(w: &mut MountWorld, target: &str, flags: u64) -> i64 {
    sys_umount2(&toy(), &ctx(), w, &caller(), given(target), flags, true).0
}

/// A tree of two mounts at `/mnt` and `/mnt/sub`, and one beside it at `/a/d`.
fn three_mounts() -> MountWorld {
    let mut w = world();
    mount_other(&mut w, MS_RDONLY);
    assert_eq!(do_mount(&mut w, args(None, "/mnt/sub", "proc", 0), NewRoot::Root(9)).0, 0);
    assert_eq!(do_mount(&mut w, args(None, "/a/d", "tmpfs", 0), NewRoot::Root(1)).0, 0);
    w
}

#[test]
fn a_move_takes_the_whole_subtree_along() {
    let mut w = three_mounts();
    let other = w.copy_table(0, None);
    assert_eq!(do_mount(&mut w, args(Some("/mnt"), "/a", "x", MS_MOVE), NewRoot::Busy).0, 0);
    assert_eq!(w.mount_lookup("/mnt"), None);
    assert_eq!(w.mount_lookup("/mnt/sub"), None);
    assert_eq!(w.mount_lookup("/a"), Some(6));
    assert_eq!(w.mount_lookup("/a/sub"), Some(9));
    assert_eq!(w.mount_lookup("/a/d"), Some(1));
    assert_eq!(w.tables[0].nodes.len(), 3);
    let top = w.lookup_mount_full(0, "/a").unwrap();
    assert_eq!((top.target_inode_id, top.fstype.as_str()), (1, "tmpfs"));
    assert_eq!(w.registry.tags[top.in_use], MountInUseTag { refs: 0, flags: MS_RDONLY });
    assert_eq!(w.lookup_mount_full(0, "/a/sub").unwrap().fstype, "proc");
    assert_eq!(w.lookup_mount(other, "/mnt/sub"), Some(9));
    assert_eq!(w.lookup_mount(other, "/a"), None);
}

#[test]
fn a_move_leaves_what_the_moved_mount_hid() {
    let mut w = world();
    assert_eq!(do_mount(&mut w, args(None, "/mnt", "tmpfs", 0), NewRoot::Root(1)).0, 0);
    mount_other(&mut w, 0);
    assert_eq!(do_mount(&mut w, args(Some("/mnt"), "/a", "x", MS_MOVE), NewRoot::Busy).0, 0);
    assert_eq!(w.mount_lookup("/a"), Some(6));
    assert_eq!(w.mount_lookup("/mnt"), Some(1));
}

#[test]
fn a_refused_move_or_bind_changes_nothing() {
    let mut w = three_mounts();
    for flags in [MS_MOVE, MS_BIND] {
        let r = do_mount(&mut w, args(Some("/mnt"), "/nothing", "x", flags), NewRoot::Busy);
        assert_eq!(r, (errno::ENOENT, false));
    }
    let r = do_mount(&mut w, args(Some("/a"), "/mnt", "x", MS_MOVE), NewRoot::Busy);
    assert_eq!(r, (errno::EINVAL, false));
    assert_eq!(w.tables[0].nodes.len(), 3);
    assert_eq!(w.mount_lookup("/mnt"), Some(6));
}

#[test]
fn a_detach_leaves_nothing_below_and_the_others_alone() {
    let mut w = three_mounts();
    assert_eq!(umount(&mut w, "/mnt", 0), errno::EBUSY);
    assert_eq!(umount(&mut w, "/mnt", MNT_DETACH), 0);
    assert_eq!(w.mount_lookup("/mnt"), None);
    assert_eq!(w.mount_lookup("/mnt/sub"), None);
    assert_eq!(w.mount_lookup("/a/d"), Some(1));
    assert_eq!(umount(&mut w, "/mnt", MNT_DETACH), errno::EINVAL);
}

#[test]
fn a_detach_uncovers_what_a_mount_below_hid() {
    let mut w = three_mounts();
    assert_eq!(do_mount(&mut w, args(None, "/mnt/sub", "tmpfs", 0), NewRoot::Root(7)).0, 0);
    assert_eq!(umount(&mut w, "/mnt", MNT_DETACH), 0);
    assert_eq!(w.mount_lookup("/mnt"), None);
    assert_eq!(w.mount_lookup("/mnt/sub"), Some(9));
}

#[test]
fn a_change_of_propagation_is_for_the_mounts_it_is_meant_for() {
    let mut w = three_mounts();
    let how = |w: &MountWorld, p: &str| w.lookup_mount_full(0, p).unwrap().propagation;
    assert_eq!(do_mount(&mut w, args(None, "/mnt", "x", MS_SHARED), NewRoot::Busy).0, 0);
    assert!(how(&w, "/mnt").is_shared());
    assert_eq!(how(&w, "/mnt/sub"), MountPropagation::Private);
    let first = how(&w, "/mnt");
    assert_eq!(do_mount(&mut w, args(None, "/mnt", "x", MS_SHARED | MS_REC), NewRoot::Busy).0, 0);
    assert_eq!(how(&w, "/mnt"), first);
    assert!(how(&w, "/mnt/sub").is_shared());
    assert_ne!(how(&w, "/mnt/sub"), first);
    assert_eq!(how(&w, "/a/d"), MountPropagation::Private);
    assert_eq!(w.mount_lookup("/mnt"), Some(6));
    assert_eq!(w.registry.tags[w.lookup_mount_full(0, "/mnt").unwrap().in_use].flags, MS_RDONLY);
}

#[test]
fn the_root_turns_to_a_mount_inside_it() {
    let fs = toy();
    let mut w = world();
    mount_other(&mut w, 0);
    let c = caller();
    let r = sys_pivot_root(&fs, &ctx(), &mut w, &c, given("/mnt"), given("/mnt/sub"), false);
    assert_eq!(r, Err(errno::EPERM));
    let r = sys_pivot_root(&fs, &ctx(), &mut w, &c, given("/a/f"), given("/mnt/sub"), true);
    assert_eq!(r, Err(errno::ENOTDIR));
    let r = sys_pivot_root(&fs, &ctx(), &mut w, &c, given("/mnt"), given("/a"), true);
    assert_eq!(r, Err(errno::EINVAL));
    let r = sys_pivot_root(&fs, &ctx(), &mut w, &c, given("/mnt"), given("/mnt/sub"), true);
    assert_eq!(r, Ok(6));
    assert_eq!(w.mount_lookup("/"), Some(6));
    assert_eq!(w.mount_lookup("/mnt"), None);
}

#[test]
fn pids_are_numbers() {
    assert_eq!(Pid::from_raw(7), Pid(7));
}

#[test]
fn a_table_that_is_gone_has_no_places_in_a_group() {
    let mut r = MountRegistry::new();
    let g = PeerGroup::new_empty(&mut r);
    r.join(MountPropagation::Shared(g), 1, "/a");
    r.join(MountPropagation::Shared(g), 2, "/b");
    r.join(MountPropagation::Slave(g), 1, "/c");
    r.forget_table(1);
    assert_eq!(g.snapshot_members(&r), vec![(2, "/b".to_string())]);
    assert!(g.snapshot_slaves(&r).is_empty());
    r.leave(MountPropagation::Shared(g), 2, "/b");
    assert!(g.snapshot_members(&r).is_empty());
}

#[test]
fn a_path_is_text() {
    assert_eq!(copy_path(read_path(Some(b"/a/b".to_vec()))), Ok("/a/b".to_string()));
    assert_eq!(copy_path(read_path(Some(vec![0x2f, 0x80]))), Err(errno::EINVAL));
    assert_eq!(copy_path(read_path(None)), Err(errno::ENAMETOOLONG));
}

#[test]
fn tables_keep_their_owners() {
    let mut w = MountWorld::new();
    w.set_root(0);
    let copy = w.copy_table(0, Some(7));
    assert_eq!((w.tables[0].owner_user_ns(), w.tables[copy].owner_user_ns()), (None, Some(7)));
    let what = NewMount {
        root: 5,
        propagation: MountPropagation::Private,
        source: "none".to_string(),
        fstype: "tmpfs".to_string(),
        flags: 0,
    };
    w.install_mount(copy, "/mnt", 1, &what);
    assert_eq!(w.remove_mount(copy, "/mnt"), Some(5));
    assert_eq!((w.tables[0].owner_user_ns(), w.tables[copy].owner_user_ns()), (None, Some(7)));
}

#[test]
fn a_tag_counts_the_uses_that_there_are() {
    let mut tags = vec![MountInUseTag::new_with_flags(3)];
    let a = MountInUseGuard::new(&mut tags, 0);
    let b = a.clone(&mut tags);
    assert_eq!(tags[0].refs(), 2);
    tags[0].set_flags(9);
    assert_eq!((tags[0].refs(), a.flags(&tags), b.flags(&tags)), (2, 9, 9));
    a.release(&mut tags);
    assert_eq!(tags[0].refs(), 1);
    b.release(&mut tags);
    assert_eq!(tags[0].refs(), 0);
}
