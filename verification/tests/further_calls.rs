use cyphera_kernel::bytes;
use cyphera_kernel::errno;
use cyphera_kernel::process_model::Pid;
use cyphera_kernel::syscall::clone::{clone3_done, CloneArgs};
use cyphera_kernel::syscall::creds::{
    sys_getresgid, sys_setdomainname, sys_setfsgid, sys_setregid, sys_setresgid, Ids, SETID_KEEP,
};
use cyphera_kernel::syscall::dispatch::AT_FDCWD;
use cyphera_kernel::syscall::event::{sys_timerfd_gettime, TimerState};
use cyphera_kernel::syscall::exec::{exec_path_refused, shown_path};
use cyphera_kernel::syscall::fs::file_io::{
    read_begin, sys_copy_file_range, sys_fadvise64, sys_pwrite64, sys_readahead, sys_tee,
    sys_vmsplice, tee_begin, write_is_noticed,
};
use cyphera_kernel::syscall::fs::inotify::{sys_inotify_add_watch, sys_inotify_init1, Watchers, IN_DONT_FOLLOW};
use cyphera_kernel::syscall::fs::link::readlink_target;
use cyphera_kernel::syscall::fs::locks::{lock_attempted, pipe_resized, LockAttempt};
use cyphera_kernel::syscall::fs::meta::{
    statx_reply, sys_faccessat, sys_fchmodat, sys_fchownat, sys_newfstatat, sys_stat, sys_statx,
    sys_utimensat, sys_utimes, Chown, FileRights, GivenTimes, SeenStat, AT_EMPTY_PATH,
};
use cyphera_kernel::syscall::fs::open::mount_of_created;
use cyphera_kernel::syscall::fs::paths::{fd_mount_is_rdonly, At, PathRead};
use cyphera_kernel::syscall::fs::xattr::{opened_file, sys_removexattr};
use cyphera_kernel::syscall::ipc::{sys_futex_requeue, sys_futex_wait, sys_futex_waitv, sys_shmdt, FutexOp, ShmOp};
use cyphera_kernel::syscall::mempolicy::sys_set_mempolicy_home_node;
use cyphera_kernel::syscall::mm::{mmap_shared, Backing, MmapState, Perms, SharedMap, Vma, PAGE};
use cyphera_kernel::syscall::mm_range::{sys_mlock2, sys_munlock, sys_munlockall};
use cyphera_kernel::syscall::message::{
    passed_files, recvmsg_end, scatter, sendmsg_out, sys_recvmsg, sys_sendmsg, Outgoing,
};
use cyphera_kernel::syscall::net::{
    passed_file, peer_place, read_header, recvfrom_len, socket_made, sys_connect, sys_getpeername,
    sys_getsockname, sys_getsockopt, sys_listen, sys_recvfrom, sys_setsockopt, sys_shutdown, Control,
    SocketCall, sendto_len, sys_sendto,
};
use cyphera_kernel::syscall::poll::{
    enter_sigmask, leave_sigmask, poll_len, read_pselect_sigmask, select_left, still_waiting, sys_poll,
    timeout_deadline, PollFd,
};
use cyphera_kernel::syscall::proc::{sys_personality, sys_syslog, sys_waitid};
use cyphera_kernel::syscall::scheduling::{
    affinity_set, resolve_affinity_pid, setattr_size, sys_sched_get_priority_min,
    sys_sched_getaffinity, sys_sched_rr_get_interval, sys_sched_setparam, SchedClass, SetClass,
};
use cyphera_kernel::syscall::signal::{sigtimedwait_begin, sys_rt_tgsigqueueinfo};
use cyphera_kernel::syscall::time::{adjtimex_shift, sys_adjtimex, sys_clock_settime};
use cyphera_kernel::syscall::util::{caller_can_set_time, fd_is_nonblock, write_timespec};
use cyphera_kernel::vfs::blocking::IoAttempt;
use cyphera_kernel::vfs::context::{Context, MountWorld, NewMount};
use cyphera_kernel::vfs::fd::FdTable;
use cyphera_kernel::vfs::mount::MS_RDONLY;
use cyphera_kernel::vfs::registry::{MountPropagation, PeerGroup};
use cyphera_kernel::vfs::tree::{FileTree, TreeNode};
use cyphera_kernel::vfs::world::InstallEffects;
use cyphera_kernel::vfs::{InodeKind, OpenFile, OpenFlags, Stat, TimeSpec, O_RDWR, O_WRONLY};

fn tree() -> FileTree {
    let names = |v: Vec<(&str, u64)>| v.iter().map(|(n, i)| (n.to_string(), *i)).collect();
    FileTree::new()
        .with(0, TreeNode::directory(names(vec![("f", 1), ("l", 2), ("mnt", 3)])))
        .with(1, TreeNode::leaf(InodeKind::Regular))
        .with(2, TreeNode::symlink("/f".to_string()))
        .with(3, TreeNode::directory(names(vec![])))
        .with(4, TreeNode::directory(names(vec![("g", 5)])))
        .with(5, TreeNode::leaf(InodeKind::Regular))
}

fn world() -> MountWorld {
    let mut w = MountWorld::new();
    w.set_root(0);
    let what = NewMount {
        root: 4,
        propagation: MountPropagation::Private,
        source: "none".to_string(),
        fstype: "tmpfs".to_string(),
        flags: MS_RDONLY,
    };
    w.install_mount(0, "/mnt", 3, &what);
    w
}

fn at() -> At {
    At { dirfd: AT_FDCWD, dir: None, cwd_path: Some("/".to_string()), cwd_inode: Some(0) }
}

fn given(p: &str) -> PathRead {
    PathRead::Path(p.to_string())
}

fn now() -> TimeSpec {
    TimeSpec { sec: 9, nsec: 0 }
}

#[test]
fn attributes_are_asked_for_by_path_or_descriptor() {
    let (fs, w) = (tree(), world());
    let m = &w.tables[0];
    assert_eq!(sys_stat(&fs, 0, m, &at(), given("/l"), false), Ok(1));
    assert_eq!(sys_stat(&fs, 0, m, &at(), given("/l"), true), Ok(2));
    assert_eq!(sys_newfstatat(&fs, 0, m, &at(), given(""), AT_EMPTY_PATH, Some(8)), Ok(8));
    assert_eq!(sys_newfstatat(&fs, 0, m, &at(), given(""), AT_EMPTY_PATH, None), Err(errno::EBADF));
    assert_eq!(sys_newfstatat(&fs, 0, m, &at(), given(""), 0, Some(8)), Err(errno::ENOENT));
    assert_eq!(sys_newfstatat(&fs, 0, m, &at(), given("/mnt/g"), 0, None), Ok(5));
    assert_eq!(sys_statx(&fs, 0, m, &at(), given("/f"), false, 0, 0, None), Err(errno::EFAULT));
    assert_eq!(sys_statx(&fs, 0, m, &at(), given(""), true, AT_EMPTY_PATH, 1, Some(8)), Ok(8));
    let r = statx_reply(&SeenStat { stat: Stat::fresh(InodeKind::Symlink, 7, 0o777), uid: 1, gid: 2 }, 50);
    let b = &r.out[0].bytes;
    assert_eq!((b.len(), bytes::u32_at(b, 0), bytes::u16_at(b, 28), bytes::u64_at(b, 40)), (256, 0x7ff, 0o120777, 7));
    assert_eq!(sys_faccessat(&fs, 0, m, &at(), given("/f"), 4, false), errno::EACCES);
    assert_eq!(sys_faccessat(&fs, 0, m, &at(), given("/f"), 0, false), 0);
    assert_eq!(sys_faccessat(&fs, 0, m, &at(), given("/x"), 0, true), errno::ENOENT);
    assert_eq!(readlink_target(&fs, &Context { root: 0, mounts: 0 }, &w, &at(), given("/l")), Ok(2));
    assert_eq!(mount_of_created(&fs, 0, m, 0, "/mnt/g"), Some(0));
    assert_eq!(mount_of_created(&fs, 0, m, 0, "/nothing"), None);
}

#[test]
fn files_on_a_read_only_mount_keep_their_times() {
    let (fs, w) = (tree(), world());
    let m = &w.tables[0];
    let none = || GivenTimes { given: false, first: None, second: None };
    let r = sys_utimensat(&fs, 0, m, &w.registry.tags, &at(), Some(given("/f")), None, none(), now());
    assert_eq!(r.unwrap().0, 1);
    let r = sys_utimensat(&fs, 0, m, &w.registry.tags, &at(), Some(given("/mnt/g")), None, none(), now());
    assert_eq!(r.err(), Some(errno::EROFS));
    let r = sys_utimes(&fs, 0, m, &w.registry.tags, &at(), None, None, none(), now());
    assert_eq!(r.err(), Some(errno::EBADF));
    let bad = GivenTimes { given: true, first: None, second: None };
    let r = sys_utimes(&fs, 0, m, &w.registry.tags, &at(), Some(given("/f")), None, bad, now());
    assert_eq!(r.err(), Some(errno::EFAULT));
    let f = OpenFile::new_with_mount(5, InodeKind::Regular, OpenFlags { bits: 0 }, Some(0)).with_path("/mnt/g".to_string());
    assert!(fd_mount_is_rdonly(&w.registry.tags, &f));
    assert_eq!(f.path, "/mnt/g");
}

#[test]
fn found_files_change_mode_and_owner_by_right() {
    let rights = FileRights {
        fsuid: 5,
        fsgid: 6,
        cap_fowner: true,
        cap_chown: true,
        owns_user: true,
        owns_group: true,
        in_new_group: false,
    };
    assert_eq!(sys_fchmodat(Ok((1, 9)), &rights, 0o4755), Ok((1, 0o4755)));
    assert_eq!(sys_fchmodat(Err(errno::EROFS), &rights, 0o4755), Err(errno::EROFS));
    assert_eq!(
        sys_fchownat(Ok(9), &rights, 7, 8, Some(70), Some(80)),
        Chown::Give { uid: Some(70), gid: Some(80) }
    );
    assert_eq!(sys_fchownat(Err(errno::ENOENT), &rights, 7, 8, None, None), Chown::Done(errno::ENOENT));
    assert_eq!(opened_file(None), Err(errno::EBADF));
    assert_eq!(sys_removexattr(Ok(3), given("user.x")), Ok((3, "user.x".to_string())));
}

#[test]
fn a_link_is_watched_itself_where_that_is_asked() {
    let (fs, w) = (tree(), world());
    let mut t = FdTable::new();
    let mut watchers = Watchers::new();
    let _ = sys_inotify_init1(&mut t, &mut watchers, 1, 100, 5, 0);
    let watch = |mask: u64, fd: Option<u64>| {
        sys_inotify_add_watch(&fs, 0, &w.tables[0], &watchers, fd, &at(), given("/l"), mask)
    };
    assert_eq!(watch(2, Some(100)), Ok((5, 1, 2)));
    assert_eq!(watch(IN_DONT_FOLLOW as u64, Some(100)), Ok((5, 2, IN_DONT_FOLLOW)));
    assert_eq!(watch(2, Some(7)), Err(errno::EBADF));
}

#[test]
fn copies_between_files_are_checked() {
    assert_eq!(read_begin(0, true), Err(0));
    assert_eq!(read_begin(0x50000, true), Ok(0x40000));
    assert!(write_is_noticed(true, InodeKind::Regular, Ok(1)));
    assert!(!write_is_noticed(true, InodeKind::Pipe, Ok(1)));
    assert_eq!(sys_pwrite64(5, None), Err(errno::EBADF));
    assert_eq!(sys_fadvise64(false), errno::EBADF);
    assert_eq!(sys_readahead(Some(InodeKind::Pipe)), errno::EINVAL);
    let rw = Some(OpenFlags { bits: O_RDWR });
    let t = sys_copy_file_range(true, rw, false, 1, Some(10), 0, None, 100).ok().unwrap();
    assert_eq!((t.count, t.from, t.to), (100, Some(10), None));
    assert_eq!(sys_copy_file_range(true, rw, true, 0, None, 0, None, 1).err(), Some(errno::EROFS));
    assert_eq!(tee_begin(true, true, 9000), Ok(4096));
    assert_eq!(sys_tee(Err(errno::ENOSYS)), Err(errno::EINVAL));
    assert_eq!(sys_tee(Ok(3)), Ok(3));
    assert_eq!(sys_vmsplice(Some(OpenFlags { bits: O_WRONLY })), Ok(true));
    assert_eq!(pipe_resized(None), errno::EBUSY);
    assert_eq!(pipe_resized(Some(4096)), 4096);
    assert!(matches!(lock_attempted(&LockAttempt::InTheWay), IoAttempt::WouldBlock));
    assert!(matches!(lock_attempted(&LockAttempt::Locked(vec![])), IoAttempt::Ready(())));
}

#[test]
fn groups_change_as_users_do() {
    let k = SETID_KEEP;
    let mut i = Ids { real_id: 1, effective: 2, saved: 3, fs: 2 };
    assert_eq!(sys_setresgid(&mut i, k, 3, k, None, Some(3), None, false), 0);
    assert_eq!((i.real_id, i.effective, i.saved, i.fs), (1, 3, 3, 3));
    assert_eq!(sys_setregid(&mut i, 1, k, Some(1), None, false), 0);
    assert_eq!(sys_setfsgid(&mut i, 1, Some(1), 3, false), 3);
    assert_eq!(i.fs, 1);
    assert_eq!(sys_getresgid(1, 2, 3, 7, 8, 9).out[2].bytes, vec![9, 0, 0, 0]);
    let mut name = String::new();
    assert_eq!(sys_setdomainname(&mut name, 1, 3, true, Some(b"dom".to_vec())), 0);
    assert_eq!(name, "dom");
}

#[test]
fn waiting_and_masks_are_entered_and_left() {
    assert!(still_waiting(Some(10), 9, true));
    assert!(!still_waiting(Some(10), 10, true));
    assert!(!still_waiting(None, 0, false));
    assert_eq!(poll_len(3), Ok(24));
    assert_eq!(poll_len(1025), Err(errno::EINVAL));
    assert!(sys_poll(&vec![], 0).is_none());
    assert_eq!(sys_poll(&vec![PollFd { fd: 3, events: 1, revents: 1 }], 1).unwrap(), vec![3, 0, 0, 0, 1, 0, 1, 0]);
    assert_eq!(timeout_deadline(0, false, None, 5), Ok((None, false)));
    assert_eq!(timeout_deadline(1, false, None, 5), Err(errno::EFAULT));
    assert_eq!(select_left(1, 0, Some(2_000_005_000), 2_000_000_000).unwrap()[8], 5);
    assert_eq!(read_pselect_sigmask(0, None), Ok((0, 0)));
    let mut blocked = 7u64;
    let saved = enter_sigmask(&mut blocked, Some(1));
    assert_eq!((blocked, saved), (1, Some(7)));
    leave_sigmask(&mut blocked, saved);
    assert_eq!(blocked, 7);
    assert!(sigtimedwait_begin(1, Some(vec![4, 0, 0, 0, 0, 0, 0, 0]), 0, None, 8, 0).is_ok());
    assert_eq!(sigtimedwait_begin(1, None, 0, None, 8, 0).err(), Some(errno::EFAULT));
    assert!(sys_rt_tgsigqueueinfo(None, None, None, 10, None, 0, 64).is_err());
    let st = TimerState { clockid: 1, deadline: 150, interval: 10 };
    assert_eq!(sys_timerfd_gettime(Some(st), 50, 100).out[0].bytes[24], 50);
}

#[test]
fn programs_and_children_are_told() {
    assert_eq!(exec_path_refused("/proc/self/exe", true), Some(errno::EACCES));
    assert_eq!(exec_path_refused("/bin/ls", true), None);
    assert_eq!(shown_path(&vec![b"/x".to_vec()], &b"/y".to_vec()), b"/x".to_vec());
    assert_eq!(shown_path(&vec![b"x".to_vec()], &b"/y".to_vec()), b"/y".to_vec());
    let a = CloneArgs { flags: 0, child_stack: 0, ptid: 0, ctid: 0, tls: 0, pidfd: Some(9) };
    assert_eq!(clone3_done(a, 5, true, Ok(3), true), 5);
    assert_eq!(clone3_done(a, 5, true, Ok(3), false), errno::EFAULT);
    assert_eq!(clone3_done(a, 5, true, Err(errno::EMFILE), true), errno::EMFILE);
    assert_eq!(sys_waitid(9, Ok(true), vec![1]).out.len(), 1);
    assert_eq!(sys_waitid(9, Ok(false), vec![1]).out.len(), 0);
    let _ = sys_personality();
    let s = sys_syslog(4, 1, 2, &b"log".to_vec(), 0, 9);
    assert_eq!((s.reply.out[0].bytes.clone(), s.clear), (b"lo".to_vec(), true));
    assert_eq!(sys_syslog(10, 0, 0, &vec![], 0, 9).reply.code, 9);
    assert_eq!(sys_syslog(11, 0, 0, &vec![], 0, 9).reply.code, errno::EINVAL);
}

#[test]
fn memory_and_processors_are_asked_for() {
    let p = Perms { read: true, write: true, execute: false };
    let vma = Vma { start: 0x1000, end: 0x3000, prot: p, anon: false, shared: true, backing: Backing::Anonymous };
    assert!(matches!(mmap_shared(vma, 2, None, true, 0), SharedMap::Reply(errno::ENOMEM)));
    assert!(matches!(mmap_shared(vma, 2, Some(5), false, 0), SharedMap::Reply(errno::EINVAL)));
    assert!(matches!(mmap_shared(vma, 2, Some(5), true, 1), SharedMap::Undo { pages: 1 }));
    assert!(matches!(mmap_shared(vma, 2, Some(5), true, 2), SharedMap::Enter(_)));
    let m = MmapState { vmas: vec![vma], arena_lo: 0, arena_hi: 0x10000 };
    assert_eq!(sys_munlock(&m, 0x1000, PAGE), 0);
    assert_eq!(sys_mlock2(&m, 0x1000, PAGE, 0), 0);
    assert_eq!(sys_munlockall(), 0);
    assert_eq!(sys_set_mempolicy_home_node(0), 0);
    assert_eq!(resolve_affinity_pid(0, Pid(4), None), Some(Pid(4)));
    assert!(matches!(sys_sched_setparam(None, None, 1, None, true), SetClass::Reply(_)));
    assert_eq!(sys_sched_get_priority_min(1), 1);
    assert_eq!(setattr_size(1, Some(vec![48, 0, 0, 0])), Ok(48));
    assert_eq!(setattr_size(1, Some(vec![47, 0, 0, 0])), Err(errno::EINVAL));
    assert_eq!(sys_sched_rr_get_interval(50, Some(Pid(1)), Some(SchedClass::Cfs), 5).code, 0);
    assert_eq!(affinity_set(true, true, 0b10, 0), (0, true));
    assert_eq!(affinity_set(false, true, 0b10, 0), (errno::ESRCH, false));
    assert_eq!(sys_sched_getaffinity(8, 50, 4, Some(Pid(1)), Some(0b111), 0b011).out[0].bytes[0], 0b011);
}

#[test]
fn times_are_set_by_right() {
    assert!(caller_can_set_time(Some(0)));
    assert!(!caller_can_set_time(Some(1)));
    assert!(fd_is_nonblock(Some(0o4000)));
    assert!(!fd_is_nonblock(None));
    assert_eq!(sys_clock_settime(0, 1, true, Some(write_timespec(5, 6))), Ok(5_000_000_006));
    assert_eq!(sys_clock_settime(0, 1, false, Some(write_timespec(5, 6))), Err(errno::EPERM));
    assert_eq!(sys_clock_settime(1, 1, true, Some(write_timespec(5, 6))), Err(errno::EINVAL));
    let b = vec![0u8; 184];
    assert_eq!(adjtimex_shift(1, &Some(b.clone()), false), Ok(None));
    assert_eq!(adjtimex_shift(0, &Some(b.clone()), false), Err(errno::EFAULT));
    assert_eq!(sys_adjtimex(50, &b, 7_000_000_000).out[0].bytes.len(), 184);
}

#[test]
fn messages_have_lengths_and_places() {
    assert_eq!(peer_place(1, 2), Some((1, 2)));
    assert_eq!(peer_place(0, 2), None);
    assert_eq!(sendto_len(5, true), Ok(5));
    assert_eq!(sendto_len(5, false), Err(errno::ENOTSOCK));
    assert_eq!(recvfrom_len(0x40001, true), Err(errno::EINVAL));
    assert_eq!(sys_sendto(true, 0, 0, None), Ok(None));
    assert_eq!(sys_sendto(false, 0, 0, None), Err(errno::EFAULT));
    assert_eq!(sys_sendto(true, 1, 129, None), Err(errno::EINVAL));
    let mut t = FdTable::new();
    let _ = t.install(9);
    assert_eq!(passed_file(&t, Some(0)), Ok(9));
    assert_eq!(passed_file(&t, Some(1)), Err(errno::EBADF));
    assert_eq!(passed_file(&t, None), Err(errno::EFAULT));
    assert!(matches!(sys_futex_wait(1, 2, 3, 2, 0, 0, None), Ok(FutexOp::WaitBitset { uaddr: 1, val: 2, bits: 3, .. })));
    assert!(sys_futex_requeue(None, 0, 1, 1).is_err());
    assert!(sys_futex_waitv(None, 0, 0, None).is_err());
    assert!(matches!(sys_shmdt(false, 5), Ok(ShmOp::Detach { addr: 5 })));
}

#[test]
fn a_mount_knows_its_group() {
    let mut w = world();
    assert!(w.set_mount_propagation(0, "/mnt", MountPropagation::Shared(PeerGroup(3))));
    assert!(!w.set_mount_propagation(0, "/x", MountPropagation::Private));
    let p = w.lookup_mount_full(0, "/mnt").unwrap().propagation;
    assert_eq!((p.is_shared(), p.is_slave(), p.is_private()), (true, false, false));
    assert_eq!((p.shared_group(), p.slave_group()), (Some(PeerGroup(3)), None));
    assert_eq!(w.try_root_inode(), Some(0));
    assert_eq!(Context::global(&w), Context { root: 0, mounts: 0 });
    assert_eq!(Context::for_table(&w, 0), Context { root: 0, mounts: 0 });
    assert!(InstallEffects::default().mirrors.is_empty());
    let mut t = FdTable::new();
    assert_eq!(t.install_at(3, 7), None);
    assert_eq!(t.install_at(3, 8), Some(7));
}

fn message_head(name: u8, room: u8, parts: u8) -> Vec<u8> {
    let mut h = vec![0u8; 56];
    h[0] = name;
    h[8] = room;
    h[16] = 1;
    h[24] = parts;
    h
}

fn part_list(parts: &[(u8, u8)]) -> Vec<u8> {
    let mut raw = Vec::new();
    for (base, len) in parts {
        raw.extend_from_slice(&[*base, 0, 0, 0, 0, 0, 0, 0, *len, 0, 0, 0, 0, 0, 0, 0]);
    }
    raw
}

#[test]
fn a_message_is_received_in_parts() {
    assert_eq!(sys_recvmsg(None, None, true).err(), Some(errno::EFAULT));
    let head = message_head(0, 0, 2);
    assert_eq!(sys_recvmsg(Some(head.clone()), None, true).err(), Some(errno::EFAULT));
    let raw = part_list(&[(100, 3), (200, 5)]);
    assert_eq!(sys_recvmsg(Some(head.clone()), Some(raw.clone()), false).err(), Some(errno::EBADF));
    let empty = part_list(&[(100, 0), (200, 0)]);
    assert_eq!(sys_recvmsg(Some(head.clone()), Some(empty), false).err(), Some(0));
    let m = sys_recvmsg(Some(head), Some(raw), true).ok().unwrap();
    assert_eq!(m.len, 8);
    let r = scatter(&m.parts, &vec![1, 2, 3, 4]);
    assert_eq!(r.code, 4);
    let out: Vec<(u64, Vec<u8>)> = r.out.iter().map(|c| (c.to, c.bytes.clone())).collect();
    assert_eq!(out, vec![(100, vec![1, 2, 3]), (200, vec![4])]);
}

#[test]
fn a_received_message_tells_of_its_sender() {
    let head = read_header(&message_head(90, 2, 0));
    let control = Control { data: vec![7; 24], truncated: false };
    let told = |copied: bool, src: Option<Vec<u8>>| -> Vec<(u64, Vec<u8>)> {
        recvmsg_end(1000, head, &src, &control, copied)
            .iter()
            .map(|c| (c.to, c.bytes.clone()))
            .collect()
    };
    assert_eq!(
        told(true, Some(vec![1, 2, 3])),
        vec![
            (90, vec![1, 2]),
            (1008, vec![3, 0, 0, 0]),
            (1040, vec![24, 0, 0, 0, 0, 0, 0, 0]),
            (1048, vec![0, 0, 0, 0]),
        ]
    );
    assert_eq!(
        told(false, None),
        vec![
            (1008, vec![0, 0, 0, 0]),
            (1040, vec![0, 0, 0, 0, 0, 0, 0, 0]),
            (1048, vec![8, 0, 0, 0]),
        ]
    );
}

#[test]
fn a_message_is_sent_from_parts() {
    let head = message_head(0, 0, 2);
    let raw = part_list(&[(100, 3), (200, 5)]);
    let m = sys_sendmsg(Some(head.clone()), Some(raw.clone()), Ok(vec![4]), true).ok().unwrap();
    assert_eq!((m.len, m.files), (8, vec![4]));
    assert_eq!((m.pieces[1].base, m.pieces[1].from, m.pieces[1].len), (200, 3, 5));
    assert_eq!(
        sys_sendmsg(Some(head.clone()), Some(raw), Err(errno::EBADF), true).err(),
        Some(errno::EBADF)
    );
    let empty = part_list(&[(100, 0), (200, 0)]);
    assert_eq!(sys_sendmsg(Some(head.clone()), Some(empty.clone()), Ok(vec![]), true).err(), Some(0));
    assert!(sys_sendmsg(Some(head), Some(empty), Ok(vec![4]), true).is_ok());
    let mut t = FdTable::new();
    let _ = t.install(9);
    assert_eq!(passed_files(&t, &vec![Some(0), Some(0)]), Ok(vec![9, 9]));
    assert_eq!(passed_files(&t, &vec![Some(0), Some(3), None]), Err(errno::EBADF));
    assert_eq!(passed_files(&t, &vec![None, Some(3)]), Err(errno::EFAULT));
    assert_eq!(sendmsg_out(true, 0, false, 0x40), Outgoing::Bytes { nonblock: true });
    assert_eq!(sendmsg_out(true, 1, false, 0), Outgoing::WithFiles { nonblock: false });
    assert_eq!(sendmsg_out(false, 1, false, 0), Outgoing::Reply(errno::EFAULT));
}

#[test]
fn calls_on_sockets_are_made_on_sockets() {
    assert!(matches!(sys_listen(true, 5), SocketCall::Listen { backlog: 5 }));
    assert!(matches!(sys_listen(false, 5), SocketCall::Reply(errno::ENOTSOCK)));
    assert!(matches!(sys_connect(0, None, true, false), SocketCall::Reply(errno::EINVAL)));
    assert!(matches!(sys_connect(2, None, true, false), SocketCall::Reply(errno::EFAULT)));
    assert!(matches!(sys_connect(2, Some(vec![1, 2]), false, false), SocketCall::Reply(errno::ENOTSOCK)));
    assert!(matches!(sys_connect(2, Some(vec![1, 2]), true, true), SocketCall::Connect { nonblock: true, .. }));
    assert!(matches!(sys_shutdown(true, 2), SocketCall::Shutdown { how: 2 }));
    assert!(matches!(
        sys_setsockopt(true, 1, 2, 3, 4),
        SocketCall::SetOption { level: 1, option: 2, value: 3, len: 4 }
    ));
    assert!(matches!(
        sys_getsockopt(true, 1, 2, 3, 4),
        SocketCall::GetOption { level: 1, option: 2, value: 3, len_at: 4 }
    ));
    assert!(matches!(sys_getsockname(true, 1, 2), SocketCall::OwnName { to: 1, len_at: 2 }));
    assert!(matches!(sys_getpeername(true, 1, 2), SocketCall::PeerName { to: 1, len_at: 2 }));
    assert!(matches!(sys_getpeername(false, 1, 2), SocketCall::Reply(errno::ENOTSOCK)));
    let mut t = FdTable::new();
    assert_eq!(socket_made(&mut t, Err(errno::ENOMEM), false), errno::ENOMEM);
    assert_eq!(socket_made(&mut t, Ok(3), true), 0);
    let r = sys_recvfrom(50, Ok(vec![1, 2]));
    assert_eq!((r.code, r.out[0].to, r.out[0].bytes.clone()), (2, 50, vec![1, 2]));
    assert!(sys_recvfrom(50, Ok(vec![])).out.is_empty());
    assert_eq!(sys_recvfrom(50, Err(errno::EAGAIN)).code, errno::EAGAIN);
}
