use cyphera_kernel::bytes;
use cyphera_kernel::errno;
use cyphera_kernel::process_model::Pid;
use cyphera_kernel::syscall::event::{
    epoll_max, epoll_timeout, epoll_wait_common, sys_epoll_create1, sys_epoll_ctl, sys_eventfd2,
    sys_signalfd4, sys_timerfd_create, sys_timerfd_settime, EpollCtl, EpollEvent, Found, SignalFd,
    TimerState, CLOEXEC, EPOLL_CTL_ADD, EPOLL_CTL_DEL, NONBLOCK,
};
use cyphera_kernel::syscall::fs::dir::{sys_fchdir, sys_getcwd, sys_getdents, sys_getdents64, Dirent};
use cyphera_kernel::syscall::fs::dsp::{
    do_dsp_ioctl, Dsp, AFMT_QUERY, AFMT_S16_LE, AFMT_U8, SNDCTL_DSP_CHANNELS, SNDCTL_DSP_GETOSPACE,
    SNDCTL_DSP_SETFMT, SNDCTL_DSP_SPEED, SNDCTL_DSP_STEREO,
};
use cyphera_kernel::syscall::fs::fdpair::{install_pair, pair_bytes, pair_told, sys_pipe2};
use cyphera_kernel::syscall::fs::file_io::{
    advanced, joined_offset, lseek_whence, read_file, write_file, sys_dup, sys_dup2, sys_dup3, sys_fallocate, sys_fsync,
    sys_ftruncate, sys_lseek, sys_pread64, sys_read, sys_sendfile, sys_sync_file_range, sys_truncate,
    sys_write, write_reply, written_back, zero_chunk, TruncateFacts, FALLOC_FL_KEEP_SIZE, FALLOC_FL_PUNCH_HOLE,
};
use cyphera_kernel::syscall::fs::inotify::{
    lookup_inotify, sys_inotify_init1, sys_inotify_rm_watch, Watchers, IN_CLOEXEC, IN_NONBLOCK,
};
use cyphera_kernel::syscall::fs::ioctl::{
    console_fg_pgrp, console_group_seen, console_set_fg, fb_fix_screeninfo, fb_var_screeninfo,
    sys_ioctl, termios_get_pub, Console, Device, DeviceFile, IoctlStep, Screen, Terminals, TtyFacts,
    FBIOGET_VSCREENINFO, MASTER_BIT, TCFLSH, TCGETS, TCSETSF, TIOCGPGRP, TIOCGPTN, TIOCGSID,
    TIOCGWINSZ, TIOCNOTTY, TIOCSCTTY, TIOCSPGRP, TIOCSWINSZ,
};
use cyphera_kernel::syscall::fs::iovec::{
    iovecs_len, next_part, read_iovecs, spread_over, total_len, vec_step, VecStep,
};
use cyphera_kernel::syscall::fs::link::sys_readlinkat;
use cyphera_kernel::syscall::fs::locks::{
    get_lock, lock_range, set_lock, sys_fcntl, sys_flock, try_lock, FcntlFile, FcntlStep, LockAttempt,
    LockHow, F_ADD_SEALS, F_DUPFD, F_DUPFD_CLOEXEC, F_GETFD, F_GETFL, F_GETPIPE_SZ, F_OFD_SETLKW,
    F_SETFD, F_SETFL, F_SETPIPE_SZ,
};
use cyphera_kernel::syscall::fs::meta::{
    chmod_permitted, chown_permitted, pack_stat, read_times, sys_fchmod, sys_fchown, sys_fstat,
    sys_statfs, timeval_pair, wall_now, Chown, FileRights, Pages, SeenStat, UTIME_NOW, UTIME_OMIT,
};
use cyphera_kernel::syscall::fs::open::{
    access_needed, check_open, check_open_access, finish_open, sys_close, sys_close_range,
    sys_memfd_create, sys_openat2, Opened,
};
use cyphera_kernel::syscall::fs::paths::{apply_create_mode, PathRead};
use cyphera_kernel::syscall::fs::xattr::{
    sys_getxattr, sys_getxattrat, sys_listxattrat, sys_removexattrat, sys_setxattr, sys_setxattrat,
    xattr_reply,
};
use cyphera_kernel::syscall::net::{
    cmsg_align, deliver_control, does_not_wait, name_told, parse_scm_rights, read_header,
    sys_accept, sys_bind, sys_socket, sys_socketpair, Sender, SocketKind,
};
use cyphera_kernel::syscall::poll::{
    do_select, poll_deadline, poll_scan, poll_begin, poll_round, poll_woken, read_pollfds, select_fds,
    select_len, write_pollfds, PollFd, PollStep, POLLIN, POLLNVAL, POLLOUT,
};
use cyphera_kernel::syscall::util::write_timespec;
use cyphera_kernel::syscall::waiting::{
    poll_request, select_end, sys_epoll_pwait, sys_epoll_pwait2, sys_epoll_wait, sys_ppoll,
    sys_pselect6, sys_select, EpollWait, Given, Places, Sets,
};
use cyphera_kernel::timeout::Deadlines;
use cyphera_kernel::vfs::blocking::{IoAttempt, WaitOutcome};
use cyphera_kernel::vfs::fd::{FdTable, FD_CLOEXEC};
use cyphera_kernel::vfs::locks::bsd::{self, FlockTable};
use cyphera_kernel::vfs::locks::posix::{self, LockTable};
use cyphera_kernel::vfs::mount::{MS_NODEV, MS_RDONLY};
use cyphera_kernel::vfs::{
    InodeKind, OpenFile, OpenFlags, Stat, TimeSpec, O_APPEND, O_CREAT, O_DIRECTORY, O_NOFOLLOW,
    O_PATH, O_RDWR, O_TRUNC, O_WRONLY,
};

fn flags(bits: u32) -> OpenFlags {
    OpenFlags { bits }
}

#[test]
fn reading_and_writing_are_cut_to_a_size() {
    assert_eq!(sys_write(10, true, true), Ok(10));
    assert_eq!(sys_write(0x20_0000, true, true), Ok(0x10_0000));
    assert_eq!(sys_write(10, false, true), Err(errno::EFAULT));
    assert_eq!(sys_write(10, true, false), Err(errno::EBADF));
    assert_eq!(write_reply(Err(errno::EPIPE)), (errno::EPIPE, true));
    assert_eq!(write_reply(Ok(4)), (4, false));
    let r = sys_read(50, Ok(vec![1, 2]));
    assert_eq!((r.code, r.out[0].bytes.clone()), (2, vec![1, 2]));
    assert_eq!(sys_read(50, Err(errno::EIO)).code, errno::EIO);
}

#[test]
fn reads_and_writes_follow_one_another() {
    let mut f = OpenFile::new(1, InodeKind::Regular, flags(O_RDWR));
    assert_eq!(read_file(&mut f, 50, Ok(vec![1, 2, 3])).code, 3);
    assert_eq!(f.read_offset(), Ok(3));
    let w = write_file(&mut f, 100, Ok(4), true);
    assert_eq!((w.code, w.broken_pipe, w.noticed, f.offset), (4, false, true, 7));
    let w = write_file(&mut f, 100, Err(errno::EPIPE), true);
    assert_eq!((w.code, w.broken_pipe, w.noticed, f.offset), (errno::EPIPE, true, false, 7));
    let mut a = OpenFile::new(1, InodeKind::Regular, flags(O_WRONLY | O_APPEND));
    assert_eq!(write_file(&mut a, 100, Ok(4), false).code, 4);
    assert_eq!(a.offset, 104);
    assert_eq!(read_file(&mut a, 50, Ok(vec![1])).code, errno::EACCES);
}

#[test]
fn seeking_knows_three_ways() {
    assert!(lseek_whence(0, true).is_ok());
    assert_eq!(lseek_whence(3, true).err(), Some(errno::EINVAL));
    assert_eq!(lseek_whence(0, false).err(), Some(errno::EBADF));
    let mut f = OpenFile::new(1, InodeKind::Regular, flags(0));
    assert_eq!(sys_lseek(&mut f, lseek_whence(0, true).unwrap(), 9, 100), 9);
    assert_eq!(f.offset, 9);
}

#[test]
fn descriptors_are_duplicated() {
    let mut t = FdTable::new();
    let _ = t.install(7);
    assert_eq!(sys_dup(&mut t, 0), 1);
    assert_eq!(sys_dup(&mut t, 9), errno::EBADF);
    assert_eq!(sys_dup2(&mut t, 0, 5), (5, None));
    assert_eq!(sys_dup2(&mut t, 0, 5), (5, Some(7)));
    assert_eq!(sys_dup3(&mut t, 0, 0, 0).0, errno::EINVAL);
    assert_eq!(sys_dup3(&mut t, 0, 6, CLOEXEC).0, 6);
    assert_eq!(t.fd_flags(6), Some(FD_CLOEXEC));
}

#[test]
fn positions_and_sizes_are_checked() {
    assert_eq!(sys_pread64(10, None), Err(errno::EBADF));
    assert_eq!(sys_pread64(10, Some(flags(O_WRONLY))), Err(errno::EBADF));
    assert_eq!(sys_pread64(10, Some(flags(0))), Ok(10));
    assert_eq!(joined_offset(5, 0), 5);
    assert_eq!(advanced(5, 3), 8);
    assert_eq!(sys_truncate(Ok(TruncateFacts { kind: InodeKind::Directory, may_write: true })), Some(errno::EISDIR));
    assert_eq!(sys_truncate(Err(errno::ENOENT)), Some(errno::ENOENT));
    assert_eq!(sys_truncate(Ok(TruncateFacts { kind: InodeKind::Regular, may_write: true })), None);
    assert_eq!(sys_ftruncate(None), Some(errno::EBADF));
    assert_eq!(sys_fsync(None), Some(errno::EBADF));
    assert_eq!((written_back(true), written_back(false)), (0, errno::EIO));
    assert!(sys_sync_file_range(Some(InodeKind::Regular), 0, 10, 0).is_ok());
    let a = sys_fallocate(Some(100), false, 0, 50, 100).ok().unwrap();
    assert_eq!(a.resize, Some(150));
    let p = sys_fallocate(Some(100), false, FALLOC_FL_PUNCH_HOLE | FALLOC_FL_KEEP_SIZE, 10, 20).ok().unwrap();
    assert_eq!((p.resize, p.zero_from, p.zero_to), (None, 10, 30));
    assert_eq!(sys_fallocate(Some(100), false, FALLOC_FL_PUNCH_HOLE, 0, 1).err(), Some(errno::EINVAL));
    assert_eq!(sys_fallocate(Some(100), true, 0, 0, 1).err(), Some(errno::EROFS));
    assert_eq!(zero_chunk(0, 5000), 4096);
    assert_eq!(zero_chunk(4096, 5000), 904);
}

#[test]
fn a_transfer_goes_on_until_all_is_moved() {
    let mut t = sys_sendfile(true, true, 1, Some(100), 5000).ok().unwrap();
    assert_eq!(t.want(), 4096);
    assert!(t.wrote(4096, 4096));
    assert_eq!((t.done, t.from), (4096, Some(4196)));
    assert_eq!(t.want(), 904);
    assert!(!t.wrote(904, 904));
    assert_eq!(sys_sendfile(false, true, 0, None, 1).err(), Some(errno::EBADF));
    assert_eq!(sys_sendfile(true, true, 1, None, 1).err(), Some(errno::EFAULT));
}

#[test]
fn scattered_buffers_lose_nothing() {
    let mut raw = Vec::new();
    for (base, len) in [(100u64, 3u64), (200, 0), (300, 4)] {
        bytes::push_u64(&mut raw, base);
        bytes::push_u64(&mut raw, len);
    }
    assert_eq!(iovecs_len(3), Ok(48));
    assert_eq!(iovecs_len(1025), Err(errno::EINVAL));
    let v = read_iovecs(3, Some(raw)).ok().unwrap();
    assert_eq!(read_iovecs(3, None).err(), Some(errno::EFAULT));
    assert_eq!(total_len(&v), 7);
    let pieces: Vec<(u64, u64, u64)> = spread_over(&v, 5).iter().map(|p| (p.base, p.from, p.len)).collect();
    assert_eq!(pieces, vec![(100, 0, 3), (300, 3, 2)]);
    assert_eq!(next_part(&v, 1), Some(2));
    assert!(matches!(vec_step(3, 4, 4), VecStep::Next(7)));
    assert!(matches!(vec_step(3, 2, 4), VecStep::Return(5)));
    assert!(matches!(vec_step(3, errno::EIO, 4), VecStep::Return(3)));
    assert!(matches!(vec_step(0, errno::EIO, 4), VecStep::Return(errno::EIO)));
}

#[test]
fn a_pair_is_both_or_none() {
    let mut t = FdTable::new();
    assert_eq!(install_pair(&mut t, 1, 2, FD_CLOEXEC), Ok((0, 1)));
    assert_eq!(pair_bytes(3, 4), vec![3, 0, 0, 0, 4, 0, 0, 0]);
    assert_eq!(pair_told(&mut t, 0, 1, true), 0);
    assert_eq!(pair_told(&mut t, 0, 1, false), errno::EFAULT);
    assert_eq!((t.get(0), t.get(1)), (None, None));
    let mut full = FdTable::new();
    let _ = full.set_soft_cap(1);
    assert_eq!(install_pair(&mut full, 1, 2, 0), Err(errno::EMFILE));
    assert_eq!(full.get(0), None);
    let mut t = FdTable::new();
    assert_eq!(sys_pipe2(&mut t, 1, 2, CLOEXEC), Ok((0, 1)));
    assert_eq!((t.fd_flags(0), t.fd_flags(1)), (Some(FD_CLOEXEC), Some(FD_CLOEXEC)));
}

#[test]
fn closing_frees_locks_unless_only_a_path_was_open() {
    let mut t = FdTable::new();
    let mut locks = LockTable::new();
    let _ = t.install(1);
    let _ = t.install(2);
    let _ = posix::try_set_lock(&mut locks, 77, posix::F_WRLCK, 0, 10, Pid(1));
    let (code, _) = sys_close(&mut t, &mut locks, Pid(1), 0, Some(Opened { flags: flags(O_PATH), inode: 77 }));
    assert_eq!(code, 0);
    assert!(posix::find_conflict(&locks, 77, posix::F_WRLCK, 0, 1, Pid(2)).is_some());
    let (code, _) = sys_close(&mut t, &mut locks, Pid(1), 1, Some(Opened { flags: flags(0), inode: 77 }));
    assert_eq!(code, 0);
    assert!(posix::find_conflict(&locks, 77, posix::F_WRLCK, 0, 1, Pid(2)).is_none());
    assert_eq!(sys_close(&mut t, &mut locks, Pid(1), 1, None).0, errno::EBADF);
    for f in 0..5 {
        let _ = t.install(f);
    }
    assert_eq!(sys_close_range(&mut t, 1, 3), 0);
    assert_eq!((t.get(0), t.get(1), t.get(3), t.get(4)), (Some(0), None, None, Some(4)));
    assert_eq!(sys_close_range(&mut t, 3, 1), errno::EINVAL);
    assert_eq!(sys_close_range(&mut t, 0, u32::MAX as u64), 0);
    assert_eq!(t.get(0), Some(0));
}

#[test]
fn opening_respects_kind_and_mount() {
    assert_eq!(check_open(InodeKind::Regular, flags(O_DIRECTORY), 0), Err(errno::ENOTDIR));
    assert_eq!(check_open(InodeKind::Directory, flags(O_WRONLY), 0), Err(errno::EISDIR));
    assert_eq!(check_open(InodeKind::Regular, flags(O_WRONLY), MS_RDONLY), Err(errno::EROFS));
    assert_eq!(check_open(InodeKind::Regular, flags(O_CREAT), MS_RDONLY), Err(errno::EROFS));
    assert_eq!(check_open(InodeKind::CharDevice, flags(0), MS_NODEV), Err(errno::EACCES));
    assert_eq!(check_open(InodeKind::Regular, flags(O_RDWR | O_TRUNC), 0), Ok(true));
    assert_eq!(check_open(InodeKind::Regular, flags(O_TRUNC), 0), Ok(false));
    assert_eq!(access_needed(flags(O_RDWR)), 6);
    assert_eq!(access_needed(flags(O_WRONLY)), 2);
    assert_eq!(check_open_access(flags(0), false), Err(errno::EACCES));
    assert_eq!(check_open_access(flags(0), true), Ok(()));
    let mut t = FdTable::new();
    assert_eq!(finish_open(&mut t, 5, InodeKind::Regular, flags(0), 0, Ok(())), 0);
    assert_eq!(finish_open(&mut t, 5, InodeKind::Regular, flags(O_RDWR | O_TRUNC), 0, Err(errno::EIO)), errno::EIO);
    let _ = t.set_soft_cap(1);
    assert_eq!(finish_open(&mut t, 6, InodeKind::Regular, flags(0), 0, Ok(())), errno::EMFILE);
    let mut how = Vec::new();
    for x in [5u64, 0o644, 4] {
        bytes::push_u64(&mut how, x);
    }
    assert_eq!(sys_openat2(24, Some(how.clone())), Ok((5 | O_NOFOLLOW as u64, 0o644)));
    assert_eq!(sys_openat2(23, Some(how.clone())), Err(errno::EINVAL));
    assert_eq!(sys_openat2(24, None), Err(errno::EFAULT));
    how[16] = 0x40;
    assert_eq!(sys_openat2(24, Some(how)), Err(errno::EINVAL));
    assert_eq!(apply_create_mode(0o10777, 0o022), 0o755);
    let mut t = FdTable::new();
    assert_eq!(sys_memfd_create(&mut t, 9, 1, Some(b"x\0".to_vec()), 3), (0, true));
    assert_eq!(t.fd_flags(0), Some(FD_CLOEXEC));
    assert_eq!(sys_memfd_create(&mut t, 9, 1, Some(b"x\0".to_vec()), 4).0, errno::EINVAL);
    assert_eq!(sys_memfd_create(&mut t, 9, 1, None, 0).0, errno::EFAULT);
}

fn entries() -> Result<Vec<Dirent>, i64> {
    let e = |id: u64, kind: InodeKind, name: &str| Dirent { inode_id: id, kind, name: name.as_bytes().to_vec() };
    Ok(vec![
        e(5, InodeKind::Directory, "ab"),
        e(6, InodeKind::Regular, "a_longer_name"),
        e(7, InodeKind::Socket, "c"),
    ])
}

#[test]
fn a_directory_is_listed_in_records_of_eights() {
    let dir = Some(InodeKind::Directory);
    let l = sys_getdents64(dir, &entries(), 0, 50, 4096);
    let b = &l.reply.out[0].bytes;
    assert_eq!(l.reply.code, 24 + 40 + 24);
    assert_eq!(l.next, Some(3));
    assert_eq!((bytes::u64_at(b, 0), bytes::u64_at(b, 8), bytes::u16_at(b, 16), b[18]), (5, 1, 24, 4));
    assert_eq!(&b[19..22], b"ab\0");
    assert_eq!((bytes::u64_at(b, 24), bytes::u16_at(b, 40), b[42]), (6, 40, 8));
    let first = sys_getdents64(dir, &entries(), 0, 50, 63);
    assert_eq!((first.reply.code, first.next), (24, Some(1)));
    let rest = sys_getdents64(dir, &entries(), 1, 50, 4096);
    let mut both = first.reply.out[0].bytes.clone();
    both.extend_from_slice(&rest.reply.out[0].bytes);
    assert_eq!(&both, b);
    let end = sys_getdents64(dir, &entries(), 3, 50, 4096);
    assert_eq!((end.reply.code, end.reply.out.len()), (0, 0));
    assert_eq!(sys_getdents64(dir, &entries(), 1, 50, 24).reply.code, errno::EINVAL);
    assert_eq!(sys_getdents64(dir, &entries(), 0, 50, 23).reply.code, errno::EINVAL);
    assert_eq!(sys_getdents64(None, &entries(), 0, 50, 100).reply.code, errno::EBADF);
    assert_eq!(sys_getdents64(Some(InodeKind::Regular), &entries(), 0, 50, 100).reply.code, errno::ENOTDIR);
    let old = sys_getdents(dir, &entries(), 0, 50, 4096);
    let b = &old.reply.out[0].bytes;
    assert_eq!(&b[18..21], b"ab\0");
    assert_eq!(b[23], 4);
}

#[test]
fn the_working_directory_is_told_with_its_end() {
    let r = sys_getcwd(Some(b"/ab".to_vec()), 50, 4);
    assert_eq!((r.code, r.out[0].bytes.clone()), (4, b"/ab\0".to_vec()));
    assert_eq!(sys_getcwd(Some(b"/ab".to_vec()), 50, 3).code, errno::ERANGE);
    assert_eq!(sys_getcwd(Some(vec![b'a'; 4096]), 50, 9000).code, errno::ENAMETOOLONG);
    assert_eq!(sys_getcwd(None, 50, 9).code, errno::EFAULT);
    assert_eq!(sys_fchdir(Some((5, InodeKind::Directory))), Ok((5, "/".to_string())));
    assert_eq!(sys_fchdir(Some((5, InodeKind::Regular))), Err(errno::ENOTDIR));
    let r = sys_readlinkat(Ok(b"target".to_vec()), 50, 3);
    assert_eq!((r.code, r.out[0].bytes.clone()), (3, b"tar".to_vec()));
    assert_eq!(sys_readlinkat(Err(errno::EINVAL), 50, 3).code, errno::EINVAL);
}

fn fcntl_file() -> FcntlFile {
    FcntlFile { flags: flags(O_RDWR), inode: 7, offset: 10, size: 100, pipe: None, seals: Some(3) }
}

#[test]
fn fcntl_does_what_its_command_says() {
    let mut t = FdTable::new();
    let _ = t.install(70);
    let f = || Some(fcntl_file());
    let code = |s: FcntlStep| match s {
        FcntlStep::Done(c) => c,
        _ => panic!("it is answered"),
    };
    assert_eq!(code(sys_fcntl(&mut t, 0, F_DUPFD, 5, f())), 5);
    assert_eq!(code(sys_fcntl(&mut t, 0, F_DUPFD_CLOEXEC, 0, f())), 1);
    assert_eq!(code(sys_fcntl(&mut t, 0, F_DUPFD, u64::MAX, f())), errno::EMFILE);
    assert_eq!(code(sys_fcntl(&mut t, 1, F_GETFD, 0, f())), 1);
    assert_eq!(code(sys_fcntl(&mut t, 1, F_SETFD, 0, f())), 0);
    assert_eq!(code(sys_fcntl(&mut t, 1, F_GETFD, 0, f())), 0);
    assert_eq!(code(sys_fcntl(&mut t, 0, F_GETFL, 0, f())), O_RDWR as i64);
    assert!(matches!(sys_fcntl(&mut t, 0, F_SETFL, O_APPEND as u64, f()), FcntlStep::SetFlags(O_APPEND)));
    assert_eq!(code(sys_fcntl(&mut t, 0, F_GETPIPE_SZ, 0, f())), errno::EINVAL);
    assert_eq!(code(sys_fcntl(&mut t, 0, F_SETPIPE_SZ, 0, f())), errno::EINVAL);
    assert!(matches!(sys_fcntl(&mut t, 0, F_ADD_SEALS, 8, f()), FcntlStep::AddSeals { seals: 8, check_mappings: true }));
    assert!(matches!(
        sys_fcntl(&mut t, 0, F_OFD_SETLKW, 0, f()),
        FcntlStep::Lock { how: LockHow::Wait, inode: 7, offset: 10, size: 100 }
    ));
    assert_eq!(code(sys_fcntl(&mut t, 9, F_GETFL, 0, None)), errno::EBADF);
    assert_eq!(code(sys_fcntl(&mut t, 9, 99, 0, None)), errno::EINVAL);
}

fn flock(kind: u16, whence: u16, start: i64, len: i64) -> Option<Vec<u8>> {
    let mut b = Vec::new();
    bytes::push_u16(&mut b, kind);
    bytes::push_u16(&mut b, whence);
    bytes::push_u32(&mut b, 0);
    bytes::push_u64(&mut b, start as u64);
    bytes::push_u64(&mut b, len as u64);
    bytes::push_u64(&mut b, 0);
    Some(b)
}

#[test]
fn lock_ranges_count_from_three_places() {
    let range = |whence: u16, start: i64, len: i64| {
        lock_range(&flock(posix::F_RDLCK, whence, start, len).unwrap(), 10, 100)
    };
    assert_eq!(range(0, 5, 7), Ok((0, 5, 12)));
    assert_eq!(range(1, 5, 7), Ok((0, 15, 22)));
    assert_eq!(range(2, -5, 7), Ok((0, 95, 102)));
    assert_eq!(range(0, 5, 0), Ok((0, 5, u64::MAX)));
    assert_eq!(range(0, -1, 7), Err(errno::EINVAL));
    assert_eq!(range(0, 5, -1), Err(errno::EINVAL));
    assert_eq!(range(3, 5, 7), Err(errno::EINVAL));
    assert_eq!(range(1, i64::MAX, 1), Ok((0, i64::MAX as u64, i64::MAX as u64 + 1)));
}

#[test]
fn what_is_in_the_way_of_a_lock_is_told() {
    let mut locks = LockTable::new();
    let w = flock(posix::F_WRLCK, 0, 10, 10);
    let (code, _) = set_lock(&mut locks, 7, Pid(1), &w, 0, 0);
    assert_eq!(code, 0);
    let (code, _) = set_lock(&mut locks, 7, Pid(2), &w, 0, 0);
    assert_eq!(code, errno::EAGAIN);
    assert!(matches!(try_lock(&mut locks, 7, Pid(2), &w, 0, 0), LockAttempt::InTheWay));
    assert!(matches!(try_lock(&mut locks, 7, Pid(2), &None, 0, 0), LockAttempt::Fail(errno::EFAULT)));
    let bad = flock(9, 0, 10, 10);
    assert!(matches!(try_lock(&mut locks, 7, Pid(2), &bad, 0, 0), LockAttempt::Fail(errno::EINVAL)));
    let r = get_lock(&locks, 7, Pid(2), 50, w, 0, 0);
    let b = &r.out[0].bytes;
    assert_eq!((r.code, bytes::u16_at(b, 0), bytes::u64_at(b, 8), bytes::u64_at(b, 16), bytes::u32_at(b, 24)), (0, 1, 10, 10, 1));
    let free = get_lock(&locks, 7, Pid(2), 50, flock(posix::F_WRLCK, 0, 20, 10), 0, 0);
    assert_eq!(bytes::u16_at(&free.out[0].bytes, 0), posix::F_UNLCK);
}

#[test]
fn flock_tries_once() {
    let mut t = FlockTable::new();
    assert!(matches!(sys_flock(&mut t, None, 1).0, IoAttempt::Failed(errno::EBADF)));
    assert!(matches!(sys_flock(&mut t, Some((7, 1)), 3).0, IoAttempt::Failed(errno::EINVAL)));
    assert!(matches!(sys_flock(&mut t, Some((7, 1)), bsd::LOCK_EX as u64).0, IoAttempt::Ready(())));
    let (attempt, nonblock, _) = sys_flock(&mut t, Some((7, 2)), (bsd::LOCK_SH | bsd::LOCK_NB) as u64);
    assert!(matches!(attempt, IoAttempt::WouldBlock));
    assert!(nonblock);
}

fn facts() -> TtyFacts {
    TtyFacts {
        foreground: Pid(0),
        foreground_seen: 11,
        own_group_seen: 12,
        session: Pid(3),
        session_seen: 13,
        caller: Pid(3),
        caller_session: Pid(3),
        group_meant: Some(Pid(44)),
        may_change: Ok(()),
        keyboard_mode: 1,
    }
}

fn tty() -> DeviceFile {
    DeviceFile {
        kind: InodeKind::CharDevice,
        inode: 9 | MASTER_BIT,
        drm_card: false,
        drm_render: false,
        alsa: None,
        evdev: None,
        dsp: false,
    }
}

fn ioctl(file: DeviceFile, t: &mut Terminals, cmd: u64, arg: u64, input: Option<Vec<u8>>) -> IoctlStep {
    let mut sound = Dsp { format: AFMT_S16_LE, channels: 2, rate: 44100 };
    let screen = Some(Screen { start: 0x1000, len: 64, width: 640, height: 480 });
    sys_ioctl(Some(file), t, &mut sound, &facts(), screen, cmd, arg, input, 48000)
}

fn told(step: IoctlStep) -> (i64, Vec<u8>) {
    match step {
        IoctlStep::Reply(r) => (r.code, r.out.iter().flat_map(|c| c.bytes.clone()).collect()),
        _ => panic!("it is answered"),
    }
}

#[test]
fn a_terminal_remembers_its_settings() {
    let mut t = Terminals::new(vec![24, 0, 80, 0, 0, 0, 0, 0]);
    let first = told(ioctl(tty(), &mut t, TCGETS, 1, None));
    assert_eq!(first.1.len(), 36);
    assert_eq!(first.1[..5], [0, 5, 0, 0, 5]);
    assert_eq!(told(ioctl(tty(), &mut t, TIOCGWINSZ, 1, None)).1, vec![24, 0, 80, 0, 0, 0, 0, 0]);
    assert!(matches!(
        ioctl(tty(), &mut t, TCSETSF, 1, Some(vec![7; 36])),
        IoctlStep::Flush { input: true, output: false }
    ));
    assert_eq!(told(ioctl(tty(), &mut t, TCGETS, 1, None)).1, vec![7; 36]);
    assert_eq!(termios_get_pub(&t, tty().inode), vec![7; 36]);
    assert_eq!(told(ioctl(tty(), &mut t, TIOCSWINSZ, 1, Some(vec![1; 8]))).0, 0);
    assert_eq!(told(ioctl(tty(), &mut t, TIOCGWINSZ, 1, None)).1, vec![1; 8]);
    assert_eq!(told(ioctl(tty(), &mut t, TCSETSF, 1, None)).0, errno::EFAULT);
    let mut file = tty();
    file.kind = InodeKind::Regular;
    assert_eq!(told(ioctl(file, &mut t, TCGETS, 1, None)).0, errno::ENOTTY);
}

#[test]
fn a_terminal_knows_its_groups() {
    let mut t = Terminals::new(vec![0; 8]);
    assert_eq!(told(ioctl(tty(), &mut t, TIOCGPGRP, 1, None)).1, vec![12, 0, 0, 0]);
    assert!(matches!(
        ioctl(tty(), &mut t, TIOCSPGRP, 1, Some(vec![5, 0, 0, 0])),
        IoctlStep::SetForeground { group: Pid(44) }
    ));
    assert!(matches!(ioctl(tty(), &mut t, TIOCSCTTY, 0, None), IoctlStep::Acquire));
    assert!(matches!(ioctl(tty(), &mut t, TIOCNOTTY, 0, None), IoctlStep::Release));
    assert_eq!(told(ioctl(tty(), &mut t, TIOCGSID, 1, None)).1, vec![13, 0, 0, 0]);
    assert_eq!(told(ioctl(tty(), &mut t, TIOCGPTN, 1, None)).1, vec![9, 0, 0, 0]);
    assert!(matches!(ioctl(tty(), &mut t, TCFLSH, 2, None), IoctlStep::Flush { input: true, output: true }));
    let mut c = Console { session: 0, group: 0 };
    assert_eq!(console_group_seen(&c, 3, 8), 8);
    console_set_fg(&mut c, 3, 9);
    assert_eq!(console_fg_pgrp(&c), 9);
    assert_eq!(console_group_seen(&c, 3, 8), 9);
    assert_eq!(console_group_seen(&c, 4, 8), 8);
}

#[test]
fn screens_and_other_devices_are_told_apart() {
    let mut t = Terminals::new(vec![0; 8]);
    let (code, b) = told(ioctl(tty(), &mut t, FBIOGET_VSCREENINFO, 1, None));
    assert_eq!((code, b.len(), bytes::u32_at(&b, 0), bytes::u32_at(&b, 4), bytes::u32_at(&b, 24)), (0, 160, 640, 480, 32));
    assert_eq!(fb_var_screeninfo(640, 480), b);
    let fix = fb_fix_screeninfo(0x1000, 64, 640);
    assert_eq!((fix.len(), &fix[..15], bytes::u32_at(&fix, 48)), (80, &b"cyphera-virtgpu"[..], 2560));
    let mut card = tty();
    card.drm_card = true;
    assert!(matches!(ioctl(card, &mut t, 0x6401, 1, None), IoctlStep::Hand { device: Device::Card, cmd: 0x6401 }));
    let mut input = tty();
    input.evdev = Some(2);
    assert!(matches!(ioctl(input, &mut t, TCGETS, 1, None), IoctlStep::Hand { device: Device::Input(2), .. }));
    assert_eq!(told(ioctl(tty(), &mut t, 0xdead, 1, None)).0, errno::ENOTTY);
    assert_eq!(told(ioctl(tty(), &mut t, SNDCTL_DSP_SETFMT, 1, Some(vec![0; 4]))).0, errno::ENOTTY);
}

#[test]
fn the_sound_device_takes_what_it_can() {
    let mut d = Dsp { format: AFMT_S16_LE, channels: 2, rate: 44100 };
    let num = |x: u32| Some(x.to_le_bytes().to_vec());
    assert_eq!(do_dsp_ioctl(&mut d, SNDCTL_DSP_SETFMT, 1, &num(AFMT_U8), 0).out[0].bytes, vec![8, 0, 0, 0]);
    assert_eq!(do_dsp_ioctl(&mut d, SNDCTL_DSP_SETFMT, 1, &num(AFMT_QUERY), 0).out[0].bytes, vec![8, 0, 0, 0]);
    assert_eq!(do_dsp_ioctl(&mut d, SNDCTL_DSP_SETFMT, 1, &num(0x999), 0).out[0].bytes, vec![16, 0, 0, 0]);
    assert_eq!(do_dsp_ioctl(&mut d, SNDCTL_DSP_CHANNELS, 1, &num(6), 0).out[0].bytes, vec![2, 0, 0, 0]);
    assert_eq!(do_dsp_ioctl(&mut d, SNDCTL_DSP_STEREO, 1, &num(0), 0).out[0].bytes, vec![0, 0, 0, 0]);
    assert_eq!(d.channels, 1);
    assert_eq!(do_dsp_ioctl(&mut d, SNDCTL_DSP_SPEED, 1, &num(47000), 48000).code, 0);
    assert_eq!(d.rate, 48000);
    assert_eq!(do_dsp_ioctl(&mut d, SNDCTL_DSP_SPEED, 1, &None, 48000).code, errno::EFAULT);
    let space = do_dsp_ioctl(&mut d, SNDCTL_DSP_GETOSPACE, 1, &None, 0);
    assert_eq!(bytes::u32_at(&space.out[0].bytes, 12), 32768);
}

fn stat() -> Stat {
    let mut st = Stat::fresh(InodeKind::Regular, 1234, 0o644);
    st.inode_id = 77;
    st
}

#[test]
fn attributes_stand_at_their_places() {
    let b = pack_stat(&stat(), 5, 6);
    assert_eq!(b.len(), 144);
    assert_eq!((bytes::u64_at(&b, 8), bytes::u64_at(&b, 16), bytes::u32_at(&b, 24)), (77, 1, 0o100644));
    assert_eq!((bytes::u32_at(&b, 28), bytes::u32_at(&b, 32), bytes::u64_at(&b, 48)), (5, 6, 1234));
    let r = sys_fstat(Some(SeenStat { stat: stat(), uid: 5, gid: 6 }), 50);
    assert_eq!((r.code, &r.out[0].bytes), (0, &b));
    assert_eq!(sys_fstat(None, 50).code, errno::EBADF);
    let pages = Pages { total: 10, in_use: 4 };
    let r = sys_statfs(Ok((stat(), 0xff)), None, &pages, 50);
    let b = &r.out[0].bytes;
    assert_eq!((b.len(), bytes::u64_at(b, 0), bytes::u64_at(b, 16), bytes::u64_at(b, 24), bytes::u64_at(b, 80)), (120, 0x01021994, 10, 6, 15));
    assert_eq!(sys_statfs(Err(errno::EBADF), None, &pages, 50).code, errno::EBADF);
}

fn rights() -> FileRights {
    FileRights {
        fsuid: 5,
        fsgid: 6,
        cap_fowner: false,
        cap_chown: false,
        owns_user: true,
        owns_group: true,
        in_new_group: false,
    }
}

#[test]
fn only_owners_change_files_and_nobody_gives_them_away() {
    assert!(chmod_permitted(&rights(), 5));
    assert!(!chmod_permitted(&rights(), 7));
    assert_eq!(sys_fchmod(Some((false, 5)), &rights(), 0o10644), Ok(0o644));
    assert_eq!(sys_fchmod(Some((true, 5)), &rights(), 0o644), Err(errno::EROFS));
    assert_eq!(sys_fchmod(Some((false, 7)), &rights(), 0o644), Err(errno::EPERM));
    assert_eq!(sys_fchmod(None, &rights(), 0o644), Err(errno::EBADF));
    assert!(chown_permitted(&rights(), 5, Some(5), Some(6)));
    assert!(!chown_permitted(&rights(), 5, Some(9), None));
    assert!(!chown_permitted(&rights(), 5, None, Some(9)));
    let keep = u64::MAX;
    assert_eq!(sys_fchown(Some((false, 5)), &rights(), keep, keep, None, None), Chown::Done(0));
    assert_eq!(
        sys_fchown(Some((false, 5)), &rights(), keep, 6, None, Some(6)),
        Chown::Give { uid: None, gid: Some(6) }
    );
    assert_eq!(sys_fchown(Some((false, 5)), &rights(), 9, keep, Some(9), None), Chown::Done(errno::EPERM));
    assert_eq!(sys_fchown(Some((false, 5)), &rights(), 9, keep, None, None), Chown::Done(errno::EINVAL));
}

#[test]
fn times_are_chosen_now_or_left() {
    let now = wall_now(7_000_000_005);
    assert_eq!((now.sec, now.nsec), (7, 5));
    let t = read_times(true, Some(write_timespec(1, UTIME_NOW)), Some(write_timespec(1, UTIME_OMIT)), now).unwrap();
    assert_eq!((t.atime, t.mtime), (Some(now), None));
    let t = read_times(false, None, None, now).unwrap();
    assert_eq!((t.atime, t.mtime), (Some(now), Some(now)));
    let t = timeval_pair(true, Some(write_timespec(3, 4)), Some(write_timespec(5, 6)), now).unwrap();
    assert_eq!(t.atime, Some(TimeSpec { sec: 3, nsec: 4000 }));
    assert_eq!(timeval_pair(true, Some(write_timespec(3, 1_000_000)), None, now).err(), Some(errno::EINVAL));
}

#[test]
fn extended_attributes_are_told_by_their_length() {
    let name = || PathRead::Path("user.x".to_string());
    let s = sys_setxattr(Ok(5), name(), 2, Some(vec![1, 2]), 1).ok().unwrap();
    assert_eq!((s.inode, s.name.as_str(), s.value.clone(), s.flags), (5, "user.x", vec![1, 2], 1));
    assert_eq!(sys_setxattr(Ok(5), name(), 2, None, 1).err(), Some(errno::EFAULT));
    assert!(sys_setxattr(Ok(5), name(), 0, None, 1).is_ok());
    assert_eq!(sys_getxattr(Err(errno::EBADF), name()), Err(errno::EBADF));
    assert_eq!(sys_getxattr(Ok(5), PathRead::TooLong), Err(errno::ENAMETOOLONG));
    let r = xattr_reply(Ok(2), vec![1, 2, 0], 50, 3);
    assert_eq!((r.code, r.out[0].bytes.clone()), (2, vec![1, 2]));
    let r = xattr_reply(Ok(2), vec![], 50, 0);
    assert_eq!((r.code, r.out.len()), (2, 0));
}

#[test]
fn a_watcher_is_found_behind_its_descriptor() {
    let mut t = FdTable::new();
    let mut w = Watchers::new();
    let (code, f) = sys_inotify_init1(&mut t, &mut w, 1, 100, 5, (IN_NONBLOCK | IN_CLOEXEC) as u64);
    assert_eq!((code, f.unwrap().bits), (0, 0o4000));
    assert_eq!(t.fd_flags(0), Some(FD_CLOEXEC));
    assert_eq!(lookup_inotify(&w, Some(100)), Some(5));
    assert_eq!(sys_inotify_rm_watch(&w, Some(100), 3), Ok((5, 3)));
    assert_eq!(sys_inotify_rm_watch(&w, None, 3), Err(errno::EBADF));
    assert_eq!(sys_inotify_init1(&mut t, &mut w, 1, 100, 5, 1).0, errno::EINVAL);
    w.forget(100);
    assert_eq!(lookup_inotify(&w, Some(100)), None);
}

#[test]
fn several_files_are_polled_at_once() {
    let mut fds = vec![
        PollFd { fd: 3, events: POLLIN, revents: 0 },
        PollFd { fd: -1, events: POLLIN, revents: 0 },
        PollFd { fd: 9, events: POLLOUT, revents: 0 },
    ];
    let b = write_pollfds(&fds);
    assert_eq!(read_pollfds(&b).len(), 3);
    assert_eq!(poll_scan(&mut fds, &vec![Some(POLLIN | POLLOUT), None, Some(0)]), 2);
    assert_eq!((fds[0].revents, fds[1].revents, fds[2].revents), (POLLIN, POLLNVAL, 0));
    let mut deadlines = Deadlines::new();
    let mut queued = false;
    poll_begin(&mut deadlines, Pid(1), Some(90));
    assert_eq!(deadlines.entries, vec![(90, Pid(1))]);
    let step = poll_round(&mut deadlines, &mut queued, Pid(1), Some(90), false, &mut fds, &vec![Some(0); 3]);
    assert!(matches!(step, PollStep::Wait));
    assert!(queued && deadlines.entries.len() == 1);
    let step = poll_woken(&mut deadlines, &mut queued, Pid(1), Some(90), WaitOutcome::Woken);
    assert!(matches!(step, PollStep::Scan));
    assert!(!queued && deadlines.entries.len() == 1);
    let step = poll_round(&mut deadlines, &mut queued, Pid(1), Some(90), false, &mut fds, &vec![Some(POLLIN); 3]);
    assert!(matches!(step, PollStep::Return(2)));
    assert!(!queued && deadlines.entries.is_empty());
    let step = poll_round(&mut deadlines, &mut queued, Pid(1), None, true, &mut fds, &vec![Some(0); 3]);
    assert!(matches!(step, PollStep::Return(0)));
    let step = poll_woken(&mut deadlines, &mut queued, Pid(1), None, WaitOutcome::Interrupted);
    assert!(matches!(step, PollStep::Return(errno::EINTR)));
    let step = poll_woken(&mut deadlines, &mut queued, Pid(1), None, WaitOutcome::TimedOut);
    assert!(matches!(step, PollStep::Return(0)));
    assert_eq!(poll_deadline(u64::MAX, 5), (None, false));
    assert_eq!(poll_deadline(0, 5).1, true);
    assert_eq!(poll_deadline(2, 5).0, Some(2_000_005));
}

#[test]
fn sets_of_descriptors_are_selected_from() {
    assert_eq!(select_len(1025), Err(errno::EINVAL));
    let n = select_len(8).unwrap();
    let _ = n;
    let r = Some(vec![0b1000u8]);
    let mut fds = select_fds(8, &r, &None, &None);
    assert_eq!((fds.len(), fds[0].fd), (1, 3));
    let _ = poll_scan(&mut fds, &vec![Some(POLLIN)]);
    let s = do_select(&fds, 8, true, false, false).ok().unwrap();
    assert_eq!((s.count, s.readable[0]), (1, 0b1000));
}

#[test]
fn event_descriptors_are_made() {
    let mut t = FdTable::new();
    assert_eq!(sys_epoll_create1(&mut t, 5, CLOEXEC), 0);
    assert_eq!(t.fd_flags(0), Some(FD_CLOEXEC));
    assert_eq!(sys_epoll_create1(&mut t, 5, 0), 1);
    assert_eq!(t.fd_flags(1), Some(0));
    let mut ev = Vec::new();
    bytes::push_u32(&mut ev, 1);
    bytes::push_u64(&mut ev, 77);
    assert!(matches!(sys_epoll_ctl(true, EPOLL_CTL_ADD, 4, Some(ev)), EpollCtl::Insert { fd: 4, events: 1, data: 77 }));
    assert!(matches!(sys_epoll_ctl(true, EPOLL_CTL_DEL, 4, None), EpollCtl::Delete { fd: 4 }));
    assert!(matches!(sys_epoll_ctl(true, EPOLL_CTL_ADD, 4, None), EpollCtl::Reply(errno::EFAULT)));
    let r = epoll_wait_common(50, Ok(vec![EpollEvent { events: 1, data: 77 }]));
    assert_eq!((r.code, r.out[0].bytes.len()), (1, 12));
    assert_eq!(epoll_max(1000), 64);
    assert_eq!(epoll_timeout(0, None), Ok(-1));
    let e = sys_eventfd2(5, NONBLOCK).ok().unwrap();
    assert_eq!((e.initial, e.semaphore, e.cloexec), (5, false, false));
    assert!(sys_eventfd2(5, 0x100).is_err());
    assert!(matches!(
        sys_signalfd4(u64::MAX, 8, 0, Some(vec![3, 0, 0, 0, 0, 0, 0, 0]), Found::NotOpen),
        SignalFd::Create { mask: 3, .. }
    ));
    assert!(sys_timerfd_create(1, 0).is_ok());
    assert!(sys_timerfd_create(99, 0).is_err());
    let st = TimerState { clockid: 1, deadline: 0, interval: 0 };
    let mut spec = write_timespec(0, 10);
    spec.extend_from_slice(&write_timespec(0, 100));
    let a = sys_timerfd_settime(Some(st), 0, Some(spec), 0, 1000, 0);
    assert_eq!(a.reply.code, 0);
    assert!(a.arm.is_some());
    assert_eq!(sys_timerfd_settime(None, 0, None, 0, 0, 0).arm, None);
}

#[test]
fn sockets_are_of_a_family_and_a_type() {
    assert!(matches!(sys_socket(1, 1, 0).ok().unwrap().kind, SocketKind::UnixStream));
    assert!(matches!(sys_socket(2, 1, 0).ok().unwrap().kind, SocketKind::Tcp { v6: false }));
    assert!(matches!(sys_socket(10, 2, 0).ok().unwrap().kind, SocketKind::Udp { v6: true }));
    assert!(sys_socket(99, 1, 0).is_err());
    assert!(!sys_socketpair(1, 1).ok().unwrap().framed);
    assert!(sys_socketpair(2, 1).is_err());
    assert_eq!(sys_bind(4, Some(vec![1, 2, 3, 4]), true), Ok(vec![1, 2, 3, 4]));
    assert!(sys_bind(4, None, true).is_err());
    let mut t = FdTable::new();
    assert_eq!(sys_accept(&mut t, true, Ok(7)), 0);
    assert_eq!(sys_accept(&mut t, true, Err(errno::EAGAIN)), errno::EAGAIN);
    assert!(does_not_wait(false, 0x40));
    assert!(does_not_wait(true, 0));
    assert!(!does_not_wait(false, 0));
}

#[test]
fn descriptors_travel_in_messages() {
    let mut t = FdTable::new();
    let c = deliver_control(&mut t, &vec![70, 71], None, 1, 64);
    assert!(!c.truncated);
    assert_eq!(bytes::u64_at(&c.data, 0), 24);
    assert_eq!(&c.data[16..24], &[0, 0, 0, 0, 1, 0, 0, 0]);
    assert_eq!(parse_scm_rights(1, c.data.len() as u64, Some(c.data[..16].to_vec())), Ok(2));
    let cut = deliver_control(&mut t, &vec![72], None, 1, 4);
    assert!(cut.truncated);
    assert_eq!(t.get(2), None);
    let s = deliver_control(&mut t, &vec![], Some(Sender { pid: 3, uid: 4, gid: 5 }), 1, 64);
    assert_eq!(&s.data[16..28], &[3, 0, 0, 0, 4, 0, 0, 0, 5, 0, 0, 0]);
    assert_eq!(cmsg_align(9), 16);
    let mut h = vec![0u8; 56];
    h[0] = 1;
    h[8] = 2;
    h[16] = 3;
    h[24] = 4;
    h[32] = 5;
    h[40] = 6;
    let m = read_header(&h);
    assert_eq!((m.name, m.name_len, m.iov, m.iov_len, m.control, m.control_len), (1, 2, 3, 4, 5, 6));
    assert_eq!(name_told(0, 8, &Some(vec![1, 2])).1, None);
}

fn nothing() -> Given {
    Given { at: 0, read: None }
}

fn time_of(sec: u8, part: u8) -> Given {
    let mut b = vec![0u8; 16];
    b[0] = sec;
    b[8] = part;
    Given { at: 1, read: Some(b) }
}

#[test]
fn poll_looks_at_its_descriptors_first() {
    let fds = write_pollfds(&vec![PollFd { fd: 3, events: POLLIN, revents: 0 }]);
    assert_eq!(poll_request(1025, None, 0, 0).err(), Some(errno::EINVAL));
    assert_eq!(poll_request(1, None, 0, 0).err(), Some(errno::EFAULT));
    let w = poll_request(1, Some(fds.clone()), 2, 5).ok().unwrap();
    assert_eq!((w.fds[0].fd, w.deadline, w.immediate, w.mask), (3, Some(2_000_005), false, None));
    assert!(poll_request(0, None, 0, 5).ok().unwrap().immediate);
    let bad_time = Given { at: 1, read: None };
    assert_eq!(sys_ppoll(1, None, bad_time, nothing(), 8, 0).err(), Some(errno::EFAULT));
    let mask = Given { at: 1, read: Some(vec![4, 0, 0, 0, 0, 0, 0, 0]) };
    let w = sys_ppoll(1, Some(fds.clone()), time_of(0, 7), mask, 8, 5).ok().unwrap();
    assert_eq!((w.deadline, w.immediate, w.mask), (Some(12), false, Some(4)));
    let mask = Given { at: 1, read: Some(vec![0; 8]) };
    assert_eq!(sys_ppoll(1, Some(fds), nothing(), mask, 4, 5).err(), Some(errno::EINVAL));
}

fn read_set(byte: u8) -> Sets {
    Sets {
        readable: Given { at: 10, read: Some(vec![byte]) },
        writable: nothing(),
        exceptional: nothing(),
    }
}

#[test]
fn select_gives_its_sets_back() {
    assert_eq!(sys_select(9999, read_set(0), nothing(), 0).err(), Some(errno::EINVAL));
    let unread = Sets {
        readable: Given { at: 10, read: None },
        writable: nothing(),
        exceptional: nothing(),
    };
    assert_eq!(sys_select(8, unread, nothing(), 0).err(), Some(errno::EFAULT));
    let mut w = sys_select(8, read_set(0b1010), time_of(0, 3), 5).ok().unwrap();
    assert_eq!((w.fds.len(), w.deadline), (2, Some(3_005)));
    let at = Places { readable: 10, writable: 0, exceptional: 0 };
    assert_eq!(poll_scan(&mut w.fds, &vec![Some(POLLIN), Some(0)]), 1);
    let r = select_end(&w.fds, 8, at, 1);
    assert_eq!((r.code, r.out.len(), r.out[0].to, r.out[0].bytes.clone()), (1, 1, 10, vec![0b10]));
    assert_eq!(select_end(&w.fds, 8, at, errno::EINTR).code, errno::EINTR);
    let _ = poll_scan(&mut w.fds, &vec![None, Some(0)]);
    assert_eq!(select_end(&w.fds, 8, at, 1).code, errno::EBADF);
    let unread = Given { at: 5, read: None };
    assert_eq!(sys_pselect6(8, read_set(1), nothing(), unread, None, 0).err(), Some(errno::EFAULT));
    let mut place = vec![0u8; 16];
    place[0] = 9;
    place[8] = 8;
    let place = Given { at: 5, read: Some(place) };
    let mask = Some(vec![2, 0, 0, 0, 0, 0, 0, 0]);
    let w = sys_pselect6(8, read_set(1), nothing(), place, mask, 0).ok().unwrap();
    assert_eq!((w.mask, w.immediate, w.fds.len()), (Some(2), false, 1));
}

#[test]
fn epoll_waits_for_a_time() {
    assert_eq!(sys_epoll_wait(false, 5, 0), Err(errno::EBADF));
    assert_eq!(
        sys_epoll_wait(true, 500, u64::MAX),
        Ok(EpollWait { max: 64, timeout_ms: -1, mask: None })
    );
    let mask = Given { at: 1, read: None };
    assert_eq!(sys_epoll_pwait(false, 5, 0, mask, 8), Err(errno::EFAULT));
    let mask = Given { at: 1, read: None };
    assert_eq!(sys_epoll_pwait(false, 5, 0, mask, 4), Err(errno::EINVAL));
    let mask = Given { at: 1, read: Some(vec![3, 0, 0, 0, 0, 0, 0, 0]) };
    assert_eq!(
        sys_epoll_pwait2(true, 5, time_of(0, 1), mask, 8),
        Ok(EpollWait { max: 5, timeout_ms: 1, mask: Some(3) })
    );
    let unread = Given { at: 1, read: None };
    assert_eq!(sys_epoll_pwait2(false, 5, unread, nothing(), 8), Err(errno::EFAULT));
}

#[test]
fn attributes_are_reached_from_a_directory() {
    let c = sys_setxattrat(3, 10, 20, 30, 4);
    assert_eq!((c.dirfd, c.path, c.name, c.value, c.size, c.flags), (3, 10, 20, 30, 4, 0));
    let c = sys_getxattrat(3, 10, 20, 4);
    assert_eq!((c.name, c.value, c.size), (20, 0, 4));
    let c = sys_listxattrat(3, 10, 4);
    assert_eq!((c.name, c.value, c.size), (0, 0, 4));
    assert_eq!(sys_removexattrat(3, 10).name, 0);
}
