use std::collections::BTreeMap;

use cyphera_kernel::errno;
use cyphera_kernel::keys::keys_of;
use cyphera_kernel::process_model::Pid;
use cyphera_kernel::vfs::blocking::{block_io, block_io_woken, IoAttempt, WaitOutcome};
use cyphera_kernel::vfs::fd::{FdTable, FD_CLOEXEC, HARD_MAX_FDS, MAX_FDS};
use cyphera_kernel::vfs::locks::bsd::{self, FlockOutcome, FlockTable};
use cyphera_kernel::vfs::locks::posix::{self, FileLock, LockTable};
use cyphera_kernel::vfs::{
    makedev, seal_if_empty_dir, CloseEvent, InodeKind, MountInUseGuard, MountInUseTag, OpenFile,
    OpenFlags, Stat, Whence, O_APPEND, O_NONBLOCK, O_RDWR, O_WRONLY,
};
use cyphera_kernel::timeout::Deadlines;

fn opens(table: &FdTable) -> Vec<(usize, u64, u8)> {
    let mut out = Vec::new();
    for (n, slot) in table.slots.iter().enumerate() {
        if let Some(file) = slot.file {
            out.push((n, file, slot.fd_flags));
        }
    }
    out
}

#[test]
fn the_lowest_free_descriptor_is_taken() {
    let mut t = FdTable::new();
    assert_eq!(t.install(10), Ok(0));
    assert_eq!(t.install(11), Ok(1));
    assert_eq!(t.install(12), Ok(2));
    assert_eq!(t.remove(1), Some(11));
    assert_eq!(t.remove(1), None);
    assert_eq!(t.install_from(13, 0, FD_CLOEXEC), Ok(1));
    assert_eq!(t.install_from(14, 5, 0), Ok(5));
    assert_eq!(opens(&t), vec![(0, 10, 0), (1, 13, 1), (2, 12, 0), (5, 14, 0)]);
}

#[test]
fn descriptors_outside_the_cap_are_refused() {
    let mut t = FdTable::new();
    assert_eq!(t.soft_cap(), MAX_FDS);
    assert_eq!(t.install_from(1, -1, 0), Err(errno::EINVAL as i32));
    assert_eq!(t.install_from(1, MAX_FDS as i32, 0), Err(errno::EINVAL as i32));
    assert_eq!(t.set_soft_cap(2), 2);
    assert_eq!(t.install(1), Ok(0));
    assert_eq!(t.install(2), Ok(1));
    assert_eq!(t.install(3), Err(errno::EMFILE as i32));
    assert_eq!(t.set_soft_cap(HARD_MAX_FDS + 1), HARD_MAX_FDS);
}

#[test]
fn closing_undoes_opening() {
    let mut t = FdTable::new();
    let _ = t.install(1);
    let before = opens(&t);
    let fd = t.install(2).unwrap();
    assert_eq!(t.get(fd), Some(2));
    assert_eq!(t.remove(fd), Some(2));
    assert_eq!(opens(&t), before);
}

#[test]
fn duplicating_onto_itself_only_checks() {
    let mut t = FdTable::new();
    let _ = t.install(7);
    assert!(t.dup_to(0, 0, FD_CLOEXEC).is_ok());
    assert_eq!(opens(&t), vec![(0, 7, 0)]);
    assert!(t.dup_to(3, 3, 0).is_err());
    assert!(t.dup_to(0, 4, FD_CLOEXEC).is_ok());
    assert_eq!(opens(&t), vec![(0, 7, 0), (4, 7, 1)]);
}

#[test]
fn exec_closes_what_is_marked() {
    let mut t = FdTable::new();
    let _ = t.install_from(1, 0, FD_CLOEXEC);
    let _ = t.install_from(2, 0, 0);
    let _ = t.install_from(3, 0, FD_CLOEXEC);
    assert_eq!(t.close_cloexec(), vec![1, 3]);
    assert_eq!(opens(&t), vec![(1, 2, 0)]);
    assert_eq!(t.set_fd_flags(1, FD_CLOEXEC), Ok(()));
    assert_eq!(t.fd_flags(1), Some(FD_CLOEXEC));
    assert_eq!(t.set_fd_flags(9, 0), Err(errno::EBADF as i32));
    let child = t.clone_for_child();
    assert_eq!(opens(&child), opens(&t));
    assert_eq!(t.close_all(), vec![2]);
    assert_eq!(opens(&t), vec![]);
}

#[test]
fn device_numbers_differ_where_their_parts_do() {
    assert_eq!(makedev(5, 1), 0x501);
    assert_ne!(makedev(5, 1), makedev(1, 5));
    assert_ne!(makedev(5, 0x1ff), makedev(5, 0xff));
}

#[test]
fn a_new_inode_has_one_link_and_blocks_of_a_page() {
    let st = Stat::fresh(InodeKind::Directory, 3, 0o755);
    assert_eq!((st.nlink, st.blksize, st.size, st.mode), (1, 4096, 3, 0o755));
    assert_eq!(st.kind, InodeKind::Directory);
}

#[test]
fn giving_a_use_back_undoes_taking_it() {
    let mut tags = vec![MountInUseTag::new(), MountInUseTag::new_with_flags(5)];
    let before = tags.clone();
    let guard = MountInUseGuard::new(&mut tags, 1);
    assert_eq!(tags[1].refs(), 1);
    assert_eq!(guard.flags(&tags), 5);
    guard.release(&mut tags);
    assert_eq!(tags, before);
}

#[test]
fn an_open_file_moves_on_by_what_was_read_or_written() {
    let mut f = OpenFile::new(1, InodeKind::Regular, OpenFlags { bits: O_RDWR });
    assert_eq!(f.read_offset(), Ok(0));
    assert_eq!(f.read(Ok(10)), Ok(10));
    assert_eq!(f.offset, 10);
    assert_eq!(f.write(100, Ok(5)), Ok(5));
    assert_eq!(f.offset, 15);
    assert_eq!(f.read(Err(errno::EIO)), Err(errno::EIO));
    assert_eq!(f.offset, 15);
}

#[test]
fn appending_starts_at_the_end() {
    let mut f = OpenFile::new(1, InodeKind::Regular, OpenFlags { bits: O_WRONLY | O_APPEND });
    assert_eq!(f.write_offset(40), Ok(40));
    assert_eq!(f.write(40, Ok(2)), Ok(2));
    assert_eq!(f.offset, 42);
    assert_eq!(f.read_offset(), Err(errno::EACCES));
}

#[test]
fn a_file_for_reading_is_not_written() {
    let f = OpenFile::new_no_open(1, InodeKind::Regular, OpenFlags { bits: 0 });
    assert_eq!(f.write_offset(0), Err(errno::EACCES));
    assert_eq!(f.path, "");
    assert_eq!(f.mount, None);
}

#[test]
fn only_some_flags_change_after_opening() {
    let mut f = OpenFile::new(1, InodeKind::Regular, OpenFlags { bits: O_RDWR | O_APPEND });
    f.set_flags_subset(OpenFlags { bits: O_NONBLOCK | O_WRONLY });
    assert_eq!(f.flags().bits, O_RDWR | O_NONBLOCK);
}

#[test]
fn seeking_counts_from_three_places_and_stops_at_zero() {
    let mut f = OpenFile::new(1, InodeKind::Regular, OpenFlags { bits: 0 });
    assert_eq!(f.seek(Whence::Start, 7, 100), 7);
    assert_eq!(f.seek(Whence::Cur, 3, 100), 10);
    assert_eq!(f.seek(Whence::End, -1, 100), 99);
    assert_eq!(f.seek(Whence::Cur, -1000, 100), 0);
}

#[test]
fn a_map_keeps_its_keys_in_order() {
    let mut m: BTreeMap<u64, u8> = BTreeMap::new();
    assert_eq!(keys_of(&m), Vec::<u64>::new());
    m.insert(5, 50);
    m.insert(1, 10);
    m.insert(9, 90);
    m.insert(5, 51);
    assert_eq!(keys_of(&m), vec![1, 5, 9]);
}

fn locks_on(table: &LockTable, inode: u64) -> Vec<FileLock> {
    match table.inodes.get(&inode) {
        Some(entry) => entry.locks.clone(),
        None => Vec::new(),
    }
}

#[test]
fn readers_share_and_a_writer_is_alone() {
    let mut t = LockTable::new();
    assert!(posix::try_set_lock(&mut t, 1, posix::F_RDLCK, 0, 10, Pid(1)).is_ok());
    assert!(posix::try_set_lock(&mut t, 1, posix::F_RDLCK, 5, 15, Pid(2)).is_ok());
    let refused = posix::try_set_lock(&mut t, 1, posix::F_WRLCK, 8, 9, Pid(3));
    assert_eq!(refused.unwrap_err().owner, Pid(1));
    assert!(posix::try_set_lock(&mut t, 1, posix::F_WRLCK, 15, 20, Pid(3)).is_ok());
    assert!(posix::try_set_lock(&mut t, 2, posix::F_WRLCK, 0, 10, Pid(3)).is_ok());
    assert_eq!(locks_on(&t, 1).len(), 3);
}

#[test]
fn unlocking_the_middle_leaves_both_ends() {
    let mut t = LockTable::new();
    assert!(posix::try_set_lock(&mut t, 1, posix::F_WRLCK, 0, 30, Pid(1)).is_ok());
    posix::enqueue_waiter(&mut t, 1, Pid(9));
    let woken = posix::try_set_lock(&mut t, 1, posix::F_UNLCK, 10, 20, Pid(1)).unwrap();
    assert_eq!(woken, vec![Pid(9)]);
    let left: Vec<(u64, u64)> = locks_on(&t, 1).iter().map(|l| (l.start, l.end)).collect();
    assert_eq!(left, vec![(0, 10), (20, 30)]);
    assert!(posix::find_conflict(&t, 1, posix::F_WRLCK, 10, 20, Pid(2)).is_none());
    assert!(posix::find_conflict(&t, 1, posix::F_WRLCK, 9, 20, Pid(2)).is_some());
}

#[test]
fn a_lock_of_ones_own_is_replaced() {
    let mut t = LockTable::new();
    assert!(posix::try_set_lock(&mut t, 1, posix::F_WRLCK, 0, 30, Pid(1)).is_ok());
    assert!(posix::try_set_lock(&mut t, 1, posix::F_RDLCK, 10, 20, Pid(1)).is_ok());
    assert!(posix::try_set_lock(&mut t, 1, posix::F_RDLCK, 10, 20, Pid(2)).is_ok());
    assert!(posix::try_set_lock(&mut t, 1, posix::F_RDLCK, 9, 20, Pid(2)).is_err());
}

#[test]
fn exit_drops_the_locks_of_a_process() {
    let mut t = LockTable::new();
    let _ = posix::try_set_lock(&mut t, 1, posix::F_WRLCK, 0, 30, Pid(1));
    let _ = posix::try_set_lock(&mut t, 2, posix::F_WRLCK, 0, 30, Pid(2));
    posix::enqueue_waiter(&mut t, 1, Pid(5));
    posix::enqueue_waiter(&mut t, 2, Pid(6));
    assert_eq!(posix::drop_owner(&mut t, Pid(1)), vec![Pid(5)]);
    assert!(locks_on(&t, 1).is_empty());
    assert_eq!(locks_on(&t, 2).len(), 1);
    assert_eq!(posix::waiters_for(&t, 2), vec![Pid(6)]);
}

#[test]
fn exit_wakes_in_the_order_of_the_files() {
    let mut t = LockTable::new();
    for inode in [7, 3, 5] {
        let _ = posix::try_set_lock(&mut t, inode, posix::F_WRLCK, 0, 30, Pid(1));
        posix::enqueue_waiter(&mut t, inode, Pid(10 + inode as u32));
    }
    posix::enqueue_waiter(&mut t, 4, Pid(14));
    assert_eq!(posix::drop_owner(&mut t, Pid(1)), vec![Pid(13), Pid(15), Pid(17)]);
    assert_eq!(posix::waiters_for(&t, 4), vec![Pid(14)]);
    assert!(posix::waiters_for(&t, 5).is_empty());
    assert!(posix::drop_owner(&mut t, Pid(1)).is_empty());
}

#[test]
fn a_shared_lock_goes_with_its_last_holder() {
    let mut t = FlockTable::new();
    assert_eq!(bsd::try_op(&mut t, 1, 20, bsd::LOCK_SH).0, FlockOutcome::Acquired);
    assert_eq!(bsd::try_op(&mut t, 1, 10, bsd::LOCK_SH).0, FlockOutcome::Acquired);
    assert_eq!(bsd::try_op(&mut t, 1, 10, bsd::LOCK_SH).0, FlockOutcome::Acquired);
    bsd::enqueue_waiter(&mut t, 1, Pid(9));
    assert_eq!(bsd::try_op(&mut t, 1, 30, bsd::LOCK_EX | bsd::LOCK_NB).0, FlockOutcome::Conflict);
    assert_eq!(bsd::try_op(&mut t, 1, 30, bsd::LOCK_UN).1, vec![]);
    assert_eq!(bsd::try_op(&mut t, 1, 10, bsd::LOCK_UN).1, vec![Pid(9)]);
    assert_eq!(bsd::held_kind(&t, 20), Some(bsd::LOCK_SH));
    assert_eq!(bsd::try_op(&mut t, 1, 20, bsd::LOCK_UN).0, FlockOutcome::Released);
    assert_eq!(bsd::try_op(&mut t, 1, 30, bsd::LOCK_EX | bsd::LOCK_NB).0, FlockOutcome::Acquired);
}

#[test]
fn an_exclusive_lock_excludes() {
    let mut t = FlockTable::new();
    assert_eq!(bsd::try_op(&mut t, 1, 100, bsd::LOCK_EX).0, FlockOutcome::Acquired);
    assert_eq!(bsd::try_op(&mut t, 1, 200, bsd::LOCK_SH).0, FlockOutcome::Conflict);
    assert_eq!(bsd::try_op(&mut t, 1, 200, bsd::LOCK_EX | bsd::LOCK_NB).0, FlockOutcome::Conflict);
    assert_eq!(bsd::held_kind(&t, 100), Some(bsd::LOCK_EX));
    assert_eq!(bsd::try_op(&mut t, 1, 100, bsd::LOCK_UN).0, FlockOutcome::Released);
    assert_eq!(bsd::held_kind(&t, 100), None);
    assert_eq!(bsd::try_op(&mut t, 1, 200, bsd::LOCK_SH).0, FlockOutcome::Acquired);
    assert_eq!(bsd::try_op(&mut t, 1, 300, bsd::LOCK_SH).0, FlockOutcome::Acquired);
    assert_eq!(bsd::try_op(&mut t, 1, 300, bsd::LOCK_EX | bsd::LOCK_NB).0, FlockOutcome::Conflict);
    assert_eq!(bsd::held_kind(&t, 300), Some(bsd::LOCK_SH));
    let _ = bsd::drop_ofd(&mut t, 200);
    assert_eq!(bsd::held_kind(&t, 200), None);
    assert_eq!(bsd::try_op(&mut t, 1, 300, bsd::LOCK_EX).0, FlockOutcome::Acquired);
}

#[test]
fn a_call_that_sleeps_is_queued_and_has_its_deadline() {
    let mut deadlines = Deadlines::new();
    let mut queued = false;
    let r = block_io(&mut deadlines, &mut queued, Pid(1), false, Some(100), 50, IoAttempt::<u8>::WouldBlock);
    assert!(r.is_none());
    assert!(queued);
    assert_eq!(deadlines.entries, vec![(100, Pid(1))]);
    let r = block_io_woken(&mut deadlines, &mut queued, Pid(1), Some(100), WaitOutcome::Woken);
    assert_eq!(r, None);
    assert!(!queued);
    let r = block_io(&mut deadlines, &mut queued, Pid(1), false, Some(100), 60, IoAttempt::Ready(7u8));
    assert_eq!(r, Some(Ok(7)));
    assert!(!queued);
    assert!(deadlines.entries.is_empty());
}

#[test]
fn a_call_that_may_not_wait_or_is_late_ends() {
    let mut deadlines = Deadlines::new();
    let mut queued = false;
    let r = block_io(&mut deadlines, &mut queued, Pid(1), true, None, 0, IoAttempt::<u8>::WouldBlock);
    assert_eq!(r, Some(Err(errno::EAGAIN)));
    let r = block_io(&mut deadlines, &mut queued, Pid(1), false, Some(10), 10, IoAttempt::<u8>::WouldBlock);
    assert_eq!(r, Some(Err(errno::EAGAIN)));
    let r = block_io(&mut deadlines, &mut queued, Pid(1), false, None, 10, IoAttempt::<u8>::Failed(errno::EIO));
    assert_eq!(r, Some(Err(errno::EIO)));
    let r = block_io_woken(&mut deadlines, &mut queued, Pid(1), None, WaitOutcome::Interrupted);
    assert_eq!(r, Some(errno::EINTR));
    let r = block_io_woken(&mut deadlines, &mut queued, Pid(1), None, WaitOutcome::TimedOut);
    assert_eq!(r, Some(errno::EAGAIN));
}

#[test]
fn closing_gives_the_lock_up_and_tells_watchers() {
    let mut t = FlockTable::new();
    assert_eq!(bsd::try_op(&mut t, 1, 100, bsd::LOCK_EX).0, FlockOutcome::Acquired);
    let f = OpenFile::new(1, InodeKind::Regular, OpenFlags { bits: O_RDWR });
    let (woken, event) = f.closed(&mut t, 100, true);
    assert!(woken.is_empty());
    assert_eq!(event, Some(CloseEvent::Written));
    assert_eq!(bsd::held_kind(&t, 100), None);
    assert_eq!(f.closed(&mut t, 100, false).1, None);
    let f = OpenFile::new(1, InodeKind::Regular, OpenFlags { bits: 0 });
    assert_eq!(f.closed(&mut t, 100, true).1, Some(CloseEvent::NotWritten));
    let f = OpenFile::new(1, InodeKind::Directory, OpenFlags { bits: 0 });
    assert_eq!(f.closed(&mut t, 100, true).1, None);
}

#[test]
fn only_an_empty_directory_is_sealed() {
    assert_eq!(seal_if_empty_dir(InodeKind::Directory, Ok(0)), Ok(()));
    assert_eq!(seal_if_empty_dir(InodeKind::Directory, Ok(2)), Err(errno::ENOTEMPTY));
    assert_eq!(seal_if_empty_dir(InodeKind::Directory, Err(errno::EIO)), Err(errno::EIO));
    assert_eq!(seal_if_empty_dir(InodeKind::Regular, Ok(0)), Err(errno::ENOTDIR));
}

#[test]
fn unlocking_twice_changes_nothing() {
    let mut t = LockTable::new();
    assert!(posix::try_set_lock(&mut t, 1, posix::F_WRLCK, 0, 100, Pid(1)).is_ok());
    let _ = posix::unlock_range(&mut t, 1, 40, 60, Pid(1));
    let once = locks_on(&t, 1);
    assert_eq!(once.len(), 2);
    assert_eq!((once[0].start, once[0].end, once[1].start, once[1].end), (0, 40, 60, 100));
    let _ = posix::unlock_range(&mut t, 1, 40, 60, Pid(1));
    assert_eq!(locks_on(&t, 1), once);
    assert!(posix::try_set_lock(&mut t, 1, posix::F_UNLCK, 40, 60, Pid(1)).is_ok());
    assert_eq!(locks_on(&t, 1), once);
    assert_eq!(posix::find_conflict(&t, 1, posix::F_RDLCK, 40, 60, Pid(2)), None);
}

#[test]
fn a_shared_holder_that_waits_gives_its_lock_up() {
    let mut t = FlockTable::new();
    assert_eq!(bsd::try_op(&mut t, 1, 10, bsd::LOCK_SH).0, FlockOutcome::Acquired);
    assert_eq!(bsd::try_op(&mut t, 1, 11, bsd::LOCK_SH).0, FlockOutcome::Acquired);
    assert_eq!(bsd::try_op(&mut t, 1, 10, bsd::LOCK_EX | bsd::LOCK_NB).0, FlockOutcome::Conflict);
    assert_eq!(bsd::held_kind(&t, 10), Some(bsd::LOCK_SH));
    assert_eq!(bsd::try_op(&mut t, 1, 10, bsd::LOCK_EX).0, FlockOutcome::Conflict);
    assert_eq!((bsd::held_kind(&t, 10), bsd::held_kind(&t, 11)), (None, Some(bsd::LOCK_SH)));
    assert_eq!(bsd::try_op(&mut t, 1, 11, bsd::LOCK_EX).0, FlockOutcome::Acquired);
    assert_eq!(bsd::held_kind(&t, 11), Some(bsd::LOCK_EX));
    assert_eq!(bsd::try_op(&mut t, 1, 11, 64).0, FlockOutcome::Conflict);
    assert_eq!(bsd::held_kind(&t, 11), Some(bsd::LOCK_EX));
}

#[test]
fn the_limit_of_descriptors_stays() {
    let mut t = FdTable::new();
    let _ = t.set_soft_cap(4);
    assert_eq!(t.install(9), Ok(0));
    assert_eq!(t.dup_to(0, 3, 0), Ok((3, None)));
    assert_eq!((t.soft_cap(), t.slots.len()), (4, 4));
    let _ = t.close_all();
    assert_eq!((t.soft_cap(), t.slots.len()), (4, 4));
}
