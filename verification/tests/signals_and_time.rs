use cyphera_kernel::bytes;
use cyphera_kernel::errno;
use cyphera_kernel::process_model::Pid;
use cyphera_kernel::syscall::ipc::{
    futex_waitv_len, sys_futex, sys_futex_wake, sys_keyctl, sys_shmat, sys_shmctl, sys_shmget, FutexOp,
    ShmOp, ENOKEY, FUTEX_CMP_REQUEUE, FUTEX_PRIVATE_FLAG, FUTEX_WAIT, FUTEX_WAKE,
};
use cyphera_kernel::syscall::posix_timer::{
    apply_setting, clear_timers, enter_timer, key_pid, key_timer_id, sys_timer_create,
    sys_timer_delete, sys_timer_getoverrun, sys_timer_gettime, sys_timer_settime, timer_created,
    timer_fire, timer_key, write_itimerspec, Setting, Timers,
};
use cyphera_kernel::syscall::signal::{
    install_pidfd, kill_number, pidfd_signal_target, queued_reply, sigprocmask_set,
    sigtimedwait_step, sys_kill, sys_pause, sys_pidfd_open, sys_pidfd_send_signal, sys_rt_sigaction, action_change, action_set, stack_change, stack_set,
    sys_rt_sigpending, sys_rt_sigprocmask, sys_rt_sigqueueinfo, sys_rt_sigsuspend, sys_rt_sigtimedwait,
    sys_sigaltstack, sys_tgkill, sys_tkill, AltStack, Kill, PidFds, SigAction, SigWait, StackChange,
    SIGKILL, SS_DISABLE, UNBLOCKABLE,
};
use cyphera_kernel::syscall::time::{
    apply_offset, clock_adjtime_refused, clock_nanosleep_begin, decode_itimerval, encode_itimerval,
    itimer_key_pid, itimer_real_fire, itimer_real_key, nanosleep_begin, nanosleep_step, sys_alarm,
    sys_clock_getres, sys_clock_gettime, sys_clock_nanosleep, sys_getitimer, sys_gettimeofday,
    sys_nanosleep, sys_setitimer, sys_settimeofday, sys_time, Clocks, Itimer, Itimers, Sleep,
    TimerCallback, CLOCK_MONOTONIC, CLOCK_REALTIME, ITIMER_REAL, TIMER_ABSTIME,
};
use cyphera_kernel::syscall::util::write_timespec;
use cyphera_kernel::timeout::CallbackDeadlines;
use cyphera_kernel::vfs::fd::FdTable;

fn now_stack() -> AltStack {
    AltStack { sp: 0, flags: SS_DISABLE, size: 0 }
}

#[test]
fn a_signal_stack_is_set_and_told() {
    let mut new = Vec::new();
    bytes::push_u64(&mut new, 0x1000);
    bytes::push_u32(&mut new, 0);
    bytes::push_u32(&mut new, 0);
    bytes::push_u64(&mut new, 8192);
    let shown = sys_sigaltstack(2, now_stack());
    assert_eq!((shown.code, shown.out[0].to, shown.out[0].bytes.len()), (0, 2, 24));
    assert!(sys_sigaltstack(0, now_stack()).out.is_empty());
    match stack_change(0, 1, false, Some(new.clone()), 2048) {
        (0, StackChange::Use(a)) => assert_eq!((a.sp, a.size), (0x1000, 8192)),
        _ => panic!("a stack was given"),
    }
    assert_eq!(stack_change(0, 1, true, Some(new.clone()), 2048), (errno::EPERM, StackChange::Keep));
    assert_eq!(stack_change(0, 1, false, None, 2048), (errno::EFAULT, StackChange::Keep));
    assert_eq!(stack_change(0, 1, false, Some(new.clone()), 9000), (errno::EINVAL, StackChange::Keep));
    assert_eq!(stack_change(0, 0, false, None, 9000), (0, StackChange::Keep));
    assert_eq!(stack_set((0, StackChange::Disable), false), errno::ESRCH);
    assert_eq!((stack_set((0, StackChange::Disable), true), stack_set((0, StackChange::Keep), false)), (0, 0));
    let both = shown.out[0].bytes.clone();
    assert_eq!(stack_change(0, 2, false, Some(both), 2048), (0, StackChange::Disable));
    let failed = shown.settle(false);
    assert_eq!(stack_change(failed, 1, false, Some(new), 2048), (errno::EFAULT, StackChange::Keep));
}

#[test]
fn signals_go_to_processes_and_groups() {
    assert_eq!(kill_number(5), 5);
    assert!(matches!(sys_kill(5, 9, Some(Pid(50)), Pid(1), true), Kill::Process(Pid(50), 9)));
    assert!(matches!(sys_kill(5, 9, None, Pid(1), true), Kill::Reply(errno::ESRCH)));
    assert!(matches!(sys_kill(5, 9, Some(Pid(50)), Pid(1), false), Kill::Reply(errno::EPERM)));
    assert!(matches!(sys_kill(0, 9, None, Pid(1), true), Kill::Group(Pid(1), 9)));
    assert!(matches!(sys_kill(5, 65, Some(Pid(50)), Pid(1), true), Kill::Reply(errno::EINVAL)));
    assert!(matches!(sys_tkill(9, Some(Pid(3))), Kill::Process(Pid(3), 9)));
    assert!(matches!(sys_tgkill(0, 3, 9, Some(Pid(3))), Kill::Reply(errno::EINVAL)));
}

#[test]
fn an_action_is_read_as_it_is_shown() {
    let now = SigAction { handler: 7, flags: 1, restorer: 9, mask: 4 };
    let shown = sys_rt_sigaction(10, 60, 60, 8, now);
    assert_eq!(shown.code, 0);
    let b = shown.out[0].bytes.clone();
    assert_eq!(b.len(), 32);
    assert_eq!(action_change(shown.settle(true), 60, Some(b.clone())), (0, Some(now)));
    assert_eq!(action_change(shown.settle(false), 60, Some(b)), (errno::EFAULT, None));
    assert_eq!(action_change(0, 60, None), (errno::EFAULT, None));
    assert_eq!(action_change(0, 0, None), (0, None));
    assert_eq!(action_set((0, Some(now)), false), errno::EINVAL);
    assert_eq!((action_set((0, Some(now)), true), action_set((0, None), false)), (0, 0));
    let r = sys_rt_sigaction(SIGKILL, 1, 0, 8, now);
    assert_eq!((r.code, action_change(r.code, 1, Some(vec![0; 32]))), (errno::EINVAL, (errno::EINVAL, None)));
    assert_eq!(sys_rt_sigaction(10, 1, 0, 4, now).code, errno::EINVAL);
}

#[test]
fn masks_are_read_and_told() {
    assert_eq!(sigprocmask_set(0, 8, None), Ok(None));
    assert_eq!(sigprocmask_set(1, 8, Some(vec![5, 0, 0, 0, 0, 0, 0, 0])), Ok(Some(5)));
    assert_eq!(sigprocmask_set(1, 8, None), Err(errno::EFAULT));
    assert_eq!(sys_rt_sigprocmask(70, Some(6)).out[0].bytes[0], 6);
    assert_eq!(sys_rt_sigpending(70, 8, 3).out[0].bytes[0], 3);
    let all = sys_rt_sigsuspend(8, Some(vec![0xff; 8])).unwrap();
    assert_eq!(all, !UNBLOCKABLE);
    assert!(sys_pause(true).0 < 0);
}

#[test]
fn a_process_descriptor_reaches_its_process() {
    let mut pids = PidFds::new();
    let mut table = FdTable::new();
    assert_eq!(sys_pidfd_open(0, Some(Pid(5)), true), Ok((Pid(5), false)));
    assert_eq!(sys_pidfd_open(0, None, true), Err(errno::ESRCH));
    assert_eq!(sys_pidfd_open(7, Some(Pid(5)), true), Err(errno::EINVAL));
    assert_eq!(install_pidfd(&mut pids, &mut table, 1, 100, Pid(5)), Ok(0));
    assert_eq!(pidfd_signal_target(&pids, 9, 0, Some(100)), Ok(Pid(5)));
    assert_eq!(pidfd_signal_target(&pids, 9, 0, Some(101)), Err(errno::EINVAL));
    assert_eq!(pidfd_signal_target(&pids, 64, 0, Some(100)), Err(errno::EINVAL));
    assert_eq!(pidfd_signal_target(&pids, 9, 0, None), Err(errno::EBADF));
    assert!(matches!(sys_pidfd_send_signal(Pid(5), 9, true), Kill::Process(Pid(5), 9)));
    assert!(matches!(sys_pidfd_send_signal(Pid(5), 9, false), Kill::Reply(errno::EPERM)));
}

#[test]
fn waiting_for_a_signal_takes_the_lowest() {
    assert!(matches!(sigtimedwait_step(0b1100, None, 0), SigWait::Take(2)));
    assert!(matches!(sigtimedwait_step(0, Some(10), 10), SigWait::TimedOut));
    assert!(matches!(sigtimedwait_step(0, Some(10), 9), SigWait::Sleep));
    assert_eq!(sys_rt_sigtimedwait(0, 3, 0).code, 3);
    let mut info = vec![0u8; 128];
    info[8] = 0xff;
    info[9] = 0xff;
    info[10] = 0xff;
    info[11] = 0xff;
    info[24] = 7;
    let q = sys_rt_sigqueueinfo(Some(Pid(5)), 10, Some(info), 0, 64).ok().unwrap();
    assert_eq!((q.target, q.sig, q.si_code, q.value), (Pid(5), 10, -1, 7));
    assert_eq!(queued_reply(Ok(())), 0);
}

fn clocks() -> Clocks {
    Clocks { monotonic: 5_000_000_001, wall: 100_000_000_000, monotonic_offset: 0, boot_offset: 0, cpu: 3 }
}

#[test]
fn clocks_are_told() {
    let r = sys_clock_gettime(CLOCK_MONOTONIC, 50, clocks());
    assert_eq!(r.out[0].bytes, write_timespec(5, 1));
    assert_eq!(sys_clock_gettime(CLOCK_REALTIME, 50, clocks()).out[0].bytes, write_timespec(100, 0));
    assert_eq!(sys_clock_gettime(77, 50, clocks()).code, errno::EINVAL);
    assert_eq!(sys_clock_getres(CLOCK_MONOTONIC, 50).out[0].bytes, write_timespec(0, 1));
    assert_eq!(sys_time(0, 7_900_000_000, 0).code, 7);
    assert_eq!(sys_gettimeofday(50, 7_000_001_000, 0).out[0].bytes[8], 1);
    assert_eq!(apply_offset(10, -20), 0);
    assert_eq!(apply_offset(10, 5), 15);
    assert_eq!(sys_settimeofday(1, false, None), Err(errno::EPERM));
    assert_eq!(clock_adjtime_refused(CLOCK_REALTIME), None);
}

#[test]
fn sleeping_ends_at_its_time_or_by_a_signal() {
    assert_eq!(nanosleep_begin(1, Some(write_timespec(0, 5)), 10), Ok(Some(15)));
    assert_eq!(nanosleep_begin(1, None, 10), Err(errno::EFAULT));
    assert!(matches!(nanosleep_step(15, 14, false), Sleep::Wait));
    assert!(matches!(nanosleep_step(15, 15, false), Sleep::Over));
    assert!(matches!(nanosleep_step(15, 14, true), Sleep::Interrupted));
    assert_eq!(sys_nanosleep(70, 15, 10).unwrap().bytes, write_timespec(0, 5));
    assert_eq!(clock_nanosleep_begin(CLOCK_MONOTONIC, TIMER_ABSTIME, 1, Some(write_timespec(0, 50)), 10), Ok(Some(50)));
    assert!(sys_clock_nanosleep(TIMER_ABSTIME, 70, 15, 10).1.is_none());
}

fn itimers() -> Itimers {
    let none = Itimer { interval: 0, value: 0 };
    Itimers { real_time: none, virtual_time: none, prof: none }
}

#[test]
fn an_interval_timer_shows_what_was_set_and_comes_again() {
    let pid = Pid(4);
    assert_eq!(itimer_key_pid(itimer_real_key(pid)), pid);
    let mut t = itimers();
    let mut calls: CallbackDeadlines<TimerCallback> = CallbackDeadlines::new();
    let set = encode_itimerval(Itimer { interval: 2_000_000_000, value: 5_000_000_000 });
    let back = decode_itimerval(&set);
    assert_eq!((back.interval, back.value), (2_000_000_000, 5_000_000_000));
    let r = sys_setitimer(&mut t, &mut calls, pid, ITIMER_REAL, 1, 0, Some(set.clone()), 1_000_000_000);
    assert_eq!(r.code, 0);
    assert_eq!(calls.entries.len(), 1);
    assert_eq!(calls.entries[0].deadline, 6_000_000_000);
    let shown = sys_getitimer(ITIMER_REAL, 50, &t, 1_000_000_000);
    assert_eq!(shown.out[0].bytes, set);
    itimer_real_fire(&mut t, &mut calls, itimer_real_key(pid), 6_000_000_000);
    assert_eq!(calls.entries[0].deadline, 8_000_000_000);
    assert_eq!(sys_alarm(&mut t, &mut calls, pid, 0, 6_000_000_000), 2);
    assert!(calls.entries.is_empty());
    assert_eq!(sys_getitimer(9, 50, &t, 0).code, errno::EINVAL);
}

#[test]
fn a_timer_fires_counts_and_is_deleted() {
    let pid = Pid(4);
    let key = timer_key(pid, 3);
    assert_eq!((key_pid(key), key_timer_id(key)), (pid, 3));
    let mut timers = Timers::new();
    let mut calls: CallbackDeadlines<TimerCallback> = CallbackDeadlines::new();
    let t = sys_timer_create(CLOCK_MONOTONIC, 0, 1, None, true, 64).ok().unwrap();
    enter_timer(&mut timers, 3, t);
    assert_eq!(timer_created(&mut timers, 3, true), 0);
    let set = sys_timer_settime(&timers, 3, 0, 1, 0, Some(write_itimerspec(10, 100)), 1000, 0);
    assert_eq!(set.reply.code, 0);
    apply_setting(&mut timers, &mut calls, pid, 3, set.set.unwrap());
    assert_eq!(calls.entries[0].deadline, 1100);
    assert_eq!(sys_timer_gettime(&timers, 3, 50, 1040).out[0].bytes, write_itimerspec(10, 60));
    let s = timer_fire(&mut timers, &mut calls, key, pid, 1100).unwrap();
    assert_eq!((s.target, s.timer_id), (pid, 3));
    assert_eq!(sys_timer_getoverrun(&timers, 3), 0);
    assert_eq!(sys_timer_getoverrun(&timers, 9), errno::EINVAL);
    assert_eq!(sys_timer_delete(&mut timers, &mut calls, pid, 3), 0);
    assert!(calls.entries.is_empty());
    assert_eq!(sys_timer_delete(&mut timers, &mut calls, pid, 3), errno::EINVAL);
    for id in [9, 2, 5] {
        enter_timer(&mut timers, id, t);
        let set = sys_timer_settime(&timers, id as u64, 0, 1, 0, Some(write_itimerspec(0, 100)), 0, 0);
        apply_setting(&mut timers, &mut calls, pid, id, set.set.unwrap());
    }
    apply_setting(&mut timers, &mut calls, Pid(5), 2, Setting { interval_ns: 0, deadline_ns: 70 });
    assert_eq!(calls.entries.len(), 4);
    clear_timers(&mut timers, &mut calls, pid);
    assert!(timers.by_id.is_empty());
    assert_eq!(calls.entries.len(), 1);
    assert_eq!(calls.entries[0].key, timer_key(Pid(5), 2));
}

#[test]
fn futexes_are_asked_for() {
    let f = |op: u64| sys_futex(0x1000, op, 3, 0, 0x2000, 9, None, 0);
    assert!(matches!(f(FUTEX_WAIT), Ok(FutexOp::Wait { uaddr: 0x1000, val: 3, deadline: None })));
    assert!(matches!(f(FUTEX_WAKE | FUTEX_PRIVATE_FLAG), Ok(FutexOp::Wake { uaddr: 0x1000, count: 3 })));
    assert!(matches!(
        f(FUTEX_CMP_REQUEUE),
        Ok(FutexOp::Requeue { from: 0x1000, to: 0x2000, wake: 3, expected: Some(9), .. })
    ));
    assert!(f(77).is_err());
    assert!(matches!(sys_futex_wake(0x1000, 5, 2, 2), Ok(FutexOp::WakeBitset { bits: 5, count: 2, .. })));
    assert!(sys_futex_wake(0x1000, 5, 2, 0).is_err());
    assert!(futex_waitv_len(0, 0).is_err());
    assert!(futex_waitv_len(129, 0).is_err());
}

#[test]
fn keys_and_shared_memory_are_asked_for() {
    assert_eq!(sys_keyctl(0), 1);
    assert_eq!(sys_keyctl(6), ENOKEY);
    assert!(matches!(sys_shmget(5, 100, 0o600), ShmOp::Get { key: 5, size: 100, flags: 0o600 }));
    assert!(matches!(sys_shmat(false, 3, 0, 0), Ok(ShmOp::Attach { id: 3, .. })));
    assert!(sys_shmat(true, 3, 0, 0).is_err());
    assert!(matches!(sys_shmctl(3, 0, 7), ShmOp::Control { id: 3, cmd: 0, buf: 7 }));
}
