use cyphera_kernel::bytes;
use cyphera_kernel::errno;
use cyphera_kernel::process_model::Pid;
use cyphera_kernel::syscall::caps::Caps;
use cyphera_kernel::syscall::clone::{
    clone3_len, clone_done, do_clone, sys_clone3, sys_fork, sys_setns, sys_unshare, unshare_user,
    NewTask, NsFile, CLONE_CHILD_CLEARTID, CLONE_FILES, CLONE_FS, CLONE_NEWNS, CLONE_NEWUSER,
    CLONE_NEWUTS, CLONE_PARENT_SETTID, CLONE_SIGHAND, CLONE_THREAD, CLONE_VFORK, CLONE_VM,
};
use cyphera_kernel::syscall::dispatch::AT_FDCWD;
use cyphera_kernel::syscall::exec::{
    exec_args, exec_begin, execveat_args, exec_file, exec_interpreter, exec_loaded, exec_lookup, ExecNext, sys_execve, exec_name, exec_read, exec_step, read_shebang, sys_execveat, take_arg,
    ArgRead, ArgStep, ExecFile, ExecStep, ReadStep, AT_EMPTY_PATH, EXEC_MAX_BYTES,
};
use cyphera_kernel::syscall::fs::paths::{At, PathRead};
use cyphera_kernel::vfs::context::MountWorld;
use cyphera_kernel::vfs::tree::{FileTree, TreeNode};
use cyphera_kernel::vfs::InodeKind;
use cyphera_kernel::syscall::proc::{
    child_end, default_rlimit, limit_change, sys_arch_prctl, sys_getrlimit, sys_getrusage, sys_prctl, sys_prlimit64,
    sys_setrlimit, sys_sysinfo, sys_times, sys_uname, sys_wait4, wait4_target, waitid_target, ArchStep,
    Attrs, CpuTimes, Machine, PrctlFacts, PrctlStep, Rlimit, Waited, ARCH_GET_FS, ARCH_SET_FS,
    PR_GET_NO_NEW_PRIVS, PR_SET_NAME, PR_SET_NO_NEW_PRIVS, P_ALL, P_PID, RLIMIT_NOFILE,
    RLIMIT_STACK,
};
use cyphera_kernel::syscall::scheduling::{
    affinity_len, attr_answer, class_answer, sys_getcpu, sys_getpriority, sys_rseq, sys_sched_get_priority_max,
    sys_sched_getattr, sys_sched_getparam, sys_sched_getscheduler, sys_sched_setaffinity,
    sys_sched_setattr, sys_sched_setscheduler, sys_setpriority, Peer, Rseq, SchedClass, SetAttr,
    SetClass, PRIO_PROCESS, RSEQ_FLAG_UNREGISTER, SCHED_DEADLINE, SCHED_FIFO, SCHED_OTHER, SCHED_RR,
};

fn b(s: &str) -> Vec<u8> {
    s.as_bytes().to_vec()
}

#[test]
fn a_script_names_its_interpreter() {
    let s = read_shebang(&b("#! /bin/sh -e x \nrest")).unwrap();
    assert_eq!(s.interpreter, b("/bin/sh"));
    assert_eq!(s.arg, b("-e x "));
    assert!(read_shebang(&b("#! \t \nrest")).is_none());
    match exec_step(&b("#!/bin/sh\n"), &b("/s"), &vec![b("s"), b("1")], 0) {
        ExecStep::Interpret { interpreter, argv } => {
            assert_eq!(interpreter, b("/bin/sh"));
            assert_eq!(argv, vec![b("/bin/sh"), b("/s"), b("1")]);
        }
        _ => panic!("a script is interpreted"),
    }
    assert!(matches!(exec_step(&b("#!/bin/sh\n"), &b("/s"), &vec![], 4), ExecStep::Fail(_)));
    assert!(matches!(exec_step(&b("\x7fELF"), &b("/s"), &vec![], 0), ExecStep::Run));
}

#[test]
fn a_program_is_read_if_it_may_be_run() {
    assert_eq!(exec_file(Ok(ExecFile { executable: true, size: 10 })), Ok(10));
    assert_eq!(exec_file(Ok(ExecFile { executable: false, size: 10 })), Err(errno::EACCES));
    assert_eq!(exec_file(Err(errno::ENOENT)), Err(errno::ENOENT));
    assert!(exec_file(Ok(ExecFile { executable: true, size: EXEC_MAX_BYTES + 1 })).is_err());
    assert!(matches!(exec_read(10, 0, Ok(4)), ReadStep::More(4)));
    assert!(matches!(exec_read(10, 4, Ok(6)), ReadStep::Done));
    let name = exec_name(&b("/bin/ls"));
    assert_eq!((name.len(), &name[..3]), (16, &b"ls\0"[..]));
    assert_eq!(exec_args(vec![], &b("/bin/ls")), vec![b("/bin/ls")]);
    let mut args = vec![];
    assert!(matches!(take_arg(&mut args, ArgRead::Arg(b("x")), 4), ArgStep::More));
    assert!(matches!(take_arg(&mut args, ArgRead::End, 4), ArgStep::Done));
    assert!(matches!(take_arg(&mut args, ArgRead::Fault, 4), ArgStep::Fail(errno::EFAULT)));
    assert_eq!(args, vec![b("x")]);
    let run = |at: u64, p: PathRead, args: Result<(), i64>, flags: u64, again: bool, size: Option<u64>| {
        sys_execveat(at, p, args, flags, again, size)
    };
    let empty = || PathRead::Path("".to_string());
    assert_eq!(run(1, empty(), Ok(()), AT_EMPTY_PATH, false, Some(5)), Ok(5));
    assert_eq!(run(0, PathRead::TooLong, Ok(()), AT_EMPTY_PATH, false, Some(5)), Ok(5));
    assert_eq!(run(1, PathRead::TooLong, Ok(()), AT_EMPTY_PATH, false, Some(5)), Err(errno::ENAMETOOLONG));
    assert_eq!(run(1, PathRead::NotText, Ok(()), AT_EMPTY_PATH, false, Some(5)), Err(errno::EINVAL));
    assert_eq!(run(1, empty(), Err(errno::E2BIG), 0, false, None), Err(errno::E2BIG));
    assert_eq!(run(1, empty(), Ok(()), 0, false, Some(5)), Err(errno::ENOSYS));
    assert_eq!(run(1, empty(), Ok(()), AT_EMPTY_PATH, true, Some(5)), Err(errno::ENOSYS));
    assert_eq!(run(1, empty(), Ok(()), AT_EMPTY_PATH, false, None), Err(errno::EBADF));
    assert_eq!(run(1, empty(), Ok(()), AT_EMPTY_PATH, false, Some(0)), Err(errno::ENOEXEC));
    assert_eq!(execveat_args(vec![]), vec![b("/proc/self/fd")]);
    assert_eq!(execveat_args(vec![b("x")]), vec![b("x")]);
}

#[test]
fn clone_makes_a_thread_or_a_process() {
    let thread = CLONE_VM | CLONE_FS | CLONE_FILES | CLONE_SIGHAND | CLONE_THREAD;
    assert!(matches!(do_clone(thread, 0x1000, false), Ok(NewTask::Thread { stack: 0x1000 })));
    assert!(matches!(
        do_clone(17, 0, false),
        Ok(NewTask::Process { stack: 0, borrows_memory: false, .. })
    ));
    assert!(matches!(
        do_clone(CLONE_VM | CLONE_VFORK, 0, false),
        Ok(NewTask::Process { borrows_memory: true, .. })
    ));
    let d = clone_done(CLONE_PARENT_SETTID | CLONE_CHILD_CLEARTID, 1, 2, 3);
    assert_eq!((d.tell_parent, d.clear_on_exit, d.tell_child, d.tls), (Some(1), Some(2), None, None));
    assert_eq!(sys_fork(Ok(5)), 5);
    assert_eq!(sys_fork(Err(errno::ENOMEM)), errno::ENOMEM);
    assert!(clone3_len(1, 10).is_err());
    assert_eq!(clone3_len(1, 64), Ok(64));
    let mut raw = vec![0u8; 64];
    raw[0] = 17;
    let a = sys_clone3(Some(raw)).ok().unwrap();
    assert_eq!(a.child_stack, 0);
    assert_eq!(sys_clone3(None).err(), Some(errno::EFAULT));
}

#[test]
fn namespaces_are_left_with_a_right_to_it() {
    assert_eq!(sys_unshare(CLONE_NEWUTS, false).err(), Some(errno::EPERM));
    let u = sys_unshare(CLONE_NEWUTS | CLONE_NEWNS, true).ok().unwrap();
    assert_eq!((u.uts, u.mounts, u.net), (true, true, false));
    assert_eq!(sys_setns(NsFile::NotOpen, 0, true), errno::EBADF);
    assert_eq!(sys_setns(NsFile::Other, 0, true), errno::EINVAL);
    assert_eq!(sys_setns(NsFile::Namespace { type_flag: CLONE_NEWUTS }, CLONE_NEWNS, true), errno::EINVAL);
    let mut c = Caps { effective: 0, permitted: 0, inheritable: 0, bounding: 0 };
    assert_eq!(unshare_user(&mut c, CLONE_NEWUSER, true, 7), None);
    assert_eq!((c.effective, c.permitted), (7, 7));
}

#[test]
fn limits_are_told_and_set_in_order() {
    assert_eq!(default_rlimit(RLIMIT_STACK).cur, 8 * 1024 * 1024);
    let now = Rlimit { cur: 5, max: 10 };
    let r = sys_getrlimit(50, now);
    assert_eq!((bytes::u64_at(&r.out[0].bytes, 0), bytes::u64_at(&r.out[0].bytes, 8)), (5, 10));
    let mut new = Vec::new();
    bytes::push_u64(&mut new, 7);
    bytes::push_u64(&mut new, 9);
    let set = sys_setrlimit(RLIMIT_NOFILE, 1, Some(new.clone()));
    assert_eq!((set.code, set.descriptors), (0, Some(7)));
    let s = set.set.unwrap();
    assert_eq!((s.cur, s.max), (7, 9));
    let mut bad = Vec::new();
    bytes::push_u64(&mut bad, 9);
    bytes::push_u64(&mut bad, 7);
    assert_eq!(sys_setrlimit(RLIMIT_NOFILE, 1, Some(bad)).code, errno::EINVAL);
    assert_eq!(sys_setrlimit(99, 1, Some(new.clone())).code, errno::EINVAL);
    assert_eq!(sys_prlimit64(0, Pid(1), 99, 0, now).code, errno::EINVAL);
    assert_eq!(sys_prlimit64(2, Pid(1), RLIMIT_NOFILE, 0, now).code, errno::EINVAL);
    let told = sys_prlimit64(0, Pid(1), RLIMIT_NOFILE, 60, now);
    assert_eq!((told.code, told.out[0].to), (0, 60));
    let both = told.out[0].bytes.clone();
    assert_eq!(limit_change(told.settle(true), RLIMIT_NOFILE, 60, Some(both)).set, Some(now));
    assert_eq!(limit_change(told.settle(false), RLIMIT_NOFILE, 1, Some(new)).code, errno::EFAULT);
    assert_eq!(limit_change(0, RLIMIT_NOFILE, 0, None).set, None);
}

fn attrs() -> Attrs {
    Attrs { no_new_privs: false, subreaper: false, pdeathsig: 0, dumpable: 1, keep_caps: false }
}

#[test]
fn privileges_once_given_up_stay_given_up() {
    let facts = || PrctlFacts { filtered: false, bounded: true, may_drop: true };
    let mut a = attrs();
    let step = sys_prctl(&mut a, PR_SET_NO_NEW_PRIVS, 1, 0, facts(), None, vec![]);
    assert!(matches!(step, PrctlStep::Answer(_)));
    assert!(a.no_new_privs);
    let _ = sys_prctl(&mut a, PR_SET_NO_NEW_PRIVS, 0, 0, facts(), None, vec![]);
    assert!(a.no_new_privs);
    match sys_prctl(&mut a, PR_GET_NO_NEW_PRIVS, 0, 0, facts(), None, vec![]) {
        PrctlStep::Answer(r) => assert_eq!(r.code, 1),
        _ => panic!("it is answered"),
    }
    match sys_prctl(&mut a, PR_SET_NAME, 1, 0, facts(), None, vec![]) {
        PrctlStep::Answer(r) => assert_eq!(r.code, errno::EFAULT),
        _ => panic!("the name cannot be read"),
    }
}

#[test]
fn the_thread_register_is_set_and_told() {
    assert!(matches!(sys_arch_prctl(ARCH_SET_FS, 0x1000, 0), ArchStep::SetFs(0x1000)));
    match sys_arch_prctl(ARCH_GET_FS, 50, 0x2000) {
        ArchStep::Answer(r) => assert_eq!(bytes::u64_at(&r.out[0].bytes, 0), 0x2000),
        _ => panic!("it is told"),
    }
    match sys_arch_prctl(77, 0, 0) {
        ArchStep::Answer(r) => assert_eq!(r.code, errno::EINVAL),
        _ => panic!("it is not known"),
    }
}

#[test]
fn children_are_waited_for() {
    assert_eq!(wait4_target(u64::MAX, None), Ok(-1));
    assert_eq!(wait4_target(5, Some(Pid(50))), Ok(50));
    assert_eq!(wait4_target(5, None), Err(errno::ECHILD));
    let r = sys_wait4(80, Ok(Some(Waited { local: 3, status: 0x100 })));
    assert_eq!((r.code, r.out[0].bytes.clone()), (3, vec![0, 1, 0, 0]));
    assert_eq!(sys_wait4(80, Ok(None)).code, 0);
    assert_eq!(sys_wait4(80, Err(errno::ECHILD)).code, errno::ECHILD);
    assert_eq!(waitid_target(P_ALL, 0, None), Ok(-1));
    assert_eq!(waitid_target(P_PID, 5, Some(Pid(50))), Ok(50));
    assert_eq!(waitid_target(9, 0, None), Err(errno::EINVAL));
    assert_eq!(child_end(0x300), (1, 3));
    assert_eq!(child_end(9).0, 2);
}

#[test]
fn times_and_machine_are_told() {
    let t = CpuTimes { utime_ns: 1_500_000_000, stime_ns: 20_000_000, cutime_ns: 0, cstime_ns: 0 };
    let r = sys_getrusage(0, 50, t);
    assert_eq!((bytes::u64_at(&r.out[0].bytes, 0), bytes::u64_at(&r.out[0].bytes, 8)), (1, 500_000));
    assert_eq!(sys_getrusage(9, 50, t).out[0].bytes[..16], [0u8; 16]);
    assert_eq!(sys_getrusage(0, 0, t).code, errno::EFAULT);
    let r = sys_times(50, t, 100_000_000);
    assert_eq!(r.code, 10);
    assert_eq!(bytes::u64_at(&r.out[0].bytes, 0), 150);
    let m = Machine {
        uptime_ns: 5_000_000_000,
        load1: 0,
        load5: 0,
        load15: 0,
        frames: 10,
        frames_used: 4,
        processes: 3,
    };
    let r = sys_sysinfo(50, m);
    assert_eq!(r.code, 0);
    assert_eq!(bytes::u64_at(&r.out[0].bytes, 0), 5);
    let r = sys_uname(50, &b("host"), &b("v1"), &b("dom"));
    assert_eq!((r.out.len(), r.out[1].to, r.out[1].bytes.len()), (6, 115, 65));
    assert_eq!(r.out[1].bytes[..5], *b"host\0");
    assert_eq!(r.out[0].bytes[..6], *b"Linux\0");
}

fn target() -> Option<Pid> {
    Some(Pid(4))
}

#[test]
fn scheduling_classes_have_their_priorities() {
    let prio = |p: u8| Some(vec![p, 0, 0, 0]);
    match sys_sched_setscheduler(target(), SCHED_FIFO, 1, prio(10), true) {
        SetClass::Of(pid, class) => {
            assert_eq!(pid, Pid(4));
            assert!(matches!(class, SchedClass::Rt { priority: 10, round_robin: false }));
        }
        _ => panic!("the class is set"),
    }
    assert!(matches!(sys_sched_setscheduler(target(), SCHED_FIFO, 1, prio(10), false), SetClass::Reply(errno::EPERM)));
    assert!(matches!(sys_sched_setscheduler(target(), SCHED_FIFO, 1, prio(0), true), SetClass::Reply(errno::EINVAL)));
    assert!(matches!(sys_sched_setscheduler(None, SCHED_OTHER, 1, prio(0), true), SetClass::Reply(errno::ESRCH)));
    assert_eq!(sys_sched_getscheduler(Some(SchedClass::Rt { priority: 3, round_robin: true })), SCHED_RR as i64);
    let step = sys_sched_setscheduler(target(), SCHED_FIFO, 1, prio(10), true);
    assert_eq!(class_answer(&step, Ok(())), 0);
    assert_eq!(class_answer(&step, Err(errno::ESRCH)), errno::ESRCH);
    assert_eq!(class_answer(&SetClass::Reply(errno::EPERM), Ok(())), errno::EPERM);
    assert_eq!(sys_sched_getscheduler(None), errno::ESRCH);
    assert_eq!(sys_sched_get_priority_max(SCHED_FIFO), 99);
    assert_eq!(sys_sched_get_priority_max(77), errno::EINVAL);
    let r = sys_sched_getparam(50, Some(SchedClass::Rt { priority: 3, round_robin: true }));
    assert_eq!(r.out[0].bytes, vec![3, 0, 0, 0]);
}

#[test]
fn attributes_are_read_as_they_are_shown() {
    let class = SchedClass::Deadline { runtime_ns: 10, deadline_ns: 20, period_ns: 30 };
    let r = sys_sched_getattr(50, 48, target(), Some((class, 0)));
    assert_eq!(r.code, 0);
    let shown = r.out[0].bytes.clone();
    assert_eq!(bytes::u32_at(&shown, 4) as u64, SCHED_DEADLINE);
    match sys_sched_setattr(target(), Some(shown), 0, true) {
        SetAttr::Deadline { pid, runtime, deadline, period } => {
            assert_eq!((pid, runtime, deadline, period), (Pid(4), 10, 20, 30))
        }
        _ => panic!("a deadline is set"),
    }
    let step = SetAttr::Deadline { pid: Pid(4), runtime: 10, deadline: 20, period: 30 };
    assert_eq!(attr_answer(&step, Ok(())), 0);
    assert_eq!(attr_answer(&step, Err(errno::EBUSY)), errno::EBUSY);
    assert_eq!(attr_answer(&SetAttr::Reply(errno::EINVAL), Ok(())), errno::EINVAL);
}

#[test]
fn niceness_is_bounded_and_lowered_only_by_right() {
    assert_eq!(sys_getpriority(PRIO_PROCESS, target(), 5), 15);
    assert_eq!(sys_getpriority(9, target(), 5), errno::EINVAL);
    assert_eq!(sys_setpriority(PRIO_PROCESS, target(), 50, 0, false), Ok((Pid(4), 19)));
    assert_eq!(sys_setpriority(PRIO_PROCESS, target(), (-5i64) as u64, 0, false), Err(errno::EPERM));
    assert_eq!(sys_setpriority(PRIO_PROCESS, target(), (-5i64) as u64, 0, true), Ok((Pid(4), -5)));
}

#[test]
fn processors_are_chosen_among_those_that_run() {
    let peer = || Peer { caller_euid: 1, target_euid: Some(1), capable: false };
    assert!(affinity_len(0, 8).is_err());
    let r = sys_sched_setaffinity(Some(vec![0b110, 0, 0, 0, 0, 0, 0, 0]), 0b011, Pid(4), target(), peer());
    assert_eq!(r, Ok((Pid(4), 0b110)));
    let r = sys_sched_setaffinity(Some(vec![0b100, 0, 0, 0, 0, 0, 0, 0]), 0b011, Pid(4), target(), peer());
    assert_eq!(r, Err(errno::EINVAL));
    assert_eq!(sys_getcpu(10, 20, 3).out.len(), 2);
}

#[test]
fn a_restartable_sequence_is_registered_once() {
    let mut now = Rseq { addr: 0, len: 0, sig: 0 };
    assert_eq!(sys_rseq(&mut now, 0x1000, 32, 0, 7, 2).0, 0);
    assert_eq!((now.addr, now.len, now.sig), (0x1000, 32, 7));
    assert_ne!(sys_rseq(&mut now, 0x2000, 32, 0, 7, 2).0, 0);
    assert_eq!(sys_rseq(&mut now, 0x1000, 32, RSEQ_FLAG_UNREGISTER, 7, 2).0, 0);
    assert_eq!(now.addr, 0);
}

#[test]
fn a_program_is_found_by_its_path() {
    let at = At { dirfd: AT_FDCWD, dir: None, cwd_path: Some("/bin".to_string()), cwd_inode: None };
    let run = |p: &str, memory: bool| sys_execve(&at, PathRead::Path(p.to_string()), memory);
    assert_eq!(run("sh", false), Ok("/bin/sh".to_string()));
    assert_eq!(run("/proc/self/exe", true), Err(errno::EACCES));
    assert_eq!(run("/proc/self/exe", false), Ok("/proc/self/exe".to_string()));
    assert_eq!(run("", false), Err(errno::ENOENT));
    assert_eq!(sys_execve(&at, PathRead::TooLong, false), Err(errno::ENAMETOOLONG));
    assert_eq!(exec_interpreter(&at, None), Err(errno::EINVAL));
    assert_eq!(exec_interpreter(&at, Some("sh".to_string())), Ok("/bin/sh".to_string()));
    let tree = FileTree::new()
        .with(0, TreeNode::directory(vec![("sh".to_string(), 1)]))
        .with(1, TreeNode::leaf(InodeKind::Regular));
    let world = MountWorld::new();
    assert_eq!(exec_lookup(&tree, 0, &world.tables[0], "/sh"), Ok(1));
    assert_eq!(exec_lookup(&tree, 0, &world.tables[0], "/ls"), Err(errno::ENOENT));
}

#[test]
fn a_script_gives_way_to_its_interpreter() {
    let at = At { dirfd: AT_FDCWD, dir: None, cwd_path: Some("/work".to_string()), cwd_inode: None };
    let mut l = exec_begin("/work/run".to_string(), vec![]);
    assert_eq!(l.argv, vec![b("/work/run")]);
    let mut l2 = exec_begin("/work/run".to_string(), vec![b("run"), b("1")]);
    let next = exec_loaded(&mut l2, &at, &b("#! sh -e\nrest"));
    assert!(matches!(next, ExecNext::Load));
    assert_eq!((l2.path.as_str(), l2.depth), ("/work/sh", 1));
    assert_eq!(l2.argv, vec![b("sh"), b("-e"), b("/work/run"), b("1")]);
    match exec_loaded(&mut l2, &at, &b("\x7fELF")) {
        ExecNext::Run { shown, name } => {
            assert_eq!(shown, b("/work/sh"));
            assert_eq!(&name[..3], b"sh\0");
        }
        _ => panic!(),
    }
    for _ in 0..4 {
        let next = exec_loaded(&mut l, &at, &b("#!/work/run\n"));
        assert!(matches!(next, ExecNext::Load));
    }
    let next = exec_loaded(&mut l, &at, &b("#!/work/run\n"));
    assert!(matches!(next, ExecNext::Fail(errno::ELOOP)));
    let mut l = exec_begin("/work/run".to_string(), vec![]);
    assert!(matches!(exec_loaded(&mut l, &at, &vec![0x23, 0x21, 0xff]), ExecNext::Fail(errno::EINVAL)));
    assert!(matches!(exec_loaded(&mut l, &at, &b("#! \n")), ExecNext::Fail(errno::ENOEXEC)));
}
