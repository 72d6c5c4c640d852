use cyphera_kernel::bytes;
use cyphera_kernel::errno;
use cyphera_kernel::numeral::{decimal_chars, parse_fd, parse_number};
use cyphera_kernel::process_model::Pid;
use cyphera_kernel::syscall::caps::{
    capget_target, capset_target, sys_capget, sys_capset, CapStep, Caps, LINUX_CAPABILITY_VERSION_3,
};
use cyphera_kernel::syscall::creds::{
    read_groups, setgroups_len, sys_getgroups, sys_getresuid, sys_setfsuid, sys_setgid, sys_setgroups,
    sys_sethostname, sys_setresuid, sys_setreuid, sys_setuid, Ids, SETID_KEEP,
};
use cyphera_kernel::syscall::dispatch::{
    advance, dispatch_if_legacy, dispatch_pre_sched, filtered, getrandom_len, served, FilterAction, group_call, process_reply, route,
    setpgid_call, sys_getppid, sys_getrandom, sys_reboot, sys_vhangup, sys_write_pre_sched, Args,
    EarlyCall, GroupCall, Legacy, Outcome, Reboot, Routed, Stage, AT_FDCWD, FDCWD,
    REBOOT_CMD_CAD_OFF, REBOOT_CMD_RESTART, REBOOT_MAGIC1, REBOOT_MAGIC2,
};
use cyphera_kernel::syscall::handler::Handler;
use cyphera_kernel::syscall::numbers;
use cyphera_kernel::syscall::reply::Reply;
use cyphera_kernel::syscall::seccomp::{
    action_available, apply_seccomp, filter_answer, filter_header, filter_program, read_filter, strict_mode_program, sys_seccomp,
    SeccompStep, Verdict, SECCOMP_RET_ALLOW, SECCOMP_RET_ERRNO, SECCOMP_RET_TRAP, SECCOMP_RET_LOG,
    SECCOMP_SET_MODE_FILTER, SECCOMP_SET_MODE_STRICT,
};
use cyphera_kernel::syscall::util::{
    decode_timespec_relative_deadline, read_duration, read_timespec, read_user_cstr,
    split_secs_nsecs, total_nanos, validate_futex2_flags, write_timespec,
};

fn args() -> Args {
    Args { a0: 10, a1: 11, a2: 12, a3: 13, a4: 14, a5: 15 }
}

#[test]
fn a_call_reaches_its_handler_with_its_arguments() {
    match route(numbers::SYS_READ, args()) {
        Routed::Call { handler, args: a } => {
            assert_eq!(handler, Handler::Read);
            assert_eq!((a.a0, a.a1, a.a2), (10, 11, 12));
        }
        _ => panic!("reading is served"),
    }
}

#[test]
fn a_call_without_a_directory_starts_at_the_working_directory() {
    match route(numbers::SYS_MKDIR, args()) {
        Routed::Call { handler, args: a } => {
            assert_eq!(handler, Handler::Mkdirat);
            assert_eq!((a.a0, a.a1, a.a2), (FDCWD, 10, 11));
        }
        _ => panic!("making a directory is served"),
    }
    assert_eq!(FDCWD as i64, AT_FDCWD);
}

#[test]
fn an_unknown_number_is_not_served() {
    assert!(matches!(route(100_000, args()), Routed::Unknown));
}

#[test]
fn stages_come_in_order_and_a_refusal_skips_the_call() {
    assert_eq!(advance(Stage::EnterAccount, Outcome::Passed), Stage::Filter);
    assert_eq!(advance(Stage::Filter, Outcome::Passed), Stage::EntryHook);
    assert_eq!(advance(Stage::EntryHook, Outcome::Passed), Stage::Serve);
    assert_eq!(advance(Stage::Serve, Outcome::Passed), Stage::ExitHook);
    assert_ne!(advance(Stage::Filter, Outcome::Refused), Stage::Serve);
    assert_ne!(advance(Stage::Filter, Outcome::Refused), Stage::EntryHook);
}

#[test]
fn legacy_calls_are_told_apart() {
    assert!(matches!(dispatch_if_legacy(numbers::SYS_READ), Legacy::NotLegacy));
    assert_eq!(sys_vhangup(Some(0)), 0);
    assert_eq!(sys_vhangup(Some(5)), errno::EPERM);
}

#[test]
fn process_groups_are_of_the_caller_or_of_a_known_process() {
    assert!(matches!(group_call(0, Pid(7), None), GroupCall::Of(Pid(7))));
    assert!(matches!(group_call(9, Pid(7), Some(Pid(90))), GroupCall::Of(Pid(90))));
    assert!(matches!(group_call(9, Pid(7), None), GroupCall::NoSuchProcess));
    assert_eq!(setpgid_call(0, 0, Pid(7), None, None), Some((Pid(7), Pid(7))));
    assert_eq!(process_reply(Ok(5)), 5);
    assert_eq!(process_reply(Err(errno::ESRCH)) as i64, errno::ESRCH);
    assert_eq!(sys_getppid(0, 8), 0);
    assert_eq!(sys_getppid(3, 8), 8);
}

#[test]
fn reboot_wants_its_magic() {
    let m1 = REBOOT_MAGIC1 as u64;
    let m2 = REBOOT_MAGIC2 as u64;
    assert!(matches!(sys_reboot(false, m1, m2, 0), Reboot::Reply(errno::EPERM)));
    assert!(matches!(sys_reboot(true, 0, m2, 0), Reboot::Reply(errno::EINVAL)));
    assert!(matches!(sys_reboot(true, m1, m2, REBOOT_CMD_CAD_OFF as u64), Reboot::Reply(0)));
    assert!(matches!(sys_reboot(true, m1, m2, REBOOT_CMD_RESTART as u64), Reboot::Stop));
}

#[test]
fn random_bytes_are_bounded() {
    assert!(getrandom_len(16, 0x100).is_err());
    assert_eq!(getrandom_len(16, 0), Ok(16));
    assert_eq!(sys_getrandom(16, 0, true), 16);
    assert_eq!(sys_getrandom(16, 0, false), errno::EFAULT);
}

#[test]
fn before_processes_run_only_writing_and_leaving_work() {
    assert!(matches!(dispatch_pre_sched(numbers::SYS_WRITE), EarlyCall::Write));
    assert!(matches!(dispatch_pre_sched(numbers::SYS_EXIT), EarlyCall::Exit));
    assert!(matches!(dispatch_pre_sched(numbers::SYS_READ), EarlyCall::Unknown));
    let (code, out) = sys_write_pre_sched(1, 2, Some(vec![104, 105]));
    assert_eq!((code, out), (2, Some(vec![104, 105])));
    assert_eq!(sys_write_pre_sched(9, 2, Some(vec![104, 105])).0, errno::EBADF);
    assert_eq!(sys_write_pre_sched(1, 2, None).0, errno::EFAULT);
}

fn ids(r: u32, e: u32, s: u32, f: u32) -> Ids {
    Ids { real_id: r, effective: e, saved: s, fs: f }
}

fn all(i: &Ids) -> (u32, u32, u32, u32) {
    (i.real_id, i.effective, i.saved, i.fs)
}

#[test]
fn without_privilege_only_ids_one_has_can_be_taken() {
    let mut i = ids(1, 2, 3, 2);
    assert_eq!(sys_setresuid(&mut i, 3, 1, 2, Some(3), Some(1), Some(2), false), 0);
    assert_eq!(all(&i), (3, 1, 2, 1));
    assert_eq!(sys_setresuid(&mut i, 9, SETID_KEEP, SETID_KEEP, Some(9), None, None, false), errno::EPERM);
    assert_eq!(all(&i), (3, 1, 2, 1));
    assert_eq!(sys_setresuid(&mut i, 9, SETID_KEEP, SETID_KEEP, None, None, None, true), errno::EINVAL);
    let k = SETID_KEEP;
    assert_eq!(sys_setresuid(&mut i, k, k, k, None, None, None, false), 0);
    assert_eq!(all(&i), (3, 1, 2, 1));
}

#[test]
fn ids_given_up_are_gone_for_good() {
    let mut i = ids(0, 0, 0, 0);
    assert_eq!(sys_setuid(&mut i, Some(5), true), 0);
    assert_eq!(all(&i), (5, 5, 5, 5));
    assert_eq!(sys_setuid(&mut i, Some(0), false), errno::EPERM);
    assert_eq!(sys_setuid(&mut i, None, false), errno::EINVAL);
    let mut g = ids(1, 2, 3, 2);
    assert_eq!(sys_setgid(&mut g, Some(3), false), 0);
    assert_eq!(all(&g), (1, 3, 3, 3));
}

#[test]
fn the_saved_id_follows_where_the_real_one_is_set() {
    let mut i = ids(1, 2, 3, 2);
    assert_eq!(sys_setreuid(&mut i, 2, 1, Some(2), Some(1), false), 0);
    assert_eq!(i.real_id, 2);
    assert_eq!(i.effective, 1);
    assert_eq!(i.saved, 1);
}

#[test]
fn the_id_for_files_is_told_as_it_was() {
    let mut i = ids(1, 2, 3, 2);
    assert_eq!(sys_setfsuid(&mut i, 3, Some(3), 77, false), 77);
    assert_eq!(i.fs, 3);
    assert_eq!(sys_setfsuid(&mut i, 9, Some(9), 3, false), 3);
    assert_eq!(i.fs, 3);
}

fn outs(r: &Reply) -> Vec<(u64, Vec<u8>)> {
    r.out.iter().map(|c| (c.to, c.bytes.clone())).collect()
}

#[test]
fn ids_and_groups_are_told() {
    let r = sys_getresuid(100, 200, 300, 1, 2, 3);
    assert_eq!(r.code, 0);
    assert_eq!(
        outs(&r),
        vec![(100, vec![1, 0, 0, 0]), (200, vec![2, 0, 0, 0]), (300, vec![3, 0, 0, 0])]
    );
    let groups = vec![5u32, 6];
    assert_eq!(sys_getgroups(0, 0, &groups).code, 2);
    assert_eq!(sys_getgroups(1, 50, &groups).code, errno::ERANGE);
    let r = sys_getgroups(8, 50, &groups);
    assert_eq!(r.code, 2);
    assert_eq!(outs(&r), vec![(50, vec![5, 0, 0, 0, 6, 0, 0, 0])]);
    assert_eq!(r.settle(false), errno::EFAULT);
    assert_eq!(r.settle(true), 2);
}

#[test]
fn groups_are_set_all_or_none() {
    assert_eq!(setgroups_len(2, true, false, 16), Err(errno::EPERM));
    assert_eq!(setgroups_len(17, true, true, 16), Err(errno::EINVAL));
    assert_eq!(setgroups_len(2, true, true, 16), Ok(2));
    assert_eq!(read_groups(&vec![5, 0, 0, 0, 6, 0, 0, 0]), vec![5, 6]);
    let mut groups = vec![1u32];
    assert_eq!(sys_setgroups(&mut groups, &vec![Some(2), None]), errno::EINVAL);
    assert_eq!(groups, vec![1]);
    assert_eq!(sys_setgroups(&mut groups, &vec![Some(2), Some(3)]), 0);
    assert_eq!(groups, vec![2, 3]);
}

#[test]
fn a_host_name_is_set_with_a_right_to_it() {
    let mut name = "old".to_string();
    let new = || Some(b"new".to_vec());
    assert_eq!(sys_sethostname(&mut name, 1, 3, false, new()), errno::EPERM);
    assert_eq!(sys_sethostname(&mut name, 1, 65, true, new()), errno::EINVAL);
    assert_eq!(sys_sethostname(&mut name, 1, 3, true, None), errno::EFAULT);
    assert_eq!(sys_sethostname(&mut name, 1, 1, true, Some(vec![0xff])), errno::EINVAL);
    assert_eq!(name, "old");
    assert_eq!(sys_sethostname(&mut name, 1, 3, true, new()), 0);
    assert_eq!(name, "new");
}

fn header(version: u32, pid: u32) -> Option<Vec<u8>> {
    let mut b = Vec::new();
    bytes::push_u32(&mut b, version);
    bytes::push_u32(&mut b, pid);
    Some(b)
}

#[test]
fn capabilities_are_told_in_two_halves() {
    let v = LINUX_CAPABILITY_VERSION_3;
    assert!(matches!(capget_target(1, header(v, 0), Pid(7)), CapStep::Of(Pid(7))));
    assert!(matches!(capget_target(1, header(v, 9), Pid(7)), CapStep::Of(Pid(9))));
    assert!(matches!(capget_target(1, header(1, 0), Pid(7)), CapStep::TellVersion(_)));
    assert!(matches!(capget_target(1, None, Pid(7)), CapStep::Reply(errno::EFAULT)));
    assert!(matches!(capset_target(1, 2, header(v, 9), Pid(7)), CapStep::Reply(_)));
    let c = Caps { effective: 0x1_0000_0002, permitted: 3, inheritable: 0, bounding: 7 };
    let r = sys_capget(50, Some(c));
    assert_eq!(r.code, 0);
    let b = &r.out[0].bytes;
    assert_eq!(b.len(), 24);
    assert_eq!((bytes::u32_at(b, 0), bytes::u32_at(b, 12)), (2, 1));
    assert_eq!((bytes::u32_at(b, 4), bytes::u32_at(b, 16)), (3, 0));
    assert_eq!(sys_capget(50, None).code, errno::ESRCH);
}

#[test]
fn no_capability_is_gained() {
    let mut c = Caps { effective: 1, permitted: 3, inheritable: 0, bounding: 3 };
    let shown = sys_capget(1, Some(Caps { effective: 3, permitted: 3, inheritable: 0, bounding: 3 }));
    assert_eq!(sys_capset(&mut c, Some(shown.out[0].bytes.clone()), u64::MAX), 0);
    assert_eq!((c.effective, c.permitted), (3, 3));
    let more = sys_capget(1, Some(Caps { effective: 3, permitted: 7, inheritable: 0, bounding: 3 }));
    assert_eq!(sys_capset(&mut c, Some(more.out[0].bytes.clone()), u64::MAX), errno::EPERM);
    assert_eq!(c.permitted, 3);
    assert_eq!(sys_capset(&mut c, None, u64::MAX), errno::EFAULT);
}

#[test]
fn filters_are_asked_for_and_applied() {
    assert!(matches!(sys_seccomp(SECCOMP_SET_MODE_STRICT, 0, false, true, true), SeccompStep::SetStrict));
    assert!(matches!(sys_seccomp(SECCOMP_SET_MODE_STRICT, 0, false, false, true), SeccompStep::Reply(errno::EPERM)));
    assert!(matches!(sys_seccomp(SECCOMP_SET_MODE_STRICT, 0, true, false, false), SeccompStep::Reply(errno::EINVAL)));
    assert!(matches!(sys_seccomp(SECCOMP_SET_MODE_FILTER, 0, false, false, true), SeccompStep::Reply(errno::EPERM)));
    assert!(matches!(sys_seccomp(SECCOMP_SET_MODE_FILTER, 8, true, true, true), SeccompStep::Reply(errno::EINVAL)));
    assert!(matches!(sys_seccomp(SECCOMP_SET_MODE_FILTER, 0, true, false, true), SeccompStep::ReadFilter { all_threads: false }));
    assert!(matches!(sys_seccomp(77, 0, true, true, true), SeccompStep::Reply(errno::EINVAL)));
    assert!(matches!(apply_seccomp(SECCOMP_RET_ALLOW), Verdict::Allow));
    assert!(matches!(apply_seccomp(SECCOMP_RET_LOG), Verdict::Log));
    assert!(matches!(apply_seccomp(SECCOMP_RET_ERRNO | 13), Verdict::Errno(-13)));
    assert_eq!(action_available(None), errno::EFAULT);
    assert_eq!(action_available(Some(vec![0, 0, 0xff, 0x7f])), 0);
}

#[test]
fn a_filter_is_read_eight_bytes_at_a_time() {
    let p = read_filter(&vec![0x20, 0, 1, 2, 4, 3, 2, 1]);
    assert_eq!((p[0].code, p[0].jt, p[0].jf, p[0].k), (0x20, 1, 2, 0x01020304));
    assert!(filter_header(None).is_err());
    assert!(!strict_mode_program().is_empty());
    assert_eq!(filter_program(None).err(), Some(errno::EFAULT));
    assert_eq!(filter_program(Some(vec![0; 16])).unwrap().len(), 2);
    assert_eq!((filter_answer(true), filter_answer(false)), (0, errno::EINVAL));
}

#[test]
fn times_are_read_as_they_are_shown() {
    let b = write_timespec(5, 7);
    let t = read_timespec(Some(b.clone())).unwrap();
    assert_eq!((t.sec, t.nsec), (5, 7));
    assert_eq!(read_duration(Some(b)), Ok(5_000_000_007));
    assert_eq!(read_duration(None), Err(errno::EFAULT));
    assert_eq!(read_duration(Some(write_timespec(0, 1_000_000_000))), Err(errno::EINVAL));
    assert_eq!(total_nanos(u64::MAX, 0), u64::MAX);
    assert_eq!(split_secs_nsecs(2_000_000_003), (2, 3));
    assert_eq!(decode_timespec_relative_deadline(0, None, 10), Ok(None));
    assert_eq!(decode_timespec_relative_deadline(1, Some(write_timespec(0, 5)), 10), Ok(Some(15)));
}

#[test]
fn strings_end_at_a_zero() {
    assert_eq!(read_user_cstr(1, Some(vec![104, 105, 0, 9])), Ok("hi".to_string()));
    assert_eq!(read_user_cstr(0, Some(vec![0])), Err(errno::EFAULT));
    assert_eq!(read_user_cstr(1, None), Err(errno::EFAULT));
    assert_eq!(read_user_cstr(1, Some(vec![1, 2])), Err(errno::EINVAL));
    assert_eq!(read_user_cstr(1, Some(vec![0xc3, 0xbc, 0])), Ok("\u{fc}".to_string()));
    assert_eq!(read_user_cstr(1, Some(vec![0xc3, 0])), Err(errno::EINVAL));
    assert!(validate_futex2_flags(2).is_ok());
    assert!(validate_futex2_flags(0).is_err());
}

#[test]
fn numbers_are_read_back_from_bytes_and_digits() {
    let mut b = Vec::new();
    bytes::push_u16(&mut b, 0x0102);
    bytes::push_u32(&mut b, 0x03040506);
    bytes::push_u64(&mut b, 0x0708090a0b0c0d0e);
    bytes::push_zeros(&mut b, 2);
    assert_eq!(b[..6], [2, 1, 6, 5, 4, 3]);
    assert_eq!(b.len(), 16);
    assert_eq!(bytes::u16_at(&b, 0), 0x0102);
    assert_eq!(bytes::u32_at(&b, 2), 0x03040506);
    assert_eq!(bytes::u64_at(&b, 6), 0x0708090a0b0c0d0e);
    for n in [0u32, 7, 10, 4_294_967_295] {
        let d = decimal_chars(n);
        assert_eq!(d.iter().collect::<String>(), format!("{}", n));
        assert_eq!(parse_number(&d, 0), Some(n));
    }
    let chars = |s: &str| s.chars().collect::<Vec<char>>();
    assert_eq!(parse_number(&chars("4294967296"), 0), None);
    assert_eq!(parse_number(&chars("+"), 0), None);
    assert_eq!(parse_number(&chars(""), 0), None);
    assert_eq!(parse_number(&chars("x12"), 1), Some(12));
    assert_eq!(parse_fd(&chars("-0")), Some(0));
    assert_eq!(parse_fd(&chars("-1")), None);
    assert_eq!(parse_fd(&chars("2147483648")), None);
    assert_eq!(parse_fd(&chars("2147483647")), Some(2147483647));
}

#[test]
fn a_refused_call_is_answered_by_the_filters() {
    let f = filtered(SECCOMP_RET_ERRNO | 13);
    assert_eq!((f.outcome, f.answer, f.action), (Outcome::Refused, Some(-13), FilterAction::Nothing));
    assert_eq!(filtered(SECCOMP_RET_ERRNO | 0xffff).answer, Some(-4095));
    let f = filtered(SECCOMP_RET_TRAP | 7);
    assert_eq!((f.outcome, f.answer), (Outcome::Refused, Some(errno::ENOSYS)));
    assert_eq!(f.action, FilterAction::Signal { number: 31, data: 7 });
    let f = filtered(0);
    assert_eq!((f.outcome, f.action), (Outcome::Refused, FilterAction::Kill { number: 9 }));
    let f = filtered(SECCOMP_RET_LOG);
    assert_eq!((f.outcome, f.answer, f.action), (Outcome::Passed, None, FilterAction::Note));
    assert_eq!(filtered(SECCOMP_RET_ALLOW).outcome, Outcome::Passed);
    let stage = advance(Stage::Filter, Outcome::Refused);
    assert_eq!((stage, advance(stage, Outcome::Passed)), (Stage::ExitAccount, Stage::Done));
}

#[test]
fn some_calls_leave_at_once() {
    let args = Args { a0: 5, a1: 0, a2: 0, a3: 0, a4: 0, a5: 0 };
    assert_eq!(served(route(15, args), false), Outcome::Left);
    for nr in [109, 121, 124] {
        assert_eq!(served(route(nr, args), true), Outcome::Left);
        assert_eq!(served(route(nr, args), false), Outcome::Passed);
    }
    assert_eq!(served(route(39, args), true), Outcome::Passed);
    assert_eq!(advance(Stage::Serve, Outcome::Left), Stage::Done);
}
