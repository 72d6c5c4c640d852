//! Which code serves which system call, and with which arguments.

use vstd::prelude::*;

use crate::errno;
use crate::laws::bits;
use crate::process_model::Pid;
use crate::syscall::dispatch;
use crate::syscall::dispatch::{routed, Args, Outcome, Routed, Stage};
use crate::syscall::handler::Handler;

verus! {

/// The call is handed to this code with these arguments.
pub open spec fn handed(handler: Handler, args: Args) -> Routed {
    Routed::Call { handler, args }
}

/// The calls on open files, by their numbers. Each gets its arguments as they are.
pub proof fn law_numbers_of_file_calls(a: Args)
    ensures
        routed(0, a) == handed(Handler::Read, a),
        routed(1, a) == handed(Handler::Write, a),
        routed(3, a) == handed(Handler::Close, a),
        routed(5, a) == handed(Handler::Fstat, a),
        routed(7, a) == handed(Handler::Poll, a),
        routed(8, a) == handed(Handler::Lseek, a),
        routed(16, a) == handed(Handler::Ioctl, a),
        routed(17, a) == handed(Handler::Pread64, a),
        routed(18, a) == handed(Handler::Pwrite64, a),
        routed(19, a) == handed(Handler::Readv, a),
        routed(20, a) == handed(Handler::Writev, a),
        routed(22, a) == handed(Handler::Pipe, a),
        routed(23, a) == handed(Handler::Select, a),
        routed(32, a) == handed(Handler::Dup, a),
        routed(33, a) == handed(Handler::Dup2, a),
        routed(40, a) == handed(Handler::Sendfile, a),
        routed(72, a) == handed(Handler::Fcntl, a),
        routed(73, a) == handed(Handler::Flock, a),
        routed(74, a) == handed(Handler::Fsync, a),
        routed(75, a) == handed(Handler::Fsync, a),
        routed(76, a) == handed(Handler::Truncate, a),
        routed(77, a) == handed(Handler::Ftruncate, a),
        routed(78, a) == handed(Handler::Getdents, a),
        routed(187, a) == handed(Handler::Readahead, a),
        routed(217, a) == handed(Handler::Getdents64, a),
        routed(221, a) == handed(Handler::Fadvise64, a),
        routed(232, a) == handed(Handler::EpollWait, a),
        routed(233, a) == handed(Handler::EpollCtl, a),
        routed(270, a) == handed(Handler::Pselect6, a),
        routed(271, a) == handed(Handler::Ppoll, a),
        routed(275, a) == handed(Handler::Splice, a),
        routed(276, a) == handed(Handler::Tee, a),
        routed(277, a) == handed(Handler::SyncFileRange, a),
        routed(278, a) == handed(Handler::Vmsplice, a),
        routed(281, a) == handed(Handler::EpollPwait, a),
        routed(283, a) == handed(Handler::TimerfdCreate, a),
        routed(285, a) == handed(Handler::Fallocate, a),
        routed(286, a) == handed(Handler::TimerfdSettime, a),
        routed(287, a) == handed(Handler::TimerfdGettime, a),
        routed(289, a) == handed(Handler::Signalfd4, a),
        routed(290, a) == handed(Handler::Eventfd2, a),
        routed(291, a) == handed(Handler::EpollCreate1, a),
        routed(292, a) == handed(Handler::Dup3, a),
        routed(293, a) == handed(Handler::Pipe2, a),
        routed(295, a) == handed(Handler::Preadv, a),
        routed(296, a) == handed(Handler::Pwritev, a),
        routed(319, a) == handed(Handler::MemfdCreate, a),
        routed(326, a) == handed(Handler::CopyFileRange, a),
        routed(327, a) == handed(Handler::Preadv, a),
        routed(328, a) == handed(Handler::Pwritev, a),
        routed(436, a) == handed(Handler::CloseRange, a),
        routed(441, a) == handed(Handler::EpollPwait2, a),
{
}

/// The calls on paths, by their numbers. Each gets its arguments as they are.
pub proof fn law_numbers_of_path_calls(a: Args)
    ensures
        routed(79, a) == handed(Handler::Getcwd, a),
        routed(80, a) == handed(Handler::Chdir, a),
        routed(81, a) == handed(Handler::Fchdir, a),
        routed(91, a) == handed(Handler::Fchmod, a),
        routed(93, a) == handed(Handler::Fchown, a),
        routed(155, a) == handed(Handler::PivotRoot, a),
        routed(161, a) == handed(Handler::Chroot, a),
        routed(165, a) == handed(Handler::Mount, a),
        routed(166, a) == handed(Handler::Umount2, a),
        routed(190, a) == handed(Handler::Fsetxattr, a),
        routed(191, a) == handed(Handler::Getxattr, a),
        routed(192, a) == handed(Handler::Getxattr, a),
        routed(193, a) == handed(Handler::Fgetxattr, a),
        routed(194, a) == handed(Handler::Listxattr, a),
        routed(195, a) == handed(Handler::Listxattr, a),
        routed(196, a) == handed(Handler::Flistxattr, a),
        routed(197, a) == handed(Handler::Removexattr, a),
        routed(198, a) == handed(Handler::Removexattr, a),
        routed(199, a) == handed(Handler::Fremovexattr, a),
        routed(257, a) == handed(Handler::Openat, a),
        routed(258, a) == handed(Handler::Mkdirat, a),
        routed(259, a) == handed(Handler::Mknodat, a),
        routed(260, a) == handed(Handler::Fchownat, a),
        routed(262, a) == handed(Handler::Newfstatat, a),
        routed(263, a) == handed(Handler::Unlinkat, a),
        routed(264, a) == handed(Handler::Renameat, a),
        routed(265, a) == handed(Handler::Linkat, a),
        routed(266, a) == handed(Handler::Symlinkat, a),
        routed(267, a) == handed(Handler::Readlinkat, a),
        routed(268, a) == handed(Handler::Fchmodat, a),
        routed(280, a) == handed(Handler::Utimensat, a),
        routed(316, a) == handed(Handler::Renameat2, a),
        routed(332, a) == handed(Handler::Statx, a),
        routed(437, a) == handed(Handler::Openat2, a),
        routed(439, a) == handed(Handler::Faccessat, a),
        routed(452, a) == handed(Handler::Fchmodat, a),
        routed(463, a) == handed(Handler::Setxattrat, a),
        routed(464, a) == handed(Handler::Getxattrat, a),
        routed(465, a) == handed(Handler::Listxattrat, a),
        routed(466, a) == handed(Handler::Removexattrat, a),
{
}

/// The calls on memory and scheduling, by their numbers. Each gets its arguments as they are.
pub proof fn law_numbers_of_memory_calls(a: Args)
    ensures
        routed(9, a) == handed(Handler::Mmap, a),
        routed(10, a) == handed(Handler::Mprotect, a),
        routed(11, a) == handed(Handler::Munmap, a),
        routed(12, a) == handed(Handler::Brk, a),
        routed(24, a) == handed(Handler::SchedYield, a),
        routed(25, a) == handed(Handler::Mremap, a),
        routed(26, a) == handed(Handler::Msync, a),
        routed(27, a) == handed(Handler::Mincore, a),
        routed(28, a) == handed(Handler::Madvise, a),
        routed(29, a) == handed(Handler::Shmget, a),
        routed(30, a) == handed(Handler::Shmat, a),
        routed(31, a) == handed(Handler::Shmctl, a),
        routed(67, a) == handed(Handler::Shmdt, a),
        routed(140, a) == handed(Handler::Getpriority, a),
        routed(141, a) == handed(Handler::Setpriority, a),
        routed(142, a) == handed(Handler::SchedSetparam, a),
        routed(143, a) == handed(Handler::SchedGetparam, a),
        routed(144, a) == handed(Handler::SchedSetscheduler, a),
        routed(145, a) == handed(Handler::SchedGetscheduler, a),
        routed(146, a) == handed(Handler::SchedGetPriorityMax, a),
        routed(147, a) == handed(Handler::SchedGetPriorityMin, a),
        routed(148, a) == handed(Handler::SchedRrGetInterval, a),
        routed(149, a) == handed(Handler::Mlock, a),
        routed(150, a) == handed(Handler::Munlock, a),
        routed(151, a) == handed(Handler::Mlockall, a),
        routed(152, a) == handed(Handler::Munlockall, a),
        routed(202, a) == handed(Handler::Futex, a),
        routed(203, a) == handed(Handler::SchedSetaffinity, a),
        routed(204, a) == handed(Handler::SchedGetaffinity, a),
        routed(218, a) == handed(Handler::SetTidAddress, a),
        routed(237, a) == handed(Handler::Mbind, a),
        routed(238, a) == handed(Handler::SetMempolicy, a),
        routed(239, a) == handed(Handler::GetMempolicy, a),
        routed(273, a) == handed(Handler::SetRobustList, a),
        routed(309, a) == handed(Handler::Getcpu, a),
        routed(310, a) == handed(Handler::ProcessVmReadv, a),
        routed(311, a) == handed(Handler::ProcessVmWritev, a),
        routed(314, a) == handed(Handler::SchedSetattr, a),
        routed(315, a) == handed(Handler::SchedGetattr, a),
        routed(324, a) == handed(Handler::Membarrier, a),
        routed(325, a) == handed(Handler::Mlock2, a),
        routed(334, a) == handed(Handler::Rseq, a),
        routed(449, a) == handed(Handler::FutexWaitv, a),
        routed(450, a) == handed(Handler::SetMempolicyHomeNode, a),
        routed(454, a) == handed(Handler::FutexWake, a),
        routed(455, a) == handed(Handler::FutexWait, a),
        routed(456, a) == handed(Handler::FutexRequeue, a),
{
}

/// The calls on sockets, by their numbers. Each gets its arguments as they are.
pub proof fn law_numbers_of_socket_calls(a: Args)
    ensures
        routed(41, a) == handed(Handler::Socket, a),
        routed(42, a) == handed(Handler::Connect, a),
        routed(43, a) == handed(Handler::Accept, a),
        routed(44, a) == handed(Handler::Sendto, a),
        routed(45, a) == handed(Handler::Recvfrom, a),
        routed(46, a) == handed(Handler::Sendmsg, a),
        routed(47, a) == handed(Handler::Recvmsg, a),
        routed(48, a) == handed(Handler::Shutdown, a),
        routed(49, a) == handed(Handler::Bind, a),
        routed(50, a) == handed(Handler::Listen, a),
        routed(51, a) == handed(Handler::Getsockname, a),
        routed(52, a) == handed(Handler::Getpeername, a),
        routed(53, a) == handed(Handler::Socketpair, a),
        routed(54, a) == handed(Handler::Setsockopt, a),
        routed(55, a) == handed(Handler::Getsockopt, a),
        routed(288, a) == handed(Handler::Accept, a),
{
}

/// The calls on signals and time, by their numbers. Each gets its arguments as they are.
pub proof fn law_numbers_of_signal_and_time_calls(a: Args)
    ensures
        routed(13, a) == handed(Handler::RtSigaction, a),
        routed(14, a) == handed(Handler::RtSigprocmask, a),
        routed(15, a) == handed(Handler::RtSigreturn, a),
        routed(34, a) == handed(Handler::Pause, a),
        routed(35, a) == handed(Handler::Nanosleep, a),
        routed(36, a) == handed(Handler::Getitimer, a),
        routed(37, a) == handed(Handler::Alarm, a),
        routed(38, a) == handed(Handler::Setitimer, a),
        routed(62, a) == handed(Handler::Kill, a),
        routed(96, a) == handed(Handler::Gettimeofday, a),
        routed(100, a) == handed(Handler::Times, a),
        routed(127, a) == handed(Handler::RtSigpending, a),
        routed(128, a) == handed(Handler::RtSigtimedwait, a),
        routed(129, a) == handed(Handler::RtSigqueueinfo, a),
        routed(130, a) == handed(Handler::RtSigsuspend, a),
        routed(131, a) == handed(Handler::Sigaltstack, a),
        routed(159, a) == handed(Handler::Adjtimex, a),
        routed(164, a) == handed(Handler::Settimeofday, a),
        routed(200, a) == handed(Handler::Tkill, a),
        routed(201, a) == handed(Handler::Time, a),
        routed(227, a) == handed(Handler::ClockSettime, a),
        routed(228, a) == handed(Handler::ClockGettime, a),
        routed(229, a) == handed(Handler::ClockGetres, a),
        routed(230, a) == handed(Handler::ClockNanosleep, a),
        routed(234, a) == handed(Handler::Tgkill, a),
        routed(297, a) == handed(Handler::RtTgsigqueueinfo, a),
        routed(305, a) == handed(Handler::ClockAdjtime, a),
        routed(424, a) == handed(Handler::PidfdSendSignal, a),
        routed(434, a) == handed(Handler::PidfdOpen, a),
{
}

/// The calls on processes and the machine, by their numbers. Each gets its arguments as they are.
pub proof fn law_numbers_of_process_calls(a: Args)
    ensures
        routed(39, a) == handed(Handler::Getpid, a),
        routed(56, a) == handed(Handler::Clone, a),
        routed(57, a) == handed(Handler::Fork, a),
        routed(58, a) == handed(Handler::Vfork, a),
        routed(59, a) == handed(Handler::Execve, a),
        routed(60, a) == handed(Handler::Exit, a),
        routed(61, a) == handed(Handler::Wait4, a),
        routed(63, a) == handed(Handler::Uname, a),
        routed(97, a) == handed(Handler::Getrlimit, a),
        routed(98, a) == handed(Handler::Getrusage, a),
        routed(99, a) == handed(Handler::Sysinfo, a),
        routed(101, a) == handed(Handler::Ptrace, a),
        routed(102, a) == handed(Handler::Getuid, a),
        routed(103, a) == handed(Handler::Syslog, a),
        routed(104, a) == handed(Handler::Getgid, a),
        routed(107, a) == handed(Handler::Geteuid, a),
        routed(108, a) == handed(Handler::Getegid, a),
        routed(109, a) == handed(Handler::Setpgid, a),
        routed(110, a) == handed(Handler::Getppid, a),
        routed(111, a) == handed(Handler::Getpgrp, a),
        routed(112, a) == handed(Handler::Setsid, a),
        routed(115, a) == handed(Handler::Getgroups, a),
        routed(116, a) == handed(Handler::Setgroups, a),
        routed(118, a) == handed(Handler::Getresuid, a),
        routed(120, a) == handed(Handler::Getresgid, a),
        routed(121, a) == handed(Handler::Getpgid, a),
        routed(124, a) == handed(Handler::Getsid, a),
        routed(125, a) == handed(Handler::Capget, a),
        routed(126, a) == handed(Handler::Capset, a),
        routed(135, a) == handed(Handler::Personality, a),
        routed(157, a) == handed(Handler::Prctl, a),
        routed(158, a) == handed(Handler::ArchPrctl, a),
        routed(160, a) == handed(Handler::Setrlimit, a),
        routed(169, a) == handed(Handler::Reboot, a),
        routed(170, a) == handed(Handler::Sethostname, a),
        routed(171, a) == handed(Handler::Setdomainname, a),
        routed(186, a) == handed(Handler::Gettid, a),
        routed(231, a) == handed(Handler::ExitGroup, a),
        routed(247, a) == handed(Handler::Waitid, a),
        routed(250, a) == handed(Handler::Keyctl, a),
        routed(272, a) == handed(Handler::Unshare, a),
        routed(302, a) == handed(Handler::Prlimit64, a),
        routed(308, a) == handed(Handler::Setns, a),
        routed(317, a) == handed(Handler::Seccomp, a),
        routed(318, a) == handed(Handler::Getrandom, a),
        routed(322, a) == handed(Handler::Execveat, a),
        routed(435, a) == handed(Handler::Clone3, a),
{
}

/// An old call on one path is the call relative to a directory, with the working directory, which
/// stands in a register as the number below zero that it is, in front of its own arguments.
pub proof fn law_one_path_counts_from_the_working_directory(a: Args)
    ensures
        ({
            let cwd = 0xffff_ffff_ffff_ff9cu64;
            let at = Args { a0: cwd, a1: a.a0, a2: a.a1, a3: a.a2, a4: a.a3, a5: a.a4 };
            &&& routed(2, a) == routed(257, at)
            &&& routed(83, a) == routed(258, at)
            &&& routed(133, a) == routed(259, at)
            &&& routed(89, a) == routed(267, at)
            &&& routed(90, a) == routed(268, at)
            &&& routed(21, a) == routed(439, (Args { a3: 0, ..at }))
            &&& routed(92, a) == routed(260, (Args { a4: 0, ..at }))
            &&& routed(94, a) == routed(260, (Args { a4: 0, ..at }))
            &&& routed(87, a) == routed(263, (Args { a2: 0, ..at }))
            &&& routed(84, a) == routed(263, (Args { a2: 0x200, ..at }))
            &&& routed(85, a) == routed(257, (Args { a2: 0o1101, a3: a.a1, ..at }))
            &&& routed(269, a) == routed(439, (Args { a3: 0, ..a }))
        }),
{
}

/// An old call on two paths keeps their order: the first path of the plain call is the first of
/// the call relative to directories, the second is the second. A new symbolic link has its text
/// first, and only its own path counts from a directory.
pub proof fn law_two_paths_keep_their_order(a: Args)
    ensures
        ({
            let cwd = 0xffff_ffff_ffff_ff9cu64;
            let both = Args { a0: cwd, a1: a.a0, a2: cwd, a3: a.a1, a4: 0, ..a };
            &&& routed(82, a) == routed(316, both)
            &&& routed(86, a) == routed(265, both)
            &&& routed(88, a) == routed(266, (Args { a0: a.a0, a1: cwd, a2: a.a1, ..a }))
        }),
{
}

/// Calls that differ only in one fixed argument share their code: whether a link at the end of a
/// path is followed, and whether a path or a descriptor is given.
pub proof fn law_variants_differ_in_one_argument(a: Args)
    ensures
        routed(4, a) == handed(Handler::Stat, (Args { a2: 0, ..a })),
        routed(6, a) == handed(Handler::Stat, (Args { a2: 1, ..a })),
        routed(137, a) == handed(Handler::Statfs, (Args { a2: 0, ..a })),
        routed(138, a) == handed(Handler::Statfs, (Args { a2: 1, ..a })),
        routed(188, a) == handed(Handler::Setxattr, (Args { a5: 0, ..a })),
        routed(189, a) == handed(Handler::Setxattr, (Args { a5: 1, ..a })),
        routed(284, a) == routed(290, (Args { a1: 0, ..a })),
        0 < a.a0 < 0x8000_0000_0000_0000 ==> routed(213, a) == routed(291, (Args { a0: 0, ..a })),
        a.a0 == 0 || a.a0 >= 0x8000_0000_0000_0000 ==> routed(213, a) == Routed::Reply(-22i64),
{
    bits::lemma_sign(a.a0);
}

/// The ids in a call are its arguments without their upper halves, and a mask for new files has
/// sixteen bits.
pub proof fn law_ids_have_thirty_two_bits(nr: u64, a: Args)
    requires
        nr == 105 || nr == 106 || nr == 113 || nr == 114 || nr == 117 || nr == 119 || nr == 122
            || nr == 123,
    ensures
        routed(nr, a) is Call,
        ({
            let args = routed(nr, a)->args;
            &&& args.a0 == a.a0 % 0x1_0000_0000
            &&& args.a1 == a.a1 % 0x1_0000_0000
            &&& args.a2 == a.a2 % 0x1_0000_0000
        }),
        routed(95, a) == handed(Handler::Umask, (Args { a0: a.a0 % 0x1_0000, ..a })),
        nr == 105 ==> routed(nr, a)->handler == Handler::Setuid,
        nr == 106 ==> routed(nr, a)->handler == Handler::Setgid,
        nr == 113 ==> routed(nr, a)->handler == Handler::Setreuid,
        nr == 114 ==> routed(nr, a)->handler == Handler::Setregid,
        nr == 117 ==> routed(nr, a)->handler == Handler::Setresuid,
        nr == 119 ==> routed(nr, a)->handler == Handler::Setresgid,
        nr == 122 ==> routed(nr, a)->handler == Handler::Setfsuid,
        nr == 123 ==> routed(nr, a)->handler == Handler::Setfsgid,
{
    bits::lemma_low_parts(a.a0);
    bits::lemma_low_parts(a.a1);
    bits::lemma_low_parts(a.a2);
}

/// The calls that were withdrawn are not there, those that nobody may make are not permitted, and
/// neither looks at its arguments. The keys and protection keys are not supported, and writing
/// everything back has nothing to wait for.
pub proof fn law_fixed_answers(nr: u64, a: Args)
    ensures
        nr == 134 || nr == 136 || nr == 139 || nr == 154 || nr == 156 || nr == 167 || nr == 168
            || nr == 174 || nr == 175 || nr == 176 || nr == 177 || nr == 178 || nr == 180
            || nr == 181 || nr == 182 || nr == 183 || nr == 184 || nr == 185 || nr == 205
            || nr == 211 || nr == 212 || nr == 214 || nr == 215 || nr == 219 || nr == 236
            || nr == 256 || nr == 279 || nr == 313
            ==> routed(nr, a) == Routed::Reply(-38i64),
        nr == 163 || nr == 172 || nr == 173 || nr == 246 || nr == 320 ==> routed(nr, a)
            == Routed::Reply(-1i64),
        nr == 248 || nr == 249 || nr == 329 || nr == 330 || nr == 331 ==> routed(nr, a)
            == Routed::Reply(-95i64),
        routed(162, a) == Routed::Reply(0i64),
        routed(153, a) == handed(Handler::Vhangup, a),
{
}

/// The error numbers are those of the interface.
pub proof fn law_error_numbers()
    ensures
        errno::EPERM == -1,
        errno::ENOENT == -2,
        errno::ESRCH == -3,
        errno::EINTR == -4,
        errno::EIO == -5,
        errno::E2BIG == -7,
        errno::ENOEXEC == -8,
        errno::EBADF == -9,
        errno::ECHILD == -10,
        errno::EAGAIN == -11,
        errno::ENOMEM == -12,
        errno::EACCES == -13,
        errno::EFAULT == -14,
        errno::EBUSY == -16,
        errno::EEXIST == -17,
        errno::EXDEV == -18,
        errno::ENODEV == -19,
        errno::ENOTDIR == -20,
        errno::EISDIR == -21,
        errno::EINVAL == -22,
        errno::EMFILE == -24,
        errno::ENOTTY == -25,
        errno::ENOSPC == -28,
        errno::ESPIPE == -29,
        errno::EROFS == -30,
        errno::EPIPE == -32,
        errno::ERANGE == -34,
        errno::ENAMETOOLONG == -36,
        errno::ENOSYS == -38,
        errno::ENOTEMPTY == -39,
        errno::ELOOP == -40,
        errno::EPROTONOSUPPORT == -93,
        errno::ENOTSOCK == -88,
        errno::ESOCKTNOSUPPORT == -94,
        errno::EOPNOTSUPP == -95,
        errno::EAFNOSUPPORT == -97,
        errno::ETIMEDOUT == -110,
{
}

/// A process is named by its number; none is the caller. Only the low half of a register counts.
pub proof fn law_none_names_the_caller(arg: u64, caller: Pid, mapped: Option<Pid>)
    ensures
        dispatch::named_process(arg, caller, mapped) == (if arg % 0x1_0000_0000 == 0 {
            Some(caller)
        } else {
            mapped
        }),
{
    bits::lemma_low_parts(arg);
}

/// A machine stops only for who knows both magic numbers.
pub proof fn law_magic_numbers(magic1: u32, magic2: u32)
    ensures
        dispatch::reboot_magic(magic1, magic2) == (magic1 == 0xfee1_dead && (magic2 == 0x2812_1969
            || magic2 == 0x0512_1996 || magic2 == 0x1604_1998 || magic2 == 0x2011_2000)),
{
}

/// Chance gives as many bytes as are asked for, up to a limit; two flags are known.
pub proof fn law_as_many_random_bytes_as_asked(count: u64, flags: u64)
    ensures
        flags >= 4 ==> dispatch::random_len(count, flags) == Err::<u64, i64>(-22i64),
        flags < 4 && count <= 0x100_0000 ==> dispatch::random_len(count, flags) == Ok::<u64, i64>(
            count,
        ),
        flags < 4 && count > 0x100_0000 ==> dispatch::random_len(count, flags) == Ok::<u64, i64>(
            0x100_0000,
        ),
{
    bits::lemma_mount_bits(flags);
}

/// A return from a signal sets up the registers itself, so nothing follows it; other calls are
/// followed by what is due.
pub proof fn law_return_from_a_signal_leaves(a: Args)
    ensures
        dispatch::leaves(routed(15, a), false),
        !dispatch::leaves(routed(0, a), false),
        !dispatch::leaves(routed(0, a), true),
        !dispatch::leaves(routed(121, a), false),
        dispatch::leaves(routed(121, a), true),
        dispatch::leaves(routed(109, a), true),
        dispatch::leaves(routed(124, a), true),
        !dispatch::leaves(Routed::Unknown, true),
{
}

/// What follows each stage of a call.
pub proof fn law_stages_in_order(outcome: Outcome)
    ensures
        dispatch::following(Stage::EnterAccount, outcome) == Stage::Filter,
        dispatch::following(Stage::Filter, Outcome::Passed) == Stage::EntryHook,
        dispatch::following(Stage::Filter, Outcome::Refused) == Stage::ExitAccount,
        dispatch::following(Stage::EntryHook, outcome) == Stage::Serve,
        dispatch::following(Stage::Serve, Outcome::Passed) == Stage::ExitHook,
        dispatch::following(Stage::Serve, Outcome::Left) == Stage::Done,
        dispatch::following(Stage::ExitHook, outcome) == Stage::Signals,
        dispatch::following(Stage::Signals, outcome) == Stage::ExitAccount,
        dispatch::following(Stage::ExitAccount, outcome) == Stage::Done,
{
}

} // verus!
