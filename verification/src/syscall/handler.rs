//! Which code serves a system call.
use vstd::prelude::*;

verus! {

/// The code that serves a call.
#[derive(Clone, Copy, PartialEq, Eq, Structural, Debug)]
pub enum Handler {
    Accept,
    Adjtimex,
    Alarm,
    ArchPrctl,
    Bind,
    Brk,
    Capget,
    Capset,
    Chdir,
    Chroot,
    ClockAdjtime,
    ClockGetres,
    ClockGettime,
    ClockNanosleep,
    ClockSettime,
    Clone,
    Clone3,
    Close,
    CloseRange,
    Connect,
    CopyFileRange,
    Dup,
    Dup2,
    Dup3,
    EpollCreate1,
    EpollCtl,
    EpollPwait,
    EpollPwait2,
    EpollWait,
    Eventfd2,
    Execve,
    Execveat,
    Exit,
    ExitGroup,
    Faccessat,
    Fadvise64,
    Fallocate,
    Fchdir,
    Fchmod,
    Fchmodat,
    Fchown,
    Fchownat,
    Fcntl,
    Fgetxattr,
    Flistxattr,
    Flock,
    Fork,
    Fremovexattr,
    Fsetxattr,
    Fstat,
    Fsync,
    Ftruncate,
    Futex,
    FutexRequeue,
    FutexWait,
    FutexWaitv,
    FutexWake,
    GetMempolicy,
    Getcpu,
    Getcwd,
    Getdents,
    Getdents64,
    Getegid,
    Geteuid,
    Getgid,
    Getgroups,
    Getitimer,
    Getpeername,
    Getpgid,
    Getpgrp,
    Getpid,
    Getppid,
    Getpriority,
    Getrandom,
    Getresgid,
    Getresuid,
    Getrlimit,
    Getrusage,
    Getsid,
    Getsockname,
    Getsockopt,
    Gettid,
    Gettimeofday,
    Getuid,
    Getxattr,
    Getxattrat,
    Ioctl,
    Keyctl,
    Kill,
    Linkat,
    Listen,
    Listxattr,
    Listxattrat,
    Lseek,
    Madvise,
    Mbind,
    Membarrier,
    MemfdCreate,
    Mincore,
    Mkdirat,
    Mknodat,
    Mlock,
    Mlock2,
    Mlockall,
    Mmap,
    Mount,
    Mprotect,
    Mremap,
    Msync,
    Munlock,
    Munlockall,
    Munmap,
    Nanosleep,
    Newfstatat,
    Openat,
    Openat2,
    Pause,
    Personality,
    PidfdOpen,
    PidfdSendSignal,
    Pipe,
    Pipe2,
    PivotRoot,
    Poll,
    Ppoll,
    Prctl,
    Pread64,
    Preadv,
    Prlimit64,
    ProcessVmReadv,
    ProcessVmWritev,
    Pselect6,
    Ptrace,
    Pwrite64,
    Pwritev,
    Read,
    Readahead,
    Readlinkat,
    Readv,
    Reboot,
    Recvfrom,
    Recvmsg,
    Removexattr,
    Removexattrat,
    Renameat,
    Renameat2,
    Rseq,
    RtSigaction,
    RtSigpending,
    RtSigprocmask,
    RtSigqueueinfo,
    RtSigreturn,
    RtSigsuspend,
    RtSigtimedwait,
    RtTgsigqueueinfo,
    SchedGetPriorityMax,
    SchedGetPriorityMin,
    SchedGetaffinity,
    SchedGetattr,
    SchedGetparam,
    SchedGetscheduler,
    SchedRrGetInterval,
    SchedSetaffinity,
    SchedSetattr,
    SchedSetparam,
    SchedSetscheduler,
    SchedYield,
    Seccomp,
    Select,
    Sendfile,
    Sendmsg,
    Sendto,
    SetMempolicy,
    SetMempolicyHomeNode,
    SetRobustList,
    SetTidAddress,
    Setdomainname,
    Setfsgid,
    Setfsuid,
    Setgid,
    Setgroups,
    Sethostname,
    Setitimer,
    Setns,
    Setpgid,
    Setpriority,
    Setregid,
    Setresgid,
    Setresuid,
    Setreuid,
    Setrlimit,
    Setsid,
    Setsockopt,
    Settimeofday,
    Setuid,
    Setxattr,
    Setxattrat,
    Shmat,
    Shmctl,
    Shmdt,
    Shmget,
    Shutdown,
    Sigaltstack,
    Signalfd4,
    Socket,
    Socketpair,
    Splice,
    Stat,
    Statfs,
    Statx,
    Symlinkat,
    SyncFileRange,
    Sysinfo,
    Syslog,
    Tee,
    Tgkill,
    Time,
    TimerfdCreate,
    TimerfdGettime,
    TimerfdSettime,
    Times,
    Tkill,
    Truncate,
    Umask,
    Umount2,
    Uname,
    Unlinkat,
    Unshare,
    Utimensat,
    Vfork,
    Vhangup,
    Vmsplice,
    Wait4,
    Waitid,
    Write,
    Writev,
}

} // verus!
