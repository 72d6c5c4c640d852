//! What becomes of a system call: which code serves it, with which arguments.
//!
//! A call goes through accounting, the filter and the tracer before it is served, and
//! through the tracer, the pending signals and accounting after. `advance` says what comes
//! next; `route` says what serves the call.
use super::handler::Handler;
use super::numbers;
use super::seccomp;
use super::seccomp::Verdict;
use super::signal::{SIGKILL, SIGSYS};
use crate::errno;
use crate::process_model::Pid;
use vstd::prelude::*;

verus! {

pub const AT_FDCWD: i64 = -100;

pub const AT_REMOVEDIR: u64 = 0x200;

/// `AT_FDCWD` as it stands in a register.
pub const FDCWD: u64 = 0xffff_ffff_ffff_ff9c;

/// `O_CREAT | O_WRONLY | O_TRUNC`
pub const CREAT_FLAGS: u64 = 0o1101;

/// The six arguments of a call.
#[derive(Clone, Copy, PartialEq, Eq, Structural, Debug)]
pub struct Args {
    pub a0: u64,
    pub a1: u64,
    pub a2: u64,
    pub a3: u64,
    pub a4: u64,
    pub a5: u64,
}

/// What serves a call.
#[derive(Clone, Copy, PartialEq, Eq, Structural, Debug)]
pub enum Routed {
    /// It is answered at once.
    Reply(i64),
    /// It is handed on.
    Call { handler: Handler, args: Args },
    /// Nobody knows the number: `ENOSYS`.
    Unknown,
}

/// What answers a number that is kept for old programs only.
#[derive(Clone, Copy, PartialEq, Eq, Structural, Debug)]
pub enum Legacy {
    NotLegacy,
    Reply(i64),
    Vhangup,
}

/// The numbers whose calls were withdrawn.
pub open spec fn withdrawn(nr: u64) -> bool {
    match nr {
        numbers::SYS_USELIB
        | numbers::SYS_USTAT
        | numbers::SYS_SYSFS
        | numbers::SYS__SYSCTL
        | numbers::SYS_CREATE_MODULE
        | numbers::SYS_INIT_MODULE
        | numbers::SYS_DELETE_MODULE
        | numbers::SYS_GET_KERNEL_SYMS
        | numbers::SYS_QUERY_MODULE
        | numbers::SYS_FINIT_MODULE
        | numbers::SYS_NFSSERVCTL
        | numbers::SYS_GETPMSG
        | numbers::SYS_PUTPMSG
        | numbers::SYS_AFS_SYSCALL
        | numbers::SYS_TUXCALL
        | numbers::SYS_SECURITY
        | numbers::SYS_VSERVER
        | numbers::SYS_LOOKUP_DCOOKIE
        | numbers::SYS_EPOLL_CTL_OLD
        | numbers::SYS_EPOLL_WAIT_OLD
        | numbers::SYS_RESTART_SYSCALL
        | numbers::SYS_MIGRATE_PAGES
        | numbers::SYS_MOVE_PAGES
        | numbers::SYS_MODIFY_LDT
        | numbers::SYS_SET_THREAD_AREA
        | numbers::SYS_GET_THREAD_AREA
        | numbers::SYS_SWAPON
        | numbers::SYS_SWAPOFF => true,
        _ => false,
    }
}

/// The numbers whose calls nobody may make.
pub open spec fn forbidden(nr: u64) -> bool {
    match nr {
        numbers::SYS_IOPL
        | numbers::SYS_IOPERM
        | numbers::SYS_KEXEC_LOAD
        | numbers::SYS_KEXEC_FILE_LOAD
        | numbers::SYS_ACCT => true,
        _ => false,
    }
}

pub open spec fn legacy_of(nr: u64) -> Legacy {
    if withdrawn(nr) {
        Legacy::Reply(errno::ENOSYS)
    } else if forbidden(nr) {
        Legacy::Reply(errno::EPERM)
    } else if nr == numbers::SYS_VHANGUP {
        Legacy::Vhangup
    } else {
        Legacy::NotLegacy
    }
}

/// Answers a number that is kept for old programs only.
pub fn dispatch_if_legacy(nr: u64) -> (r: Legacy)
    ensures
        r == legacy_of(nr),
{
    match nr {
        numbers::SYS_USELIB
        | numbers::SYS_USTAT
        | numbers::SYS_SYSFS
        | numbers::SYS__SYSCTL
        | numbers::SYS_CREATE_MODULE
        | numbers::SYS_INIT_MODULE
        | numbers::SYS_DELETE_MODULE
        | numbers::SYS_GET_KERNEL_SYMS
        | numbers::SYS_QUERY_MODULE
        | numbers::SYS_FINIT_MODULE
        | numbers::SYS_NFSSERVCTL
        | numbers::SYS_GETPMSG
        | numbers::SYS_PUTPMSG
        | numbers::SYS_AFS_SYSCALL
        | numbers::SYS_TUXCALL
        | numbers::SYS_SECURITY
        | numbers::SYS_VSERVER
        | numbers::SYS_LOOKUP_DCOOKIE
        | numbers::SYS_EPOLL_CTL_OLD
        | numbers::SYS_EPOLL_WAIT_OLD
        | numbers::SYS_RESTART_SYSCALL
        | numbers::SYS_MIGRATE_PAGES
        | numbers::SYS_MOVE_PAGES
        | numbers::SYS_MODIFY_LDT
        | numbers::SYS_SET_THREAD_AREA
        | numbers::SYS_GET_THREAD_AREA
        | numbers::SYS_SWAPON
        | numbers::SYS_SWAPOFF => Legacy::Reply(errno::ENOSYS),
        numbers::SYS_IOPL
        | numbers::SYS_IOPERM
        | numbers::SYS_KEXEC_LOAD
        | numbers::SYS_KEXEC_FILE_LOAD
        | numbers::SYS_ACCT => Legacy::Reply(errno::EPERM),
        numbers::SYS_VHANGUP => Legacy::Vhangup,
        _ => Legacy::NotLegacy,
    }
}

/// `vhangup`: the superuser alone may. `None` stands for a caller that is gone.
pub fn sys_vhangup(euid: Option<u32>) -> (code: i64)
    ensures
        code == (if euid is Some && euid->0 != 0 {
            errno::EPERM
        } else {
            0
        }),
{
    match euid {
        Some(id) => if id != 0 {
            errno::EPERM
        } else {
            0
        },
        None => 0,
    }
}

/// The code that serves a number.
pub open spec fn handler_of(nr: u64) -> Option<Handler> {
    match nr {
        numbers::SYS_ACCEPT | numbers::SYS_ACCEPT4 => Some(Handler::Accept),
        numbers::SYS_ADJTIMEX => Some(Handler::Adjtimex),
        numbers::SYS_ALARM => Some(Handler::Alarm),
        numbers::SYS_ARCH_PRCTL => Some(Handler::ArchPrctl),
        numbers::SYS_BIND => Some(Handler::Bind),
        numbers::SYS_BRK => Some(Handler::Brk),
        numbers::SYS_CAPGET => Some(Handler::Capget),
        numbers::SYS_CAPSET => Some(Handler::Capset),
        numbers::SYS_CHDIR => Some(Handler::Chdir),
        numbers::SYS_CHROOT => Some(Handler::Chroot),
        numbers::SYS_CLOCK_ADJTIME => Some(Handler::ClockAdjtime),
        numbers::SYS_CLOCK_GETRES => Some(Handler::ClockGetres),
        numbers::SYS_CLOCK_GETTIME => Some(Handler::ClockGettime),
        numbers::SYS_CLOCK_NANOSLEEP => Some(Handler::ClockNanosleep),
        numbers::SYS_CLOCK_SETTIME => Some(Handler::ClockSettime),
        numbers::SYS_CLONE => Some(Handler::Clone),
        numbers::SYS_CLONE3 => Some(Handler::Clone3),
        numbers::SYS_CLOSE => Some(Handler::Close),
        numbers::SYS_CLOSE_RANGE => Some(Handler::CloseRange),
        numbers::SYS_CONNECT => Some(Handler::Connect),
        numbers::SYS_COPY_FILE_RANGE => Some(Handler::CopyFileRange),
        numbers::SYS_DUP => Some(Handler::Dup),
        numbers::SYS_DUP2 => Some(Handler::Dup2),
        numbers::SYS_DUP3 => Some(Handler::Dup3),
        numbers::SYS_EPOLL_CREATE | numbers::SYS_EPOLL_CREATE1 => Some(Handler::EpollCreate1),
        numbers::SYS_EPOLL_CTL => Some(Handler::EpollCtl),
        numbers::SYS_EPOLL_PWAIT => Some(Handler::EpollPwait),
        numbers::SYS_EPOLL_PWAIT2 => Some(Handler::EpollPwait2),
        numbers::SYS_EPOLL_WAIT => Some(Handler::EpollWait),
        numbers::SYS_EVENTFD | numbers::SYS_EVENTFD2 => Some(Handler::Eventfd2),
        numbers::SYS_EXECVE => Some(Handler::Execve),
        numbers::SYS_EXECVEAT => Some(Handler::Execveat),
        numbers::SYS_EXIT => Some(Handler::Exit),
        numbers::SYS_EXIT_GROUP => Some(Handler::ExitGroup),
        numbers::SYS_ACCESS | numbers::SYS_FACCESSAT | numbers::SYS_FACCESSAT2 => Some(Handler::Faccessat),
        numbers::SYS_FADVISE64 => Some(Handler::Fadvise64),
        numbers::SYS_FALLOCATE => Some(Handler::Fallocate),
        numbers::SYS_FCHDIR => Some(Handler::Fchdir),
        numbers::SYS_FCHMOD => Some(Handler::Fchmod),
        numbers::SYS_CHMOD | numbers::SYS_FCHMODAT | numbers::SYS_FCHMODAT2 => Some(Handler::Fchmodat),
        numbers::SYS_FCHOWN => Some(Handler::Fchown),
        numbers::SYS_CHOWN | numbers::SYS_LCHOWN | numbers::SYS_FCHOWNAT => Some(Handler::Fchownat),
        numbers::SYS_FCNTL => Some(Handler::Fcntl),
        numbers::SYS_FGETXATTR => Some(Handler::Fgetxattr),
        numbers::SYS_FLISTXATTR => Some(Handler::Flistxattr),
        numbers::SYS_FLOCK => Some(Handler::Flock),
        numbers::SYS_FORK => Some(Handler::Fork),
        numbers::SYS_FREMOVEXATTR => Some(Handler::Fremovexattr),
        numbers::SYS_FSETXATTR => Some(Handler::Fsetxattr),
        numbers::SYS_FSTAT => Some(Handler::Fstat),
        numbers::SYS_FSYNC | numbers::SYS_FDATASYNC => Some(Handler::Fsync),
        numbers::SYS_FTRUNCATE => Some(Handler::Ftruncate),
        numbers::SYS_FUTEX => Some(Handler::Futex),
        numbers::SYS_FUTEX_REQUEUE => Some(Handler::FutexRequeue),
        numbers::SYS_FUTEX_WAIT => Some(Handler::FutexWait),
        numbers::SYS_FUTEX_WAITV => Some(Handler::FutexWaitv),
        numbers::SYS_FUTEX_WAKE => Some(Handler::FutexWake),
        numbers::SYS_GET_MEMPOLICY => Some(Handler::GetMempolicy),
        numbers::SYS_GETCPU => Some(Handler::Getcpu),
        numbers::SYS_GETCWD => Some(Handler::Getcwd),
        numbers::SYS_GETDENTS_LEGACY => Some(Handler::Getdents),
        numbers::SYS_GETDENTS64 => Some(Handler::Getdents64),
        numbers::SYS_GETEGID => Some(Handler::Getegid),
        numbers::SYS_GETEUID => Some(Handler::Geteuid),
        numbers::SYS_GETGID => Some(Handler::Getgid),
        numbers::SYS_GETGROUPS => Some(Handler::Getgroups),
        numbers::SYS_GETITIMER => Some(Handler::Getitimer),
        numbers::SYS_GETPEERNAME => Some(Handler::Getpeername),
        numbers::SYS_GETPGID => Some(Handler::Getpgid),
        numbers::SYS_GETPGRP => Some(Handler::Getpgrp),
        numbers::SYS_GETPID => Some(Handler::Getpid),
        numbers::SYS_GETPPID => Some(Handler::Getppid),
        numbers::SYS_GETPRIORITY => Some(Handler::Getpriority),
        numbers::SYS_GETRANDOM => Some(Handler::Getrandom),
        numbers::SYS_GETRESGID => Some(Handler::Getresgid),
        numbers::SYS_GETRESUID => Some(Handler::Getresuid),
        numbers::SYS_GETRLIMIT => Some(Handler::Getrlimit),
        numbers::SYS_GETRUSAGE => Some(Handler::Getrusage),
        numbers::SYS_GETSID => Some(Handler::Getsid),
        numbers::SYS_GETSOCKNAME => Some(Handler::Getsockname),
        numbers::SYS_GETSOCKOPT => Some(Handler::Getsockopt),
        numbers::SYS_GETTID => Some(Handler::Gettid),
        numbers::SYS_GETTIMEOFDAY => Some(Handler::Gettimeofday),
        numbers::SYS_GETUID => Some(Handler::Getuid),
        numbers::SYS_GETXATTR | numbers::SYS_LGETXATTR => Some(Handler::Getxattr),
        numbers::SYS_GETXATTRAT => Some(Handler::Getxattrat),
        numbers::SYS_IOCTL => Some(Handler::Ioctl),
        numbers::SYS_KEYCTL => Some(Handler::Keyctl),
        numbers::SYS_KILL => Some(Handler::Kill),
        numbers::SYS_LINK | numbers::SYS_LINKAT => Some(Handler::Linkat),
        numbers::SYS_LISTEN => Some(Handler::Listen),
        numbers::SYS_LISTXATTR | numbers::SYS_LLISTXATTR => Some(Handler::Listxattr),
        numbers::SYS_LISTXATTRAT => Some(Handler::Listxattrat),
        numbers::SYS_LSEEK => Some(Handler::Lseek),
        numbers::SYS_MADVISE => Some(Handler::Madvise),
        numbers::SYS_MBIND => Some(Handler::Mbind),
        numbers::SYS_MEMBARRIER => Some(Handler::Membarrier),
        numbers::SYS_MEMFD_CREATE => Some(Handler::MemfdCreate),
        numbers::SYS_MINCORE => Some(Handler::Mincore),
        numbers::SYS_MKDIR | numbers::SYS_MKDIRAT => Some(Handler::Mkdirat),
        numbers::SYS_MKNOD | numbers::SYS_MKNODAT => Some(Handler::Mknodat),
        numbers::SYS_MLOCK => Some(Handler::Mlock),
        numbers::SYS_MLOCK2 => Some(Handler::Mlock2),
        numbers::SYS_MLOCKALL => Some(Handler::Mlockall),
        numbers::SYS_MMAP => Some(Handler::Mmap),
        numbers::SYS_MOUNT => Some(Handler::Mount),
        numbers::SYS_MPROTECT => Some(Handler::Mprotect),
        numbers::SYS_MREMAP => Some(Handler::Mremap),
        numbers::SYS_MSYNC => Some(Handler::Msync),
        numbers::SYS_MUNLOCK => Some(Handler::Munlock),
        numbers::SYS_MUNLOCKALL => Some(Handler::Munlockall),
        numbers::SYS_MUNMAP => Some(Handler::Munmap),
        numbers::SYS_NANOSLEEP => Some(Handler::Nanosleep),
        numbers::SYS_NEWFSTATAT => Some(Handler::Newfstatat),
        numbers::SYS_OPEN_LEGACY | numbers::SYS_CREAT | numbers::SYS_OPENAT => Some(Handler::Openat),
        numbers::SYS_OPENAT2 => Some(Handler::Openat2),
        numbers::SYS_PAUSE => Some(Handler::Pause),
        numbers::SYS_PERSONALITY => Some(Handler::Personality),
        numbers::SYS_PIDFD_OPEN => Some(Handler::PidfdOpen),
        numbers::SYS_PIDFD_SEND_SIGNAL => Some(Handler::PidfdSendSignal),
        numbers::SYS_PIPE => Some(Handler::Pipe),
        numbers::SYS_PIPE2 => Some(Handler::Pipe2),
        numbers::SYS_PIVOT_ROOT => Some(Handler::PivotRoot),
        numbers::SYS_POLL => Some(Handler::Poll),
        numbers::SYS_PPOLL => Some(Handler::Ppoll),
        numbers::SYS_PRCTL => Some(Handler::Prctl),
        numbers::SYS_PREAD64 => Some(Handler::Pread64),
        numbers::SYS_PREADV | numbers::SYS_PREADV2 => Some(Handler::Preadv),
        numbers::SYS_PRLIMIT64 => Some(Handler::Prlimit64),
        numbers::SYS_PROCESS_VM_READV => Some(Handler::ProcessVmReadv),
        numbers::SYS_PROCESS_VM_WRITEV => Some(Handler::ProcessVmWritev),
        numbers::SYS_PSELECT6 => Some(Handler::Pselect6),
        numbers::SYS_PTRACE => Some(Handler::Ptrace),
        numbers::SYS_PWRITE64 => Some(Handler::Pwrite64),
        numbers::SYS_PWRITEV | numbers::SYS_PWRITEV2 => Some(Handler::Pwritev),
        numbers::SYS_READ => Some(Handler::Read),
        numbers::SYS_READAHEAD => Some(Handler::Readahead),
        numbers::SYS_READLINK | numbers::SYS_READLINKAT => Some(Handler::Readlinkat),
        numbers::SYS_READV => Some(Handler::Readv),
        numbers::SYS_REBOOT => Some(Handler::Reboot),
        numbers::SYS_RECVFROM => Some(Handler::Recvfrom),
        numbers::SYS_RECVMSG => Some(Handler::Recvmsg),
        numbers::SYS_REMOVEXATTR | numbers::SYS_LREMOVEXATTR => Some(Handler::Removexattr),
        numbers::SYS_REMOVEXATTRAT => Some(Handler::Removexattrat),
        numbers::SYS_RENAMEAT => Some(Handler::Renameat),
        numbers::SYS_RENAME | numbers::SYS_RENAMEAT2 => Some(Handler::Renameat2),
        numbers::SYS_RSEQ => Some(Handler::Rseq),
        numbers::SYS_RT_SIGACTION => Some(Handler::RtSigaction),
        numbers::SYS_RT_SIGPENDING => Some(Handler::RtSigpending),
        numbers::SYS_RT_SIGPROCMASK => Some(Handler::RtSigprocmask),
        numbers::SYS_RT_SIGQUEUEINFO => Some(Handler::RtSigqueueinfo),
        numbers::SYS_RT_SIGRETURN => Some(Handler::RtSigreturn),
        numbers::SYS_RT_SIGSUSPEND => Some(Handler::RtSigsuspend),
        numbers::SYS_RT_SIGTIMEDWAIT => Some(Handler::RtSigtimedwait),
        numbers::SYS_RT_TGSIGQUEUEINFO => Some(Handler::RtTgsigqueueinfo),
        numbers::SYS_SCHED_GET_PRIORITY_MAX => Some(Handler::SchedGetPriorityMax),
        numbers::SYS_SCHED_GET_PRIORITY_MIN => Some(Handler::SchedGetPriorityMin),
        numbers::SYS_SCHED_GETAFFINITY => Some(Handler::SchedGetaffinity),
        numbers::SYS_SCHED_GETATTR => Some(Handler::SchedGetattr),
        numbers::SYS_SCHED_GETPARAM => Some(Handler::SchedGetparam),
        numbers::SYS_SCHED_GETSCHEDULER => Some(Handler::SchedGetscheduler),
        numbers::SYS_SCHED_RR_GET_INTERVAL => Some(Handler::SchedRrGetInterval),
        numbers::SYS_SCHED_SETAFFINITY => Some(Handler::SchedSetaffinity),
        numbers::SYS_SCHED_SETATTR => Some(Handler::SchedSetattr),
        numbers::SYS_SCHED_SETPARAM => Some(Handler::SchedSetparam),
        numbers::SYS_SCHED_SETSCHEDULER => Some(Handler::SchedSetscheduler),
        numbers::SYS_SCHED_YIELD => Some(Handler::SchedYield),
        numbers::SYS_SECCOMP => Some(Handler::Seccomp),
        numbers::SYS_SELECT => Some(Handler::Select),
        numbers::SYS_SENDFILE => Some(Handler::Sendfile),
        numbers::SYS_SENDMSG => Some(Handler::Sendmsg),
        numbers::SYS_SENDTO => Some(Handler::Sendto),
        numbers::SYS_SET_MEMPOLICY => Some(Handler::SetMempolicy),
        numbers::SYS_SET_MEMPOLICY_HOME_NODE => Some(Handler::SetMempolicyHomeNode),
        numbers::SYS_SET_ROBUST_LIST => Some(Handler::SetRobustList),
        numbers::SYS_SET_TID_ADDRESS => Some(Handler::SetTidAddress),
        numbers::SYS_SETDOMAINNAME => Some(Handler::Setdomainname),
        numbers::SYS_SETFSGID => Some(Handler::Setfsgid),
        numbers::SYS_SETFSUID => Some(Handler::Setfsuid),
        numbers::SYS_SETGID => Some(Handler::Setgid),
        numbers::SYS_SETGROUPS => Some(Handler::Setgroups),
        numbers::SYS_SETHOSTNAME => Some(Handler::Sethostname),
        numbers::SYS_SETITIMER => Some(Handler::Setitimer),
        numbers::SYS_SETNS => Some(Handler::Setns),
        numbers::SYS_SETPGID => Some(Handler::Setpgid),
        numbers::SYS_SETPRIORITY => Some(Handler::Setpriority),
        numbers::SYS_SETREGID => Some(Handler::Setregid),
        numbers::SYS_SETRESGID => Some(Handler::Setresgid),
        numbers::SYS_SETRESUID => Some(Handler::Setresuid),
        numbers::SYS_SETREUID => Some(Handler::Setreuid),
        numbers::SYS_SETRLIMIT => Some(Handler::Setrlimit),
        numbers::SYS_SETSID => Some(Handler::Setsid),
        numbers::SYS_SETSOCKOPT => Some(Handler::Setsockopt),
        numbers::SYS_SETTIMEOFDAY => Some(Handler::Settimeofday),
        numbers::SYS_SETUID => Some(Handler::Setuid),
        numbers::SYS_SETXATTR | numbers::SYS_LSETXATTR => Some(Handler::Setxattr),
        numbers::SYS_SETXATTRAT => Some(Handler::Setxattrat),
        numbers::SYS_SHMAT => Some(Handler::Shmat),
        numbers::SYS_SHMCTL => Some(Handler::Shmctl),
        numbers::SYS_SHMDT => Some(Handler::Shmdt),
        numbers::SYS_SHMGET => Some(Handler::Shmget),
        numbers::SYS_SHUTDOWN => Some(Handler::Shutdown),
        numbers::SYS_SIGALTSTACK => Some(Handler::Sigaltstack),
        numbers::SYS_SIGNALFD4 => Some(Handler::Signalfd4),
        numbers::SYS_SOCKET => Some(Handler::Socket),
        numbers::SYS_SOCKETPAIR => Some(Handler::Socketpair),
        numbers::SYS_SPLICE => Some(Handler::Splice),
        numbers::SYS_STAT | numbers::SYS_LSTAT => Some(Handler::Stat),
        numbers::SYS_STATFS | numbers::SYS_FSTATFS => Some(Handler::Statfs),
        numbers::SYS_STATX => Some(Handler::Statx),
        numbers::SYS_SYMLINK | numbers::SYS_SYMLINKAT => Some(Handler::Symlinkat),
        numbers::SYS_SYNC_FILE_RANGE => Some(Handler::SyncFileRange),
        numbers::SYS_SYSINFO => Some(Handler::Sysinfo),
        numbers::SYS_SYSLOG => Some(Handler::Syslog),
        numbers::SYS_TEE => Some(Handler::Tee),
        numbers::SYS_TGKILL => Some(Handler::Tgkill),
        numbers::SYS_TIME => Some(Handler::Time),
        numbers::SYS_TIMERFD_CREATE => Some(Handler::TimerfdCreate),
        numbers::SYS_TIMERFD_GETTIME => Some(Handler::TimerfdGettime),
        numbers::SYS_TIMERFD_SETTIME => Some(Handler::TimerfdSettime),
        numbers::SYS_TIMES => Some(Handler::Times),
        numbers::SYS_TKILL => Some(Handler::Tkill),
        numbers::SYS_TRUNCATE => Some(Handler::Truncate),
        numbers::SYS_UMASK => Some(Handler::Umask),
        numbers::SYS_UMOUNT2 => Some(Handler::Umount2),
        numbers::SYS_UNAME => Some(Handler::Uname),
        numbers::SYS_RMDIR | numbers::SYS_UNLINK | numbers::SYS_UNLINKAT => Some(Handler::Unlinkat),
        numbers::SYS_UNSHARE => Some(Handler::Unshare),
        numbers::SYS_UTIMENSAT => Some(Handler::Utimensat),
        numbers::SYS_VFORK => Some(Handler::Vfork),
        numbers::SYS_VMSPLICE => Some(Handler::Vmsplice),
        numbers::SYS_WAIT4 => Some(Handler::Wait4),
        numbers::SYS_WAITID => Some(Handler::Waitid),
        numbers::SYS_WRITE => Some(Handler::Write),
        numbers::SYS_WRITEV => Some(Handler::Writev),
        _ => None,
    }
}

fn handler_for(nr: u64) -> (r: Option<Handler>)
    ensures
        r == handler_of(nr),
{
    match nr {
        numbers::SYS_ACCEPT | numbers::SYS_ACCEPT4 => Some(Handler::Accept),
        numbers::SYS_ADJTIMEX => Some(Handler::Adjtimex),
        numbers::SYS_ALARM => Some(Handler::Alarm),
        numbers::SYS_ARCH_PRCTL => Some(Handler::ArchPrctl),
        numbers::SYS_BIND => Some(Handler::Bind),
        numbers::SYS_BRK => Some(Handler::Brk),
        numbers::SYS_CAPGET => Some(Handler::Capget),
        numbers::SYS_CAPSET => Some(Handler::Capset),
        numbers::SYS_CHDIR => Some(Handler::Chdir),
        numbers::SYS_CHROOT => Some(Handler::Chroot),
        numbers::SYS_CLOCK_ADJTIME => Some(Handler::ClockAdjtime),
        numbers::SYS_CLOCK_GETRES => Some(Handler::ClockGetres),
        numbers::SYS_CLOCK_GETTIME => Some(Handler::ClockGettime),
        numbers::SYS_CLOCK_NANOSLEEP => Some(Handler::ClockNanosleep),
        numbers::SYS_CLOCK_SETTIME => Some(Handler::ClockSettime),
        numbers::SYS_CLONE => Some(Handler::Clone),
        numbers::SYS_CLONE3 => Some(Handler::Clone3),
        numbers::SYS_CLOSE => Some(Handler::Close),
        numbers::SYS_CLOSE_RANGE => Some(Handler::CloseRange),
        numbers::SYS_CONNECT => Some(Handler::Connect),
        numbers::SYS_COPY_FILE_RANGE => Some(Handler::CopyFileRange),
        numbers::SYS_DUP => Some(Handler::Dup),
        numbers::SYS_DUP2 => Some(Handler::Dup2),
        numbers::SYS_DUP3 => Some(Handler::Dup3),
        numbers::SYS_EPOLL_CREATE | numbers::SYS_EPOLL_CREATE1 => Some(Handler::EpollCreate1),
        numbers::SYS_EPOLL_CTL => Some(Handler::EpollCtl),
        numbers::SYS_EPOLL_PWAIT => Some(Handler::EpollPwait),
        numbers::SYS_EPOLL_PWAIT2 => Some(Handler::EpollPwait2),
        numbers::SYS_EPOLL_WAIT => Some(Handler::EpollWait),
        numbers::SYS_EVENTFD | numbers::SYS_EVENTFD2 => Some(Handler::Eventfd2),
        numbers::SYS_EXECVE => Some(Handler::Execve),
        numbers::SYS_EXECVEAT => Some(Handler::Execveat),
        numbers::SYS_EXIT => Some(Handler::Exit),
        numbers::SYS_EXIT_GROUP => Some(Handler::ExitGroup),
        numbers::SYS_ACCESS | numbers::SYS_FACCESSAT | numbers::SYS_FACCESSAT2 => Some(Handler::Faccessat),
        numbers::SYS_FADVISE64 => Some(Handler::Fadvise64),
        numbers::SYS_FALLOCATE => Some(Handler::Fallocate),
        numbers::SYS_FCHDIR => Some(Handler::Fchdir),
        numbers::SYS_FCHMOD => Some(Handler::Fchmod),
        numbers::SYS_CHMOD | numbers::SYS_FCHMODAT | numbers::SYS_FCHMODAT2 => Some(Handler::Fchmodat),
        numbers::SYS_FCHOWN => Some(Handler::Fchown),
        numbers::SYS_CHOWN | numbers::SYS_LCHOWN | numbers::SYS_FCHOWNAT => Some(Handler::Fchownat),
        numbers::SYS_FCNTL => Some(Handler::Fcntl),
        numbers::SYS_FGETXATTR => Some(Handler::Fgetxattr),
        numbers::SYS_FLISTXATTR => Some(Handler::Flistxattr),
        numbers::SYS_FLOCK => Some(Handler::Flock),
        numbers::SYS_FORK => Some(Handler::Fork),
        numbers::SYS_FREMOVEXATTR => Some(Handler::Fremovexattr),
        numbers::SYS_FSETXATTR => Some(Handler::Fsetxattr),
        numbers::SYS_FSTAT => Some(Handler::Fstat),
        numbers::SYS_FSYNC | numbers::SYS_FDATASYNC => Some(Handler::Fsync),
        numbers::SYS_FTRUNCATE => Some(Handler::Ftruncate),
        numbers::SYS_FUTEX => Some(Handler::Futex),
        numbers::SYS_FUTEX_REQUEUE => Some(Handler::FutexRequeue),
        numbers::SYS_FUTEX_WAIT => Some(Handler::FutexWait),
        numbers::SYS_FUTEX_WAITV => Some(Handler::FutexWaitv),
        numbers::SYS_FUTEX_WAKE => Some(Handler::FutexWake),
        numbers::SYS_GET_MEMPOLICY => Some(Handler::GetMempolicy),
        numbers::SYS_GETCPU => Some(Handler::Getcpu),
        numbers::SYS_GETCWD => Some(Handler::Getcwd),
        numbers::SYS_GETDENTS_LEGACY => Some(Handler::Getdents),
        numbers::SYS_GETDENTS64 => Some(Handler::Getdents64),
        numbers::SYS_GETEGID => Some(Handler::Getegid),
        numbers::SYS_GETEUID => Some(Handler::Geteuid),
        numbers::SYS_GETGID => Some(Handler::Getgid),
        numbers::SYS_GETGROUPS => Some(Handler::Getgroups),
        numbers::SYS_GETITIMER => Some(Handler::Getitimer),
        numbers::SYS_GETPEERNAME => Some(Handler::Getpeername),
        numbers::SYS_GETPGID => Some(Handler::Getpgid),
        numbers::SYS_GETPGRP => Some(Handler::Getpgrp),
        numbers::SYS_GETPID => Some(Handler::Getpid),
        numbers::SYS_GETPPID => Some(Handler::Getppid),
        numbers::SYS_GETPRIORITY => Some(Handler::Getpriority),
        numbers::SYS_GETRANDOM => Some(Handler::Getrandom),
        numbers::SYS_GETRESGID => Some(Handler::Getresgid),
        numbers::SYS_GETRESUID => Some(Handler::Getresuid),
        numbers::SYS_GETRLIMIT => Some(Handler::Getrlimit),
        numbers::SYS_GETRUSAGE => Some(Handler::Getrusage),
        numbers::SYS_GETSID => Some(Handler::Getsid),
        numbers::SYS_GETSOCKNAME => Some(Handler::Getsockname),
        numbers::SYS_GETSOCKOPT => Some(Handler::Getsockopt),
        numbers::SYS_GETTID => Some(Handler::Gettid),
        numbers::SYS_GETTIMEOFDAY => Some(Handler::Gettimeofday),
        numbers::SYS_GETUID => Some(Handler::Getuid),
        numbers::SYS_GETXATTR | numbers::SYS_LGETXATTR => Some(Handler::Getxattr),
        numbers::SYS_GETXATTRAT => Some(Handler::Getxattrat),
        numbers::SYS_IOCTL => Some(Handler::Ioctl),
        numbers::SYS_KEYCTL => Some(Handler::Keyctl),
        numbers::SYS_KILL => Some(Handler::Kill),
        numbers::SYS_LINK | numbers::SYS_LINKAT => Some(Handler::Linkat),
        numbers::SYS_LISTEN => Some(Handler::Listen),
        numbers::SYS_LISTXATTR | numbers::SYS_LLISTXATTR => Some(Handler::Listxattr),
        numbers::SYS_LISTXATTRAT => Some(Handler::Listxattrat),
        numbers::SYS_LSEEK => Some(Handler::Lseek),
        numbers::SYS_MADVISE => Some(Handler::Madvise),
        numbers::SYS_MBIND => Some(Handler::Mbind),
        numbers::SYS_MEMBARRIER => Some(Handler::Membarrier),
        numbers::SYS_MEMFD_CREATE => Some(Handler::MemfdCreate),
        numbers::SYS_MINCORE => Some(Handler::Mincore),
        numbers::SYS_MKDIR | numbers::SYS_MKDIRAT => Some(Handler::Mkdirat),
        numbers::SYS_MKNOD | numbers::SYS_MKNODAT => Some(Handler::Mknodat),
        numbers::SYS_MLOCK => Some(Handler::Mlock),
        numbers::SYS_MLOCK2 => Some(Handler::Mlock2),
        numbers::SYS_MLOCKALL => Some(Handler::Mlockall),
        numbers::SYS_MMAP => Some(Handler::Mmap),
        numbers::SYS_MOUNT => Some(Handler::Mount),
        numbers::SYS_MPROTECT => Some(Handler::Mprotect),
        numbers::SYS_MREMAP => Some(Handler::Mremap),
        numbers::SYS_MSYNC => Some(Handler::Msync),
        numbers::SYS_MUNLOCK => Some(Handler::Munlock),
        numbers::SYS_MUNLOCKALL => Some(Handler::Munlockall),
        numbers::SYS_MUNMAP => Some(Handler::Munmap),
        numbers::SYS_NANOSLEEP => Some(Handler::Nanosleep),
        numbers::SYS_NEWFSTATAT => Some(Handler::Newfstatat),
        numbers::SYS_OPEN_LEGACY | numbers::SYS_CREAT | numbers::SYS_OPENAT => Some(Handler::Openat),
        numbers::SYS_OPENAT2 => Some(Handler::Openat2),
        numbers::SYS_PAUSE => Some(Handler::Pause),
        numbers::SYS_PERSONALITY => Some(Handler::Personality),
        numbers::SYS_PIDFD_OPEN => Some(Handler::PidfdOpen),
        numbers::SYS_PIDFD_SEND_SIGNAL => Some(Handler::PidfdSendSignal),
        numbers::SYS_PIPE => Some(Handler::Pipe),
        numbers::SYS_PIPE2 => Some(Handler::Pipe2),
        numbers::SYS_PIVOT_ROOT => Some(Handler::PivotRoot),
        numbers::SYS_POLL => Some(Handler::Poll),
        numbers::SYS_PPOLL => Some(Handler::Ppoll),
        numbers::SYS_PRCTL => Some(Handler::Prctl),
        numbers::SYS_PREAD64 => Some(Handler::Pread64),
        numbers::SYS_PREADV | numbers::SYS_PREADV2 => Some(Handler::Preadv),
        numbers::SYS_PRLIMIT64 => Some(Handler::Prlimit64),
        numbers::SYS_PROCESS_VM_READV => Some(Handler::ProcessVmReadv),
        numbers::SYS_PROCESS_VM_WRITEV => Some(Handler::ProcessVmWritev),
        numbers::SYS_PSELECT6 => Some(Handler::Pselect6),
        numbers::SYS_PTRACE => Some(Handler::Ptrace),
        numbers::SYS_PWRITE64 => Some(Handler::Pwrite64),
        numbers::SYS_PWRITEV | numbers::SYS_PWRITEV2 => Some(Handler::Pwritev),
        numbers::SYS_READ => Some(Handler::Read),
        numbers::SYS_READAHEAD => Some(Handler::Readahead),
        numbers::SYS_READLINK | numbers::SYS_READLINKAT => Some(Handler::Readlinkat),
        numbers::SYS_READV => Some(Handler::Readv),
        numbers::SYS_REBOOT => Some(Handler::Reboot),
        numbers::SYS_RECVFROM => Some(Handler::Recvfrom),
        numbers::SYS_RECVMSG => Some(Handler::Recvmsg),
        numbers::SYS_REMOVEXATTR | numbers::SYS_LREMOVEXATTR => Some(Handler::Removexattr),
        numbers::SYS_REMOVEXATTRAT => Some(Handler::Removexattrat),
        numbers::SYS_RENAMEAT => Some(Handler::Renameat),
        numbers::SYS_RENAME | numbers::SYS_RENAMEAT2 => Some(Handler::Renameat2),
        numbers::SYS_RSEQ => Some(Handler::Rseq),
        numbers::SYS_RT_SIGACTION => Some(Handler::RtSigaction),
        numbers::SYS_RT_SIGPENDING => Some(Handler::RtSigpending),
        numbers::SYS_RT_SIGPROCMASK => Some(Handler::RtSigprocmask),
        numbers::SYS_RT_SIGQUEUEINFO => Some(Handler::RtSigqueueinfo),
        numbers::SYS_RT_SIGRETURN => Some(Handler::RtSigreturn),
        numbers::SYS_RT_SIGSUSPEND => Some(Handler::RtSigsuspend),
        numbers::SYS_RT_SIGTIMEDWAIT => Some(Handler::RtSigtimedwait),
        numbers::SYS_RT_TGSIGQUEUEINFO => Some(Handler::RtTgsigqueueinfo),
        numbers::SYS_SCHED_GET_PRIORITY_MAX => Some(Handler::SchedGetPriorityMax),
        numbers::SYS_SCHED_GET_PRIORITY_MIN => Some(Handler::SchedGetPriorityMin),
        numbers::SYS_SCHED_GETAFFINITY => Some(Handler::SchedGetaffinity),
        numbers::SYS_SCHED_GETATTR => Some(Handler::SchedGetattr),
        numbers::SYS_SCHED_GETPARAM => Some(Handler::SchedGetparam),
        numbers::SYS_SCHED_GETSCHEDULER => Some(Handler::SchedGetscheduler),
        numbers::SYS_SCHED_RR_GET_INTERVAL => Some(Handler::SchedRrGetInterval),
        numbers::SYS_SCHED_SETAFFINITY => Some(Handler::SchedSetaffinity),
        numbers::SYS_SCHED_SETATTR => Some(Handler::SchedSetattr),
        numbers::SYS_SCHED_SETPARAM => Some(Handler::SchedSetparam),
        numbers::SYS_SCHED_SETSCHEDULER => Some(Handler::SchedSetscheduler),
        numbers::SYS_SCHED_YIELD => Some(Handler::SchedYield),
        numbers::SYS_SECCOMP => Some(Handler::Seccomp),
        numbers::SYS_SELECT => Some(Handler::Select),
        numbers::SYS_SENDFILE => Some(Handler::Sendfile),
        numbers::SYS_SENDMSG => Some(Handler::Sendmsg),
        numbers::SYS_SENDTO => Some(Handler::Sendto),
        numbers::SYS_SET_MEMPOLICY => Some(Handler::SetMempolicy),
        numbers::SYS_SET_MEMPOLICY_HOME_NODE => Some(Handler::SetMempolicyHomeNode),
        numbers::SYS_SET_ROBUST_LIST => Some(Handler::SetRobustList),
        numbers::SYS_SET_TID_ADDRESS => Some(Handler::SetTidAddress),
        numbers::SYS_SETDOMAINNAME => Some(Handler::Setdomainname),
        numbers::SYS_SETFSGID => Some(Handler::Setfsgid),
        numbers::SYS_SETFSUID => Some(Handler::Setfsuid),
        numbers::SYS_SETGID => Some(Handler::Setgid),
        numbers::SYS_SETGROUPS => Some(Handler::Setgroups),
        numbers::SYS_SETHOSTNAME => Some(Handler::Sethostname),
        numbers::SYS_SETITIMER => Some(Handler::Setitimer),
        numbers::SYS_SETNS => Some(Handler::Setns),
        numbers::SYS_SETPGID => Some(Handler::Setpgid),
        numbers::SYS_SETPRIORITY => Some(Handler::Setpriority),
        numbers::SYS_SETREGID => Some(Handler::Setregid),
        numbers::SYS_SETRESGID => Some(Handler::Setresgid),
        numbers::SYS_SETRESUID => Some(Handler::Setresuid),
        numbers::SYS_SETREUID => Some(Handler::Setreuid),
        numbers::SYS_SETRLIMIT => Some(Handler::Setrlimit),
        numbers::SYS_SETSID => Some(Handler::Setsid),
        numbers::SYS_SETSOCKOPT => Some(Handler::Setsockopt),
        numbers::SYS_SETTIMEOFDAY => Some(Handler::Settimeofday),
        numbers::SYS_SETUID => Some(Handler::Setuid),
        numbers::SYS_SETXATTR | numbers::SYS_LSETXATTR => Some(Handler::Setxattr),
        numbers::SYS_SETXATTRAT => Some(Handler::Setxattrat),
        numbers::SYS_SHMAT => Some(Handler::Shmat),
        numbers::SYS_SHMCTL => Some(Handler::Shmctl),
        numbers::SYS_SHMDT => Some(Handler::Shmdt),
        numbers::SYS_SHMGET => Some(Handler::Shmget),
        numbers::SYS_SHUTDOWN => Some(Handler::Shutdown),
        numbers::SYS_SIGALTSTACK => Some(Handler::Sigaltstack),
        numbers::SYS_SIGNALFD4 => Some(Handler::Signalfd4),
        numbers::SYS_SOCKET => Some(Handler::Socket),
        numbers::SYS_SOCKETPAIR => Some(Handler::Socketpair),
        numbers::SYS_SPLICE => Some(Handler::Splice),
        numbers::SYS_STAT | numbers::SYS_LSTAT => Some(Handler::Stat),
        numbers::SYS_STATFS | numbers::SYS_FSTATFS => Some(Handler::Statfs),
        numbers::SYS_STATX => Some(Handler::Statx),
        numbers::SYS_SYMLINK | numbers::SYS_SYMLINKAT => Some(Handler::Symlinkat),
        numbers::SYS_SYNC_FILE_RANGE => Some(Handler::SyncFileRange),
        numbers::SYS_SYSINFO => Some(Handler::Sysinfo),
        numbers::SYS_SYSLOG => Some(Handler::Syslog),
        numbers::SYS_TEE => Some(Handler::Tee),
        numbers::SYS_TGKILL => Some(Handler::Tgkill),
        numbers::SYS_TIME => Some(Handler::Time),
        numbers::SYS_TIMERFD_CREATE => Some(Handler::TimerfdCreate),
        numbers::SYS_TIMERFD_GETTIME => Some(Handler::TimerfdGettime),
        numbers::SYS_TIMERFD_SETTIME => Some(Handler::TimerfdSettime),
        numbers::SYS_TIMES => Some(Handler::Times),
        numbers::SYS_TKILL => Some(Handler::Tkill),
        numbers::SYS_TRUNCATE => Some(Handler::Truncate),
        numbers::SYS_UMASK => Some(Handler::Umask),
        numbers::SYS_UMOUNT2 => Some(Handler::Umount2),
        numbers::SYS_UNAME => Some(Handler::Uname),
        numbers::SYS_RMDIR | numbers::SYS_UNLINK | numbers::SYS_UNLINKAT => Some(Handler::Unlinkat),
        numbers::SYS_UNSHARE => Some(Handler::Unshare),
        numbers::SYS_UTIMENSAT => Some(Handler::Utimensat),
        numbers::SYS_VFORK => Some(Handler::Vfork),
        numbers::SYS_VMSPLICE => Some(Handler::Vmsplice),
        numbers::SYS_WAIT4 => Some(Handler::Wait4),
        numbers::SYS_WAITID => Some(Handler::Waitid),
        numbers::SYS_WRITE => Some(Handler::Write),
        numbers::SYS_WRITEV => Some(Handler::Writev),
        _ => None,
    }
}

/// What a number is answered without looking further.
pub open spec fn reply_of(nr: u64, a: Args) -> Option<i64> {
    match nr {
        numbers::SYS_SYNC => Some(0),
        numbers::SYS_ADD_KEY
        | numbers::SYS_REQUEST_KEY
        | numbers::SYS_PKEY_MPROTECT
        | numbers::SYS_PKEY_ALLOC
        | numbers::SYS_PKEY_FREE => Some(errno::EOPNOTSUPP),
        numbers::SYS_EPOLL_CREATE => if (a.a0 as i64) <= 0 {
            Some(errno::EINVAL)
        } else {
            None
        },
        _ => None,
    }
}

/// The arguments for a call relative to the working directory that has one argument fewer.
pub open spec fn from_cwd(a: Args) -> Args {
    Args { a0: FDCWD, a1: a.a0, a2: a.a1, a3: a.a2, a4: a.a3, a5: a.a4 }
}

/// The arguments with their low halves alone.
pub open spec fn low_halves(a: Args) -> Args {
    Args {
        a0: (a.a0 as u32) as u64,
        a1: (a.a1 as u32) as u64,
        a2: (a.a2 as u32) as u64,
        a3: a.a3,
        a4: a.a4,
        a5: a.a5,
    }
}

/// The arguments that the code gets: those of the call, but for the old calls that another
/// one stands in for.
pub open spec fn arranged(nr: u64, a: Args) -> Args {
    match nr {
        numbers::SYS_OPEN_LEGACY
        | numbers::SYS_CHMOD
        | numbers::SYS_READLINK
        | numbers::SYS_MKDIR
        | numbers::SYS_MKNOD => from_cwd(a),
        numbers::SYS_CREAT => Args { a1: a.a0, a2: CREAT_FLAGS, a3: a.a1, ..from_cwd(a) },
        numbers::SYS_ACCESS => Args { a3: 0, ..from_cwd(a) },
        numbers::SYS_FACCESSAT => Args { a3: 0, ..a },
        numbers::SYS_CHOWN | numbers::SYS_LCHOWN => Args { a4: 0, ..from_cwd(a) },
        numbers::SYS_UNLINK => Args { a2: 0, ..from_cwd(a) },
        numbers::SYS_RMDIR => Args { a2: AT_REMOVEDIR, ..from_cwd(a) },
        numbers::SYS_LINK
        | numbers::SYS_RENAME => Args { a0: FDCWD, a1: a.a0, a2: FDCWD, a3: a.a1, a4: 0, ..a },
        numbers::SYS_SYMLINK => Args { a1: FDCWD, a2: a.a1, ..a },
        numbers::SYS_STAT | numbers::SYS_STATFS => Args { a2: 0, ..a },
        numbers::SYS_LSTAT | numbers::SYS_FSTATFS => Args { a2: 1, ..a },
        numbers::SYS_SETXATTR => Args { a5: 0, ..a },
        numbers::SYS_LSETXATTR => Args { a5: 1, ..a },
        numbers::SYS_EPOLL_CREATE => Args { a0: 0, ..a },
        numbers::SYS_EVENTFD => Args { a1: 0, ..a },
        numbers::SYS_SETRESUID
        | numbers::SYS_SETRESGID
        | numbers::SYS_SETUID
        | numbers::SYS_SETGID
        | numbers::SYS_SETREUID
        | numbers::SYS_SETREGID
        | numbers::SYS_SETFSUID
        | numbers::SYS_SETFSGID => low_halves(a),
        numbers::SYS_UMASK => Args { a0: (a.a0 as u16) as u64, ..a },
        _ => a,
    }
}

fn arrange(nr: u64, a: Args) -> (r: Args)
    ensures
        r == arranged(nr, a),
{
    let cwd = Args { a0: FDCWD, a1: a.a0, a2: a.a1, a3: a.a2, a4: a.a3, a5: a.a4 };
    match nr {
        numbers::SYS_OPEN_LEGACY
        | numbers::SYS_CHMOD
        | numbers::SYS_READLINK
        | numbers::SYS_MKDIR
        | numbers::SYS_MKNOD => cwd,
        numbers::SYS_CREAT => Args { a2: CREAT_FLAGS, a3: a.a1, ..cwd },
        numbers::SYS_ACCESS => Args { a3: 0, ..cwd },
        numbers::SYS_FACCESSAT => Args { a3: 0, ..a },
        numbers::SYS_CHOWN | numbers::SYS_LCHOWN => Args { a4: 0, ..cwd },
        numbers::SYS_UNLINK => Args { a2: 0, ..cwd },
        numbers::SYS_RMDIR => Args { a2: AT_REMOVEDIR, ..cwd },
        numbers::SYS_LINK
        | numbers::SYS_RENAME => Args { a0: FDCWD, a1: a.a0, a2: FDCWD, a3: a.a1, a4: 0, ..a },
        numbers::SYS_SYMLINK => Args { a1: FDCWD, a2: a.a1, ..a },
        numbers::SYS_STAT | numbers::SYS_STATFS => Args { a2: 0, ..a },
        numbers::SYS_LSTAT | numbers::SYS_FSTATFS => Args { a2: 1, ..a },
        numbers::SYS_SETXATTR => Args { a5: 0, ..a },
        numbers::SYS_LSETXATTR => Args { a5: 1, ..a },
        numbers::SYS_EPOLL_CREATE => Args { a0: 0, ..a },
        numbers::SYS_EVENTFD => Args { a1: 0, ..a },
        numbers::SYS_SETRESUID
        | numbers::SYS_SETRESGID
        | numbers::SYS_SETUID
        | numbers::SYS_SETGID
        | numbers::SYS_SETREUID
        | numbers::SYS_SETREGID
        | numbers::SYS_SETFSUID
        | numbers::SYS_SETFSGID => Args {
            a0: (a.a0 as u32) as u64,
            a1: (a.a1 as u32) as u64,
            a2: (a.a2 as u32) as u64,
            ..a
        },
        numbers::SYS_UMASK => Args { a0: (a.a0 as u16) as u64, ..a },
        _ => a,
    }
}

/// What serves a call.
pub open spec fn routed(nr: u64, a: Args) -> Routed {
    match legacy_of(nr) {
        Legacy::Reply(code) => Routed::Reply(code),
        Legacy::Vhangup => Routed::Call { handler: Handler::Vhangup, args: a },
        Legacy::NotLegacy => match reply_of(nr, a) {
            Some(code) => Routed::Reply(code),
            None => match handler_of(nr) {
                Some(handler) => Routed::Call { handler, args: arranged(nr, a) },
                None => Routed::Unknown,
            },
        },
    }
}

/// Says what serves a call.
pub fn route(nr: u64, a: Args) -> (r: Routed)
    ensures
        r == routed(nr, a),
{
    match dispatch_if_legacy(nr) {
        Legacy::Reply(code) => {
            return Routed::Reply(code);
        },
        Legacy::Vhangup => {
            return Routed::Call { handler: Handler::Vhangup, args: a };
        },
        Legacy::NotLegacy => {},
    }
    match nr {
        numbers::SYS_SYNC => {
            return Routed::Reply(0);
        },
        numbers::SYS_ADD_KEY
        | numbers::SYS_REQUEST_KEY
        | numbers::SYS_PKEY_MPROTECT
        | numbers::SYS_PKEY_ALLOC
        | numbers::SYS_PKEY_FREE => {
            return Routed::Reply(errno::EOPNOTSUPP);
        },
        numbers::SYS_EPOLL_CREATE => {
            if (a.a0 as i64) <= 0 {
                return Routed::Reply(errno::EINVAL);
            }
        },
        _ => {},
    }
    match handler_for(nr) {
        Some(handler) => Routed::Call { handler, args: arrange(nr, a) },
        None => Routed::Unknown,
    }
}

/// Where a call stands on its way through the kernel.
#[derive(Clone, Copy, PartialEq, Eq, Structural, Debug)]
pub enum Stage {
    /// The time until now is booked to the program.
    EnterAccount,
    /// The filters are asked.
    Filter,
    /// The tracer is told of the call.
    EntryHook,
    /// The call is served.
    Serve,
    /// The tracer is told of the answer.
    ExitHook,
    /// Pending signals are delivered.
    Signals,
    /// The time until now is booked to the kernel.
    ExitAccount,
    Done,
}

/// What a stage came to.
#[derive(Clone, Copy, PartialEq, Eq, Structural, Debug)]
pub enum Outcome {
    Passed,
    /// The filters refused the call.
    Refused,
    /// The call has set up all registers itself: nothing follows.
    Left,
}

/// The stage after `stage`.
pub open spec fn following(stage: Stage, outcome: Outcome) -> Stage {
    match stage {
        Stage::EnterAccount => Stage::Filter,
        Stage::Filter => if outcome == Outcome::Refused {
            Stage::ExitAccount
        } else {
            Stage::EntryHook
        },
        Stage::EntryHook => Stage::Serve,
        Stage::Serve => if outcome == Outcome::Left {
            Stage::Done
        } else {
            Stage::ExitHook
        },
        Stage::ExitHook => Stage::Signals,
        Stage::Signals => Stage::ExitAccount,
        Stage::ExitAccount => Stage::Done,
        Stage::Done => Stage::Done,
    }
}

/// Says what comes after a stage.
pub fn advance(stage: Stage, outcome: Outcome) -> (next: Stage)
    ensures
        next == following(stage, outcome),
{
    match stage {
        Stage::EnterAccount => Stage::Filter,
        Stage::Filter => match outcome {
            Outcome::Refused => Stage::ExitAccount,
            _ => Stage::EntryHook,
        },
        Stage::EntryHook => Stage::Serve,
        Stage::Serve => match outcome {
            Outcome::Left => Stage::Done,
            _ => Stage::ExitHook,
        },
        Stage::ExitHook => Stage::Signals,
        Stage::Signals => Stage::ExitAccount,
        Stage::ExitAccount => Stage::Done,
        Stage::Done => Stage::Done,
    }
}

/// What the filters ask for besides the outcome.
#[derive(Clone, Copy, PartialEq, Eq, Structural, Debug)]
pub enum FilterAction {
    Nothing,
    /// The call is noted.
    Note,
    /// The caller is sent a signal that tells of the call, and what is pending is delivered.
    Signal { number: u64, data: u16 },
    /// The caller is ended by a signal.
    Kill { number: u64 },
}

/// What the filters make of a call: how it goes on, and what is answered where it does not.
#[derive(Clone, Copy, PartialEq, Eq, Structural, Debug)]
pub struct Filtered {
    pub outcome: Outcome,
    pub answer: Option<i64>,
    pub action: FilterAction,
}

/// What a verdict of the filters makes of a call.
pub open spec fn filtered_by(v: Verdict) -> Filtered {
    match v {
        Verdict::Allow => Filtered {
            outcome: Outcome::Passed,
            answer: None,
            action: FilterAction::Nothing,
        },
        Verdict::Log => Filtered {
            outcome: Outcome::Passed,
            answer: None,
            action: FilterAction::Note,
        },
        Verdict::Errno(e) => Filtered {
            outcome: Outcome::Refused,
            answer: Some(e),
            action: FilterAction::Nothing,
        },
        Verdict::Trap { data } => Filtered {
            outcome: Outcome::Refused,
            answer: Some(errno::ENOSYS),
            action: FilterAction::Signal { number: SIGSYS, data },
        },
        Verdict::Kill => Filtered {
            outcome: Outcome::Refused,
            answer: None,
            action: FilterAction::Kill { number: SIGKILL },
        },
    }
}

/// What the filters make of a call: `word` is what they gave for it.
pub fn filtered(word: u32) -> (r: Filtered)
    ensures
        r == filtered_by(seccomp::verdict_of(word)),
{
    match seccomp::apply_seccomp(word) {
        Verdict::Allow => Filtered {
            outcome: Outcome::Passed,
            answer: None,
            action: FilterAction::Nothing,
        },
        Verdict::Log => Filtered {
            outcome: Outcome::Passed,
            answer: None,
            action: FilterAction::Note,
        },
        Verdict::Errno(e) => Filtered {
            outcome: Outcome::Refused,
            answer: Some(e),
            action: FilterAction::Nothing,
        },
        Verdict::Trap { data } => Filtered {
            outcome: Outcome::Refused,
            answer: Some(errno::ENOSYS),
            action: FilterAction::Signal { number: SIGSYS, data },
        },
        Verdict::Kill => Filtered {
            outcome: Outcome::Refused,
            answer: None,
            action: FilterAction::Kill { number: SIGKILL },
        },
    }
}

/// Whether a call has set up all registers itself once it is served: a return from a signal
/// does, and so does a call on the group of a process that is not there. `nobody` says whether
/// the call names such a process.
pub open spec fn leaves(routed: Routed, nobody: bool) -> bool {
    routed matches Routed::Call { handler, args } && (handler == Handler::RtSigreturn || (nobody
        && (handler == Handler::Getpgid || handler == Handler::Setpgid || handler
        == Handler::Getsid)))
}

/// How a call goes on once it is served.
pub fn served(routed: Routed, nobody: bool) -> (outcome: Outcome)
    ensures
        outcome == (if leaves(routed, nobody) {
            Outcome::Left
        } else {
            Outcome::Passed
        }),
{
    match routed {
        Routed::Call { handler, args: _ } => match handler {
            Handler::RtSigreturn => Outcome::Left,
            Handler::Getpgid | Handler::Setpgid | Handler::Getsid => if nobody {
                Outcome::Left
            } else {
                Outcome::Passed
            },
            _ => Outcome::Passed,
        },
        _ => Outcome::Passed,
    }
}

/// How many stages are left at most.
pub open spec fn stages_left(stage: Stage) -> nat {
    match stage {
        Stage::EnterAccount => 7,
        Stage::Filter => 6,
        Stage::EntryHook => 5,
        Stage::Serve => 4,
        Stage::ExitHook => 3,
        Stage::Signals => 2,
        Stage::ExitAccount => 1,
        Stage::Done => 0,
    }
}

/// The stages that a call goes through from `stage` on: `filter` is what the filters come to,
/// and `serve` what serving it does.
pub open spec fn stages_from(stage: Stage, filter: Outcome, serve: Outcome) -> Seq<Stage>
    decreases stages_left(stage),
{
    if stage == Stage::Done {
        seq![Stage::Done]
    } else {
        let outcome = if stage == Stage::Filter {
            filter
        } else if stage == Stage::Serve {
            serve
        } else {
            Outcome::Passed
        };
        seq![stage] + stages_from(following(stage, outcome), filter, serve)
    }
}

/// The process that an argument names: none is the caller; `mapped` is what the caller's
/// number stands for, where it stands for one.
pub open spec fn named_process(arg: u64, caller: Pid, mapped: Option<Pid>) -> Option<Pid> {
    if (arg as u32) == 0 {
        Some(caller)
    } else {
        mapped
    }
}

/// How a call on a process group goes on. A call that names nobody is answered `ESRCH`, and
/// leaves (see `leaves`).
#[derive(Clone, Copy, PartialEq, Eq, Structural, Debug)]
pub enum GroupCall {
    NoSuchProcess,
    Of(Pid),
}

/// The process that `getpgid` and `getsid` ask about.
pub fn group_call(arg: u64, caller: Pid, mapped: Option<Pid>) -> (r: GroupCall)
    ensures
        r == match named_process(arg, caller, mapped) {
            Some(pid) => GroupCall::Of(pid),
            None => GroupCall::NoSuchProcess,
        },
{
    if (arg as u32) == 0 {
        return GroupCall::Of(caller);
    }
    match mapped {
        Some(pid) => GroupCall::Of(pid),
        None => GroupCall::NoSuchProcess,
    }
}

/// The process that `setpgid` moves, and the group it goes to: none is a group of its own.
pub fn setpgid_call(
    pid_arg: u64,
    group_arg: u64,
    caller: Pid,
    mapped_pid: Option<Pid>,
    mapped_group: Option<Pid>,
) -> (r: Option<(Pid, Pid)>)
    ensures
        r == match named_process(pid_arg, caller, mapped_pid) {
            Some(pid) => match named_process(group_arg, pid, mapped_group) {
                Some(group) => Some((pid, group)),
                None => None,
            },
            None => None,
        },
{
    let pid = match group_call(pid_arg, caller, mapped_pid) {
        GroupCall::Of(pid) => pid,
        GroupCall::NoSuchProcess => {
            return None;
        },
    };
    match group_call(group_arg, pid, mapped_group) {
        GroupCall::Of(group) => Some((pid, group)),
        GroupCall::NoSuchProcess => None,
    }
}

/// The answer of a call that gives a process by the caller's number for it.
pub fn process_reply(r: Result<u32, i64>) -> (reply: u64)
    ensures
        reply == match r {
            Ok(local) => local as u64,
            Err(e) => e as u64,
        },
{
    match r {
        Ok(local) => local as u64,
        Err(e) => e as u64,
    }
}

/// `getppid`: who has no parent gets nothing.
pub fn sys_getppid(parent: u32, local: u32) -> (reply: u64)
    ensures
        reply == if parent == 0 {
            0u64
        } else {
            local as u64
        },
{
    if parent == 0 {
        0
    } else {
        local as u64
    }
}

pub const REBOOT_MAGIC1: u32 = 0xfee1dead;

pub const REBOOT_MAGIC2: u32 = 0x28121969;

pub const REBOOT_MAGIC2A: u32 = 0x05121996;

pub const REBOOT_MAGIC2B: u32 = 0x16041998;

pub const REBOOT_MAGIC2C: u32 = 0x20112000;

pub const REBOOT_CMD_RESTART: u32 = 0x01234567;

pub const REBOOT_CMD_HALT: u32 = 0xCDEF0123;

pub const REBOOT_CMD_CAD_ON: u32 = 0x89ABCDEF;

pub const REBOOT_CMD_CAD_OFF: u32 = 0;

pub const REBOOT_CMD_POWER_OFF: u32 = 0x4321FEDC;

#[derive(Clone, Copy, PartialEq, Eq, Structural, Debug)]
pub enum Reboot {
    Reply(i64),
    /// The machine stops.
    Stop,
}

pub open spec fn reboot_magic(magic1: u32, magic2: u32) -> bool {
    magic1 == REBOOT_MAGIC1 && (magic2 == REBOOT_MAGIC2 || magic2 == REBOOT_MAGIC2A || magic2
        == REBOOT_MAGIC2B || magic2 == REBOOT_MAGIC2C)
}

/// `reboot`: with `CAP_SYS_BOOT` and both magic numbers, the machine is stopped; turning
/// Ctrl-Alt-Del on or off does nothing.
pub fn sys_reboot(capable: bool, magic1: u64, magic2: u64, cmd: u64) -> (r: Reboot)
    ensures
        r == (if !capable {
            Reboot::Reply(errno::EPERM)
        } else if !reboot_magic(magic1 as u32, magic2 as u32) {
            Reboot::Reply(errno::EINVAL)
        } else if cmd as u32 == REBOOT_CMD_CAD_OFF || cmd as u32 == REBOOT_CMD_CAD_ON {
            Reboot::Reply(0)
        } else if cmd as u32 == REBOOT_CMD_HALT || cmd as u32 == REBOOT_CMD_POWER_OFF || cmd as u32
            == REBOOT_CMD_RESTART {
            Reboot::Stop
        } else {
            Reboot::Reply(errno::EINVAL)
        }),
{
    if !capable {
        return Reboot::Reply(errno::EPERM);
    }
    if magic1 as u32 != REBOOT_MAGIC1 {
        return Reboot::Reply(errno::EINVAL);
    }
    match magic2 as u32 {
        REBOOT_MAGIC2 | REBOOT_MAGIC2A | REBOOT_MAGIC2B | REBOOT_MAGIC2C => {},
        _ => {
            return Reboot::Reply(errno::EINVAL);
        },
    }
    match cmd as u32 {
        REBOOT_CMD_CAD_OFF | REBOOT_CMD_CAD_ON => Reboot::Reply(0),
        REBOOT_CMD_HALT | REBOOT_CMD_POWER_OFF | REBOOT_CMD_RESTART => Reboot::Stop,
        _ => Reboot::Reply(errno::EINVAL),
    }
}

pub const GRND_RANDOM: u64 = 0x2;

pub const GRND_NONBLOCK: u64 = 0x1;

/// The most random bytes that one call gives.
pub const RANDOM_MAX: u64 = 0x100_0000;

/// How many random bytes `getrandom` gives.
pub open spec fn random_len(count: u64, flags: u64) -> Result<u64, i64> {
    if flags & !(GRND_RANDOM | GRND_NONBLOCK) != 0 {
        Err(errno::EINVAL)
    } else if count > RANDOM_MAX {
        Ok(RANDOM_MAX)
    } else {
        Ok(count)
    }
}

/// How many random bytes are to be handed to the caller.
pub fn getrandom_len(count: u64, flags: u64) -> (r: Result<u64, i64>)
    ensures
        r == random_len(count, flags),
{
    if flags & !(GRND_RANDOM | GRND_NONBLOCK) != 0 {
        return Err(errno::EINVAL);
    }
    if count > RANDOM_MAX {
        Ok(RANDOM_MAX)
    } else {
        Ok(count)
    }
}

/// `getrandom`, once the bytes are handed over or were found not to fit anywhere.
pub fn sys_getrandom(count: u64, flags: u64, copied: bool) -> (code: i64)
    ensures
        code == match random_len(count, flags) {
            Err(e) => e,
            Ok(len) => if len > 0 && !copied {
                errno::EFAULT
            } else {
                len as i64
            },
        },
{
    match getrandom_len(count, flags) {
        Err(e) => e,
        Ok(len) => if len > 0 && !copied {
            errno::EFAULT
        } else {
            len as i64
        },
    }
}

/// The most bytes that one write moves.
pub const WRITE_BUF_MAX: u64 = 0x10_0000;

/// What serves a call before there are processes.
#[derive(Clone, Copy, PartialEq, Eq, Structural, Debug)]
pub enum EarlyCall {
    Write,
    Exit,
    Unknown,
}

/// Says what serves a call before there are processes.
pub fn dispatch_pre_sched(nr: u64) -> (r: EarlyCall)
    ensures
        r == (if nr == numbers::SYS_WRITE {
            EarlyCall::Write
        } else if nr == numbers::SYS_EXIT || nr == numbers::SYS_EXIT_GROUP {
            EarlyCall::Exit
        } else {
            EarlyCall::Unknown
        }),
{
    match nr {
        numbers::SYS_WRITE => EarlyCall::Write,
        numbers::SYS_EXIT | numbers::SYS_EXIT_GROUP => EarlyCall::Exit,
        _ => EarlyCall::Unknown,
    }
}

/// `write` before there are processes: to the serial line, on the two output descriptors
/// alone. `bytes` is what was read of the caller's memory; they go out as they are.
pub fn sys_write_pre_sched(fd: u64, count: u64, bytes: Option<Vec<u8>>) -> (r: (
    i64,
    Option<Vec<u8>>,
))
    requires
        bytes is Some ==> bytes->0@.len() == (if count > WRITE_BUF_MAX {
            WRITE_BUF_MAX
        } else {
            count
        }),
    ensures
        r == (if fd != 1 && fd != 2 {
            (errno::EBADF, None)
        } else if count == 0 {
            (0, None)
        } else if bytes is None {
            (errno::EFAULT, None)
        } else {
            (bytes->0@.len() as i64, bytes)
        }),
{
    if fd != 1 && fd != 2 {
        return (errno::EBADF, None);
    }
    if count == 0 {
        return (0, None);
    }
    match bytes {
        Some(b) => (b.len() as i64, Some(b)),
        None => (errno::EFAULT, None),
    }
}

/// A number above all others is unknown.
pub proof fn law_unlisted_number_is_unknown(nr: u64, a: Args)
    requires
        nr > numbers::SYS_REMOVEXATTRAT,
    ensures
        routed(nr, a) == Routed::Unknown,
{
}

/// A number kept for old programs never reaches the code of another call.
pub proof fn law_legacy_is_never_served(nr: u64, a: Args)
    requires
        legacy_of(nr) != Legacy::NotLegacy,
    ensures
        handler_of(nr) is None,
        reply_of(nr, a) is None,
{
}

/// The calls on a path alone are the calls relative to a directory, relative to the working
/// directory.
pub proof fn law_plain_calls_start_at_cwd(a: Args)
    ensures
        routed(numbers::SYS_OPEN_LEGACY, a) == routed(numbers::SYS_OPENAT, from_cwd(a)),
        routed(numbers::SYS_CHMOD, a) == routed(numbers::SYS_FCHMODAT, from_cwd(a)),
        routed(numbers::SYS_READLINK, a) == routed(numbers::SYS_READLINKAT, from_cwd(a)),
        routed(numbers::SYS_MKDIR, a) == routed(numbers::SYS_MKDIRAT, from_cwd(a)),
        routed(numbers::SYS_MKNOD, a) == routed(numbers::SYS_MKNODAT, from_cwd(a)),
        routed(numbers::SYS_ACCESS, a) == routed(numbers::SYS_FACCESSAT, from_cwd(a)),
        routed(numbers::SYS_UNLINK, a) == routed(
            numbers::SYS_UNLINKAT,
            (Args { a2: 0, ..from_cwd(a) }),
        ),
        routed(numbers::SYS_RMDIR, a) == routed(
            numbers::SYS_UNLINKAT,
            (Args { a2: AT_REMOVEDIR, ..from_cwd(a) }),
        ),
        routed(numbers::SYS_CREAT, a) == routed(
            numbers::SYS_OPENAT,
            (Args { a2: CREAT_FLAGS, a3: a.a1, ..from_cwd(a) }),
        ),
        routed(numbers::SYS_CHOWN, a) == routed(numbers::SYS_LCHOWN, a),
{
}

/// A call that the filters refuse is not served, and no tracer sees it: it is only accounted for.
/// Whatever its number is, its answer is what the filters say.
pub proof fn law_refused_call_is_not_served(word: u32, serve: Outcome)
    requires
        filtered_by(seccomp::verdict_of(word)).outcome == Outcome::Refused,
    ensures
        ({
            let f = filtered_by(seccomp::verdict_of(word));
            let stages = stages_from(Stage::EnterAccount, f.outcome, serve);
            &&& stages == seq![Stage::EnterAccount, Stage::Filter, Stage::ExitAccount, Stage::Done]
            &&& !stages.contains(Stage::EntryHook)
            &&& !stages.contains(Stage::Serve)
            &&& !stages.contains(Stage::ExitHook)
            &&& f.answer is Some || f.action == (FilterAction::Kill { number: SIGKILL })
        }),
{
    reveal_with_fuel(stages_from, 4);
    let stages = stages_from(Stage::EnterAccount, Outcome::Refused, serve);
    assert(stages =~= seq![Stage::EnterAccount, Stage::Filter, Stage::ExitAccount, Stage::Done]);
}

/// Where the filters name an error, the call is refused, and the answer is that error, as far as
/// errors go.
pub proof fn law_named_error_is_the_answer(word: u32)
    requires
        word & seccomp::SECCOMP_RET_ACTION == seccomp::SECCOMP_RET_ERRNO,
    ensures
        ({
            let f = filtered_by(seccomp::verdict_of(word));
            let data = word & seccomp::SECCOMP_RET_DATA;
            &&& f.outcome == Outcome::Refused
            &&& f.action == FilterAction::Nothing
            &&& f.answer == Some(
                if data > seccomp::ERRNO_MAX {
                    -4095i64
                } else {
                    (-(data as int)) as i64
                },
            )
        }),
{
}

/// A call that passes the filters and does not leave goes through all stages in turn; one that
/// leaves ends where it is served.
pub proof fn law_served_call_passes_all_stages()
    ensures
        stages_from(Stage::EnterAccount, Outcome::Passed, Outcome::Passed) == seq![
            Stage::EnterAccount,
            Stage::Filter,
            Stage::EntryHook,
            Stage::Serve,
            Stage::ExitHook,
            Stage::Signals,
            Stage::ExitAccount,
            Stage::Done,
        ],
        stages_from(Stage::EnterAccount, Outcome::Passed, Outcome::Left) == seq![
            Stage::EnterAccount,
            Stage::Filter,
            Stage::EntryHook,
            Stage::Serve,
            Stage::Done,
        ],
{
    reveal_with_fuel(stages_from, 8);
    assert(stages_from(Stage::EnterAccount, Outcome::Passed, Outcome::Passed) =~= seq![
        Stage::EnterAccount,
        Stage::Filter,
        Stage::EntryHook,
        Stage::Serve,
        Stage::ExitHook,
        Stage::Signals,
        Stage::ExitAccount,
        Stage::Done,
    ]);
    assert(stages_from(Stage::EnterAccount, Outcome::Passed, Outcome::Left) =~= seq![
        Stage::EnterAccount,
        Stage::Filter,
        Stage::EntryHook,
        Stage::Serve,
        Stage::Done,
    ]);
}

/// The working directory stands in a register as the number below zero that it is.
pub proof fn law_cwd_in_a_register()
    ensures
        FDCWD as i64 == AT_FDCWD,
{
    assert(0xffff_ffff_ffff_ff9cu64 as i64 == -100i64) by (bit_vector);
}

} // verus!
