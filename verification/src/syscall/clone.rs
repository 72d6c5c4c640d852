//! New processes and threads, and the namespaces they are in.
use super::caps::Caps;
use crate::bytes;
use crate::errno;
use vstd::prelude::*;

verus! {

pub const CLONE_NEWTIME: u64 = 0x0000_0080;

pub const CLONE_VM: u64 = 0x0000_0100;

pub const CLONE_FS: u64 = 0x0000_0200;

pub const CLONE_FILES: u64 = 0x0000_0400;

pub const CLONE_SIGHAND: u64 = 0x0000_0800;

pub const CLONE_PIDFD: u64 = 0x0000_1000;

pub const CLONE_VFORK: u64 = 0x0000_4000;

pub const CLONE_THREAD: u64 = 0x0001_0000;

pub const CLONE_NEWNS: u64 = 0x0002_0000;

pub const CLONE_SETTLS: u64 = 0x0008_0000;

pub const CLONE_PARENT_SETTID: u64 = 0x0010_0000;

pub const CLONE_CHILD_CLEARTID: u64 = 0x0020_0000;

pub const CLONE_CHILD_SETTID: u64 = 0x0100_0000;

pub const CLONE_NEWCGROUP: u64 = 0x0200_0000;

pub const CLONE_NEWUTS: u64 = 0x0400_0000;

pub const CLONE_NEWIPC: u64 = 0x0800_0000;

pub const CLONE_NEWUSER: u64 = 0x1000_0000;

pub const CLONE_NEWPID: u64 = 0x2000_0000;

pub const CLONE_NEWNET: u64 = 0x4000_0000;

pub const CLONE_CLEAR_SIGHAND: u64 = 0x1_0000_0000;

pub const CLONE_INTO_CGROUP: u64 = 0x2_0000_0000;

/// What a thread shares with its maker besides memory.
pub const SHARES: u64 = CLONE_FS | CLONE_FILES | CLONE_SIGHAND | CLONE_THREAD;

/// A child to be made.
#[derive(Clone, Copy, PartialEq, Eq, Structural, Debug)]
pub enum NewTask {
    Thread { stack: u64 },
    /// A process. A stack of none is the maker's.
    Process { stack: u64, borrows_memory: bool, new_pid: bool, new_ipc: bool, new_net: bool },
}

/// Whether flags ask for a thread: all of what threads share.
pub open spec fn asks_thread(flags: u64) -> bool {
    flags & (CLONE_VM | SHARES) == CLONE_VM | SHARES
}

/// Whether flags ask for a process that runs on its maker's memory until it runs a program.
pub open spec fn asks_borrow(flags: u64) -> bool {
    flags & CLONE_VFORK != 0 && flags & CLONE_VM != 0 && flags & SHARES == 0
}

/// What flags ask for. Sharing anything without being a thread is not there, and some new
/// namespaces need an administrator.
pub open spec fn clone_request(flags: u64, child_stack: u64, admin: bool) -> Result<NewTask, i64> {
    if asks_thread(flags) {
        Ok(NewTask::Thread { stack: child_stack })
    } else if (asks_borrow(flags) && flags & SHARES != 0) || (!asks_borrow(flags) && flags & (
    CLONE_VM | SHARES) != 0) {
        Err(errno::ENOSYS)
    } else if flags & (CLONE_NEWPID | CLONE_NEWIPC | CLONE_NEWNET) != 0 && !admin {
        Err(errno::EPERM)
    } else {
        Ok(
            NewTask::Process {
                stack: child_stack,
                borrows_memory: asks_borrow(flags),
                new_pid: flags & CLONE_NEWPID != 0,
                new_ipc: flags & CLONE_NEWIPC != 0,
                new_net: flags & CLONE_NEWNET != 0,
            },
        )
    }
}

/// `clone`: the child to be made.
pub fn do_clone(flags: u64, child_stack: u64, admin: bool) -> (r: Result<NewTask, i64>)
    ensures
        r == clone_request(flags, child_stack, admin),
{
    let bundle: u64 = CLONE_VM | SHARES;
    if (flags & bundle) == bundle {
        return Ok(NewTask::Thread { stack: child_stack });
    }
    let borrows_memory = (flags & CLONE_VFORK) != 0 && (flags & CLONE_VM) != 0 && (flags & SHARES)
        == 0;
    let unsupported: u64 = if borrows_memory {
        SHARES
    } else {
        CLONE_VM | SHARES
    };
    if (flags & unsupported) != 0 {
        return Err(errno::ENOSYS);
    }
    if (flags & (CLONE_NEWPID | CLONE_NEWIPC | CLONE_NEWNET)) != 0 && !admin {
        return Err(errno::EPERM);
    }
    Ok(
        NewTask::Process {
            stack: child_stack,
            borrows_memory,
            new_pid: (flags & CLONE_NEWPID) != 0,
            new_ipc: (flags & CLONE_NEWIPC) != 0,
            new_net: (flags & CLONE_NEWNET) != 0,
        },
    )
}

/// What is done once a child is made. The caller is told its number as far as it can be.
#[derive(Clone, Copy, PartialEq, Eq, Structural, Debug)]
pub struct CloneDone {
    /// Where the maker is told the number.
    pub tell_parent: Option<u64>,
    /// Where the child's number is cleared when it ends.
    pub clear_on_exit: Option<u64>,
    /// Where the child is told its number.
    pub tell_child: Option<u64>,
    pub tls: Option<u64>,
    /// The maker waits until the child runs a program or ends.
    pub wait: bool,
}

pub open spec fn given(wanted: bool, x: u64) -> Option<u64> {
    if wanted {
        Some(x)
    } else {
        None
    }
}

fn give(wanted: bool, x: u64) -> (r: Option<u64>)
    ensures
        r == given(wanted, x),
{
    if wanted {
        Some(x)
    } else {
        None
    }
}

/// `clone`, once the child is made.
pub fn clone_done(flags: u64, ptid: u64, ctid: u64, tls: u64) -> (r: CloneDone)
    ensures
        r == (CloneDone {
            tell_parent: given(flags & CLONE_PARENT_SETTID != 0 && ptid != 0, ptid),
            clear_on_exit: given(flags & CLONE_CHILD_CLEARTID != 0, ctid),
            tell_child: given(
                flags & CLONE_CHILD_SETTID != 0 && ctid != 0 && asks_thread(flags),
                ctid,
            ),
            tls: given(flags & CLONE_SETTLS != 0, tls),
            wait: flags & CLONE_VFORK != 0,
        }),
{
    let bundle: u64 = CLONE_VM | SHARES;
    let thread = (flags & bundle) == bundle;
    CloneDone {
        tell_parent: give((flags & CLONE_PARENT_SETTID) != 0 && ptid != 0, ptid),
        clear_on_exit: give((flags & CLONE_CHILD_CLEARTID) != 0, ctid),
        tell_child: give((flags & CLONE_CHILD_SETTID) != 0 && ctid != 0 && thread, ctid),
        tls: give((flags & CLONE_SETTLS) != 0, tls),
        wait: (flags & CLONE_VFORK) != 0,
    }
}

/// The sizes of the arguments of `clone3`.
pub const CLONE_ARGS_V0: u64 = 64;

pub const CLONE_ARGS_V1: u64 = 88;

/// The arguments of `clone3`, as `clone` takes them.
#[derive(Clone, Copy, PartialEq, Eq, Structural, Debug)]
pub struct CloneArgs {
    pub flags: u64,
    pub child_stack: u64,
    pub ptid: u64,
    pub ctid: u64,
    pub tls: u64,
    /// Where the maker is told a descriptor for the child.
    pub pidfd: Option<u64>,
}

/// The word at a place, where the arguments reach that far.
pub open spec fn word_within(buf: Seq<u8>, at: int) -> u64 {
    if buf.len() >= at + 8 {
        bytes::le64(buf, at)
    } else {
        0
    }
}

/// The end of the stack, or none.
pub open spec fn stack_end(stack: u64, size: u64) -> u64 {
    if stack == 0 {
        0
    } else if stack + size > u64::MAX {
        (stack + size - 0x1_0000_0000_0000_0000) as u64
    } else {
        (stack + size) as u64
    }
}

/// What the arguments of `clone3` ask for. Choosing a number, clearing signal handlers and
/// choosing a group are not there.
pub open spec fn clone3_request(buf: Seq<u8>) -> Result<CloneArgs, i64> {
    let flags = bytes::le64(buf, 0);
    let pidfd = bytes::le64(buf, 8);
    if word_within(buf, 64) != 0 || word_within(buf, 72) != 0 {
        Err(errno::EINVAL)
    } else if flags & (CLONE_CLEAR_SIGHAND | CLONE_INTO_CGROUP) != 0 {
        Err(errno::EINVAL)
    } else if flags & CLONE_PIDFD != 0 && pidfd == 0 {
        Err(errno::EINVAL)
    } else {
        Ok(
            CloneArgs {
                flags: (flags & !0xffu64) | (bytes::le64(buf, 32) & 0xff),
                child_stack: stack_end(bytes::le64(buf, 40), bytes::le64(buf, 48)),
                ptid: bytes::le64(buf, 24),
                ctid: bytes::le64(buf, 16),
                tls: bytes::le64(buf, 56),
                pidfd: given(flags & CLONE_PIDFD != 0, pidfd),
            },
        )
    }
}

/// How many bytes of the arguments of `clone3` are read.
pub fn clone3_len(args_ptr: u64, size: u64) -> (r: Result<u64, i64>)
    ensures
        r == (if size < CLONE_ARGS_V0 {
            Err(errno::EINVAL)
        } else if args_ptr == 0 {
            Err(errno::EFAULT)
        } else if size > CLONE_ARGS_V1 {
            Ok(CLONE_ARGS_V1)
        } else {
            Ok::<u64, i64>(size)
        }),
{
    if size < CLONE_ARGS_V0 {
        return Err(errno::EINVAL);
    }
    if args_ptr == 0 {
        return Err(errno::EFAULT);
    }
    if size > CLONE_ARGS_V1 {
        Ok(CLONE_ARGS_V1)
    } else {
        Ok(size)
    }
}

fn read_within(buf: &Vec<u8>, at: usize) -> (x: u64)
    requires
        at <= 1000,
    ensures
        x == word_within(buf@, at as int),
{
    if buf.len() >= at + 8 {
        bytes::u64_at(buf, at)
    } else {
        0
    }
}

/// `clone3`, with the bytes of its arguments.
pub fn sys_clone3(buf: Option<Vec<u8>>) -> (r: Result<CloneArgs, i64>)
    requires
        buf is Some ==> CLONE_ARGS_V0 <= buf->0@.len() <= CLONE_ARGS_V1,
    ensures
        r == (if buf is None {
            Err(errno::EFAULT)
        } else {
            clone3_request(buf->0@)
        }),
{
    let buf = match buf {
        Some(b) => b,
        None => {
            return Err(errno::EFAULT);
        },
    };
    let flags: u64 = bytes::u64_at(&buf, 0);
    let pidfd: u64 = bytes::u64_at(&buf, 8);
    let ctid: u64 = bytes::u64_at(&buf, 16);
    let ptid: u64 = bytes::u64_at(&buf, 24);
    let exit_signal: u64 = bytes::u64_at(&buf, 32);
    let stack: u64 = bytes::u64_at(&buf, 40);
    let stack_size: u64 = bytes::u64_at(&buf, 48);
    let tls: u64 = bytes::u64_at(&buf, 56);
    let set_tid: u64 = read_within(&buf, 64);
    let set_tid_size: u64 = read_within(&buf, 72);
    if set_tid != 0 || set_tid_size != 0 {
        return Err(errno::EINVAL);
    }
    if flags & (CLONE_CLEAR_SIGHAND | CLONE_INTO_CGROUP) != 0 {
        return Err(errno::EINVAL);
    }
    if (flags & CLONE_PIDFD) != 0 && pidfd == 0 {
        return Err(errno::EINVAL);
    }
    let child_stack: u64 = if stack == 0 {
        0
    } else {
        stack.wrapping_add(stack_size)
    };
    let merged: u64 = (flags & !0xffu64) | (exit_signal & 0xff);
    Ok(
        CloneArgs {
            flags: merged,
            child_stack,
            ptid,
            ctid,
            tls,
            pidfd: give((flags & CLONE_PIDFD) != 0, pidfd),
        },
    )
}

/// `clone3`, once the child is made: `child` is the answer of `clone`; `known` says whether
/// the child is still there, `installed` is what installing a descriptor for it gave, and
/// `told` says whether the caller could be told. A descriptor that cannot be had is an
/// error, though the child is there.
pub fn clone3_done(
    args: CloneArgs,
    child: i64,
    known: bool,
    installed: Result<i32, i64>,
    told: bool,
) -> (code: i64)
    ensures
        code == (if args.pidfd is Some && child > 0 && known {
            match installed {
                Err(e) => e,
                Ok(fd) => if told {
                    child
                } else {
                    errno::EFAULT
                },
            }
        } else {
            child
        }),
{
    if args.pidfd.is_some() && child > 0 && known {
        match installed {
            Err(e) => {
                return e;
            },
            Ok(_) => {
                if !told {
                    return errno::EFAULT;
                }
            },
        }
    }
    child
}

/// `unshare` of the user namespace: within a new one a process has all capabilities. `made`
/// says whether a new one could be had.
pub fn unshare_user(caps: &mut Caps, flags: u64, made: bool, mask: u64) -> (r: Option<i64>)
    ensures
        r == (if flags & CLONE_NEWUSER != 0 && !made {
            Some(errno::EINVAL)
        } else {
            None
        }),
        *final(caps) == (if flags & CLONE_NEWUSER != 0 && made {
            (Caps { effective: mask, permitted: mask, inheritable: mask, bounding: mask })
        } else {
            *old(caps)
        }),
{
    if (flags & CLONE_NEWUSER) == 0 {
        return None;
    }
    if !made {
        return Some(errno::EINVAL);
    }
    *caps = Caps { effective: mask, permitted: mask, inheritable: mask, bounding: mask };
    None
}

/// The namespaces that a process leaves for new ones, in this order.
#[derive(Clone, Copy, PartialEq, Eq, Structural, Debug)]
pub struct Unshared {
    pub mounts: bool,
    pub uts: bool,
    pub ipc: bool,
    pub net: bool,
    pub pid: bool,
    pub cgroup: bool,
    pub time: bool,
}

/// The namespaces for which one has to be an administrator.
pub const PRIV_NS: u64 = CLONE_NEWNS | CLONE_NEWUTS | CLONE_NEWIPC | CLONE_NEWPID | CLONE_NEWCGROUP
    | CLONE_NEWTIME | CLONE_NEWNET;

/// `unshare`, but for the user namespace, which comes first. Flags that are not known are
/// passed over.
pub fn sys_unshare(flags: u64, admin: bool) -> (r: Result<Unshared, i64>)
    ensures
        r == (if flags & PRIV_NS != 0 && !admin {
            Err(errno::EPERM)
        } else {
            Ok::<Unshared, i64>(
                Unshared {
                    mounts: flags & CLONE_NEWNS != 0,
                    uts: flags & CLONE_NEWUTS != 0,
                    ipc: flags & CLONE_NEWIPC != 0,
                    net: flags & CLONE_NEWNET != 0,
                    pid: flags & CLONE_NEWPID != 0,
                    cgroup: flags & CLONE_NEWCGROUP != 0,
                    time: flags & CLONE_NEWTIME != 0,
                },
            )
        }),
{
    if (flags & PRIV_NS) != 0 && !admin {
        return Err(errno::EPERM);
    }
    Ok(
        Unshared {
            mounts: (flags & CLONE_NEWNS) != 0,
            uts: (flags & CLONE_NEWUTS) != 0,
            ipc: (flags & CLONE_NEWIPC) != 0,
            net: (flags & CLONE_NEWNET) != 0,
            pid: (flags & CLONE_NEWPID) != 0,
            cgroup: (flags & CLONE_NEWCGROUP) != 0,
            time: (flags & CLONE_NEWTIME) != 0,
        },
    )
}

/// What a descriptor stands for, as far as namespaces go.
#[derive(Clone, Copy, PartialEq, Eq, Structural, Debug)]
pub enum NsFile {
    NotOpen,
    Other,
    Namespace { type_flag: u64 },
}

/// `setns`: whether the namespace behind a descriptor is entered.
pub fn sys_setns(file: NsFile, nstype: u64, admin: bool) -> (code: i64)
    ensures
        code == match file {
            NsFile::NotOpen => errno::EBADF,
            NsFile::Other => errno::EINVAL,
            NsFile::Namespace { type_flag } => if nstype != 0 && nstype != type_flag {
                errno::EINVAL
            } else if !admin {
                errno::EPERM
            } else {
                0
            },
        },
{
    match file {
        NsFile::NotOpen => errno::EBADF,
        NsFile::Other => errno::EINVAL,
        NsFile::Namespace { type_flag } => {
            if nstype != 0 && nstype != type_flag {
                return errno::EINVAL;
            }
            if !admin {
                return errno::EPERM;
            }
            0
        },
    }
}

/// The answer of `fork` and `vfork`, and of a `clone` that failed: the child by the caller's
/// number for it.
pub fn sys_fork(child: Result<u32, i64>) -> (code: i64)
    ensures
        code == match child {
            Ok(local) => local as i64,
            Err(e) => e,
        },
{
    match child {
        Ok(local) => local as i64,
        Err(e) => e,
    }
}

/// A process that shares nothing is made by flags that name none of what can be shared.
pub proof fn law_plain_clone_is_a_process(flags: u64, stack: u64)
    requires
        flags & (CLONE_VM | SHARES) == 0,
        flags & (CLONE_NEWPID | CLONE_NEWIPC | CLONE_NEWNET) == 0,
    ensures
        clone_request(flags, stack, false) is Ok,
        clone_request(flags, stack, false)->Ok_0 is Process,
        !clone_request(flags, stack, false)->Ok_0->borrows_memory,
{
    assert(flags & (CLONE_VM | SHARES) == 0 ==> flags & CLONE_VM == 0) by (bit_vector);
    assert(CLONE_VM | SHARES != 0) by (bit_vector);
}

} // verus!
