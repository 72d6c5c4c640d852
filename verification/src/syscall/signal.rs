//! Signals: who may send which, and how they are waited for.
use std::collections::BTreeMap;

use super::reply;
use super::reply::Reply;
use super::util;
use crate::bytes;
use crate::errno;
use crate::process_model::Pid;
use crate::vfs::fd;
use crate::vfs::fd::FdTable;
use vstd::prelude::*;

verus! {

/// One more than the last signal that can be sent.
pub const SIGNALS: u32 = 64;

pub const SIGKILL: u64 = 9;

pub const SIGSYS: u64 = 31;

pub const SIGSTOP: u64 = 19;

/// The stack that signals are handled on.
#[derive(Clone, Copy, PartialEq, Eq, Structural, Debug)]
pub struct AltStack {
    pub sp: u64,
    pub flags: i32,
    pub size: u64,
}

pub const SS_DISABLE: i32 = 2;

pub open spec fn packed_stack(a: AltStack) -> Seq<u8> {
    bytes::put64(a.sp) + bytes::put32(a.flags as u32) + bytes::zeros(4) + bytes::put64(a.size)
}

pub open spec fn stack_in(b: Seq<u8>) -> AltStack {
    AltStack {
        sp: bytes::le64(b, 0),
        flags: bytes::le32(b, 8) as i32,
        size: bytes::le64(b, 16),
    }
}

/// What becomes of the stack that signals are handled on.
#[derive(Clone, Copy, PartialEq, Eq, Structural, Debug)]
pub enum StackChange {
    Keep,
    Disable,
    Use(AltStack),
}

/// What a new stack comes to: not while on it, and not smaller than the least.
pub open spec fn stack_request(on_stack: bool, new: Option<AltStack>, min_size: u64) -> Result<
    StackChange,
    i64,
> {
    if on_stack {
        Err(errno::EPERM)
    } else if new is None {
        Err(errno::EFAULT)
    } else if new->0.flags & SS_DISABLE != 0 {
        Ok(StackChange::Disable)
    } else if new->0.size < min_size {
        Err(errno::EINVAL)
    } else {
        Ok(StackChange::Use(new->0))
    }
}

/// `sigaltstack`, first: the stack that there is is shown. What is asked for is read after that,
/// and `stack_change` goes on.
pub fn sys_sigaltstack(old_ptr: u64, now: AltStack) -> (r: Reply)
    ensures
        r@ == reply::where_wanted(reply::plain(0), old_ptr, packed_stack(now)),
{
    let mut b: Vec<u8> = Vec::new();
    bytes::push_u64(&mut b, now.sp);
    assert(b@ =~= bytes::put64(now.sp));
    bytes::push_u32(&mut b, now.flags as u32);
    bytes::push_zeros(&mut b, 4);
    bytes::push_u64(&mut b, now.size);
    let mut r = Reply::plain(0);
    r.hand_over(old_ptr, b);
    r
}

/// The answer of `sigaltstack`, and the change that it makes. `code` is what showing the old
/// stack came to, and `new` what was read after that.
pub open spec fn stack_changed(
    code: i64,
    new_ptr: u64,
    on_stack: bool,
    new: Option<Seq<u8>>,
    min_size: u64,
) -> (i64, StackChange) {
    if code != 0 || new_ptr == 0 {
        (code, StackChange::Keep)
    } else {
        match stack_request(
            on_stack,
            if new is Some {
                Some(stack_in(new->0))
            } else {
                None
            },
            min_size,
        ) {
            Err(e) => (e, StackChange::Keep),
            Ok(change) => (0, change),
        }
    }
}

/// `sigaltstack`, once the old stack is shown.
pub fn stack_change(
    code: i64,
    new_ptr: u64,
    on_stack: bool,
    new: Option<Vec<u8>>,
    min_size: u64,
) -> (r: (i64, StackChange))
    requires
        new is Some ==> new->0@.len() == 24,
    ensures
        r == stack_changed(code, new_ptr, on_stack, util::bytes_view(new), min_size),
{
    if code != 0 || new_ptr == 0 {
        return (code, StackChange::Keep);
    }
    if on_stack {
        return (errno::EPERM, StackChange::Keep);
    }
    let b = match new {
        None => {
            return (errno::EFAULT, StackChange::Keep);
        },
        Some(b) => b,
    };
    let a = AltStack {
        sp: bytes::u64_at(&b, 0),
        flags: bytes::u32_at(&b, 8) as i32,
        size: bytes::u64_at(&b, 16),
    };
    if a.flags & SS_DISABLE != 0 {
        return (0, StackChange::Disable);
    }
    if a.size < min_size {
        return (errno::EINVAL, StackChange::Keep);
    }
    (0, StackChange::Use(a))
}

/// The answer of `sigaltstack` once the change was made or could not be: a process that is gone
/// has no stack.
pub fn stack_set(changed: (i64, StackChange), made: bool) -> (code: i64)
    ensures
        code == (if changed.1 != StackChange::Keep && !made {
            errno::ESRCH
        } else {
            changed.0
        }),
{
    match changed.1 {
        StackChange::Keep => changed.0,
        _ => if made {
            changed.0
        } else {
            errno::ESRCH
        },
    }
}

/// Who gets a signal.
#[derive(Clone, Copy, PartialEq, Eq, Structural, Debug)]
pub enum Kill {
    Reply(i64),
    Group(Pid, u32),
    Process(Pid, u32),
}

/// The number that `kill` names: below zero it is a group's.
pub fn kill_number(pid: u64) -> (n: u32)
    requires
        pid as i64 > i64::MIN,
    ensures
        n == (if (pid as i64) < 0 {
            (-(pid as i64)) as u32
        } else {
            pid as u32
        }),
{
    let signed: i64 = pid as i64;
    if signed < 0 {
        (-signed) as u32
    } else {
        pid as u32
    }
}

/// `kill`: a group, the caller's own group, or a process that the caller may signal. `mapped`
/// is what the number stands for.
pub fn sys_kill(pid: u64, signal: u64, mapped: Option<Pid>, own_group: Pid, permitted: bool) -> (r:
    Kill)
    ensures
        r == (if signal as u32 >= SIGNALS {
            Kill::Reply(errno::EINVAL)
        } else if pid as i64 == 0 {
            Kill::Group(own_group, signal as u32)
        } else if mapped is None {
            Kill::Reply(errno::ESRCH)
        } else if (pid as i64) < 0 {
            Kill::Group(mapped->0, signal as u32)
        } else if !permitted {
            Kill::Reply(errno::EPERM)
        } else {
            Kill::Process(mapped->0, signal as u32)
        }),
{
    if signal as u32 >= SIGNALS {
        return Kill::Reply(errno::EINVAL);
    }
    let signed: i64 = pid as i64;
    if signed == 0 {
        return Kill::Group(own_group, signal as u32);
    }
    let target = match mapped {
        Some(p) => p,
        None => {
            return Kill::Reply(errno::ESRCH);
        },
    };
    if signed < 0 {
        return Kill::Group(target, signal as u32);
    }
    if !permitted {
        return Kill::Reply(errno::EPERM);
    }
    Kill::Process(target, signal as u32)
}

/// Who gets a signal by `tkill`: a signal of none is not sent.
pub open spec fn thread_kill(sig: u64, target: Option<Pid>) -> Kill {
    if sig as u32 >= SIGNALS {
        Kill::Reply(errno::EINVAL)
    } else if target is None {
        Kill::Reply(errno::ESRCH)
    } else if sig == 0 {
        Kill::Reply(0)
    } else {
        Kill::Process(target->0, sig as u32)
    }
}

/// `tkill`
pub fn sys_tkill(sig: u64, target: Option<Pid>) -> (r: Kill)
    ensures
        r == thread_kill(sig, target),
{
    if sig as u32 >= SIGNALS {
        return Kill::Reply(errno::EINVAL);
    }
    let pid = match target {
        Some(p) => p,
        None => {
            return Kill::Reply(errno::ESRCH);
        },
    };
    if sig == 0 {
        return Kill::Reply(0);
    }
    Kill::Process(pid, sig as u32)
}

/// `tgkill`
pub fn sys_tgkill(tgid: u64, tid: u64, sig: u64, target: Option<Pid>) -> (r: Kill)
    ensures
        r == (if tgid as i64 <= 0 || tid as i64 <= 0 {
            Kill::Reply(errno::EINVAL)
        } else {
            thread_kill(sig, target)
        }),
{
    if (tgid as i64) <= 0 || (tid as i64) <= 0 {
        return Kill::Reply(errno::EINVAL);
    }
    sys_tkill(sig, target)
}

/// What a process does on a signal.
#[derive(Clone, Copy, PartialEq, Eq, Structural, Debug)]
pub struct SigAction {
    pub handler: u64,
    pub flags: u64,
    pub restorer: u64,
    pub mask: u64,
}

pub open spec fn packed_action(a: SigAction) -> Seq<u8> {
    bytes::put64(a.handler) + bytes::put64(a.flags) + bytes::put64(a.restorer) + bytes::put64(
        a.mask,
    )
}

pub open spec fn action_in(b: Seq<u8>) -> SigAction {
    SigAction {
        handler: bytes::le64(b, 0),
        flags: bytes::le64(b, 8),
        restorer: bytes::le64(b, 16),
        mask: bytes::le64(b, 24),
    }
}

/// An action that is shown is read as it was.
pub proof fn law_action_reads_as_shown(a: SigAction)
    ensures
        packed_action(a).len() == 32,
        action_in(packed_action(a)) == a,
{
    let s = packed_action(a);
    assert(s.subrange(0, 8) =~= bytes::put64(a.handler));
    assert(s.subrange(8, 16) =~= bytes::put64(a.flags));
    assert(s.subrange(16, 24) =~= bytes::put64(a.restorer));
    assert(s.subrange(24, 32) =~= bytes::put64(a.mask));
    bytes::lemma_at64(s, 0, a.handler);
    bytes::lemma_at64(s, 8, a.flags);
    bytes::lemma_at64(s, 16, a.restorer);
    bytes::lemma_at64(s, 24, a.mask);
}

/// Whether an action on a signal can be looked at, or set: two signals keep theirs.
pub open spec fn action_allowed(signum: u64, sets: bool, sigsetsize: u64) -> bool {
    0 < signum < SIGNALS && !(sets && (signum == SIGKILL || signum == SIGSTOP)) && sigsetsize == 8
}

/// `rt_sigaction`, first: the action that there is is shown. The new one is read after that, and
/// `action_change` goes on.
pub fn sys_rt_sigaction(
    signum: u64,
    new_act: u64,
    old_act: u64,
    sigsetsize: u64,
    now: SigAction,
) -> (r: Reply)
    ensures
        r@ == (if action_allowed(signum, new_act != 0, sigsetsize) {
            reply::where_wanted(reply::plain(0), old_act, packed_action(now))
        } else {
            reply::plain(errno::EINVAL)
        }),
{
    if signum == 0 || signum >= SIGNALS as u64 || (new_act != 0 && (signum == SIGKILL || signum
        == SIGSTOP)) || sigsetsize != 8 {
        return Reply::plain(errno::EINVAL);
    }
    let mut b: Vec<u8> = Vec::new();
    bytes::push_u64(&mut b, now.handler);
    assert(b@ =~= bytes::put64(now.handler));
    bytes::push_u64(&mut b, now.flags);
    bytes::push_u64(&mut b, now.restorer);
    bytes::push_u64(&mut b, now.mask);
    let mut r = Reply::plain(0);
    r.hand_over(old_act, b);
    r
}

/// The answer of `rt_sigaction`, and the action that it sets. `code` is what showing the old one
/// came to, and `new` what was read after that.
pub open spec fn action_changed(code: i64, new_act: u64, new: Option<Seq<u8>>) -> (
    i64,
    Option<SigAction>,
) {
    if code != 0 || new_act == 0 {
        (code, None)
    } else {
        match new {
            None => (errno::EFAULT, None),
            Some(b) => (0, Some(action_in(b))),
        }
    }
}

/// `rt_sigaction`, once the old action is shown.
pub fn action_change(code: i64, new_act: u64, new: Option<Vec<u8>>) -> (r: (
    i64,
    Option<SigAction>,
))
    requires
        new is Some ==> new->0@.len() == 32,
    ensures
        r == action_changed(code, new_act, util::bytes_view(new)),
{
    if code != 0 || new_act == 0 {
        return (code, None);
    }
    match new {
        None => (errno::EFAULT, None),
        Some(b) => (
            0,
            Some(
                SigAction {
                    handler: bytes::u64_at(&b, 0),
                    flags: bytes::u64_at(&b, 8),
                    restorer: bytes::u64_at(&b, 16),
                    mask: bytes::u64_at(&b, 24),
                },
            ),
        ),
    }
}

/// The answer of `rt_sigaction` once the action was set or could not be.
pub fn action_set(changed: (i64, Option<SigAction>), made: bool) -> (code: i64)
    ensures
        code == (if changed.1 is Some && !made {
            errno::EINVAL
        } else {
            changed.0
        }),
{
    if changed.1.is_some() && !made {
        errno::EINVAL
    } else {
        changed.0
    }
}

/// Where the old action is shown in the place that the new one is read from, it stays.
pub proof fn law_action_stays_where_both_are_one(new_act: u64, now: SigAction)
    requires
        new_act != 0,
    ensures
        action_changed(0, new_act, Some(packed_action(now))) == (0i64, Some(now)),
{
    law_action_reads_as_shown(now);
}

/// The signals that `rt_sigprocmask` names, where it names any.
pub fn sigprocmask_set(set: u64, sigsetsize: u64, buf: Option<Vec<u8>>) -> (r: Result<
    Option<u64>,
    i64,
>)
    requires
        buf is Some ==> buf->0@.len() == 8,
    ensures
        r == (if sigsetsize != 8 {
            Err(errno::EINVAL)
        } else if set == 0 {
            Ok(None)
        } else if buf is None {
            Err(errno::EFAULT)
        } else {
            Ok::<Option<u64>, i64>(Some(bytes::le64(buf->0@, 0)))
        }),
{
    if sigsetsize != 8 {
        return Err(errno::EINVAL);
    }
    if set == 0 {
        return Ok(None);
    }
    match buf {
        None => Err(errno::EFAULT),
        Some(b) => Ok(Some(bytes::u64_at(&b, 0))),
    }
}

fn u64_bytes(x: u64) -> (b: Vec<u8>)
    ensures
        b@ == bytes::put64(x),
{
    let mut b: Vec<u8> = Vec::new();
    bytes::push_u64(&mut b, x);
    assert(b@ =~= bytes::put64(x));
    b
}

/// `rt_sigprocmask`, once the mask is changed: `old` is the mask before, or none where the
/// change was not understood.
pub fn sys_rt_sigprocmask(oldset: u64, old_mask: Option<u64>) -> (r: Reply)
    ensures
        r@ == (if old_mask is None {
            reply::plain(errno::EINVAL)
        } else {
            reply::where_wanted(reply::plain(0), oldset, bytes::put64(old_mask->0))
        }),
{
    match old_mask {
        None => Reply::plain(errno::EINVAL),
        Some(m) => {
            let mut r = Reply::plain(0);
            r.hand_over(oldset, u64_bytes(m));
            r
        },
    }
}

/// Which processes descriptors stand for, by the number of what the descriptor is open on.
pub struct PidFds {
    pub index: BTreeMap<u64, Pid>,
}

impl PidFds {
    /// No process descriptors.
    pub fn new() -> (pids: PidFds)
        ensures
            pids.index@ == Map::<u64, Pid>::empty(),
    {
        PidFds { index: BTreeMap::new() }
    }
}

pub const PIDFD_NONBLOCK: u64 = 0o4000;

/// Opens a descriptor for a process, closed on exec. What the descriptor is open on is known
/// from then on, even where no descriptor could be had.
pub fn install_pidfd(
    pids: &mut PidFds,
    table: &mut FdTable,
    file: u64,
    inode: u64,
    target: Pid,
) -> (r: Result<i32, i64>)
    requires
        old(table).wf(),
    ensures
        final(pids).index@ == old(pids).index@.insert(inode, target),
        final(table).wf(),
        match r {
            Ok(n) => fd::installed(
                *old(table),
                *final(table),
                file,
                0,
                fd::FD_CLOEXEC,
                Ok::<i32, i32>(n),
            ),
            Err(e) => fd::installed(
                *old(table),
                *final(table),
                file,
                0,
                fd::FD_CLOEXEC,
                Err::<i32, i32>(e as i32),
            ) && i32::MIN <= e <= i32::MAX,
        },
{
    pids.index.insert(inode, target);
    match table.install_from(file, 0, fd::FD_CLOEXEC) {
        Ok(n) => Ok(n),
        Err(e) => Err(e as i64),
    }
}

/// `pidfd_open`: for whom a descriptor is opened, and whether it waits.
pub fn sys_pidfd_open(flags: u64, target: Option<Pid>, alive: bool) -> (r: Result<(Pid, bool), i64>)
    ensures
        r == (if flags & !PIDFD_NONBLOCK != 0 {
            Err(errno::EINVAL)
        } else if target is None || !alive {
            Err(errno::ESRCH)
        } else {
            Ok::<(Pid, bool), i64>((target->0, flags & PIDFD_NONBLOCK != 0))
        }),
{
    if (flags & !PIDFD_NONBLOCK) != 0 {
        return Err(errno::EINVAL);
    }
    match target {
        None => Err(errno::ESRCH),
        Some(p) => {
            if !alive {
                return Err(errno::ESRCH);
            }
            Ok((p, (flags & PIDFD_NONBLOCK) != 0))
        },
    }
}

/// Whether a signal can be sent to a descriptor, before it is looked up.
pub fn pidfd_signal_target(pids: &PidFds, sig: u64, flags: u64, inode: Option<u64>) -> (r: Result<
    Pid,
    i64,
>)
    ensures
        r == (if flags != 0 || sig as u32 >= SIGNALS {
            Err(errno::EINVAL)
        } else if inode is None {
            Err(errno::EBADF)
        } else if !pids.index@.contains_key(inode->0) {
            Err(errno::EINVAL)
        } else {
            Ok::<Pid, i64>(pids.index@[inode->0])
        }),
{
    if flags != 0 {
        return Err(errno::EINVAL);
    }
    if sig as u32 >= SIGNALS {
        return Err(errno::EINVAL);
    }
    match inode {
        None => Err(errno::EBADF),
        Some(i) => match pids.index.get(&i) {
            Some(p) => Ok(*p),
            None => Err(errno::EINVAL),
        },
    }
}

/// `pidfd_send_signal`, to the process that the descriptor stands for.
pub fn sys_pidfd_send_signal(target: Pid, sig: u64, permitted: bool) -> (r: Kill)
    ensures
        r == (if !permitted {
            Kill::Reply(errno::EPERM)
        } else if sig == 0 {
            Kill::Reply(0)
        } else {
            Kill::Process(target, sig as u32)
        }),
{
    if !permitted {
        return Kill::Reply(errno::EPERM);
    }
    if sig == 0 {
        return Kill::Reply(0);
    }
    Kill::Process(target, sig as u32)
}

/// `pause`: whether the caller waits for a signal before the answer, which is always `EINTR`.
pub fn sys_pause(pending: bool) -> (r: (i64, bool))
    ensures
        r == (errno::EINTR, !pending),
{
    (errno::EINTR, !pending)
}

/// Until when `rt_sigtimedwait` waits: a time of nothing does not wait at all.
pub open spec fn wait_until(timeout_ptr: u64, time: Option<Seq<u8>>, now: u64) -> Result<
    Option<u64>,
    i64,
> {
    if timeout_ptr == 0 {
        Ok(None)
    } else if time is None {
        Err(errno::EFAULT)
    } else {
        let total = util::nanos_of(bytes::le64(time->0, 0), bytes::le64(time->0, 8));
        if total == 0 {
            Ok(Some(0u64))
        } else {
            Ok(Some(util::later(now, total)))
        }
    }
}

/// What `rt_sigtimedwait` waits for, and until when.
pub fn sigtimedwait_begin(
    set_ptr: u64,
    set: Option<Vec<u8>>,
    timeout_ptr: u64,
    time: Option<Vec<u8>>,
    sigsetsize: u64,
    now: u64,
) -> (r: Result<(u64, Option<u64>), i64>)
    requires
        set is Some ==> set->0@.len() == 8,
        time is Some ==> time->0@.len() == 16,
    ensures
        r == (if sigsetsize != 8 {
            Err(errno::EINVAL)
        } else if set_ptr == 0 || set is None {
            Err(errno::EFAULT)
        } else {
            match wait_until(timeout_ptr, util::bytes_view(time), now) {
                Err(e) => Err(e),
                Ok(d) => Ok::<(u64, Option<u64>), i64>((bytes::le64(set->0@, 0), d)),
            }
        }),
{
    if sigsetsize != 8 {
        return Err(errno::EINVAL);
    }
    if set_ptr == 0 {
        return Err(errno::EFAULT);
    }
    let mask: u64 = match set {
        Some(b) => bytes::u64_at(&b, 0),
        None => {
            return Err(errno::EFAULT);
        },
    };
    if timeout_ptr == 0 {
        return Ok((mask, None));
    }
    match time {
        None => Err(errno::EFAULT),
        Some(b) => {
            let total: u64 = util::total_nanos(bytes::u64_at(&b, 0), bytes::u64_at(&b, 8));
            if total == 0 {
                Ok((mask, Some(0)))
            } else {
                Ok((mask, Some(now.saturating_add(total))))
            }
        },
    }
}

/// Whether bit `k` of a mask is set.
pub open spec fn bit(mask: u64, k: int) -> bool {
    (mask >> (k as u64)) & 1 == 1
}

/// The lowest signal of a mask.
pub open spec fn is_lowest(mask: u64, k: int) -> bool {
    0 <= k < 64 && bit(mask, k) && forall|j: int| 0 <= j < k ==> !#[trigger] bit(mask, j)
}

/// How a wait for signals goes on.
#[derive(Clone, Copy, PartialEq, Eq, Structural, Debug)]
pub enum SigWait {
    /// A signal is there, and is taken.
    Take(u32),
    /// The time is over: `EAGAIN`.
    TimedOut,
    /// The caller waits.
    Sleep,
}

/// How a wait for signals goes on, with those of them that are there.
pub fn sigtimedwait_step(pending: u64, deadline: Option<u64>, now: u64) -> (r: SigWait)
    ensures
        match r {
            SigWait::Take(k) => is_lowest(pending, k as int),
            SigWait::TimedOut => pending == 0 && deadline is Some && deadline->0 <= now,
            SigWait::Sleep => pending == 0 && (deadline is None || deadline->0 > now),
        },
{
    if pending == 0 {
        return match deadline {
            Some(d) => if d <= now {
                SigWait::TimedOut
            } else {
                SigWait::Sleep
            },
            None => SigWait::Sleep,
        };
    }
    let mut k: u64 = 0;
    assert(pending >> 0u64 == pending) by (bit_vector);
    while (pending >> k) & 1 != 1
        invariant
            k < 64,
            pending >> k != 0,
            forall|j: int| 0 <= j < k ==> !#[trigger] bit(pending, j),
        decreases 64 - k,
    {
        assert(!bit(pending, k as int));
        let next: u64 = k + 1;
        assert(next < 64 && pending >> next != 0) by (bit_vector)
            requires
                k < 64,
                next == k + 1,
                pending >> k != 0,
                (pending >> k) & 1 != 1,
        ;
        k = next;
    }
    assert(bit(pending, k as int));
    SigWait::Take(k as u32)
}

/// What is told of a signal that was taken.
pub open spec fn packed_info(signum: u32, si_code: i32) -> Seq<u8> {
    bytes::put32(signum) + bytes::put32(0) + bytes::put32(si_code as u32) + bytes::zeros(116)
}

/// `rt_sigtimedwait`, once a signal is taken.
pub fn sys_rt_sigtimedwait(info_ptr: u64, signum: u32, si_code: i32) -> (r: Reply)
    ensures
        r@ == reply::where_wanted(
            reply::plain(signum as i64),
            info_ptr,
            packed_info(signum, si_code),
        ),
{
    let mut b: Vec<u8> = Vec::new();
    bytes::push_u32(&mut b, signum);
    assert(b@ =~= bytes::put32(signum));
    bytes::push_u32(&mut b, 0);
    bytes::push_u32(&mut b, si_code as u32);
    bytes::push_zeros(&mut b, 116);
    let mut r = Reply::plain(signum as i64);
    r.hand_over(info_ptr, b);
    r
}

/// The two signals that are never blocked.
pub const UNBLOCKABLE: u64 = 0x8_0200;

/// `rt_sigsuspend`: the mask for the time of the wait. The mask before comes back after it,
/// and the answer is `EINTR`.
pub fn sys_rt_sigsuspend(sigsetsize: u64, buf: Option<Vec<u8>>) -> (r: Result<u64, i64>)
    requires
        buf is Some ==> buf->0@.len() == 8,
    ensures
        r == (if sigsetsize != 8 {
            Err(errno::EINVAL)
        } else if buf is None {
            Err(errno::EFAULT)
        } else {
            Ok::<u64, i64>(bytes::le64(buf->0@, 0) & !UNBLOCKABLE)
        }),
{
    if sigsetsize != 8 {
        return Err(errno::EINVAL);
    }
    match buf {
        None => Err(errno::EFAULT),
        Some(b) => Ok(bytes::u64_at(&b, 0) & !UNBLOCKABLE),
    }
}

/// A mask for the time of a wait never blocks what cannot be blocked.
pub proof fn law_unblockable_stays_unblocked(mask: u64)
    ensures
        !bit(mask & !UNBLOCKABLE, SIGKILL as int),
        !bit(mask & !UNBLOCKABLE, SIGSTOP as int),
{
    assert(((mask & !UNBLOCKABLE) >> 9u64) & 1 == 0) by (bit_vector);
    assert(((mask & !UNBLOCKABLE) >> 19u64) & 1 == 0) by (bit_vector);
}

/// `rt_sigpending`
pub fn sys_rt_sigpending(set_ptr: u64, sigsetsize: u64, pending: u64) -> (r: Reply)
    ensures
        r@ == (if sigsetsize != 8 {
            reply::plain(errno::EINVAL)
        } else if set_ptr == 0 {
            reply::plain(errno::EFAULT)
        } else {
            reply::with_bytes(0, set_ptr, bytes::put64(pending))
        }),
{
    if sigsetsize != 8 {
        return Reply::plain(errno::EINVAL);
    }
    if set_ptr == 0 {
        return Reply::plain(errno::EFAULT);
    }
    Reply::with_bytes(0, set_ptr, u64_bytes(pending))
}

/// A signal with a value.
#[derive(Clone, Copy, PartialEq, Eq, Structural, Debug)]
pub struct Queued {
    pub target: Pid,
    pub sig: u32,
    pub si_code: i32,
    pub value: u64,
}

/// What a queued signal is sent with: a code that the kernel itself uses is the superuser's
/// alone.
pub open spec fn queue_request(target: Pid, sig: u64, info: Option<Seq<u8>>, euid: u32) -> Result<
    Queued,
    i64,
> {
    if info is None {
        Err(errno::EFAULT)
    } else if bytes::le32(info->0, 8) as i32 >= 0 && euid != 0 {
        Err(errno::EPERM)
    } else {
        Ok(
            Queued {
                target,
                sig: sig as u32,
                si_code: bytes::le32(info->0, 8) as i32,
                value: bytes::le64(info->0, 24),
            },
        )
    }
}

fn queue(target: Pid, sig: u64, info: Option<Vec<u8>>, euid: u32) -> (r: Result<Queued, i64>)
    requires
        info is Some ==> info->0@.len() == 128,
    ensures
        r == queue_request(target, sig, util::bytes_view(info), euid),
{
    let b = match info {
        Some(b) => b,
        None => {
            return Err(errno::EFAULT);
        },
    };
    let si_code: i32 = bytes::u32_at(&b, 8) as i32;
    if si_code >= 0 && euid != 0 {
        return Err(errno::EPERM);
    }
    Ok(Queued { target, sig: sig as u32, si_code, value: bytes::u64_at(&b, 24) })
}

/// `rt_sigqueueinfo`: `nsig` is one more than the last signal.
pub fn sys_rt_sigqueueinfo(
    target: Option<Pid>,
    sig: u64,
    info: Option<Vec<u8>>,
    euid: u32,
    nsig: u64,
) -> (r: Result<Queued, i64>)
    requires
        info is Some ==> info->0@.len() == 128,
    ensures
        r == (if sig >= nsig {
            Err(errno::EINVAL)
        } else if target is None {
            Err(errno::ESRCH)
        } else {
            queue_request(target->0, sig, util::bytes_view(info), euid)
        }),
{
    if sig >= nsig {
        return Err(errno::EINVAL);
    }
    match target {
        None => Err(errno::ESRCH),
        Some(p) => queue(p, sig, info, euid),
    }
}

/// `rt_tgsigqueueinfo`: the thread has to be one of the process. `actual` is the process that
/// the thread is of.
pub fn sys_rt_tgsigqueueinfo(
    tgid: Option<Pid>,
    tid: Option<Pid>,
    actual: Option<Pid>,
    sig: u64,
    info: Option<Vec<u8>>,
    euid: u32,
    nsig: u64,
) -> (r: Result<Queued, i64>)
    requires
        info is Some ==> info->0@.len() == 128,
    ensures
        r == (if sig >= nsig {
            Err(errno::EINVAL)
        } else if tid is None || tgid is None || actual != tgid {
            Err(errno::ESRCH)
        } else {
            queue_request(tid->0, sig, util::bytes_view(info), euid)
        }),
{
    if sig >= nsig {
        return Err(errno::EINVAL);
    }
    let thread = match tid {
        Some(p) => p,
        None => {
            return Err(errno::ESRCH);
        },
    };
    let process = match tgid {
        Some(p) => p,
        None => {
            return Err(errno::ESRCH);
        },
    };
    let of = match actual {
        Some(p) => p,
        None => {
            return Err(errno::ESRCH);
        },
    };
    if of.0 != process.0 {
        return Err(errno::ESRCH);
    }
    queue(thread, sig, info, euid)
}

/// The answer once a queued signal was sent: a full queue is told, all else is nobody there.
pub fn queued_reply(sent: Result<(), i64>) -> (code: i64)
    ensures
        code == match sent {
            Ok(_) => 0,
            Err(e) => if e == errno::EAGAIN {
                errno::EAGAIN
            } else {
                errno::ESRCH
            },
        },
{
    match sent {
        Ok(_) => 0,
        Err(e) => if e == errno::EAGAIN {
            errno::EAGAIN
        } else {
            errno::ESRCH
        },
    }
}

/// The process that a descriptor was opened for gets what is sent to the descriptor.
pub proof fn law_pidfd_reaches_its_process(index: Map<u64, Pid>, inode: u64, target: Pid)
    ensures
        index.insert(inode, target).contains_key(inode),
        index.insert(inode, target)[inode] == target,
{
}

} // verus!
