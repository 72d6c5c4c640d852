//! Descriptors that stand for events: epoll, signalfd, eventfd and timerfd.
use super::posix_timer;
use super::reply;
use super::reply::Reply;
use super::signal;
use super::time;
use super::util;
use crate::bytes;
use crate::errno;
use crate::vfs;
use crate::vfs::fd;
use crate::vfs::fd::FdTable;
use vstd::prelude::*;

verus! {

/// The flag by which a new descriptor is closed on exec.
pub const CLOEXEC: u64 = 0o2_000_000;

/// The flag by which a new descriptor does not wait.
pub const NONBLOCK: u64 = 0o4000;

pub open spec fn cloexec_flag(flags: u64) -> u8 {
    if flags & CLOEXEC != 0 {
        fd::FD_CLOEXEC
    } else {
        0
    }
}

/// What a code says of the descriptor that a call installed.
pub open spec fn new_fd(before: FdTable, after: FdTable, file: u64, fd_flags: u8, code: i64) -> bool {
    if code >= 0 {
        code <= i32::MAX && fd::installed(
            before,
            after,
            file,
            0,
            fd_flags,
            Ok::<i32, i32>(code as i32),
        )
    } else {
        code >= i32::MIN && fd::installed(
            before,
            after,
            file,
            0,
            fd_flags,
            Err::<i32, i32>(code as i32),
        )
    }
}

/// Installs the lowest descriptor that is free; the answer is the descriptor, or why there is
/// none.
pub fn install_lowest(table: &mut FdTable, file: u64, cloexec: bool) -> (code: i64)
    requires
        old(table).wf(),
    ensures
        final(table).wf(),
        new_fd(
            *old(table),
            *final(table),
            file,
            if cloexec {
                fd::FD_CLOEXEC
            } else {
                0
            },
            code,
        ),
{
    let fd_flags: u8 = if cloexec {
        fd::FD_CLOEXEC
    } else {
        0
    };
    match table.install_from(file, 0, fd_flags) {
        Ok(n) => {
            assert(n >= 0);
            n as i64
        },
        Err(e) => {
            assert(e < 0);
            e as i64
        },
    }
}

/// The flags of an open file.
pub open spec fn open_flags(mode: u32, flags: u64) -> u32 {
    if flags & NONBLOCK != 0 {
        mode | vfs::O_NONBLOCK
    } else {
        mode
    }
}

fn flags_for(mode: u32, flags: u64) -> (r: u32)
    ensures
        r == open_flags(mode, flags),
{
    if flags & NONBLOCK != 0 {
        mode | vfs::O_NONBLOCK
    } else {
        mode
    }
}

/// `epoll_create1`, for the new instance behind `file`.
pub fn sys_epoll_create1(table: &mut FdTable, file: u64, flags: u64) -> (code: i64)
    requires
        old(table).wf(),
    ensures
        final(table).wf(),
        new_fd(*old(table), *final(table), file, cloexec_flag(flags), code),
{
    install_lowest(table, file, flags & CLOEXEC != 0)
}

pub const EPOLL_CTL_ADD: u64 = 1;

pub const EPOLL_CTL_DEL: u64 = 2;

pub const EPOLL_CTL_MOD: u64 = 3;

/// What is asked of an epoll instance.
#[derive(Clone, Copy, PartialEq, Eq, Structural, Debug)]
pub enum EpollCtl {
    Reply(i64),
    Delete { fd: i32 },
    Insert { fd: i32, events: u32, data: u64 },
    Modify { fd: i32, events: u32, data: u64 },
}

/// `epoll_ctl`: `is_epoll` says whether the descriptor is one of an instance.
pub fn sys_epoll_ctl(is_epoll: bool, op: u64, target: u64, ev: Option<Vec<u8>>) -> (r: EpollCtl)
    requires
        ev is Some ==> ev->0@.len() == 12,
    ensures
        ({
            let n = target as i32;
            r == (if !is_epoll {
                EpollCtl::Reply(errno::EBADF)
            } else if op == EPOLL_CTL_DEL {
                EpollCtl::Delete { fd: n }
            } else if ev is None {
                EpollCtl::Reply(errno::EFAULT)
            } else {
                let events = bytes::le32(ev->0@, 0);
                let data = bytes::le64(ev->0@, 4);
                if op == EPOLL_CTL_ADD {
                    EpollCtl::Insert { fd: n, events, data }
                } else if op == EPOLL_CTL_MOD {
                    EpollCtl::Modify { fd: n, events, data }
                } else {
                    EpollCtl::Reply(errno::EINVAL)
                }
            })
        }),
{
    if !is_epoll {
        return EpollCtl::Reply(errno::EBADF);
    }
    let n: i32 = target as i32;
    if op == EPOLL_CTL_DEL {
        return EpollCtl::Delete { fd: n };
    }
    let b = match ev {
        Some(b) => b,
        None => {
            return EpollCtl::Reply(errno::EFAULT);
        },
    };
    let events: u32 = bytes::u32_at(&b, 0);
    let data: u64 = bytes::u64_at(&b, 4);
    match op {
        EPOLL_CTL_ADD => EpollCtl::Insert { fd: n, events, data },
        EPOLL_CTL_MOD => EpollCtl::Modify { fd: n, events, data },
        _ => EpollCtl::Reply(errno::EINVAL),
    }
}

/// The most events that one call gives.
pub const EPOLL_MAX: u64 = 64;

/// An event, and what its owner gave to know it by.
#[derive(Clone, Copy, PartialEq, Eq, Structural, Debug)]
pub struct EpollEvent {
    pub events: u32,
    pub data: u64,
}

/// How many events are asked of the instance.
pub fn epoll_max(maxevents: u64) -> (r: u64)
    ensures
        r == (if maxevents > EPOLL_MAX {
            EPOLL_MAX
        } else {
            maxevents
        }),
{
    if maxevents > EPOLL_MAX {
        EPOLL_MAX
    } else {
        maxevents
    }
}

pub open spec fn packed_events(ready: Seq<EpollEvent>, n: int) -> Seq<u8>
    decreases n,
{
    if n <= 0 {
        Seq::empty()
    } else {
        packed_events(ready, n - 1) + bytes::put32(ready[n - 1].events) + bytes::put64(
            ready[n - 1].data,
        )
    }
}

/// `epoll_wait`, once the wait is over.
pub fn epoll_wait_common(events_ptr: u64, ready: Result<Vec<EpollEvent>, i64>) -> (r: Reply)
    ensures
        r@ == match ready {
            Err(e) => reply::plain(e),
            Ok(v) => if v@.len() == 0 {
                reply::plain(0)
            } else {
                reply::with_bytes(
                    v@.len() as i64,
                    events_ptr,
                    packed_events(v@, v@.len() as int),
                )
            },
        },
{
    let v = match ready {
        Ok(v) => v,
        Err(e) => {
            return Reply::plain(e);
        },
    };
    if v.len() == 0 {
        return Reply::plain(0);
    }
    let mut b: Vec<u8> = Vec::new();
    let mut i: usize = 0;
    while i < v.len()
        invariant
            i <= v@.len(),
            b@ == packed_events(v@, i as int),
        decreases v.len() - i,
    {
        bytes::push_u32(&mut b, v[i].events);
        bytes::push_u64(&mut b, v[i].data);
        i += 1;
    }
    Reply::with_bytes(v.len() as i64, events_ptr, b)
}

/// Nanoseconds as whole milliseconds, rounded up, at most as many as can be told.
pub open spec fn millis_up(ns: u64) -> i32 {
    let ms = (ns + 999_999) / 1_000_000;
    if ms > i32::MAX {
        i32::MAX
    } else {
        ms as i32
    }
}

/// How long `epoll_pwait2` waits: for ever without a time.
pub open spec fn epoll_time(timespec_ptr: u64, read: Option<Seq<u8>>) -> Result<i32, i64> {
    if timespec_ptr == 0 {
        Ok(-1i32)
    } else {
        match read {
            None => Err(errno::EFAULT),
            Some(b) => Ok(millis_up(util::nanos_of(bytes::le64(b, 0), bytes::le64(b, 8)))),
        }
    }
}

/// How long `epoll_pwait2` waits.
pub fn epoll_timeout(timespec_ptr: u64, buf: Option<Vec<u8>>) -> (r: Result<i32, i64>)
    requires
        buf is Some ==> buf->0@.len() == 16,
    ensures
        r == epoll_time(timespec_ptr, util::bytes_view(buf)),
{
    if timespec_ptr == 0 {
        return Ok(-1);
    }
    match buf {
        None => Err(errno::EFAULT),
        Some(b) => {
            let ns: u64 = util::total_nanos(bytes::u64_at(&b, 0), bytes::u64_at(&b, 8));
            let ms: u64 = if ns % 1_000_000 == 0 {
                ns / 1_000_000
            } else {
                ns / 1_000_000 + 1
            };
            if ms > i32::MAX as u64 {
                Ok(i32::MAX)
            } else {
                Ok(ms as i32)
            }
        },
    }
}

/// What `signalfd4` does.
#[derive(Clone, Copy, PartialEq, Eq, Structural, Debug)]
pub enum SignalFd {
    Reply(i64),
    /// A descriptor that is there gets the mask, and is the answer.
    Change { fd: i32, mask: u64 },
    /// A new descriptor is installed.
    Create { mask: u64, flags: u32, cloexec: bool },
}

/// What a descriptor is, as far as one kind of descriptor goes.
#[derive(Clone, Copy, PartialEq, Eq, Structural, Debug)]
pub enum Found {
    NotOpen,
    Other,
    Matching,
}

/// `signalfd4`: some signals are never told of this way.
pub fn sys_signalfd4(
    target: u64,
    sigsetsize: u64,
    flags: u64,
    mask: Option<Vec<u8>>,
    found: Found,
) -> (r: SignalFd)
    requires
        mask is Some ==> mask->0@.len() == 8,
    ensures
        ({
            let m = bytes::le64(mask->0@, 0) & !signal::UNBLOCKABLE;
            r == (if sigsetsize != 8 || flags & !(NONBLOCK | CLOEXEC) != 0 {
                SignalFd::Reply(errno::EINVAL)
            } else if mask is None {
                SignalFd::Reply(errno::EFAULT)
            } else if target as i32 != -1 {
                match found {
                    Found::NotOpen => SignalFd::Reply(errno::EBADF),
                    Found::Other => SignalFd::Reply(errno::EINVAL),
                    Found::Matching => SignalFd::Change { fd: target as i32, mask: m },
                }
            } else {
                SignalFd::Create {
                    mask: m,
                    flags: open_flags(0, flags),
                    cloexec: flags & CLOEXEC != 0,
                }
            })
        }),
{
    if sigsetsize != 8 {
        return SignalFd::Reply(errno::EINVAL);
    }
    if (flags & !(NONBLOCK | CLOEXEC)) != 0 {
        return SignalFd::Reply(errno::EINVAL);
    }
    let m: u64 = match mask {
        Some(b) => bytes::u64_at(&b, 0) & !signal::UNBLOCKABLE,
        None => {
            return SignalFd::Reply(errno::EFAULT);
        },
    };
    let n: i32 = target as i32;
    if n != -1 {
        return match found {
            Found::NotOpen => SignalFd::Reply(errno::EBADF),
            Found::Other => SignalFd::Reply(errno::EINVAL),
            Found::Matching => SignalFd::Change { fd: n, mask: m },
        };
    }
    SignalFd::Create { mask: m, flags: flags_for(0, flags), cloexec: (flags & CLOEXEC) != 0 }
}

pub const EFD_SEMAPHORE: u64 = 1;

/// A counter to be made, and the flags of its descriptor.
#[derive(Clone, Copy, PartialEq, Eq, Structural, Debug)]
pub struct EventFd {
    pub initial: u64,
    pub semaphore: bool,
    pub flags: u32,
    pub cloexec: bool,
}

/// `eventfd2`
pub fn sys_eventfd2(initval: u64, flags: u64) -> (r: Result<EventFd, i64>)
    ensures
        r == (if flags & !(EFD_SEMAPHORE | CLOEXEC | NONBLOCK) != 0 {
            Err(errno::EINVAL)
        } else {
            Ok::<EventFd, i64>(
                EventFd {
                    initial: initval,
                    semaphore: flags & EFD_SEMAPHORE != 0,
                    flags: open_flags(vfs::O_RDWR, flags),
                    cloexec: flags & CLOEXEC != 0,
                },
            )
        }),
{
    if (flags & !(EFD_SEMAPHORE | CLOEXEC | NONBLOCK)) != 0 {
        return Err(errno::EINVAL);
    }
    Ok(
        EventFd {
            initial: initval,
            semaphore: (flags & EFD_SEMAPHORE) != 0,
            flags: flags_for(vfs::O_RDWR, flags),
            cloexec: (flags & CLOEXEC) != 0,
        },
    )
}

/// A timer to be made, and the flags of its descriptor.
#[derive(Clone, Copy, PartialEq, Eq, Structural, Debug)]
pub struct TimerFd {
    pub clockid: u32,
    pub flags: u32,
    pub cloexec: bool,
}

/// `timerfd_create`
pub fn sys_timerfd_create(clockid: u64, flags: u64) -> (r: Result<TimerFd, i64>)
    ensures
        r == (if flags & !(NONBLOCK | CLOEXEC) != 0 || clockid > time::CLOCK_BOOTTIME {
            Err(errno::EINVAL)
        } else {
            Ok::<TimerFd, i64>(
                TimerFd {
                    clockid: clockid as u32,
                    flags: open_flags(0, flags),
                    cloexec: flags & CLOEXEC != 0,
                },
            )
        }),
{
    if (flags & !(NONBLOCK | CLOEXEC)) != 0 {
        return Err(errno::EINVAL);
    }
    if clockid > time::CLOCK_BOOTTIME {
        return Err(errno::EINVAL);
    }
    Ok(
        TimerFd {
            clockid: clockid as u32,
            flags: flags_for(0, flags),
            cloexec: (flags & CLOEXEC) != 0,
        },
    )
}

pub open spec fn not_below_zero(x: u64) -> u64 {
    if (x as i64) < 0 {
        0
    } else {
        x
    }
}

fn cut_below_zero(x: u64) -> (r: u64)
    ensures
        r == not_below_zero(x),
{
    if (x as i64) < 0 {
        0
    } else {
        x
    }
}

/// The interval and the time that bytes name; numbers below zero count as none.
pub open spec fn lenient_itimerspec(buf: Seq<u8>) -> (u64, u64) {
    (
        util::nanos_of(
            not_below_zero(bytes::le64(buf, 0)),
            not_below_zero(bytes::le64(buf, 8)),
        ),
        util::nanos_of(
            not_below_zero(bytes::le64(buf, 16)),
            not_below_zero(bytes::le64(buf, 24)),
        ),
    )
}

/// Reads an interval and a time.
pub fn read_itimerspec(buf: &Vec<u8>) -> (r: (u64, u64))
    requires
        buf@.len() == 32,
    ensures
        r == lenient_itimerspec(buf@),
{
    (
        util::total_nanos(
            cut_below_zero(bytes::u64_at(buf, 0)),
            cut_below_zero(bytes::u64_at(buf, 8)),
        ),
        util::total_nanos(
            cut_below_zero(bytes::u64_at(buf, 16)),
            cut_below_zero(bytes::u64_at(buf, 24)),
        ),
    )
}

/// A timer behind a descriptor.
#[derive(Clone, Copy, PartialEq, Eq, Structural, Debug)]
pub struct TimerState {
    pub clockid: u32,
    pub deadline: u64,
    pub interval: u64,
}

/// When a timer is due: never, after a while, or at a time of its clock.
pub open spec fn timerfd_deadline(
    clockid: u32,
    flags: u64,
    value: u64,
    monotonic: u64,
    wall: u64,
) -> u64 {
    let by_day = clockid == time::CLOCK_REALTIME || clockid == time::CLOCK_REALTIME_COARSE;
    if value == 0 {
        0
    } else if flags & time::TIMER_ABSTIME != 0 {
        if by_day {
            util::later(monotonic, time::remaining(value, time::day_time(wall, monotonic)))
        } else {
            value
        }
    } else {
        util::later(monotonic, value)
    }
}

/// An answer that goes out first, and what the timer is then set to, if it went out: when it
/// is due, and its interval.
pub struct ArmTimer {
    pub reply: Reply,
    pub arm: Option<(u64, u64)>,
}

/// `timerfd_settime`, for the timer behind the descriptor, where there is one.
pub fn sys_timerfd_settime(
    timer: Option<TimerState>,
    flags: u64,
    buf: Option<Vec<u8>>,
    old_value: u64,
    monotonic: u64,
    wall: u64,
) -> (r: ArmTimer)
    requires
        buf is Some ==> buf->0@.len() == 32,
    ensures
        ({
            let t = timer->0;
            let (interval, value) = lenient_itimerspec(buf->0@);
            if timer is None {
                r.reply@ == reply::plain(errno::EBADF) && r.arm is None
            } else if buf is None {
                r.reply@ == reply::plain(errno::EFAULT) && r.arm is None
            } else {
                &&& r.reply@ == reply::where_wanted(
                    reply::plain(0),
                    old_value,
                    posix_timer::packed_itimerspec(
                        t.interval,
                        time::remaining(t.deadline, monotonic),
                    ),
                )
                &&& r.arm == Some(
                    (timerfd_deadline(t.clockid, flags, value, monotonic, wall), interval),
                )
            }
        }),
{
    let t = match timer {
        Some(t) => t,
        None => {
            return ArmTimer { reply: Reply::plain(errno::EBADF), arm: None };
        },
    };
    let b = match buf {
        Some(b) => b,
        None => {
            return ArmTimer { reply: Reply::plain(errno::EFAULT), arm: None };
        },
    };
    let (interval, value) = read_itimerspec(&b);
    let by_day = t.clockid as u64 == time::CLOCK_REALTIME || t.clockid as u64
        == time::CLOCK_REALTIME_COARSE;
    let deadline: u64 = if value == 0 {
        0
    } else if (flags & time::TIMER_ABSTIME) != 0 {
        if by_day {
            let day: u64 = if wall != 0 {
                wall
            } else {
                monotonic
            };
            monotonic.saturating_add(value.saturating_sub(day))
        } else {
            value
        }
    } else {
        monotonic.saturating_add(value)
    };
    let mut reply = Reply::plain(0);
    reply.hand_over(
        old_value,
        posix_timer::write_itimerspec(t.interval, t.deadline.saturating_sub(monotonic)),
    );
    ArmTimer { reply, arm: Some((deadline, interval)) }
}

/// `timerfd_gettime`
pub fn sys_timerfd_gettime(timer: Option<TimerState>, curr_value: u64, monotonic: u64) -> (r: Reply)
    ensures
        r@ == (if timer is None {
            reply::plain(errno::EBADF)
        } else {
            reply::with_bytes(
                0,
                curr_value,
                posix_timer::packed_itimerspec(
                    timer->0.interval,
                    time::remaining(timer->0.deadline, monotonic),
                ),
            )
        }),
{
    match timer {
        None => Reply::plain(errno::EBADF),
        Some(t) => Reply::with_bytes(
            0,
            curr_value,
            posix_timer::write_itimerspec(t.interval, t.deadline.saturating_sub(monotonic)),
        ),
    }
}

} // verus!
