//! The timers that a process makes itself.
use std::collections::BTreeMap;

use super::reply;
use super::reply::Reply;
use super::time;
use super::time::{recall, TimerCallback, TIMER_ABSTIME};
use super::util;
use super::util::NANOS;
use crate::bytes;
use crate::errno;
use crate::keys;
use crate::keys::keys_of;
use crate::process_model::Pid;
use crate::timeout;
use crate::timeout::{CallbackDeadlines, CallbackEntry};
use vstd::prelude::*;

verus! {

pub const POSIX_TIMER_TAG: u64 = 1u64 << 62;

pub const SIGEV_SIGNAL: i32 = 0;

pub const SIGEV_NONE: i32 = 1;

pub const SIGEV_THREAD: i32 = 2;

pub const SIGEV_THREAD_ID: i32 = 4;

/// A timer. It is due at `deadline_ns`, or off where that is none.
#[derive(Clone, Copy, PartialEq, Eq, Structural, Debug)]
pub struct PosixTimer {
    pub clockid: u64,
    pub sigev_notify: i32,
    pub sigev_signo: u32,
    pub sigev_value: u64,
    pub sigev_thread_id: u32,
    pub deadline_ns: u64,
    pub interval_ns: u64,
    pub overrun_last: i32,
}

/// The timers of a process by their numbers.
pub struct Timers {
    pub by_id: BTreeMap<u64, PosixTimer>,
}

impl Timers {
    /// No timers.
    pub fn new() -> (timers: Timers)
        ensures
            timers.by_id@ == Map::<u64, PosixTimer>::empty(),
    {
        Timers { by_id: BTreeMap::new() }
    }
}

/// The place of a number.
pub open spec fn slot(id: i32) -> u64 {
    (id as u32) as u64
}

fn slot_of(id: i32) -> (k: u64)
    ensures
        k == slot(id),
{
    (id as u32) as u64
}

/// The key of a timer: its number and its owner.
pub open spec fn key_of(pid: u32, id: i32) -> u64 {
    POSIX_TIMER_TAG | (((id as u32) as u64) << 32) | pid as u64
}

pub fn timer_key(pid: Pid, timer_id: i32) -> (key: u64)
    ensures
        key == key_of(pid.0, timer_id),
{
    POSIX_TIMER_TAG | (((timer_id as u32) as u64) << 32) | pid.0 as u64
}

pub open spec fn pid_in(key: u64) -> u32 {
    (key & 0xffff_ffff) as u32
}

pub open spec fn id_in(key: u64) -> i32 {
    ((key >> 32) & 0x3fff_ffff) as i32
}

/// The owner that a key is of.
pub fn key_pid(key: u64) -> (pid: Pid)
    ensures
        pid.0 == pid_in(key),
{
    Pid((key & 0xffff_ffff) as u32)
}

/// The number that a key is of.
pub fn key_timer_id(key: u64) -> (id: i32)
    ensures
        id == id_in(key),
{
    ((key >> 32) & 0x3fff_ffff) as i32
}

/// A key tells the owner and the number of its timer, and is no key of a process's own timer.
pub proof fn law_key_is_reversible(pid: u32, id: i32, other: u32)
    requires
        0 <= id < 0x4000_0000,
    ensures
        pid_in(key_of(pid, id)) == pid,
        id_in(key_of(pid, id)) == id,
        key_of(pid, id) != time::itimer_key(other),
{
    let n = id as u32;
    let k = key_of(pid, id);
    assert(k == POSIX_TIMER_TAG | ((n as u64) << 32) | pid as u64);
    assert((((POSIX_TIMER_TAG | ((n as u64) << 32) | pid as u64) & 0xffff_ffff) as u32) == pid)
        by (bit_vector);
    assert((((POSIX_TIMER_TAG | ((n as u64) << 32) | pid as u64) >> 32) & 0x3fff_ffff) == n as u64)
        by (bit_vector)
        requires
            n < 0x4000_0000,
    ;
    assert((POSIX_TIMER_TAG | ((n as u64) << 32) | pid as u64) != (other as u64 | (1u64 << 63)))
        by (bit_vector)
        requires
            n < 0x4000_0000,
    ;
}

/// What a timer's clock shows.
pub open spec fn clock_time(clockid: u64, monotonic: u64, wall: u64) -> u64 {
    if clockid == time::CLOCK_REALTIME {
        time::day_time(wall, monotonic)
    } else {
        monotonic
    }
}

pub fn clock_now(clockid: u64, monotonic: u64, wall: u64) -> (r: u64)
    ensures
        r == clock_time(clockid, monotonic, wall),
{
    if clockid == time::CLOCK_REALTIME && wall != 0 {
        wall
    } else {
        monotonic
    }
}

pub open spec fn is_supported(clockid: u64) -> bool {
    clockid == time::CLOCK_REALTIME || clockid == time::CLOCK_MONOTONIC || clockid
        == time::CLOCK_MONOTONIC_RAW || clockid == time::CLOCK_BOOTTIME
}

/// Whether timers can go by a clock.
pub fn supported_clock(clockid: u64) -> (r: bool)
    ensures
        r == is_supported(clockid),
{
    clockid == time::CLOCK_REALTIME || clockid == time::CLOCK_MONOTONIC || clockid
        == time::CLOCK_MONOTONIC_RAW || clockid == time::CLOCK_BOOTTIME
}

/// The interval and the time that bytes name.
pub open spec fn itimerspec_in(buf: Seq<u8>) -> Result<(u64, u64), i64> {
    let isec = bytes::le64(buf, 0) as i64;
    let insec = bytes::le64(buf, 8) as i64;
    let vsec = bytes::le64(buf, 16) as i64;
    let vnsec = bytes::le64(buf, 24) as i64;
    if !(0 <= insec < NANOS) || !(0 <= vnsec < NANOS) || isec < 0 || vsec < 0 {
        Err(errno::EINVAL)
    } else {
        Ok(
            (
                util::nanos_of(isec as u64, insec as u64),
                util::nanos_of(vsec as u64, vnsec as u64),
            ),
        )
    }
}

/// Reads an interval and a time.
pub fn read_itimerspec(buf: Option<Vec<u8>>) -> (r: Result<(u64, u64), i64>)
    requires
        buf is Some ==> buf->0@.len() == 32,
    ensures
        r == (if buf is None {
            Err(errno::EFAULT)
        } else {
            itimerspec_in(buf->0@)
        }),
{
    let b = match buf {
        Some(b) => b,
        None => {
            return Err(errno::EFAULT);
        },
    };
    let isec: i64 = bytes::u64_at(&b, 0) as i64;
    let insec: i64 = bytes::u64_at(&b, 8) as i64;
    let vsec: i64 = bytes::u64_at(&b, 16) as i64;
    let vnsec: i64 = bytes::u64_at(&b, 24) as i64;
    if insec < 0 || insec >= NANOS as i64 || vnsec < 0 || vnsec >= NANOS as i64 {
        return Err(errno::EINVAL);
    }
    if isec < 0 || vsec < 0 {
        return Err(errno::EINVAL);
    }
    Ok(
        (
            util::total_nanos(isec as u64, insec as u64),
            util::total_nanos(vsec as u64, vnsec as u64),
        ),
    )
}

pub open spec fn packed_itimerspec(interval: u64, left: u64) -> Seq<u8> {
    time::packed_nanos(interval) + time::packed_nanos(left)
}

/// An interval and a time for the caller.
pub fn write_itimerspec(interval_ns: u64, remaining_ns: u64) -> (b: Vec<u8>)
    ensures
        b@ == packed_itimerspec(interval_ns, remaining_ns),
        b@.len() == 32,
{
    let mut b: Vec<u8> = Vec::new();
    bytes::push_u64(&mut b, interval_ns / NANOS);
    assert(b@ =~= bytes::put64(interval_ns / NANOS));
    bytes::push_u64(&mut b, interval_ns % NANOS);
    bytes::push_u64(&mut b, remaining_ns / NANOS);
    bytes::push_u64(&mut b, remaining_ns % NANOS);
    assert(b@ =~= packed_itimerspec(interval_ns, remaining_ns));
    b
}

/// How many times a timer was due until `now`, when it is looked at: once at least.
pub open spec fn times_due(deadline: u64, interval: u64, now: u64) -> int {
    if deadline + interval > now {
        1
    } else {
        (now - deadline) / interval as int + 1
    }
}

/// A timer after it was due: it is due again at the first of its times after `now`, or is off
/// where it has no interval.
pub open spec fn fired(t: PosixTimer, now: u64) -> PosixTimer {
    let n = times_due(t.deadline_ns, t.interval_ns, now);
    if t.interval_ns == 0 {
        PosixTimer { deadline_ns: 0, overrun_last: 0, ..t }
    } else {
        PosixTimer {
            deadline_ns: if t.deadline_ns + n * t.interval_ns > u64::MAX {
                u64::MAX
            } else {
                (t.deadline_ns + n * t.interval_ns) as u64
            },
            overrun_last: if n - 1 > i32::MAX {
                i32::MAX
            } else {
                (n - 1) as i32
            },
            ..t
        }
    }
}

proof fn lemma_times_due(deadline: int, interval: int, now: int, n: int)
    requires
        interval > 0,
        n >= 1,
        deadline + n * interval > now,
        n == 1 || deadline + (n - 1) * interval <= now,
        n > 1 ==> deadline + interval <= now,
    ensures
        n == (if deadline + interval > now {
            1
        } else {
            (now - deadline) / interval + 1
        }),
{
    if deadline + interval <= now {
        let d = now - deadline;
        let r = d - (n - 1) * interval;
        assert(n * interval == (n - 1) * interval + interval) by (nonlinear_arith);
        assert(n > 1) by {
            assert(1 * interval == interval);
        }
        vstd::arithmetic::div_mod::lemma_fundamental_div_mod_converse(d, interval, n - 1, r);
    }
}

fn next_due(deadline: u64, interval: u64, now: u64) -> (r: (u64, u64))
    requires
        interval > 0,
        now < u64::MAX,
    ensures
        r.1 == times_due(deadline, interval, now),
        r.0 == if deadline + r.1 * interval > u64::MAX {
            u64::MAX as int
        } else {
            deadline + r.1 * interval
        },
{
    let mut next: u64 = deadline.saturating_add(interval);
    let mut n: u64 = 1;
    assert(1 * interval == interval);
    while next <= now
        invariant
            interval > 0,
            now < u64::MAX,
            n >= 1,
            next == if deadline + n * interval > u64::MAX {
                u64::MAX as int
            } else {
                deadline + n * interval
            },
            n == 1 || deadline + (n - 1) * interval <= now,
            n > 1 ==> deadline + interval <= now,
            n <= now + 1,
        decreases
                (if next <= now {
                    now + 1 - next
                } else {
                    0
                }),
    {
        assert((n + 1) * interval == n * interval + interval) by (nonlinear_arith);
        assert(n * interval >= n) by (nonlinear_arith)
            requires
                interval > 0,
        ;
        assert(n * interval >= interval) by (nonlinear_arith)
            requires
                n >= 1,
                interval > 0,
        ;
        next = next.saturating_add(interval);
        n += 1;
    }
    proof {
        lemma_times_due(deadline as int, interval as int, now as int, n as int);
    }
    (next, n)
}

/// A signal for a timer that was due.
#[derive(Clone, Copy, PartialEq, Eq, Structural, Debug)]
pub struct TimerSignal {
    pub target: Pid,
    pub signo: u32,
    pub timer_id: i32,
    pub overrun: i32,
    pub value: u64,
}

pub open spec fn timer_signal(t: PosixTimer, id: i32, owner: Pid, now: u64) -> Option<TimerSignal> {
    if t.sigev_notify == SIGEV_SIGNAL || t.sigev_notify == SIGEV_THREAD_ID {
        Some(
            TimerSignal {
                target: if t.sigev_notify == SIGEV_THREAD_ID {
                    Pid(t.sigev_thread_id)
                } else {
                    owner
                },
                signo: t.sigev_signo,
                timer_id: id,
                overrun: fired(t, now).overrun_last,
                value: t.sigev_value,
            },
        )
    } else {
        None
    }
}

/// What becomes of the timer under a key when it is due: who is told, and when it is due
/// again. `owner` is the process of the one that made the timer. A timer that is gone or off
/// is passed over.
pub fn timer_fire(
    timers: &mut Timers,
    callbacks: &mut CallbackDeadlines<TimerCallback>,
    key: u64,
    owner: Pid,
    now: u64,
) -> (r: Option<TimerSignal>)
    requires
        old(callbacks).wf(),
        ({
            let timers = old(timers).by_id@;
            let k = slot(id_in(key));
            timers.contains_key(k) && timers[k].deadline_ns != 0 && timers[k].interval_ns != 0 ==> now
                < u64::MAX
        }),
    ensures
        final(callbacks).wf(),
        ({
            let id = id_in(key);
            let old_map = old(timers).by_id@;
            let t = old_map[slot(id)];
            if old_map.contains_key(slot(id)) && t.deadline_ns != 0 {
                &&& final(timers).by_id@ == old_map.insert(slot(id), fired(t, now))
                &&& r == timer_signal(t, id, owner, now)
                &&& if fired(t, now).deadline_ns != 0 {
                    time::recalled(
                        old(callbacks)@,
                        final(callbacks)@,
                        key,
                        fired(t, now).deadline_ns,
                        TimerCallback::PosixTimer,
                    )
                } else {
                    final(callbacks)@ == old(callbacks)@
                }
            } else {
                &&& final(timers).by_id@ == old_map
                &&& r is None
                &&& final(callbacks)@ == old(callbacks)@
            }
        }),
{
    let id: i32 = key_timer_id(key);
    let k: u64 = slot_of(id);
    let mut t = match timers.by_id.get(&k) {
        Some(t) => *t,
        None => {
            return None;
        },
    };
    if t.deadline_ns == 0 {
        return None;
    }
    let ghost before = t;
    if t.interval_ns != 0 {
        let (next, n) = next_due(t.deadline_ns, t.interval_ns, now);
        t.deadline_ns = next;
        let over: u64 = n - 1;
        t.overrun_last = if over > i32::MAX as u64 {
            i32::MAX
        } else {
            over as i32
        };
    } else {
        t.deadline_ns = 0;
        t.overrun_last = 0;
    }
    assert(t == fired(before, now));
    timers.by_id.insert(k, t);
    if t.deadline_ns != 0 {
        timeout::register_callback(callbacks, t.deadline_ns, key, TimerCallback::PosixTimer);
    }
    if t.sigev_notify == SIGEV_SIGNAL || t.sigev_notify == SIGEV_THREAD_ID {
        let target = if t.sigev_notify == SIGEV_THREAD_ID {
            Pid(t.sigev_thread_id)
        } else {
            owner
        };
        return Some(
            TimerSignal {
                target,
                signo: t.sigev_signo,
                timer_id: id,
                overrun: t.overrun_last,
                value: t.sigev_value,
            },
        );
    }
    None
}

/// A timer that is due again is due later than now.
pub proof fn law_timer_is_due_later(t: PosixTimer, now: u64)
    requires
        t.deadline_ns != 0,
        t.interval_ns != 0,
        now < u64::MAX,
    ensures
        fired(t, now).deadline_ns > now,
{
    let d = t.deadline_ns as int;
    let i = t.interval_ns as int;
    if d + i <= now {
        let q = (now - d) / i;
        assert((q + 1) * i > now - d) by {
            vstd::arithmetic::div_mod::lemma_fundamental_div_mod(now - d, i);
            vstd::arithmetic::div_mod::lemma_mod_bound(now - d, i);
            assert((q + 1) * i == i * q + i) by (nonlinear_arith);
        }
    } else {
        assert(1 * i == i);
    }
}

/// The timer that `timer_create` makes, or what is wrong. `thread_known` says whether the
/// thread that is to be told is there; `nsig` is one more than the last signal.
pub open spec fn create_request(
    clockid: u64,
    sevp: u64,
    timer_id_ptr: u64,
    buf: Option<Seq<u8>>,
    thread_known: bool,
    nsig: u64,
) -> Result<PosixTimer, i64> {
    let plain = PosixTimer {
        clockid,
        sigev_notify: SIGEV_SIGNAL,
        sigev_signo: time::SIGALRM,
        sigev_value: 0,
        sigev_thread_id: 0,
        deadline_ns: 0,
        interval_ns: 0,
        overrun_last: 0,
    };
    if !is_supported(clockid) {
        Err(errno::EINVAL)
    } else if timer_id_ptr == 0 {
        Err(errno::EFAULT)
    } else if sevp == 0 {
        Ok(plain)
    } else if buf is None {
        Err(errno::EFAULT)
    } else {
        let value = bytes::le64(buf->0, 0);
        let signo = bytes::le32(buf->0, 8);
        let notify = bytes::le32(buf->0, 12) as i32;
        let thread_id = bytes::le32(buf->0, 16);
        let asked = PosixTimer {
            sigev_signo: signo,
            sigev_value: value,
            sigev_thread_id: thread_id,
            ..plain
        };
        let bad_signal = signo == 0 || signo >= nsig;
        if notify == SIGEV_NONE {
            Ok(PosixTimer { sigev_notify: SIGEV_NONE, ..asked })
        } else if notify == SIGEV_SIGNAL || notify == SIGEV_THREAD {
            if bad_signal {
                Err(errno::EINVAL)
            } else {
                Ok(asked)
            }
        } else if notify == SIGEV_THREAD_ID {
            if bad_signal || !thread_known {
                Err(errno::EINVAL)
            } else {
                Ok(PosixTimer { sigev_notify: SIGEV_THREAD_ID, ..asked })
            }
        } else {
            Err(errno::EINVAL)
        }
    }
}

/// `timer_create`
pub fn sys_timer_create(
    clockid: u64,
    sevp: u64,
    timer_id_ptr: u64,
    buf: Option<Vec<u8>>,
    thread_known: bool,
    nsig: u64,
) -> (r: Result<PosixTimer, i64>)
    requires
        buf is Some ==> buf->0@.len() == 64,
    ensures
        r == create_request(
            clockid,
            sevp,
            timer_id_ptr,
            util::bytes_view(buf),
            thread_known,
            nsig,
        ),
{
    if !supported_clock(clockid) {
        return Err(errno::EINVAL);
    }
    if timer_id_ptr == 0 {
        return Err(errno::EFAULT);
    }
    let mut t = PosixTimer {
        clockid,
        sigev_notify: SIGEV_SIGNAL,
        sigev_signo: time::SIGALRM,
        sigev_value: 0,
        sigev_thread_id: 0,
        deadline_ns: 0,
        interval_ns: 0,
        overrun_last: 0,
    };
    if sevp == 0 {
        return Ok(t);
    }
    let b = match buf {
        Some(b) => b,
        None => {
            return Err(errno::EFAULT);
        },
    };
    t.sigev_value = bytes::u64_at(&b, 0);
    t.sigev_signo = bytes::u32_at(&b, 8);
    t.sigev_thread_id = bytes::u32_at(&b, 16);
    let bad_signal = t.sigev_signo == 0 || t.sigev_signo as u64 >= nsig;
    match bytes::u32_at(&b, 12) as i32 {
        SIGEV_NONE => {
            t.sigev_notify = SIGEV_NONE;
        },
        SIGEV_SIGNAL | SIGEV_THREAD => {
            if bad_signal {
                return Err(errno::EINVAL);
            }
        },
        SIGEV_THREAD_ID => {
            if bad_signal || !thread_known {
                return Err(errno::EINVAL);
            }
            t.sigev_notify = SIGEV_THREAD_ID;
        },
        _ => {
            return Err(errno::EINVAL);
        },
    }
    Ok(t)
}

/// Enters a new timer under its number.
pub fn enter_timer(timers: &mut Timers, id: i32, timer: PosixTimer)
    ensures
        final(timers).by_id@ == old(timers).by_id@.insert(slot(id), timer),
{
    timers.by_id.insert(slot_of(id), timer);
}

/// `timer_create`, once the timer is entered: a caller that cannot be told its number does
/// not get it.
pub fn timer_created(timers: &mut Timers, id: i32, told: bool) -> (code: i64)
    ensures
        code == (if told {
            0
        } else {
            errno::EFAULT
        }),
        final(timers).by_id@ == (if told {
            old(timers).by_id@
        } else {
            old(timers).by_id@.remove(slot(id))
        }),
{
    if told {
        return 0;
    }
    let _ = timers.by_id.remove(&slot_of(id));
    errno::EFAULT
}

/// How long it is until a timer is due; nothing where it is off.
pub open spec fn left(t: PosixTimer, monotonic: u64) -> u64 {
    time::remaining(t.deadline_ns, monotonic)
}

/// What a timer is set to.
#[derive(Clone, Copy, PartialEq, Eq, Structural, Debug)]
pub struct Setting {
    pub interval_ns: u64,
    pub deadline_ns: u64,
}

/// What a request sets a timer to: off, after a while, or at a time by its clock.
pub open spec fn setting_for(
    t: PosixTimer,
    flags: u64,
    interval: u64,
    value: u64,
    monotonic: u64,
    wall: u64,
) -> Setting {
    let now = clock_time(t.clockid, monotonic, wall);
    if value == 0 {
        Setting { interval_ns: 0, deadline_ns: 0 }
    } else if flags == TIMER_ABSTIME {
        Setting {
            interval_ns: interval,
            deadline_ns: util::later(monotonic, time::remaining(value, now)),
        }
    } else {
        Setting { interval_ns: interval, deadline_ns: util::later(monotonic, value) }
    }
}

/// An answer that goes out first, and a setting that is then made, if it went out.
pub struct SetTime {
    pub reply: Reply,
    pub set: Option<Setting>,
}

/// What is wrong with a request on a timer, if anything, in the order in which it is found.
pub open spec fn settime_error(
    timers: Map<u64, PosixTimer>,
    id: i32,
    flags: u64,
    new_value: u64,
    buf: Option<Seq<u8>>,
) -> Option<i64> {
    if flags > TIMER_ABSTIME {
        Some(errno::EINVAL)
    } else if new_value == 0 || buf is None {
        Some(errno::EFAULT)
    } else if itimerspec_in(buf->0) is Err {
        Some(errno::EINVAL)
    } else if !timers.contains_key(slot(id)) {
        Some(errno::EINVAL)
    } else {
        None
    }
}

/// `timer_settime`
pub fn sys_timer_settime(
    timers: &Timers,
    timer_id: u64,
    flags: u64,
    new_value: u64,
    old_value: u64,
    buf: Option<Vec<u8>>,
    monotonic: u64,
    wall: u64,
) -> (r: SetTime)
    requires
        buf is Some ==> buf->0@.len() == 32,
    ensures
        ({
            let id = timer_id as i32;
            let t = timers.by_id@[slot(id)];
            let view = util::bytes_view(buf);
            match settime_error(timers.by_id@, id, flags, new_value, view) {
                Some(e) => r.reply@ == reply::plain(e) && r.set is None,
                None => {
                    let (interval, value) = itimerspec_in(view->0)->Ok_0;
                    &&& r.reply@ == reply::where_wanted(
                        reply::plain(0),
                        old_value,
                        packed_itimerspec(t.interval_ns, left(t, monotonic)),
                    )
                    &&& r.set == Some(setting_for(t, flags, interval, value, monotonic, wall))
                },
            }
        }),
{
    let id: i32 = timer_id as i32;
    if flags != 0 && flags != TIMER_ABSTIME {
        return SetTime { reply: Reply::plain(errno::EINVAL), set: None };
    }
    if new_value == 0 {
        return SetTime { reply: Reply::plain(errno::EFAULT), set: None };
    }
    let (interval, value) = match read_itimerspec(buf) {
        Ok(v) => v,
        Err(e) => {
            return SetTime { reply: Reply::plain(e), set: None };
        },
    };
    let t = match timers.by_id.get(&slot_of(id)) {
        Some(t) => *t,
        None => {
            return SetTime { reply: Reply::plain(errno::EINVAL), set: None };
        },
    };
    let now: u64 = clock_now(t.clockid, monotonic, wall);
    let mut reply = Reply::plain(0);
    reply.hand_over(
        old_value,
        write_itimerspec(t.interval_ns, t.deadline_ns.saturating_sub(monotonic)),
    );
    let set = if value == 0 {
        Setting { interval_ns: 0, deadline_ns: 0 }
    } else if flags == TIMER_ABSTIME {
        Setting {
            interval_ns: interval,
            deadline_ns: monotonic.saturating_add(value.saturating_sub(now)),
        }
    } else {
        Setting { interval_ns: interval, deadline_ns: monotonic.saturating_add(value) }
    };
    SetTime { reply, set: Some(set) }
}

/// Makes a setting: the timer is called back when it is due, and no longer when it was due
/// before.
pub fn apply_setting(
    timers: &mut Timers,
    callbacks: &mut CallbackDeadlines<TimerCallback>,
    pid: Pid,
    timer_id: i32,
    s: Setting,
)
    requires
        old(callbacks).wf(),
    ensures
        final(callbacks).wf(),
        ({
            let old_map = old(timers).by_id@;
            let t = old_map[slot(timer_id)];
            final(timers).by_id@ == (if old_map.contains_key(slot(timer_id)) {
                old_map.insert(
                    slot(timer_id),
                    PosixTimer {
                        interval_ns: s.interval_ns,
                        deadline_ns: s.deadline_ns,
                        overrun_last: 0,
                        ..t
                    },
                )
            } else {
                old_map
            })
        }),
        time::recalled(
            old(callbacks)@,
            final(callbacks)@,
            key_of(pid.0, timer_id),
            s.deadline_ns,
            TimerCallback::PosixTimer,
        ),
{
    let k: u64 = slot_of(timer_id);
    let found = match timers.by_id.get(&k) {
        Some(t) => Some(*t),
        None => None,
    };
    if let Some(t) = found {
        timers.by_id.insert(
            k,
            PosixTimer {
                interval_ns: s.interval_ns,
                deadline_ns: s.deadline_ns,
                overrun_last: 0,
                ..t
            },
        );
    }
    recall(callbacks, timer_key(pid, timer_id), s.deadline_ns, TimerCallback::PosixTimer);
}

/// `timer_gettime`
pub fn sys_timer_gettime(timers: &Timers, timer_id: u64, curr_value: u64, monotonic: u64) -> (r:
    Reply)
    ensures
        ({
            let k = slot(timer_id as i32);
            let t = timers.by_id@[k];
            r@ == (if curr_value == 0 {
                reply::plain(errno::EFAULT)
            } else if timers.by_id@.contains_key(k) {
                reply::with_bytes(
                    0,
                    curr_value,
                    packed_itimerspec(t.interval_ns, left(t, monotonic)),
                )
            } else {
                reply::plain(errno::EINVAL)
            })
        }),
{
    if curr_value == 0 {
        return Reply::plain(errno::EFAULT);
    }
    match timers.by_id.get(&slot_of(timer_id as i32)) {
        None => Reply::plain(errno::EINVAL),
        Some(t) => Reply::with_bytes(
            0,
            curr_value,
            write_itimerspec(t.interval_ns, t.deadline_ns.saturating_sub(monotonic)),
        ),
    }
}

/// `timer_getoverrun`
pub fn sys_timer_getoverrun(timers: &Timers, timer_id: u64) -> (code: i64)
    ensures
        ({
            let k = slot(timer_id as i32);
            code == (if timers.by_id@.contains_key(k) {
                timers.by_id@[k].overrun_last as i64
            } else {
                errno::EINVAL
            })
        }),
{
    match timers.by_id.get(&slot_of(timer_id as i32)) {
        None => errno::EINVAL,
        Some(t) => t.overrun_last as i64,
    }
}

/// `timer_delete`
pub fn sys_timer_delete(
    timers: &mut Timers,
    callbacks: &mut CallbackDeadlines<TimerCallback>,
    pid: Pid,
    timer_id: u64,
) -> (code: i64)
    requires
        old(callbacks).wf(),
    ensures
        final(callbacks).wf(),
        code == (if old(timers).by_id@.contains_key(slot(timer_id as i32)) {
            0
        } else {
            errno::EINVAL
        }),
        final(timers).by_id@ == old(timers).by_id@.remove(slot(timer_id as i32)),
        final(callbacks)@ == timeout::without_key(
            old(callbacks)@,
            key_of(pid.0, timer_id as i32),
        ),
{
    let id: i32 = timer_id as i32;
    timeout::cancel_callback(callbacks, timer_key(pid, id));
    match timers.by_id.remove(&slot_of(id)) {
        Some(_) => 0,
        None => {
            assert(timers.by_id@ =~= old(timers).by_id@.remove(slot(id)));
            errno::EINVAL
        },
    }
}

/// What is left to be called back without the first `n` of some timers.
pub open spec fn without_timers(
    s: Seq<CallbackEntry<TimerCallback>>,
    pid: u32,
    ids: Seq<i32>,
    n: int,
) -> Seq<CallbackEntry<TimerCallback>>
    decreases n,
{
    if n <= 0 {
        s
    } else {
        timeout::without_key(without_timers(s, pid, ids, n - 1), key_of(pid, ids[n - 1]))
    }
}

/// Takes back the callbacks of some timers of a process.
pub fn cancel_callbacks(
    callbacks: &mut CallbackDeadlines<TimerCallback>,
    pid: Pid,
    ids: &Vec<i32>,
)
    requires
        old(callbacks).wf(),
    ensures
        final(callbacks).wf(),
        final(callbacks)@ == without_timers(
            old(callbacks)@,
            pid.0,
            ids@,
            ids@.len() as int,
        ),
{
    let mut i: usize = 0;
    while i < ids.len()
        invariant
            i <= ids@.len(),
            callbacks.wf(),
            callbacks@ == without_timers(old(callbacks)@, pid.0, ids@, i as int),
        decreases ids.len() - i,
    {
        timeout::cancel_callback(callbacks, timer_key(pid, ids[i]));
        i += 1;
    }
}

/// The numbers of some timers, in the order of their places.
pub open spec fn ids_of(timers: Timers) -> Seq<i32> {
    keys::in_order(timers.by_id@.dom()).map_values(|k: u64| (k as u32) as i32)
}

/// Takes all timers of a process away, and their callbacks back.
pub fn clear_timers(
    timers: &mut Timers,
    callbacks: &mut CallbackDeadlines<TimerCallback>,
    pid: Pid,
)
    requires
        old(callbacks).wf(),
    ensures
        final(timers).by_id@ == Map::<u64, PosixTimer>::empty(),
        final(callbacks).wf(),
        final(callbacks)@ == without_timers(
            old(callbacks)@,
            pid.0,
            ids_of(*old(timers)),
            ids_of(*old(timers)).len() as int,
        ),
{
    let mut ids: Vec<i32> = Vec::new();
    let slots = keys_of(&timers.by_id);
    let mut i: usize = 0;
    while i < slots.len()
        invariant
            i <= slots@.len(),
            slots@ == keys::in_order(old(timers).by_id@.dom()),
            ids@.len() == i,
            forall|j: int| 0 <= j < i ==> ids@[j] == #[trigger] ids_of(*old(timers))[j],
        decreases slots.len() - i,
    {
        ids.push((slots[i] as u32) as i32);
        i += 1;
    }
    assert(ids@ =~= ids_of(*old(timers)));
    cancel_callbacks(callbacks, pid, &ids);
    timers.by_id.clear();
}

/// No callback is left of a timer whose callback was taken back with others.
pub proof fn law_no_callback_is_left(
    s: Seq<CallbackEntry<TimerCallback>>,
    pid: u32,
    ids: Seq<i32>,
    n: int,
)
    requires
        0 <= n <= ids.len(),
    ensures
        forall|i: int, j: int|
            0 <= i < n && 0 <= j < without_timers(s, pid, ids, n).len() ==> #[trigger] key_of(
                pid,
                ids[i],
            ) != (#[trigger] without_timers(s, pid, ids, n)[j]).key,
    decreases n,
{
    if n > 0 {
        law_no_callback_is_left(s, pid, ids, n - 1);
        let front = without_timers(s, pid, ids, n - 1);
        let all = without_timers(s, pid, ids, n);
        let key = key_of(pid, ids[n - 1]);
        let from = crate::seqs::lemma_filter_origin(front, timeout::other_key(key));
        assert forall|i: int, j: int| 0 <= i < n && 0 <= j < all.len() implies #[trigger] key_of(
            pid,
            ids[i],
        ) != (#[trigger] all[j]).key by {
            assert(all[j] == front[from[j]]);
        }
    }
}

} // verus!
