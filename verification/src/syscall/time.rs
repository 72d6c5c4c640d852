//! Clocks, sleeping, and the timers that every process has.
use super::reply;
use super::reply::{CopyOut, Reply};
use super::util;
use super::util::NANOS;
use crate::bytes;
use crate::errno;
use crate::process_model::Pid;
use crate::timeout;
use crate::timeout::{CallbackDeadlines, CallbackEntry};
use vstd::prelude::*;

verus! {

pub const CLOCK_REALTIME: u64 = 0;

pub const CLOCK_MONOTONIC: u64 = 1;

pub const CLOCK_PROCESS_CPUTIME_ID: u64 = 2;

pub const CLOCK_THREAD_CPUTIME_ID: u64 = 3;

pub const CLOCK_MONOTONIC_RAW: u64 = 4;

pub const CLOCK_REALTIME_COARSE: u64 = 5;

pub const CLOCK_MONOTONIC_COARSE: u64 = 6;

pub const CLOCK_BOOTTIME: u64 = 7;

pub const FINE_RES_NSEC: i64 = 1;

pub const COARSE_RES_NSEC: i64 = 10_000_000;

/// What the clocks show, and by how much the caller's namespace shifts two of them.
#[derive(Clone, Copy, PartialEq, Eq, Structural, Debug)]
pub struct Clocks {
    pub monotonic: u64,
    pub wall: u64,
    pub monotonic_offset: i64,
    pub boot_offset: i64,
    pub cpu: u64,
}

/// A time shifted, within what can be told.
pub open spec fn shifted(base: u64, offset: i64) -> u64 {
    if base + offset < 0 {
        0
    } else if base + offset > u64::MAX {
        u64::MAX
    } else {
        (base + offset) as u64
    }
}

pub fn apply_offset(base_ns: u64, offset_ns: i64) -> (r: u64)
    requires
        offset_ns > i64::MIN,
    ensures
        r == shifted(base_ns, offset_ns),
{
    if offset_ns >= 0 {
        base_ns.saturating_add(offset_ns as u64)
    } else {
        base_ns.saturating_sub((-offset_ns) as u64)
    }
}

/// The time of day: the wall clock, or the time since the start where that was never set.
pub open spec fn day_time(wall: u64, monotonic: u64) -> u64 {
    if wall != 0 {
        wall
    } else {
        monotonic
    }
}

fn now_of_day(wall: u64, monotonic: u64) -> (r: u64)
    ensures
        r == day_time(wall, monotonic),
{
    if wall != 0 {
        wall
    } else {
        monotonic
    }
}

pub open spec fn clock_reading(clock: u64, c: Clocks) -> Option<u64> {
    if clock == CLOCK_REALTIME || clock == CLOCK_REALTIME_COARSE {
        Some(day_time(c.wall, c.monotonic))
    } else if clock == CLOCK_MONOTONIC || clock == CLOCK_MONOTONIC_RAW || clock
        == CLOCK_MONOTONIC_COARSE {
        Some(shifted(c.monotonic, c.monotonic_offset))
    } else if clock == CLOCK_BOOTTIME {
        Some(shifted(c.monotonic, c.boot_offset))
    } else if clock == CLOCK_PROCESS_CPUTIME_ID || clock == CLOCK_THREAD_CPUTIME_ID {
        Some(c.cpu)
    } else {
        None
    }
}

/// Whether the offset that a clock is read with can be turned round.
pub open spec fn offset_fits(clock: u64, c: Clocks) -> bool {
    if clock == CLOCK_MONOTONIC || clock == CLOCK_MONOTONIC_RAW || clock == CLOCK_MONOTONIC_COARSE {
        c.monotonic_offset > i64::MIN
    } else if clock == CLOCK_BOOTTIME {
        c.boot_offset > i64::MIN
    } else {
        true
    }
}

/// What a clock shows, in nanoseconds.
pub fn timespec_for_clock(clock: u64, c: Clocks) -> (r: Option<u64>)
    requires
        offset_fits(clock, c),
    ensures
        r == clock_reading(clock, c),
{
    match clock {
        CLOCK_REALTIME | CLOCK_REALTIME_COARSE => Some(now_of_day(c.wall, c.monotonic)),
        CLOCK_MONOTONIC | CLOCK_MONOTONIC_RAW | CLOCK_MONOTONIC_COARSE => Some(
            apply_offset(c.monotonic, c.monotonic_offset),
        ),
        CLOCK_BOOTTIME => Some(apply_offset(c.monotonic, c.boot_offset)),
        CLOCK_PROCESS_CPUTIME_ID | CLOCK_THREAD_CPUTIME_ID => Some(c.cpu),
        _ => None,
    }
}

/// Nanoseconds as seconds and nanoseconds.
pub open spec fn packed_nanos(ns: u64) -> Seq<u8> {
    bytes::put64(ns / NANOS) + bytes::put64(ns % NANOS)
}

fn write_nanos(ns: u64) -> (b: Vec<u8>)
    ensures
        b@ == packed_nanos(ns),
{
    let mut b: Vec<u8> = Vec::new();
    bytes::push_u64(&mut b, ns / NANOS);
    bytes::push_u64(&mut b, ns % NANOS);
    assert(b@ =~= packed_nanos(ns));
    b
}

/// `clock_gettime`
pub fn sys_clock_gettime(clock: u64, ts_ptr: u64, c: Clocks) -> (r: Reply)
    requires
        ts_ptr != 0 ==> offset_fits(clock, c),
    ensures
        r@ == (if ts_ptr == 0 {
            reply::plain(errno::EFAULT)
        } else if clock_reading(clock, c) is None {
            reply::plain(errno::EINVAL)
        } else {
            reply::with_bytes(0, ts_ptr, packed_nanos(clock_reading(clock, c)->0))
        }),
{
    if ts_ptr == 0 {
        return Reply::plain(errno::EFAULT);
    }
    match timespec_for_clock(clock, c) {
        None => Reply::plain(errno::EINVAL),
        Some(ns) => Reply::with_bytes(0, ts_ptr, write_nanos(ns)),
    }
}

/// How fine a clock is.
pub open spec fn resolution(clock: u64) -> Option<i64> {
    if clock == CLOCK_REALTIME_COARSE || clock == CLOCK_MONOTONIC_COARSE {
        Some(COARSE_RES_NSEC)
    } else if clock <= CLOCK_BOOTTIME {
        Some(FINE_RES_NSEC)
    } else {
        None
    }
}

/// `clock_getres`
pub fn sys_clock_getres(clock: u64, res_ptr: u64) -> (r: Reply)
    ensures
        r@ == (if resolution(clock) is None {
            reply::plain(errno::EINVAL)
        } else {
            reply::where_wanted(
                reply::plain(0),
                res_ptr,
                util::packed_time(0, resolution(clock)->0),
            )
        }),
{
    let res: i64 = match clock {
        CLOCK_REALTIME | CLOCK_MONOTONIC | CLOCK_MONOTONIC_RAW | CLOCK_BOOTTIME => FINE_RES_NSEC,
        CLOCK_REALTIME_COARSE | CLOCK_MONOTONIC_COARSE => COARSE_RES_NSEC,
        CLOCK_PROCESS_CPUTIME_ID | CLOCK_THREAD_CPUTIME_ID => FINE_RES_NSEC,
        _ => {
            return Reply::plain(errno::EINVAL);
        },
    };
    let mut r = Reply::plain(0);
    r.hand_over(res_ptr, util::write_timespec(0, res));
    r
}

/// Nanoseconds as seconds and microseconds.
pub open spec fn packed_micros(ns: u64) -> Seq<u8> {
    bytes::put64(ns / NANOS) + bytes::put64(ns % NANOS / 1_000)
}

fn push_micros(b: &mut Vec<u8>, ns: u64)
    ensures
        final(b)@ == old(b)@ + packed_micros(ns),
{
    let ghost before = b@;
    bytes::push_u64(b, ns / NANOS);
    bytes::push_u64(b, ns % NANOS / 1_000);
    assert(b@ =~= before + packed_micros(ns));
}

/// `gettimeofday`
pub fn sys_gettimeofday(tv_ptr: u64, wall: u64, monotonic: u64) -> (r: Reply)
    ensures
        r@ == reply::where_wanted(
            reply::plain(0),
            tv_ptr,
            packed_micros(day_time(wall, monotonic)),
        ),
{
    let mut b: Vec<u8> = Vec::new();
    let ns: u64 = now_of_day(wall, monotonic);
    push_micros(&mut b, ns);
    assert(b@ =~= packed_micros(ns));
    let mut r = Reply::plain(0);
    r.hand_over(tv_ptr, b);
    r
}

/// `time`
pub fn sys_time(t_ptr: u64, wall: u64, monotonic: u64) -> (r: Reply)
    ensures
        ({
            let secs = day_time(wall, monotonic) / NANOS;
            r@ == reply::where_wanted(reply::plain(secs as i64), t_ptr, bytes::put64(secs))
        }),
{
    let secs: u64 = now_of_day(wall, monotonic) / NANOS;
    let mut b: Vec<u8> = Vec::new();
    bytes::push_u64(&mut b, secs);
    assert(b@ =~= bytes::put64(secs));
    let mut r = Reply::plain(secs as i64);
    r.hand_over(t_ptr, b);
    r
}

/// `settimeofday`: what the wall clock is set to, if to anything.
pub fn sys_settimeofday(tv_ptr: u64, may_set: bool, buf: Option<Vec<u8>>) -> (r: Result<
    Option<u64>,
    i64,
>)
    requires
        buf is Some ==> buf->0@.len() == 16,
    ensures
        ({
            let sec = bytes::le64(buf->0@, 0) as i64;
            let usec = bytes::le64(buf->0@, 8) as i64;
            r == (if !may_set {
                Err(errno::EPERM)
            } else if tv_ptr == 0 {
                Ok(None)
            } else if buf is None {
                Err(errno::EFAULT)
            } else if !(0 <= usec < 1_000_000) || sec < 0 {
                Err(errno::EINVAL)
            } else {
                Ok::<Option<u64>, i64>(
                    Some(util::nanos_of(sec as u64, (usec * 1_000) as u64)),
                )
            })
        }),
{
    if !may_set {
        return Err(errno::EPERM);
    }
    if tv_ptr == 0 {
        return Ok(None);
    }
    let b = match buf {
        Some(b) => b,
        None => {
            return Err(errno::EFAULT);
        },
    };
    let sec: i64 = bytes::u64_at(&b, 0) as i64;
    let usec: i64 = bytes::u64_at(&b, 8) as i64;
    if usec < 0 || usec >= 1_000_000 || sec < 0 {
        return Err(errno::EINVAL);
    }
    Ok(Some(util::total_nanos(sec as u64, (usec as u64) * 1_000)))
}

/// `clock_settime`: what the wall clock is set to.
pub fn sys_clock_settime(clk_id: u64, tp_ptr: u64, may_set: bool, buf: Option<Vec<u8>>) -> (r:
    Result<u64, i64>)
    requires
        buf is Some ==> buf->0@.len() == 16,
    ensures
        ({
            let sec = bytes::le64(buf->0@, 0) as i64;
            let nsec = bytes::le64(buf->0@, 8) as i64;
            r == (if !may_set {
                Err(errno::EPERM)
            } else if clk_id != CLOCK_REALTIME && clk_id != CLOCK_REALTIME_COARSE {
                Err(errno::EINVAL)
            } else if tp_ptr == 0 || buf is None {
                Err(errno::EFAULT)
            } else if !(0 <= nsec < NANOS) || sec < 0 {
                Err(errno::EINVAL)
            } else {
                Ok::<u64, i64>(util::nanos_of(sec as u64, nsec as u64))
            })
        }),
{
    if !may_set {
        return Err(errno::EPERM);
    }
    if clk_id != CLOCK_REALTIME && clk_id != CLOCK_REALTIME_COARSE {
        return Err(errno::EINVAL);
    }
    if tp_ptr == 0 {
        return Err(errno::EFAULT);
    }
    let b = match buf {
        Some(b) => b,
        None => {
            return Err(errno::EFAULT);
        },
    };
    let sec: i64 = bytes::u64_at(&b, 0) as i64;
    let nsec: i64 = bytes::u64_at(&b, 8) as i64;
    if nsec < 0 || nsec >= NANOS as i64 || sec < 0 {
        return Err(errno::EINVAL);
    }
    Ok(util::total_nanos(sec as u64, nsec as u64))
}

/// The nearest number that can be told.
pub open spec fn nearest(x: int) -> i64 {
    if x > i64::MAX {
        i64::MAX
    } else if x < i64::MIN {
        i64::MIN
    } else {
        x as i64
    }
}

fn clamp_to_i64(x: i128) -> (r: i64)
    ensures
        r == nearest(x as int),
{
    if x > i64::MAX as i128 {
        i64::MAX
    } else if x < i64::MIN as i128 {
        i64::MIN
    } else {
        x as i64
    }
}

pub const ADJ_SETOFFSET: u32 = 0x0100;

pub const ADJ_NANO: u32 = 0x2000;

/// The part of a second that a shift of the clock names, in nanoseconds.
pub open spec fn shift_fraction(buf: Seq<u8>) -> i64 {
    let frac = bytes::le64(buf, 104) as i64;
    if bytes::le32(buf, 0) & ADJ_NANO != 0 {
        frac
    } else {
        nearest(frac * 1_000)
    }
}

/// By how much the wall clock is shifted, if at all.
pub open spec fn shift_request(buf: Seq<u8>, may_set: bool) -> Result<Option<i64>, i64> {
    let modes = bytes::le32(buf, 0);
    let frac = shift_fraction(buf);
    if modes == 0 {
        Ok(None)
    } else if !may_set {
        Err(errno::EPERM)
    } else if modes & ADJ_SETOFFSET == 0 {
        Ok(None)
    } else if frac >= NANOS || frac <= -(NANOS as int) {
        Err(errno::EINVAL)
    } else {
        Ok(Some(nearest(nearest((bytes::le64(buf, 96) as i64) * NANOS) + frac)))
    }
}

/// `adjtimex`, before the clock is read: by how much it is shifted, if at all.
pub fn adjtimex_shift(buf_ptr: u64, buf: &Option<Vec<u8>>, may_set: bool) -> (r: Result<
    Option<i64>,
    i64,
>)
    requires
        buf is Some ==> buf->0@.len() == 184,
        buf_ptr != 0 && buf is Some && may_set && bytes::le32(buf->0@, 0) & ADJ_SETOFFSET != 0
            ==> shift_fraction(buf->0@) > i64::MIN,
    ensures
        r == (if buf_ptr == 0 || buf is None {
            Err(errno::EFAULT)
        } else {
            shift_request(buf->0@, may_set)
        }),
{
    if buf_ptr == 0 {
        return Err(errno::EFAULT);
    }
    let b = match buf {
        Some(b) => b,
        None => {
            return Err(errno::EFAULT);
        },
    };
    let modes: u32 = bytes::u32_at(b, 0);
    if modes == 0 {
        return Ok(None);
    }
    if !may_set {
        return Err(errno::EPERM);
    }
    if modes & ADJ_SETOFFSET == 0 {
        return Ok(None);
    }
    let sec: i64 = bytes::u64_at(b, 96) as i64;
    let frac: i64 = bytes::u64_at(b, 104) as i64;
    let frac_ns: i64 = if modes & ADJ_NANO != 0 {
        frac
    } else {
        clamp_to_i64(frac as i128 * 1_000)
    };
    if frac_ns >= 1_000_000_000 || frac_ns <= -1_000_000_000 {
        return Err(errno::EINVAL);
    }
    let whole: i64 = clamp_to_i64(sec as i128 * 1_000_000_000);
    Ok(Some(clamp_to_i64(whole as i128 + frac_ns as i128)))
}

/// What the caller gets back: its request with a tick, a precision and the time filled in.
pub open spec fn adjusted(buf: Seq<u8>, wall: u64) -> Seq<u8> {
    buf.take(64) + bytes::put64(10_000) + buf.subrange(72, 88) + bytes::put64(1) + packed_micros(
        wall,
    ) + buf.skip(112)
}

/// `adjtimex`, once the clock is shifted and read.
pub fn sys_adjtimex(buf_ptr: u64, b: &Vec<u8>, wall: u64) -> (r: Reply)
    requires
        b@.len() == 184,
    ensures
        r@ == reply::with_bytes(0, buf_ptr, adjusted(b@, wall)),
{
    let mut out: Vec<u8> = Vec::new();
    bytes::push_part(&mut out, b, 0, 64);
    assert(out@ =~= b@.take(64));
    bytes::push_u64(&mut out, 10_000);
    bytes::push_part(&mut out, b, 72, 88);
    bytes::push_u64(&mut out, 1);
    push_micros(&mut out, wall);
    bytes::push_part(&mut out, b, 112, 184);
    assert(b@.subrange(112, 184) =~= b@.skip(112));
    Reply::with_bytes(0, buf_ptr, out)
}

/// `clock_adjtime`: `adjtimex` for the clocks that can be adjusted.
pub fn clock_adjtime_refused(clk_id: u64) -> (r: Option<i64>)
    ensures
        r == (if clk_id == CLOCK_REALTIME || clk_id == CLOCK_REALTIME_COARSE {
            None
        } else {
            Some(errno::EINVAL)
        }),
{
    if clk_id == CLOCK_REALTIME || clk_id == CLOCK_REALTIME_COARSE {
        None
    } else {
        Some(errno::EINVAL)
    }
}

/// `nanosleep`: until when the caller sleeps, or an answer at once.
pub fn nanosleep_begin(req: u64, buf: Option<Vec<u8>>, now: u64) -> (r: Result<Option<u64>, i64>)
    requires
        buf is Some ==> buf->0@.len() == 16,
    ensures
        r == (if req == 0 {
            Err(errno::EINVAL)
        } else {
            match util::duration_in(util::bytes_view(buf)) {
                Err(e) => Err(e),
                Ok(d) => if d == 0 {
                    Ok(None)
                } else {
                    Ok::<Option<u64>, i64>(Some(util::later(now, d)))
                },
            }
        }),
{
    if req == 0 {
        return Err(errno::EINVAL);
    }
    match util::read_duration(buf) {
        Err(e) => Err(e),
        Ok(d) => {
            if d == 0 {
                return Ok(None);
            }
            Ok(Some(now.saturating_add(d)))
        },
    }
}

/// How a sleep goes on.
#[derive(Clone, Copy, PartialEq, Eq, Structural, Debug)]
pub enum Sleep {
    Over,
    Interrupted,
    Wait,
}

/// How a sleep goes on: its end comes before a signal.
pub fn nanosleep_step(deadline: u64, now: u64, signal_pending: bool) -> (r: Sleep)
    ensures
        r == (if now >= deadline {
            Sleep::Over
        } else if signal_pending {
            Sleep::Interrupted
        } else {
            Sleep::Wait
        }),
{
    if now >= deadline {
        return Sleep::Over;
    }
    if signal_pending {
        return Sleep::Interrupted;
    }
    Sleep::Wait
}

pub open spec fn remaining(deadline: u64, now: u64) -> u64 {
    if deadline > now {
        (deadline - now) as u64
    } else {
        0
    }
}

/// What a caller whose sleep was interrupted is told of the rest, as far as it can be, with
/// the answer `EINTR`.
pub fn sys_nanosleep(rem: u64, deadline: u64, now: u64) -> (r: Option<CopyOut>)
    ensures
        r is Some == (rem != 0),
        r is Some ==> r->0@ == (rem, packed_nanos(remaining(deadline, now))),
{
    if rem == 0 {
        return None;
    }
    Some(CopyOut { to: rem, bytes: write_nanos(deadline.saturating_sub(now)) })
}

pub const TIMER_ABSTIME: u64 = 1;

/// Until when `clock_nanosleep` sleeps, or an answer at once.
pub open spec fn sleep_request(
    clockid: u64,
    flags: u64,
    request: u64,
    buf: Option<Seq<u8>>,
    now: u64,
) -> Result<Option<u64>, i64> {
    if clockid != CLOCK_REALTIME && clockid != CLOCK_MONOTONIC && clockid != CLOCK_BOOTTIME {
        Err(errno::EINVAL)
    } else if flags > TIMER_ABSTIME {
        Err(errno::EINVAL)
    } else if request == 0 || buf is None {
        Err(errno::EFAULT)
    } else {
        let sec = bytes::le64(buf->0, 0) as i64;
        let nsec = bytes::le64(buf->0, 8) as i64;
        let target = util::nanos_of(sec as u64, nsec as u64);
        let deadline = if flags == TIMER_ABSTIME {
            target
        } else {
            util::later(now, target)
        };
        if sec < 0 || !(0 <= nsec < NANOS) {
            Err(errno::EINVAL)
        } else if deadline <= now {
            Ok(None)
        } else {
            Ok(Some(deadline))
        }
    }
}

/// Whether a time is not longer than nanoseconds can be counted.
pub open spec fn can_be_counted(buf: Seq<u8>) -> bool {
    let sec = bytes::le64(buf, 0) as i64;
    let nsec = bytes::le64(buf, 8) as i64;
    sec < 0 || nsec <= 0 || nsec >= NANOS || sec * NANOS + nsec <= u64::MAX
}

/// `clock_nanosleep`: until when the caller sleeps. A time can be as long as nanoseconds can
/// be counted.
pub fn clock_nanosleep_begin(
    clockid: u64,
    flags: u64,
    request: u64,
    buf: Option<Vec<u8>>,
    now: u64,
) -> (r: Result<Option<u64>, i64>)
    requires
        buf is Some ==> buf->0@.len() == 16,
        (clockid == CLOCK_REALTIME || clockid == CLOCK_MONOTONIC || clockid == CLOCK_BOOTTIME)
            && flags <= TIMER_ABSTIME && request != 0 && buf is Some ==> can_be_counted(buf->0@),
    ensures
        r == sleep_request(clockid, flags, request, util::bytes_view(buf), now),
{
    if clockid != CLOCK_REALTIME && clockid != CLOCK_MONOTONIC && clockid != CLOCK_BOOTTIME {
        return Err(errno::EINVAL);
    }
    if flags != 0 && flags != TIMER_ABSTIME {
        return Err(errno::EINVAL);
    }
    if request == 0 {
        return Err(errno::EFAULT);
    }
    let b = match buf {
        Some(b) => b,
        None => {
            return Err(errno::EFAULT);
        },
    };
    let sec: i64 = bytes::u64_at(&b, 0) as i64;
    let nsec: i64 = bytes::u64_at(&b, 8) as i64;
    if sec < 0 || nsec < 0 || nsec >= NANOS as i64 {
        return Err(errno::EINVAL);
    }
    let target: u64 = util::total_nanos(sec as u64, nsec as u64);
    let deadline: u64 = if flags == TIMER_ABSTIME {
        target
    } else {
        now.saturating_add(target)
    };
    if deadline <= now {
        return Ok(None);
    }
    Ok(Some(deadline))
}

/// `clock_nanosleep`, after the sleep: the answer, and what the caller is told of the rest,
/// as far as it can be. Who sleeps until a time is not told.
pub fn sys_clock_nanosleep(flags: u64, remain: u64, deadline: u64, now: u64) -> (r: (
    i64,
    Option<CopyOut>,
))
    ensures
        r.0 == (if now < deadline {
            errno::EINTR
        } else {
            0
        }),
        r.1 is Some == (now < deadline && flags == 0 && remain != 0),
        r.1 is Some ==> r.1->0@ == (remain, packed_nanos(remaining(deadline, now))),
{
    if now >= deadline {
        return (0, None);
    }
    if flags == 0 && remain != 0 {
        return (errno::EINTR, Some(CopyOut { to: remain, bytes: write_nanos(deadline - now) }));
    }
    (errno::EINTR, None)
}

pub const ITIMER_REAL: u64 = 0;

pub const ITIMER_VIRTUAL: u64 = 1;

pub const ITIMER_PROF: u64 = 2;

pub const SIGALRM: u32 = 14;

/// What is called back when a timer is due.
#[derive(Clone, Copy, PartialEq, Eq, Structural, Debug)]
pub enum TimerCallback {
    ItimerReal,
    PosixTimer,
}

/// An interval, and how long it is until the timer is due; for the real-time one, when it is.
#[derive(Clone, Copy, PartialEq, Eq, Structural, Debug)]
pub struct Itimer {
    pub interval: u64,
    pub value: u64,
}

/// The three timers that every process has.
#[derive(Clone, Copy, PartialEq, Eq, Structural, Debug)]
pub struct Itimers {
    /// Its value is when it is due; none where it is not set.
    pub real_time: Itimer,
    pub virtual_time: Itimer,
    pub prof: Itimer,
}

/// Seconds and microseconds as nanoseconds, or the most that can be told.
pub open spec fn micros_of(sec: u64, usec: u64) -> u64 {
    if sec * NANOS + usec * 1_000 > u64::MAX {
        u64::MAX
    } else {
        (sec * NANOS + usec * 1_000) as u64
    }
}

fn total_micros(sec: u64, usec: u64) -> (r: u64)
    ensures
        r == micros_of(sec, usec),
{
    let a: u64 = match sec.checked_mul(NANOS) {
        Some(x) => x,
        None => u64::MAX,
    };
    let b: u64 = match usec.checked_mul(1_000) {
        Some(x) => x,
        None => u64::MAX,
    };
    a.saturating_add(b)
}

pub open spec fn itimer_in(b: Seq<u8>) -> Itimer {
    Itimer {
        interval: micros_of(bytes::le64(b, 0), bytes::le64(b, 8)),
        value: micros_of(bytes::le64(b, 16), bytes::le64(b, 24)),
    }
}

/// Reads a timer.
pub fn decode_itimerval(b: &Vec<u8>) -> (t: Itimer)
    requires
        b@.len() == 32,
    ensures
        t == itimer_in(b@),
{
    Itimer {
        interval: total_micros(bytes::u64_at(b, 0), bytes::u64_at(b, 8)),
        value: total_micros(bytes::u64_at(b, 16), bytes::u64_at(b, 24)),
    }
}

pub open spec fn packed_itimer(t: Itimer) -> Seq<u8> {
    packed_micros(t.interval) + packed_micros(t.value)
}

/// A timer for the caller.
pub fn encode_itimerval(t: Itimer) -> (b: Vec<u8>)
    ensures
        b@ == packed_itimer(t),
        b@.len() == 32,
{
    let mut b: Vec<u8> = Vec::new();
    push_micros(&mut b, t.interval);
    assert(b@ =~= packed_micros(t.interval));
    push_micros(&mut b, t.value);
    assert(b@ =~= packed_itimer(t));
    b
}

/// The key of a process's real-time timer.
pub open spec fn itimer_key(pid: u32) -> u64 {
    pid as u64 | (1u64 << 63)
}

pub fn itimer_real_key(pid: Pid) -> (key: u64)
    ensures
        key == itimer_key(pid.0),
{
    pid.0 as u64 | (1u64 << 63)
}

/// The process that a key is of.
pub fn itimer_key_pid(key: u64) -> (pid: Pid)
    ensures
        pid.0 == (key & !(1u64 << 63)) as u32,
{
    Pid((key & !(1u64 << 63)) as u32)
}

/// The key of a timer tells whose it is.
pub proof fn law_itimer_key_is_reversible(pid: u32)
    ensures
        (itimer_key(pid) & !(1u64 << 63)) as u32 == pid,
{
    assert(((pid as u64 | (1u64 << 63)) & !(1u64 << 63)) as u32 == pid) by (bit_vector);
}

/// A timer as its owner sees it: how long it is until it is due.
pub open spec fn shown_itimer(t: Itimers, which: u64, now: u64) -> Itimer {
    if which == ITIMER_VIRTUAL {
        t.virtual_time
    } else if which == ITIMER_PROF {
        t.prof
    } else {
        Itimer { interval: t.real_time.interval, value: remaining(t.real_time.value, now) }
    }
}

fn show_itimer(t: &Itimers, which: u64, now: u64) -> (r: Itimer)
    ensures
        r == shown_itimer(*t, which, now),
{
    match which {
        ITIMER_VIRTUAL => t.virtual_time,
        ITIMER_PROF => t.prof,
        _ => Itimer {
            interval: t.real_time.interval,
            value: t.real_time.value.saturating_sub(now),
        },
    }
}

/// `getitimer`
pub fn sys_getitimer(which: u64, curr_ptr: u64, t: &Itimers, now: u64) -> (r: Reply)
    ensures
        r@ == (if which > ITIMER_PROF {
            reply::plain(errno::EINVAL)
        } else if curr_ptr == 0 {
            reply::plain(errno::EFAULT)
        } else {
            reply::with_bytes(0, curr_ptr, packed_itimer(shown_itimer(*t, which, now)))
        }),
{
    if which != ITIMER_REAL && which != ITIMER_VIRTUAL && which != ITIMER_PROF {
        return Reply::plain(errno::EINVAL);
    }
    if curr_ptr == 0 {
        return Reply::plain(errno::EFAULT);
    }
    Reply::with_bytes(0, curr_ptr, encode_itimerval(show_itimer(t, which, now)))
}

/// The timers once one is set; a real-time one that is set to nothing is off.
pub open spec fn itimer_set(t: Itimers, which: u64, new: Itimer, now: u64) -> Itimers {
    if which == ITIMER_VIRTUAL {
        Itimers { virtual_time: new, ..t }
    } else if which == ITIMER_PROF {
        Itimers { prof: new, ..t }
    } else if new.value == 0 {
        Itimers { real_time: Itimer { interval: 0, value: 0 }, ..t }
    } else {
        Itimers {
            real_time: Itimer { interval: new.interval, value: util::later(now, new.value) },
            ..t
        }
    }
}

/// What is called back once the real-time timer is due at `due`, or is off.
pub open spec fn recalled(
    before: Seq<CallbackEntry<TimerCallback>>,
    after: Seq<CallbackEntry<TimerCallback>>,
    key: u64,
    due: u64,
    callback: TimerCallback,
) -> bool {
    if due == 0 {
        after == timeout::without_key(before, key)
    } else {
        timeout::callback_put_in_order(
            timeout::without_key(before, key),
            after,
            (CallbackEntry { deadline: due, key, callback }),
        )
    }
}

/// Calls a timer back when it is due, in place of what was to come before.
pub fn recall(
    callbacks: &mut CallbackDeadlines<TimerCallback>,
    key: u64,
    due: u64,
    callback: TimerCallback,
)
    requires
        old(callbacks).wf(),
    ensures
        final(callbacks).wf(),
        recalled(old(callbacks)@, final(callbacks)@, key, due, callback),
{
    if due == 0 {
        timeout::cancel_callback(callbacks, key);
    } else {
        timeout::register_callback(callbacks, due, key, callback);
    }
}

/// `setitimer`, with what was read: the old timer goes out after the new one is set.
pub fn sys_setitimer(
    t: &mut Itimers,
    callbacks: &mut CallbackDeadlines<TimerCallback>,
    pid: Pid,
    which: u64,
    new_ptr: u64,
    old_ptr: u64,
    buf: Option<Vec<u8>>,
    now: u64,
) -> (r: Reply)
    requires
        buf is Some ==> buf->0@.len() == 32,
        old(callbacks).wf(),
    ensures
        final(callbacks).wf(),
        r@ == (if which > ITIMER_PROF {
            reply::plain(errno::EINVAL)
        } else if new_ptr == 0 || buf is None {
            reply::plain(errno::EFAULT)
        } else {
            reply::where_wanted(
                reply::plain(0),
                old_ptr,
                packed_itimer(shown_itimer(*old(t), which, now)),
            )
        }),
        *final(t) == (if r@.code == 0 {
            itimer_set(*old(t), which, itimer_in(buf->0@), now)
        } else {
            *old(t)
        }),
        if r@.code == 0 && which == ITIMER_REAL {
            recalled(
                old(callbacks)@,
                final(callbacks)@,
                itimer_key(pid.0),
                final(t).real_time.value,
                TimerCallback::ItimerReal,
            )
        } else {
            final(callbacks)@ == old(callbacks)@
        },
{
    if which != ITIMER_REAL && which != ITIMER_VIRTUAL && which != ITIMER_PROF {
        return Reply::plain(errno::EINVAL);
    }
    if new_ptr == 0 {
        return Reply::plain(errno::EFAULT);
    }
    let b = match buf {
        Some(b) => b,
        None => {
            return Reply::plain(errno::EFAULT);
        },
    };
    let new = decode_itimerval(&b);
    let shown = show_itimer(t, which, now);
    match which {
        ITIMER_VIRTUAL => {
            t.virtual_time = new;
        },
        ITIMER_PROF => {
            t.prof = new;
        },
        _ => {
            if new.value == 0 {
                t.real_time = Itimer { interval: 0, value: 0 };
            } else {
                t.real_time = Itimer {
                    interval: new.interval,
                    value: now.saturating_add(new.value),
                };
            }
            recall(callbacks, itimer_real_key(pid), t.real_time.value, TimerCallback::ItimerReal);
        },
    }
    let mut r = Reply::plain(0);
    r.hand_over(old_ptr, encode_itimerval(shown));
    r
}

/// The real-time timer after it was due: it is due again after its interval, if it has one.
/// The caller sends its owner `SIGALRM`.
pub fn itimer_real_fire(
    t: &mut Itimers,
    callbacks: &mut CallbackDeadlines<TimerCallback>,
    key: u64,
    now: u64,
)
    requires
        old(callbacks).wf(),
    ensures
        final(callbacks).wf(),
        final(t).real_time == (Itimer {
            interval: old(t).real_time.interval,
            value: if old(t).real_time.interval == 0 {
                0
            } else {
                util::later(now, old(t).real_time.interval)
            },
        }),
        final(t).virtual_time == old(t).virtual_time,
        final(t).prof == old(t).prof,
        if old(t).real_time.interval == 0 {
            final(callbacks)@ == old(callbacks)@
        } else {
            recalled(
                old(callbacks)@,
                final(callbacks)@,
                key,
                final(t).real_time.value,
                TimerCallback::ItimerReal,
            )
        },
{
    let interval: u64 = t.real_time.interval;
    if interval != 0 {
        t.real_time = Itimer { interval, value: now.saturating_add(interval) };
        timeout::register_callback(
            callbacks,
            t.real_time.value,
            key,
            TimerCallback::ItimerReal,
        );
    } else {
        t.real_time = Itimer { interval, value: 0 };
    }
}

/// `alarm`: the answer is how many whole seconds the old alarm had left.
pub fn sys_alarm(
    t: &mut Itimers,
    callbacks: &mut CallbackDeadlines<TimerCallback>,
    pid: Pid,
    seconds: u64,
    now: u64,
) -> (code: i64)
    requires
        old(callbacks).wf(),
    ensures
        final(callbacks).wf(),
        code == remaining(old(t).real_time.value, now) / NANOS,
        *final(t) == itimer_set(
            *old(t),
            ITIMER_REAL,
            (Itimer { interval: 0, value: util::nanos_of(seconds, 0) }),
            now,
        ),
        recalled(
            old(callbacks)@,
            final(callbacks)@,
            itimer_key(pid.0),
            final(t).real_time.value,
            TimerCallback::ItimerReal,
        ),
{
    let left: u64 = t.real_time.value.saturating_sub(now) / NANOS;
    let value: u64 = if seconds == 0 {
        0
    } else {
        now.saturating_add(util::total_nanos(seconds, 0))
    };
    t.real_time = Itimer { interval: 0, value };
    recall(callbacks, itimer_real_key(pid), value, TimerCallback::ItimerReal);
    left as i64
}

/// An alarm of nothing takes an alarm back: no timer and no callback is left of it.
pub proof fn law_alarm_of_nothing_is_off(
    t: Itimers,
    before: Seq<CallbackEntry<TimerCallback>>,
    after: Seq<CallbackEntry<TimerCallback>>,
    pid: u32,
    now: u64,
)
    requires
        recalled(
            before,
            after,
            itimer_key(pid),
            itimer_set(t, ITIMER_REAL, Itimer { interval: 0, value: 0 }, now).real_time.value,
            TimerCallback::ItimerReal,
        ),
    ensures
        itimer_set(t, ITIMER_REAL, Itimer { interval: 0, value: 0 }, now).real_time.value == 0,
        after == timeout::without_key(before, itimer_key(pid)),
{
}

/// A timer that is set shows the time that it was set to.
pub proof fn law_timer_shows_what_was_set(t: Itimers, which: u64, new: Itimer, now: u64)
    requires
        which <= ITIMER_PROF,
        now + new.value <= u64::MAX,
        new.value != 0,
    ensures
        shown_itimer(itimer_set(t, which, new, now), which, now) == new,
{
}

} // verus!
