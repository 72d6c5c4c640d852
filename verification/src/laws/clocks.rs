//! Clocks, and what is due by them.

use vstd::prelude::*;

use super::bits;
use super::layout;
use crate::bytes;
use crate::process_model::Pid;
use crate::syscall::event;
use crate::syscall::posix_timer;
use crate::syscall::posix_timer::{PosixTimer, Setting, TimerSignal};
use crate::syscall::time;
use crate::syscall::time::{Clocks, Itimer, Itimers};
use crate::timeout;
use crate::timeout::CallbackEntry;

verus! {

/// The clocks by their numbers: the time of day, the time since the start with an offset, the
/// time since the start with another one, and the time used. Without a time of day the time since
/// the start stands for it.
pub proof fn law_clocks_by_their_numbers(clock: u64, c: Clocks)
    requires
        0 <= c.monotonic + c.monotonic_offset <= u64::MAX,
        0 <= c.monotonic + c.boot_offset <= u64::MAX,
    ensures
        ({
            let r = time::clock_reading(clock, c);
            &&& (clock == 0 || clock == 5) && c.wall != 0 ==> r == Some(c.wall)
            &&& (clock == 0 || clock == 5) && c.wall == 0 ==> r == Some(c.monotonic)
            &&& clock == 1 || clock == 4 || clock == 6 ==> r is Some && r->0 == c.monotonic
                + c.monotonic_offset
            &&& clock == 7 ==> r is Some && r->0 == c.monotonic + c.boot_offset
            &&& clock == 2 || clock == 3 ==> r == Some(c.cpu)
            &&& clock > 7 ==> r is None
        }),
        time::resolution(clock) == (if clock > 7 {
            None
        } else if clock == 5 || clock == 6 {
            Some(10_000_000i64)
        } else {
            Some(1i64)
        }),
{
}

proof fn lemma_two(x: u64, y: u64)
    ensures
        (bytes::put64(x) + bytes::put64(y)).len() == 16,
        bytes::le64(bytes::put64(x) + bytes::put64(y), 0) == x,
        bytes::le64(bytes::put64(x) + bytes::put64(y), 8) == y,
{
    let none = Seq::<u8>::empty();
    layout::lemma_put64(none, x);
    assert(none + bytes::put64(x) =~= bytes::put64(x));
    layout::lemma_put64(bytes::put64(x), y);
    layout::lemma_behind(bytes::put64(x), bytes::put64(y));
}

/// A time is told in seconds and nanoseconds, or in seconds and microseconds.
pub proof fn law_times_are_told_in_two_numbers(ns: u64)
    ensures
        time::packed_nanos(ns).len() == 16,
        bytes::le64(time::packed_nanos(ns), 0) * 1_000_000_000 + bytes::le64(
            time::packed_nanos(ns),
            8,
        ) == ns,
        bytes::le64(time::packed_nanos(ns), 8) < 1_000_000_000,
        time::packed_micros(ns).len() == 16,
        bytes::le64(time::packed_micros(ns), 0) == ns / 1_000_000_000,
        bytes::le64(time::packed_micros(ns), 8) == (ns % 1_000_000_000) / 1000,
{
    lemma_two(ns / 1_000_000_000, ns % 1_000_000_000);
    lemma_two(ns / 1_000_000_000, ns % 1_000_000_000 / 1_000);
}

/// A sleep ends at the time given, or that much later than now. It is over at once where that is
/// not later. It goes by the clocks `0`, `1` and `7`.
pub proof fn law_sleep_ends_when_asked(clock: u64, flags: u64, b: Seq<u8>, now: u64)
    requires
        bytes::le64(b, 0) < 0x8000_0000,
        bytes::le64(b, 8) < 1_000_000_000,
        now + bytes::le64(b, 0) * 1_000_000_000 + bytes::le64(b, 8) <= u64::MAX,
    ensures
        ({
            let by = bytes::le64(b, 0) * 1_000_000_000 + bytes::le64(b, 8);
            let r = time::sleep_request(clock, flags, 1, Some(b), now);
            let known = clock == 0 || clock == 1 || clock == 7;
            &&& !known || flags > 1 ==> r == Err::<Option<u64>, i64>(-22i64)
            &&& known && flags == 0 ==> r == Ok::<Option<u64>, i64>(
                if by == 0 {
                    None
                } else {
                    Some((now + by) as u64)
                },
            )
            &&& known && flags == 1 ==> r == Ok::<Option<u64>, i64>(
                if by <= now {
                    None
                } else {
                    Some(by as u64)
                },
            )
            &&& known && flags <= 1 ==> time::sleep_request(clock, flags, 0, Some(b), now) == Err::<
                Option<u64>,
                i64,
            >(-14i64)
        }),
{
    bits::lemma_sign(bytes::le64(b, 0));
    bits::lemma_sign(bytes::le64(b, 8));
}

/// What is left until a time.
pub proof fn law_what_is_left(deadline: u64, now: u64)
    ensures
        now < deadline ==> now + time::remaining(deadline, now) == deadline,
        now >= deadline ==> time::remaining(deadline, now) == 0,
{
}

/// A clock is set by so many seconds and a fraction, which counts nanoseconds where that is said,
/// and else microseconds.
pub proof fn law_clock_is_shifted_as_asked(b: Seq<u8>, may_set: bool)
    requires
        bytes::le64(b, 96) < 0x1_0000_0000,
        bytes::le64(b, 104) < 1_000_000,
    ensures
        ({
            let modes = bytes::le32(b, 0);
            let sets = (modes / 0x100) % 2 == 1;
            let nanos = (modes / 0x2000) % 2 == 1;
            let r = time::shift_request(b, may_set);
            let fraction = bytes::le64(b, 104) * (if nanos {
                1int
            } else {
                1000
            });
            &&& modes == 0 ==> r == Ok::<Option<i64>, i64>(None)
            &&& modes != 0 && !may_set ==> r == Err::<Option<i64>, i64>(-1i64)
            &&& modes != 0 && may_set && !sets ==> r == Ok::<Option<i64>, i64>(None)
            &&& may_set && sets ==> r is Ok && r->Ok_0 is Some && r->Ok_0->0 == bytes::le64(b, 96)
                * 1_000_000_000 + fraction
        }),
{
    bits::lemma_sign(bytes::le64(b, 96));
    bits::lemma_sign(bytes::le64(b, 104));
    bits::lemma_flock_bits(bytes::le32(b, 0));
}

/// Of the three timers of a process, `0` goes by the time, `1` by the time it runs in its own
/// code, and `2` by the time it runs. One is set, and the others stay. The first is due that much
/// later, and is off where nothing was given.
pub proof fn law_one_of_three_timers_is_set(t: Itimers, new: Itimer, now: u64)
    requires
        now + new.value <= u64::MAX,
    ensures
        time::itimer_set(t, 1, new, now) == (Itimers {
            real_time: t.real_time,
            virtual_time: new,
            prof: t.prof,
        }),
        time::itimer_set(t, 2, new, now) == (Itimers {
            real_time: t.real_time,
            virtual_time: t.virtual_time,
            prof: new,
        }),
        time::itimer_set(t, 0, new, now) == (Itimers {
            real_time: if new.value == 0 {
                Itimer { interval: 0, value: 0 }
            } else {
                Itimer { interval: new.interval, value: (now + new.value) as u64 }
            },
            virtual_time: t.virtual_time,
            prof: t.prof,
        }),
        time::shown_itimer(t, 1, now) == t.virtual_time,
        time::shown_itimer(t, 2, now) == t.prof,
        time::shown_itimer(t, 0, now).interval == t.real_time.interval,
        now <= t.real_time.value ==> time::shown_itimer(t, 0, now).value == t.real_time.value - now,
        now > t.real_time.value ==> time::shown_itimer(t, 0, now).value == 0,
{
}

/// The interval of a timer comes before its value, each in seconds and microseconds.
pub proof fn law_interval_comes_first(b: Seq<u8>)
    requires
        bytes::le64(b, 0) < 0x1_0000_0000,
        bytes::le64(b, 8) < 1_000_000,
        bytes::le64(b, 16) < 0x1_0000_0000,
        bytes::le64(b, 24) < 1_000_000,
    ensures
        time::itimer_in(b).interval == bytes::le64(b, 0) * 1_000_000_000 + bytes::le64(b, 8) * 1000,
        time::itimer_in(b).value == bytes::le64(b, 16) * 1_000_000_000 + bytes::le64(b, 24) * 1000,
{
}

/// The interval of a timer comes before its value, each in seconds and nanoseconds; a fraction
/// of a second is less than one.
pub proof fn law_interval_in_nanoseconds_comes_first(b: Seq<u8>)
    requires
        bytes::le64(b, 0) < 0x1_0000_0000,
        bytes::le64(b, 16) < 0x1_0000_0000,
        bytes::le64(b, 8) < 0x8000_0000_0000_0000,
        bytes::le64(b, 24) < 0x8000_0000_0000_0000,
    ensures
        ({
            let fits = bytes::le64(b, 8) < 1_000_000_000 && bytes::le64(b, 24) < 1_000_000_000;
            let r = posix_timer::itimerspec_in(b);
            &&& r is Ok == fits
            &&& r is Err ==> r->Err_0 == -22
            &&& r matches Ok((interval, value)) ==> {
                &&& interval == bytes::le64(b, 0) * 1_000_000_000 + bytes::le64(b, 8)
                &&& value == bytes::le64(b, 16) * 1_000_000_000 + bytes::le64(b, 24)
                &&& event::lenient_itimerspec(b) == (interval, value)
            }
        }),
{
    bits::lemma_sign(bytes::le64(b, 0));
    bits::lemma_sign(bytes::le64(b, 8));
    bits::lemma_sign(bytes::le64(b, 16));
    bits::lemma_sign(bytes::le64(b, 24));
}

/// A timer that fires is due next at the first of its times that is later than now; how many it
/// missed on the way is counted. One without an interval is off.
pub proof fn law_timer_misses_no_time(t: PosixTimer, now: u64)
    requires
        t.deadline_ns <= now,
        now + t.interval_ns <= u64::MAX,
        t.interval_ns > 0 ==> (now - t.deadline_ns) / (t.interval_ns as int) <= i32::MAX,
    ensures
        ({
            let after = posix_timer::fired(t, now);
            &&& t.interval_ns == 0 ==> after.deadline_ns == 0 && after.overrun_last == 0
            &&& t.interval_ns > 0 ==> {
                &&& after.deadline_ns - t.interval_ns <= now < after.deadline_ns
                &&& after.deadline_ns == t.deadline_ns + (after.overrun_last + 1) * t.interval_ns
            }
            &&& after.interval_ns == t.interval_ns && after.sigev_signo == t.sigev_signo
                && after.sigev_notify == t.sigev_notify && after.sigev_value == t.sigev_value
        }),
{
    if t.interval_ns > 0 {
        let d = t.interval_ns as int;
        let gone = now - t.deadline_ns;
        let q = gone / d;
        assert(q * d <= gone < (q + 1) * d && 0 <= q) by (nonlinear_arith)
            requires
                d > 0,
                gone >= 0,
                q == gone / d,
        ;
        let n = posix_timer::times_due(t.deadline_ns, t.interval_ns, now);
        if t.deadline_ns + t.interval_ns > now {
            assert(q == 0) by (nonlinear_arith)
                requires
                    0 <= gone < d,
                    q == gone / d,
            ;
        }
        assert(n == q + 1);
        assert((q + 1) * d == q * d + d) by (nonlinear_arith);
        assert(n * t.interval_ns == (q + 1) * d);
        assert(t.deadline_ns + n * t.interval_ns <= now + d);
    }
}

/// A timer that fires sends its signal to its owner, or to the thread named; the number of the
/// timer, what it was made with and how many times it missed go with it. One that is to tell
/// nobody tells nobody.
pub proof fn law_timer_tells_who_was_named(t: PosixTimer, id: i32, owner: Pid, now: u64)
    ensures
        t.sigev_notify == 0 ==> posix_timer::timer_signal(t, id, owner, now) == Some(
            TimerSignal {
                target: owner,
                signo: t.sigev_signo,
                timer_id: id,
                overrun: posix_timer::fired(t, now).overrun_last,
                value: t.sigev_value,
            },
        ),
        t.sigev_notify == 4 ==> posix_timer::timer_signal(t, id, owner, now) == Some(
            TimerSignal {
                target: Pid(t.sigev_thread_id),
                signo: t.sigev_signo,
                timer_id: id,
                overrun: posix_timer::fired(t, now).overrun_last,
                value: t.sigev_value,
            },
        ),
        t.sigev_notify == 1 ==> posix_timer::timer_signal(t, id, owner, now) is None,
{
}

/// A timer is made by the clocks `0`, `1`, `4` and `7`. What it is to do stands in a record: what
/// goes with the signal, the signal, how to tell, and the thread. Without a record it sends the
/// signal `14`.
pub proof fn law_timer_is_made_as_asked(
    clock: u64,
    id_ptr: u64,
    b: Seq<u8>,
    thread_known: bool,
    nsig: u64,
)
    requires
        id_ptr != 0,
        clock == 0 || clock == 1 || clock == 4 || clock == 7,
    ensures
        ({
            let r = posix_timer::create_request(clock, 0, id_ptr, None, thread_known, nsig);
            r matches Ok(t) && t.clockid == clock && t.sigev_notify == 0 && t.sigev_signo == 14
                && t.sigev_value == 0 && t.deadline_ns == 0 && t.interval_ns == 0
        }),
        ({
            let r = posix_timer::create_request(clock, 1, id_ptr, Some(b), thread_known, nsig);
            let signo = bytes::le32(b, 8);
            let how = bytes::le32(b, 12);
            let known = 0 < signo < nsig;
            &&& how == 0 || how == 2 || how == 4 ==> r is Ok == (known && (how == 4 ==> thread_known))
            &&& how == 1 ==> r is Ok
            &&& how == 3 || (5 <= how < 0x8000_0000) ==> r is Err
            &&& r is Err ==> r->Err_0 == -22
            &&& r matches Ok(t) ==> {
                &&& t.clockid == clock
                &&& t.sigev_value == bytes::le64(b, 0)
                &&& t.sigev_signo == signo
                &&& t.sigev_thread_id == bytes::le32(b, 16)
                &&& how == 0 || how == 2 ==> t.sigev_notify == 0
                &&& how == 1 ==> t.sigev_notify == 1
                &&& how == 4 ==> t.sigev_notify == 4
                &&& t.deadline_ns == 0 && t.interval_ns == 0 && t.overrun_last == 0
            }
        }),
{
    bits::lemma_low_sign(bytes::le32(b, 12) as u64);
}

/// A timer is set to a time of its clock, or to so much later; to nothing it is set off.
pub proof fn law_timer_is_set_as_asked(
    t: PosixTimer,
    interval: u64,
    value: u64,
    monotonic: u64,
    wall: u64,
)
    requires
        monotonic + value <= u64::MAX,
    ensures
        posix_timer::setting_for(t, 0, interval, 0, monotonic, wall) == (Setting {
            interval_ns: 0,
            deadline_ns: 0,
        }),
        value > 0 ==> posix_timer::setting_for(t, 0, interval, value, monotonic, wall) == (Setting {
            interval_ns: interval,
            deadline_ns: (monotonic + value) as u64,
        }),
        value > 0 && t.clockid == 1 ==> posix_timer::setting_for(
            t,
            1,
            interval,
            value,
            monotonic,
            wall,
        ) == (Setting {
            interval_ns: interval,
            deadline_ns: if value > monotonic {
                value
            } else {
                monotonic
            },
        }),
        value > 0 && t.clockid == 0 && wall != 0 ==> posix_timer::setting_for(
            t,
            1,
            interval,
            value,
            monotonic,
            wall,
        ) == (Setting {
            interval_ns: interval,
            deadline_ns: if value > wall {
                (monotonic + (value - wall)) as u64
            } else {
                monotonic
            },
        }),
{
}

/// A timer with a descriptor is due so much later, or at a time of its clock; the clocks `0` and
/// `5` count the time of day.
pub proof fn law_descriptor_timer_is_due_as_asked(
    clock: u32,
    value: u64,
    monotonic: u64,
    wall: u64,
)
    requires
        monotonic + value <= u64::MAX,
        wall != 0,
    ensures
        event::timerfd_deadline(clock, 0, 0, monotonic, wall) == 0,
        value > 0 ==> event::timerfd_deadline(clock, 0, value, monotonic, wall) == monotonic + value,
        value > 0 && clock != 0 && clock != 5 ==> event::timerfd_deadline(
            clock,
            1,
            value,
            monotonic,
            wall,
        ) == value,
        value > wall && (clock == 0 || clock == 5) ==> event::timerfd_deadline(
            clock,
            1,
            value,
            monotonic,
            wall,
        ) == monotonic + (value - wall),
{
    bits::lemma_low_bits(0);
    bits::lemma_low_bits(1);
}

/// What is told of a timer sets one alike.
pub proof fn law_told_timer_sets_one_alike(interval: u64, left: u64)
    ensures
        posix_timer::itimerspec_in(posix_timer::packed_itimerspec(interval, left)) == Ok::<
            (u64, u64),
            i64,
        >((interval, left)),
        posix_timer::packed_itimerspec(interval, left).len() == 32,
{
    law_times_are_told_in_two_numbers(interval);
    law_times_are_told_in_two_numbers(left);
    let none = Seq::<u8>::empty();
    let s0 = bytes::put64(interval / 1_000_000_000);
    layout::lemma_put64(none, interval / 1_000_000_000);
    assert(none + s0 =~= s0);
    let s1 = s0 + bytes::put64(interval % 1_000_000_000);
    layout::lemma_put64(s0, interval % 1_000_000_000);
    layout::lemma_behind(s0, bytes::put64(interval % 1_000_000_000));
    let s2 = s1 + bytes::put64(left / 1_000_000_000);
    layout::lemma_put64(s1, left / 1_000_000_000);
    layout::lemma_behind(s1, bytes::put64(left / 1_000_000_000));
    let s3 = s2 + bytes::put64(left % 1_000_000_000);
    layout::lemma_put64(s2, left % 1_000_000_000);
    layout::lemma_behind(s2, bytes::put64(left % 1_000_000_000));
    assert(posix_timer::packed_itimerspec(interval, left) =~= s3);
}

proof fn lemma_whole_micros(a: u64)
    ensures
        time::micros_of(a / 1_000_000_000, a % 1_000_000_000 / 1000) == a - a % 1000,
{
    let q = a / 1_000_000_000;
    let r = a % 1_000_000_000;
    assert(a == q * 1_000_000_000 + r);
    assert(r == r / 1000 * 1000 + r % 1000);
    assert(a % 1000 == r % 1000);
}

/// What is told of a timer that counts in microseconds sets one alike, but for what is below a
/// microsecond.
pub proof fn law_told_interval_sets_one_alike(t: Itimer)
    ensures
        ({
            let again = time::itimer_in(time::packed_itimer(t));
            &&& again.interval == t.interval - t.interval % 1000
            &&& again.value == t.value - t.value % 1000
            &&& time::packed_itimer(t).len() == 32
        }),
{
    let none = Seq::<u8>::empty();
    let a = t.interval;
    let b = t.value;
    lemma_whole_micros(a);
    lemma_whole_micros(b);
    let s0 = bytes::put64(a / 1_000_000_000);
    layout::lemma_put64(none, a / 1_000_000_000);
    assert(none + s0 =~= s0);
    let s1 = s0 + bytes::put64(a % 1_000_000_000 / 1000);
    layout::lemma_put64(s0, a % 1_000_000_000 / 1000);
    layout::lemma_behind(s0, bytes::put64(a % 1_000_000_000 / 1000));
    let s2 = s1 + bytes::put64(b / 1_000_000_000);
    layout::lemma_put64(s1, b / 1_000_000_000);
    layout::lemma_behind(s1, bytes::put64(b / 1_000_000_000));
    let s3 = s2 + bytes::put64(b % 1_000_000_000 / 1000);
    layout::lemma_put64(s2, b % 1_000_000_000 / 1000);
    layout::lemma_behind(s2, bytes::put64(b % 1_000_000_000 / 1000));
    let packed = time::packed_itimer(t);
    assert(packed =~= s3);
    assert(bytes::le64(packed, 0) == a / 1_000_000_000);
    assert(bytes::le64(packed, 8) == a % 1_000_000_000 / 1000);
    assert(bytes::le64(packed, 16) == b / 1_000_000_000);
    assert(bytes::le64(packed, 24) == b % 1_000_000_000 / 1000);
}

/// A timer is not set where a flag is unknown, the time cannot be read or is none, or there is no
/// such timer.
pub proof fn law_timers_that_are_not_set(
    timers: Map<u64, PosixTimer>,
    id: i32,
    flags: u64,
    at: u64,
    b: Seq<u8>,
)
    requires
        0 <= id,
    ensures
        flags > 1 ==> posix_timer::settime_error(timers, id, flags, at, Some(b)) == Some(-22i64),
        flags <= 1 ==> posix_timer::settime_error(timers, id, flags, 0, Some(b)) == Some(-14i64),
        flags <= 1 ==> posix_timer::settime_error(timers, id, flags, at, None) == Some(-14i64),
        flags <= 1 && at != 0 ==> posix_timer::settime_error(timers, id, flags, at, Some(b)) == (if
        posix_timer::itimerspec_in(b) is Ok && timers.contains_key(id as u64) {
            None
        } else {
            Some(-22i64)
        }),
{
}

/// An adjustment tells the time of day, how long a tick is and how exact the clock is; the rest
/// of what was asked is given back.
pub proof fn law_adjustment_tells_the_time(b: Seq<u8>, wall: u64)
    requires
        b.len() >= 112,
    ensures
        ({
            let r = time::adjusted(b, wall);
            &&& r.len() == b.len()
            &&& bytes::le64(r, 64) == 10_000
            &&& bytes::le64(r, 88) == 1
            &&& bytes::le64(r, 96) == wall / 1_000_000_000
            &&& bytes::le64(r, 104) == wall % 1_000_000_000 / 1000
            &&& forall|i: int|
                0 <= i < b.len() && !(64 <= i < 72) && !(88 <= i < 112) ==> #[trigger] r[i] == b[i]
        }),
{
    let s0 = b.take(64);
    let s1 = s0 + bytes::put64(10_000);
    layout::lemma_put64(s0, 10_000);
    let s2 = s1 + b.subrange(72, 88);
    layout::lemma_behind(s1, b.subrange(72, 88));
    let s3 = s2 + bytes::put64(1);
    layout::lemma_put64(s2, 1);
    layout::lemma_behind(s2, bytes::put64(1));
    let s4 = s3 + bytes::put64(wall / 1_000_000_000);
    layout::lemma_put64(s3, wall / 1_000_000_000);
    layout::lemma_behind(s3, bytes::put64(wall / 1_000_000_000));
    let s5 = s4 + bytes::put64(wall % 1_000_000_000 / 1000);
    layout::lemma_put64(s4, wall % 1_000_000_000 / 1000);
    layout::lemma_behind(s4, bytes::put64(wall % 1_000_000_000 / 1000));
    let s6 = s5 + b.skip(112);
    layout::lemma_behind(s5, b.skip(112));
    assert(time::adjusted(b, wall) =~= s6);
}

/// Those are due whose deadline has come, up to the first that has not.
pub proof fn law_callbacks_that_are_due<C>(s: Seq<CallbackEntry<C>>, now: u64)
    ensures
        ({
            let n = timeout::callbacks_due(s, now) as int;
            &&& n <= s.len()
            &&& forall|i: int| 0 <= i < n ==> (#[trigger] s[i]).deadline <= now
            &&& n < s.len() ==> s[n].deadline > now
        }),
    decreases s.len(),
{
    if s.len() > 0 && s[0].deadline <= now {
        let rest = s.skip(1);
        law_callbacks_that_are_due(rest, now);
        let n = timeout::callbacks_due(s, now) as int;
        assert forall|i: int| 0 <= i < n implies (#[trigger] s[i]).deadline <= now by {
            if i > 0 {
                assert(rest[i - 1] == s[i]);
            }
        }
        if n < s.len() {
            assert(rest[n - 1] == s[n]);
        }
    }
}

/// A fraction of a second is less than one; a clock that is shifted stays within its numbers.
pub proof fn law_shifts_within_bounds(b: Seq<u8>, base: u64, offset: i64)
    ensures
        (bytes::le32(b, 0) / 0x100) % 2 == 1 && (bytes::le32(b, 0) / 0x2000) % 2 == 1
            && 1_000_000_000 <= bytes::le64(b, 104) < 0x8000_0000_0000_0000 ==> time::shift_request(
            b,
            true,
        ) == Err::<Option<i64>, i64>(-22i64),
        0 <= base + offset <= u64::MAX ==> time::shifted(base, offset) == base + offset,
        base + offset < 0 ==> time::shifted(base, offset) == 0,
        base + offset > u64::MAX ==> time::shifted(base, offset) == u64::MAX,
{
    bits::lemma_sign(bytes::le64(b, 104));
    bits::lemma_flock_bits(bytes::le32(b, 0));
}

} // verus!
