//! Waiting for files: which, how long, and what is told of them.

use vstd::prelude::*;

use super::bits;
use super::layout;
use crate::bytes;
use crate::process_model::Pid;
use crate::syscall::event;
use crate::syscall::event::EpollEvent;
use crate::syscall::poll;
use crate::syscall::poll::{PollFd, PollStep};
use crate::syscall::waiting;
use crate::syscall::waiting::{EpollWait, Given, Places, Sets};
use crate::timeout;
use crate::vfs::blocking;
use crate::vfs::blocking::{IoAttempt, WaitOutcome};

verus! {

/// What is told of a file is what it is ready for and was asked about; errors, an end and a bad
/// descriptor are told unasked.
pub proof fn law_told_is_what_was_asked(events: u16, ready: u16)
    ensures
        ({
            let told = poll::revents_of(events, Some(ready));
            &&& told % 2 == 1 <==> ready % 2 == 1 && events % 2 == 1
            &&& (told / 2) % 2 == 1 <==> (ready / 2) % 2 == 1 && (events / 2) % 2 == 1
            &&& (told / 4) % 2 == 1 <==> (ready / 4) % 2 == 1 && (events / 4) % 2 == 1
            &&& (told / 8) % 2 == 1 <==> (ready / 8) % 2 == 1
            &&& (told / 0x10) % 2 == 1 <==> (ready / 0x10) % 2 == 1
            &&& (told / 0x20) % 2 == 1 <==> (ready / 0x20) % 2 == 1
        }),
        poll::revents_of(events, None) == 0x20,
{
    bits::lemma_poll_bits(events, ready);
}

/// A question about a file is eight bytes: the descriptor, what is asked, and what is told.
pub proof fn law_questions_about_files(p: PollFd)
    ensures
        ({
            let s = poll::packed_pollfd(p);
            &&& s.len() == 8
            &&& bytes::le32(s, 0) == p.fd as u32
            &&& bytes::le16(s, 4) == p.events
            &&& bytes::le16(s, 6) == p.revents
        }),
        forall|buf: Seq<u8>, i: int|
            0 <= i < buf.len() / 8 ==> #[trigger] poll::pollfds_in(buf)[i] == (PollFd {
                fd: bytes::le32(buf, 8 * i) as i32,
                events: bytes::le16(buf, 8 * i + 4),
                revents: bytes::le16(buf, 8 * i + 6),
            }),
        forall|buf: Seq<u8>| #[trigger] poll::pollfds_in(buf).len() == buf.len() / 8,
{
    let none = Seq::<u8>::empty();
    let s0 = bytes::put32(p.fd as u32);
    layout::lemma_put32(none, p.fd as u32);
    assert(none + s0 =~= s0);
    let s1 = s0 + bytes::put16(p.events);
    layout::lemma_put(s0, 0, 0, p.events);
    layout::lemma_behind(s0, bytes::put16(p.events));
    layout::lemma_put(s1, 0, 0, p.revents);
    layout::lemma_behind(s1, bytes::put16(p.revents));
}

/// A scan tells of each file by itself and counts those of which something is told.
pub proof fn law_scan_tells_of_each_file(fds: Seq<PollFd>, polled: Seq<Option<u16>>, i: int)
    requires
        polled.len() == fds.len(),
        0 <= i < fds.len(),
    ensures
        ({
            let after = poll::scanned(fds, polled);
            &&& after.len() == fds.len()
            &&& after[i].fd == fds[i].fd && after[i].events == fds[i].events
            &&& after[i].revents == poll::revents_of(fds[i].events, polled[i])
        }),
{
}

/// How many of the files something is told of.
pub proof fn law_files_told_of_are_counted(fds: Seq<PollFd>, n: int)
    requires
        0 <= n <= fds.len(),
    ensures
        poll::ready_count(fds, n) <= n,
        (poll::ready_count(fds, n) == 0) == (forall|i: int|
            0 <= i < n ==> (#[trigger] fds[i]).revents == 0),
        (forall|i: int| 0 <= i < n ==> (#[trigger] fds[i]).revents != 0) ==> poll::ready_count(
            fds,
            n,
        ) == n,
    decreases n,
{
    if n > 0 {
        law_files_told_of_are_counted(fds, n - 1);
        if poll::ready_count(fds, n) == 0 {
            assert(fds[n - 1].revents == 0);
        }
    }
}

/// A wait is over where a file is ready or nobody wants to wait, with how many are; it ends with
/// none at its time, and is broken off by a signal.
pub proof fn law_waits_end(ready: int, immediate: bool)
    requires
        0 <= ready <= 1024,
    ensures
        ready > 0 ==> poll::after_scan(ready, immediate) == PollStep::Return(ready as i64),
        ready == 0 && immediate ==> poll::after_scan(ready, immediate) == PollStep::Return(0),
        ready == 0 && !immediate ==> poll::after_scan(ready, immediate) == PollStep::Wait,
        poll::after_wait(WaitOutcome::TimedOut) == PollStep::Return(0),
        poll::after_wait(WaitOutcome::Interrupted) == PollStep::Return(-4i64),
        poll::after_wait(WaitOutcome::Woken) == PollStep::Scan,
        blocking::after_sleep(WaitOutcome::TimedOut) == Some(-11i64),
        blocking::after_sleep(WaitOutcome::Interrupted) == Some(-4i64),
        blocking::after_sleep(WaitOutcome::Woken) is None,
{
}

/// An attempt that came to something ends the call with that. One that would have to wait ends it
/// where the caller does not want to wait or the time is over, and else the caller sleeps.
pub proof fn law_attempts_end_calls<T>(
    v: T,
    e: i64,
    nonblock: bool,
    deadline: Option<u64>,
    now: u64,
)
    ensures
        blocking::after_attempt(IoAttempt::Ready(v), nonblock, deadline, now) == Some(
            Ok::<T, i64>(v),
        ),
        blocking::after_attempt(IoAttempt::<T>::Failed(e), nonblock, deadline, now) == Some(
            Err::<T, i64>(e),
        ),
        blocking::after_attempt(IoAttempt::<T>::WouldBlock, nonblock, deadline, now) == (
        if nonblock || (deadline is Some && deadline->0 <= now) {
            Some(Err::<T, i64>(-11i64))
        } else {
            None
        }),
{
}

/// A time to wait is in seconds and microseconds or nanoseconds from now. Without one a wait goes
/// on; a time of nothing is no wait.
pub proof fn law_times_to_wait(b: Seq<u8>, micros: bool, now: u64)
    requires
        bytes::le64(b, 0) < 0x8000_0000,
        bytes::le64(b, 8) < 0x8000_0000,
        now <= 0x4000_0000_0000_0000,
    ensures
        ({
            let r = poll::timeout_of(1, micros, Some(b), now);
            let fits = bytes::le64(b, 8) < (if micros {
                1_000_000int
            } else {
                1_000_000_000
            });
            let by = bytes::le64(b, 0) * 1_000_000_000 + bytes::le64(b, 8) * (if micros {
                1000int
            } else {
                1
            });
            &&& poll::timeout_of(0, micros, Some(b), now) == Ok::<(Option<u64>, bool), i64>(
                (None, false),
            )
            &&& poll::timeout_of(1, micros, None, now) == Err::<(Option<u64>, bool), i64>(-14i64)
            &&& !fits ==> r == Err::<(Option<u64>, bool), i64>(-22i64)
            &&& fits && by == 0 ==> r == Ok::<(Option<u64>, bool), i64>((None, true))
            &&& fits && by > 0 ==> r == Ok::<(Option<u64>, bool), i64>(
                (Some((now + by) as u64), false),
            )
        }),
{
    bits::lemma_sign(bytes::le64(b, 0));
    bits::lemma_sign(bytes::le64(b, 8));
}

/// A question with a time in milliseconds: none is no wait, and one below zero no end.
pub proof fn law_milliseconds_to_wait(nfds: u64, buf: Seq<u8>, ms: u64, now: u64)
    requires
        0 < nfds <= 1024,
        now <= 0x4000_0000_0000_0000,
        ms <= 0xffff_ffff,
    ensures
        ({
            let r = waiting::poll_request_of(nfds, Some(buf), ms, now);
            r matches Ok(w) && {
                &&& w.fds == poll::pollfds_in(buf)
                &&& w.mask is None
                &&& w.immediate == (ms == 0)
                &&& 0 < ms < 0x8000_0000 ==> w.deadline == Some((now + ms * 1_000_000) as u64)
                &&& ms == 0 || ms >= 0x8000_0000 ==> w.deadline is None
            }
        }),
        waiting::poll_request_of(1025, Some(buf), ms, now) == Err::<waiting::WaitView, i64>(-22i64),
        waiting::poll_request_of(nfds, None, ms, now) == Err::<waiting::WaitView, i64>(-14i64),
{
    bits::lemma_low_sign(ms);
}

/// The signals that wait meanwhile are a mask of eight bytes.
pub proof fn law_masks_have_eight_bytes(at: u64, size: u64, b: Seq<u8>)
    ensures
        waiting::mask_in(0, size, Some(b)) == Ok::<Option<u64>, i64>(None),
        at != 0 && size == 8 ==> waiting::mask_in(at, size, Some(b)) == Ok::<Option<u64>, i64>(
            Some(bytes::le64(b, 0)),
        ),
        at != 0 && size != 8 ==> waiting::mask_in(at, size, Some(b)) == Err::<Option<u64>, i64>(
            -22i64,
        ),
        at != 0 && size == 8 ==> waiting::mask_in(at, size, None) == Err::<Option<u64>, i64>(-14i64),
{
}

/// A descriptor is in a set where its bit is set: the lowest bit of the first byte is the first.
pub proof fn law_sets_of_descriptors(set: Seq<u8>, k: int)
    requires
        0 <= k < set.len(),
    ensures
        poll::in_set(set, 8 * k) == (set[k] % 2 == 1),
        poll::in_set(set, 8 * k + 1) == ((set[k] / 2) % 2 == 1),
        poll::in_set(set, 8 * k + 2) == ((set[k] / 4) % 2 == 1),
        poll::in_set(set, 8 * k + 3) == ((set[k] / 8) % 2 == 1),
        poll::in_set(set, 8 * k + 4) == ((set[k] / 0x10) % 2 == 1),
        poll::in_set(set, 8 * k + 5) == ((set[k] / 0x20) % 2 == 1),
        poll::in_set(set, 8 * k + 6) == ((set[k] / 0x40) % 2 == 1),
        poll::in_set(set, 8 * k + 7) == ((set[k] / 0x80) % 2 == 1),
{
    bits::lemma_set_bits(set[k]);
    assert((8 * k) / 8 == k && (8 * k) % 8 == 0);
    assert((8 * k + 1) / 8 == k && (8 * k + 1) % 8 == 1);
    assert((8 * k + 2) / 8 == k && (8 * k + 2) % 8 == 2);
    assert((8 * k + 3) / 8 == k && (8 * k + 3) % 8 == 3);
    assert((8 * k + 4) / 8 == k && (8 * k + 4) % 8 == 4);
    assert((8 * k + 5) / 8 == k && (8 * k + 5) % 8 == 5);
    assert((8 * k + 6) / 8 == k && (8 * k + 6) % 8 == 6);
    assert((8 * k + 7) / 8 == k && (8 * k + 7) % 8 == 7);
}

/// One of three sets has the descriptor.
pub open spec fn is_wanted(
    r: Option<Seq<u8>>,
    w: Option<Seq<u8>>,
    e: Option<Seq<u8>>,
    fd: int,
) -> bool {
    poll::set_has(r, fd) || poll::set_has(w, fd) || poll::set_has(e, fd)
}

/// Each descriptor of three sets is asked about once, in order: for reading by the first set, for
/// writing by the second and for what is urgent by the third.
pub proof fn law_each_descriptor_is_asked_about(
    r: Option<Seq<u8>>,
    w: Option<Seq<u8>>,
    e: Option<Seq<u8>>,
    n: int,
)
    requires
        0 <= n <= 1024,
    ensures
        ({
            let s = poll::selected(r, w, e, n);
            &&& forall|i: int|
                0 <= i < s.len() ==> {
                    let p = #[trigger] s[i];
                    &&& 0 <= p.fd < n && is_wanted(r, w, e, p.fd as int)
                    &&& p.events % 2 == 1 <==> poll::set_has(r, p.fd as int)
                    &&& (p.events / 2) % 2 == 1 <==> poll::set_has(e, p.fd as int)
                    &&& (p.events / 4) % 2 == 1 <==> poll::set_has(w, p.fd as int)
                    &&& p.revents == 0
                }
            &&& forall|i: int, j: int|
                0 <= i < j < s.len() ==> (#[trigger] s[i]).fd < (#[trigger] s[j]).fd
            &&& forall|fd: int|
                0 <= fd < n && #[trigger] is_wanted(r, w, e, fd) ==> exists|i: int|
                    0 <= i < s.len() && (#[trigger] s[i]).fd == fd
        }),
    decreases n,
{
    if n > 0 {
        law_each_descriptor_is_asked_about(r, w, e, n - 1);
        let before = poll::selected(r, w, e, n - 1);
        let s = poll::selected(r, w, e, n);
        let events = poll::events_for(r, w, e, n - 1);
        assert((events == 0) == !is_wanted(r, w, e, n - 1));
        if events != 0 {
            let last = PollFd { fd: (n - 1) as i32, events, revents: 0 };
            assert(s == before.push(last));
            assert(s[before.len() as int] == last);
            assert forall|fd: int| 0 <= fd < n && #[trigger] is_wanted(
                r,
                w,
                e,
                fd,
            ) implies exists|i: int| 0 <= i < s.len() && (#[trigger] s[i]).fd == fd by {
                if fd < n - 1 {
                    let i = choose|i: int| 0 <= i < before.len() && (#[trigger] before[i]).fd == fd;
                    assert(s[i] == before[i]);
                } else {
                    assert(s[before.len() as int].fd == fd);
                }
            }
            assert forall|i: int, j: int| 0 <= i < j < s.len() implies (#[trigger] s[i]).fd < (
            #[trigger] s[j]).fd by {
                assert(s[i] == before[i]);
                if j < before.len() {
                    assert(s[j] == before[j]);
                }
            }
        } else {
            assert(s == before);
        }
    }
}

/// The bits by which a file is readable, writable and urgent: an end and an error make it
/// readable, and an error writable.
pub proof fn law_bits_of_readiness()
    ensures
        poll::READABLE == 0x19,
        poll::WRITABLE == 0xc,
        poll::POLLPRI == 2,
{
    bits::lemma_set_bits(0);
}

/// The count of a selection adds up what was found for each set that was given.
pub proof fn law_selection_is_counted_by_sets(fds: Seq<PollFd>, at: Places)
    ensures
        waiting::select_count(fds, at) == (if at.readable != 0 {
            poll::hits(fds, 0x19, fds.len() as int) as int
        } else {
            0
        }) + (if at.writable != 0 {
            poll::hits(fds, 0xc, fds.len() as int) as int
        } else {
            0
        }) + (if at.exceptional != 0 {
            poll::hits(fds, 2, fds.len() as int) as int
        } else {
            0
        }),
{
    law_bits_of_readiness();
}

/// Three sets are told in their order, each where there is a place for it.
pub proof fn law_sets_are_told_in_order(code: i64, at: Places, r: Seq<u8>, w: Seq<u8>, e: Seq<u8>)
    requires
        at.readable != 0,
        at.writable != 0,
        at.exceptional != 0,
    ensures
        waiting::sets_out(code, at, r, w, e).code == code,
        waiting::sets_out(code, at, r, w, e).out == seq![
            (at.readable, r),
            (at.writable, w),
            (at.exceptional, e),
        ],
{
    assert(waiting::sets_out(code, at, r, w, e).out =~= seq![
        (at.readable, r),
        (at.writable, w),
        (at.exceptional, e),
    ]);
}

/// At most sixty-four events are told at once.
pub proof fn law_events_told_at_once(max: u64, ms: i32, mask: Option<u64>)
    ensures
        waiting::epoll_wait_of(true, max, Ok(ms), Ok(mask)) == Ok::<EpollWait, i64>(
            EpollWait {
                max: if max <= 64 {
                    max
                } else {
                    64
                },
                timeout_ms: ms,
                mask,
            },
        ),
        waiting::epoll_wait_of(false, max, Ok(ms), Ok(mask)) == Err::<EpollWait, i64>(-9i64),
{
}

/// An event is told in twelve bytes: what is ready, and what was given with the file.
pub proof fn law_events_are_told_in_twelve_bytes(ready: Seq<EpollEvent>, n: int, k: int)
    requires
        0 <= k < n <= ready.len(),
    ensures
        event::packed_events(ready, n).len() == 12 * n,
        bytes::le32(event::packed_events(ready, n), 12 * k) == ready[k].events,
        bytes::le64(event::packed_events(ready, n), 12 * k + 4) == ready[k].data,
    decreases n,
{
    let before = event::packed_events(ready, n - 1);
    lemma_events_len(ready, n - 1);
    let events = bytes::put32(ready[n - 1].events);
    let data = bytes::put64(ready[n - 1].data);
    layout::lemma_put32(before, ready[n - 1].events);
    layout::lemma_behind(before, events);
    layout::lemma_put64(before + events, ready[n - 1].data);
    layout::lemma_behind(before + events, data);
    if k < n - 1 {
        law_events_are_told_in_twelve_bytes(ready, n - 1, k);
    }
}

proof fn lemma_events_len(ready: Seq<EpollEvent>, n: int)
    requires
        0 <= n <= ready.len(),
    ensures
        event::packed_events(ready, n).len() == 12 * n,
    decreases n,
{
    if n > 0 {
        lemma_events_len(ready, n - 1);
        layout::lemma_put32(Seq::empty(), ready[n - 1].events);
        layout::lemma_put64(Seq::empty(), ready[n - 1].data);
    }
}

/// Nanoseconds are rounded up to milliseconds.
pub proof fn law_nanoseconds_in_milliseconds(ns: u64)
    requires
        ns <= 1_000_000_000_000_000,
    ensures
        event::millis_up(ns) * 1_000_000 >= ns,
        event::millis_up(ns) * 1_000_000 < ns + 1_000_000,
        event::epoll_time(0, None) == Ok::<i32, i64>(-1i32),
        event::epoll_time(1, None) == Err::<i32, i64>(-14i64),
{
}

/// A new descriptor is closed when a program is run where `0o2000000` says so, and does not wait
/// where `0o4000` does.
pub proof fn law_flags_of_new_descriptors(flags: u64)
    ensures
        event::cloexec_flag(flags) == (if (flags / 0o2000000) % 2 == 1 {
            1
        } else {
            0int
        }),
        event::open_flags(0, flags) == (if (flags / 0o4000) % 2 == 1 {
            0o4000
        } else {
            0int
        }),
        event::open_flags(2, flags) == (if (flags / 0o4000) % 2 == 1 {
            0o4002
        } else {
            2int
        }),
{
    bits::lemma_descriptor_bits(flags);
}

/// Questions about files are told one behind the other, and read as they were told.
pub proof fn law_questions_are_told_in_order(fds: Seq<PollFd>, n: int, k: int)
    requires
        0 <= k < n <= fds.len(),
    ensures
        ({
            let s = poll::packed_pollfds(fds, n);
            &&& s.len() == 8 * n
            &&& bytes::le32(s, 8 * k) == fds[k].fd as u32
            &&& bytes::le16(s, 8 * k + 4) == fds[k].events
            &&& bytes::le16(s, 8 * k + 6) == fds[k].revents
        }),
    decreases n,
{
    let s = poll::packed_pollfds(fds, n);
    let front = poll::packed_pollfds(fds, n - 1);
    let p = poll::packed_pollfd(fds[n - 1]);
    law_questions_about_files(fds[n - 1]);
    if n > 1 {
        law_questions_are_told_in_order(fds, n - 1, 0);
    }
    assert(front.len() == 8 * (n - 1));
    layout::lemma_behind(front, p);
    assert(s == front + p);
    if k < n - 1 {
        law_questions_are_told_in_order(fds, n - 1, k);
    } else {
        assert(s[8 * k] == p[0] && s[8 * k + 1] == p[1] && s[8 * k + 2] == p[2] && s[8 * k + 3]
            == p[3]);
        assert(s[8 * k + 4] == p[4] && s[8 * k + 5] == p[5] && s[8 * k + 6] == p[6] && s[8 * k + 7]
            == p[7]);
    }
}

/// A wait that ends takes its own deadline away, and only that.
pub proof fn law_ended_wait_has_no_deadline(
    before: Seq<(u64, Pid)>,
    pid: Pid,
    deadline: u64,
    step: PollStep,
    e: (u64, Pid),
)
    ensures
        ({
            let after = poll::deadlines_after(before, pid, Some(deadline), step);
            &&& step is Return ==> after.contains(e) == (before.contains(e) && e.1 != pid)
            &&& !(step is Return) ==> after == before
            &&& poll::deadlines_after(before, pid, None, step) == before
        }),
{
    let keep = timeout::other_than(pid);
    let after = before.filter(keep);
    if after.contains(e) {
        let i = choose|i: int| 0 <= i < after.len() && after[i] == e;
        before.lemma_filter_contains_rev(keep, e);
        before.lemma_filter_pred(keep, i);
    }
    if before.contains(e) && e.1 != pid {
        let i = choose|i: int| 0 <= i < before.len() && before[i] == e;
        assert(keep(before[i]));
        before.lemma_filter_contains(keep, i);
    }
}

/// A set has a bit for each descriptor below the count, and tells of those for which one of the
/// conditions was found.
pub proof fn law_set_tells_what_was_found(
    set: Seq<u8>,
    fds: Seq<PollFd>,
    mask: u16,
    n: int,
    i: int,
)
    requires
        0 <= n,
        0 <= i < fds.len(),
        0 <= fds[i].fd < n,
        poll::is_result(set, fds, mask, n),
    ensures
        8 * (set.len() - 1) < n <= 8 * set.len(),
        fds[i].revents & mask != 0 ==> poll::in_set(set, fds[i].fd as int),
        (forall|j: int|
            0 <= j < fds.len() && (#[trigger] fds[j]).fd == fds[i].fd ==> fds[j].revents & mask
                == 0) ==> !poll::in_set(set, fds[i].fd as int),
{
    let fd = fds[i].fd as int;
    assert(poll::in_set(set, fd) == poll::hit(fds, mask, fd, fds.len() as int));
}

/// A selection fails where one of its descriptors is not open.
pub proof fn law_selection_of_closed_descriptors(fds: Seq<PollFd>)
    ensures
        poll::some_invalid(fds) == exists|i: int|
            0 <= i < fds.len() && ((#[trigger] fds[i]).revents / 0x20) % 2 == 1,
{
    assert forall|i: int| 0 <= i < fds.len() implies ((#[trigger] fds[i]).revents & 0x20 != 0) == ((
    fds[i].revents / 0x20) % 2 == 1) by {
        bits::lemma_poll_bits(fds[i].revents, 0);
    }
}

/// A wait for files without a time waits for ever, and without a mask keeps the one there is;
/// what is given is what counts.
pub proof fn law_waits_as_given(nfds: u64, read: Seq<u8>, ts: Given, mask: Given, now: u64)
    requires
        0 < nfds <= 1024,
        ts.read is Some,
        mask.read is Some,
    ensures
        ({
            let r = waiting::ppoll_wait_of(nfds, Some(read), ts, mask, 8, now);
            let time = poll::timeout_of(ts.at, false, Some(ts.read->0@), now);
            &&& time is Ok ==> r is Ok && {
                let wait = r->Ok_0;
                &&& wait.fds == poll::pollfds_in(read)
                &&& (wait.deadline, wait.immediate) == time->Ok_0
                &&& ts.at == 0 ==> wait.deadline is None && !wait.immediate
                &&& mask.at == 0 ==> wait.mask is None
                &&& mask.at != 0 ==> wait.mask == Some(bytes::le64(mask.read->0@, 0))
            }
            &&& time is Err ==> r is Err && r->Err_0 == time->Err_0
        }),
{
}

/// Descriptors are selected from the three sets that are given, up to the count; a time in
/// microseconds ends the wait.
pub proof fn law_selects_as_given(nfds: u64, sets: Sets, tv: Given, now: u64)
    requires
        nfds <= 1024,
        sets.readable.read is Some,
        sets.writable.read is Some,
        sets.exceptional.read is Some,
        tv.read is Some,
    ensures
        ({
            let set = |g: Given|
                if g.at == 0 {
                    None
                } else {
                    Some(g.read->0@)
                };
            let r = waiting::select_wait_of(nfds, sets, tv, now);
            let time = poll::timeout_of(tv.at, true, Some(tv.read->0@), now);
            &&& time is Ok ==> r is Ok && {
                let wait = r->Ok_0;
                &&& wait.fds == poll::selected(
                    set(sets.readable),
                    set(sets.writable),
                    set(sets.exceptional),
                    nfds as int,
                )
                &&& (wait.deadline, wait.immediate) == time->Ok_0
                &&& wait.mask is None
            }
            &&& time is Err ==> r is Err && r->Err_0 == time->Err_0
        }),
{
}

/// A selection with a mask finds where the mask stands and how long it is in sixteen bytes; its
/// time is in nanoseconds.
pub proof fn law_selects_with_a_mask(
    nfds: u64,
    sets: Sets,
    ts: Given,
    place: Given,
    mask: Seq<u8>,
    now: u64,
)
    requires
        nfds <= 1024,
        sets.readable.read is Some,
        sets.writable.read is Some,
        sets.exceptional.read is Some,
        ts.read is Some,
        place.read is Some,
        poll::timeout_of(ts.at, false, Some(ts.read->0@), now) is Ok,
    ensures
        ({
            let r = waiting::pselect_wait_of(nfds, sets, ts, place, Some(mask), now);
            let without = waiting::select_wait_of(
                nfds,
                sets,
                Given { at: 0, read: None },
                now,
            );
            let masked = place.at != 0 && bytes::le64(place.read->0@, 0) != 0;
            &&& masked && bytes::le64(place.read->0@, 8) != 8 ==> r is Err && r->Err_0 == -22
            &&& !masked || bytes::le64(place.read->0@, 8) == 8 ==> r is Ok && {
                let wait = r->Ok_0;
                &&& without is Ok && wait.fds == without->Ok_0.fds
                &&& (wait.deadline, wait.immediate) == poll::timeout_of(
                    ts.at,
                    false,
                    Some(ts.read->0@),
                    now,
                )->Ok_0
                &&& wait.mask == (if masked {
                    Some(bytes::le64(mask, 0))
                } else {
                    None
                })
            }
        }),
{
}

/// A time for events is in seconds and nanoseconds.
pub proof fn law_time_for_events(at: u64, b: Seq<u8>)
    requires
        at != 0,
        bytes::le64(b, 0) < 1_000_000,
        bytes::le64(b, 8) < 1_000_000_000,
    ensures
        ({
            let ns = bytes::le64(b, 0) * 1_000_000_000 + bytes::le64(b, 8);
            event::epoll_time(at, Some(b)) matches Ok(ms) && ns <= ms * 1_000_000 < ns + 1_000_000
        }),
        event::epoll_time(at, None) == Err::<i32, i64>(-14i64),
{
    law_nanoseconds_in_milliseconds(
        (bytes::le64(b, 0) * 1_000_000_000 + bytes::le64(b, 8)) as u64,
    );
}

/// A set that cannot be read is an error, unless none is given.
pub proof fn law_sets_that_cannot_be_read(at: u64, nfds: i64, sets: Sets)
    ensures
        waiting::set_in(Given { at: 0, read: None }) == Ok::<Option<Seq<u8>>, i64>(None),
        at != 0 ==> waiting::set_in(Given { at, read: None }) == Err::<Option<Seq<u8>>, i64>(-14i64),
        nfds < 0 || nfds > 1024 ==> waiting::selected_for(nfds, sets) == Err::<Seq<PollFd>, i64>(
            -22i64,
        ),
{
}

} // verus!
