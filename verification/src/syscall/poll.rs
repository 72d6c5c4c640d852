//! Waiting until one of several open files is ready: `poll` and `select`.
use super::time;
use super::util;
use super::util::NANOS;
use crate::bytes;
use crate::errno;
use crate::process_model::Pid;
use crate::timeout;
use crate::timeout::Deadlines;
use crate::vfs::blocking::WaitOutcome;
use vstd::prelude::*;

verus! {

/// The most descriptors that one call looks at.
pub const FD_SETSIZE: u64 = 1024;

pub const POLLIN: u16 = 0x1;

pub const POLLPRI: u16 = 0x2;

pub const POLLOUT: u16 = 0x4;

pub const POLLERR: u16 = 0x8;

pub const POLLHUP: u16 = 0x10;

pub const POLLNVAL: u16 = 0x20;

/// A descriptor, what is waited for on it, and what is there.
#[derive(Clone, Copy, PartialEq, Eq, Structural, Debug)]
pub struct PollFd {
    pub fd: i32,
    pub events: u16,
    pub revents: u16,
}

pub open spec fn pollfd_at(buf: Seq<u8>, at: int) -> PollFd {
    PollFd {
        fd: bytes::le32(buf, at) as i32,
        events: bytes::le16(buf, at + 4),
        revents: bytes::le16(buf, at + 6),
    }
}

pub open spec fn pollfds_in(buf: Seq<u8>) -> Seq<PollFd> {
    Seq::new((buf.len() / 8) as nat, |i: int| pollfd_at(buf, 8 * i))
}

/// Reads descriptors.
pub fn read_pollfds(buf: &Vec<u8>) -> (fds: Vec<PollFd>)
    ensures
        fds@ == pollfds_in(buf@),
{
    let n: usize = buf.len() / 8;
    let mut fds: Vec<PollFd> = Vec::new();
    let mut i: usize = 0;
    while i < n
        invariant
            i <= n,
            n == buf@.len() / 8,
            fds@.len() == i,
            forall|j: int| 0 <= j < i ==> fds@[j] == #[trigger] pollfds_in(buf@)[j],
        decreases n - i,
    {
        assert(8 * i + 8 <= buf.len());
        let at: usize = 8 * i;
        fds.push(
            PollFd {
                fd: bytes::u32_at(buf, at) as i32,
                events: bytes::u16_at(buf, at + 4),
                revents: bytes::u16_at(buf, at + 6),
            },
        );
        i += 1;
    }
    assert(fds@ =~= pollfds_in(buf@));
    fds
}

pub open spec fn packed_pollfd(p: PollFd) -> Seq<u8> {
    bytes::put32(p.fd as u32) + bytes::put16(p.events) + bytes::put16(p.revents)
}

pub open spec fn packed_pollfds(fds: Seq<PollFd>, n: int) -> Seq<u8>
    decreases n,
{
    if n <= 0 {
        Seq::empty()
    } else {
        packed_pollfds(fds, n - 1) + packed_pollfd(fds[n - 1])
    }
}

/// Descriptors for the caller.
pub fn write_pollfds(fds: &Vec<PollFd>) -> (buf: Vec<u8>)
    ensures
        buf@ == packed_pollfds(fds@, fds@.len() as int),
{
    let mut buf: Vec<u8> = Vec::new();
    let mut i: usize = 0;
    while i < fds.len()
        invariant
            i <= fds@.len(),
            buf@ == packed_pollfds(fds@, i as int),
        decreases fds.len() - i,
    {
        let ghost before = buf@;
        bytes::push_u32(&mut buf, fds[i].fd as u32);
        bytes::push_u16(&mut buf, fds[i].events);
        bytes::push_u16(&mut buf, fds[i].revents);
        assert(buf@ =~= before + packed_pollfd(fds@[i as int]));
        i += 1;
    }
    buf
}

/// What is there on a descriptor: of what the file is ready for, what is waited for, and
/// what always counts. A descriptor that is not open is told as such.
pub open spec fn revents_of(events: u16, polled: Option<u16>) -> u16 {
    match polled {
        Some(r) => r & (events | POLLERR | POLLHUP | POLLNVAL),
        None => POLLNVAL,
    }
}

pub open spec fn scanned(fds: Seq<PollFd>, polled: Seq<Option<u16>>) -> Seq<PollFd> {
    Seq::new(
        fds.len(),
        |i: int| PollFd { revents: revents_of(fds[i].events, polled[i]), ..fds[i] },
    )
}

/// How many of the first `n` descriptors have anything.
pub open spec fn ready_count(fds: Seq<PollFd>, n: int) -> nat
    decreases n,
{
    if n <= 0 {
        0
    } else {
        ready_count(fds, n - 1) + (if fds[n - 1].revents != 0 {
            1nat
        } else {
            0
        })
    }
}

/// Looks at all descriptors: `polled` is what each file is ready for, where it is open.
pub fn poll_scan(fds: &mut Vec<PollFd>, polled: &Vec<Option<u16>>) -> (ready: i64)
    requires
        old(fds)@.len() == polled@.len(),
        polled@.len() <= FD_SETSIZE,
    ensures
        final(fds)@ == scanned(old(fds)@, polled@),
        ready == ready_count(final(fds)@, final(fds)@.len() as int),
{
    let ghost all = fds@;
    let ghost want = scanned(all, polled@);
    let mut ready: i64 = 0;
    let mut i: usize = 0;
    while i < fds.len()
        invariant
            i <= fds@.len(),
            fds@.len() == polled@.len(),
            fds@.len() == all.len(),
            polled@.len() <= FD_SETSIZE,
            want == scanned(all, polled@),
            forall|j: int| 0 <= j < i ==> #[trigger] fds@[j] == want[j],
            forall|j: int| i <= j < fds@.len() ==> #[trigger] fds@[j] == all[j],
            ready == ready_count(want, i as int),
            ready <= i,
        decreases fds.len() - i,
    {
        let p = fds[i];
        let revents: u16 = match polled[i] {
            Some(r) => r & (p.events | POLLERR | POLLHUP | POLLNVAL),
            None => POLLNVAL,
        };
        fds.set(i, PollFd { revents, ..p });
        assert(fds@[i as int] == want[i as int]);
        if revents != 0 {
            ready += 1;
        }
        i += 1;
    }
    assert(fds@ =~= want);
    ready
}

/// How waiting for descriptors goes on.
#[derive(Clone, Copy, PartialEq, Eq, Structural, Debug)]
pub enum PollStep {
    /// The wait is over; the caller is no longer in any queue, and has no deadline.
    Return(i64),
    /// The caller waits in the queues of all files.
    Wait,
    /// All files are looked at again.
    Scan,
}

/// After the files were looked at: there is something, or the caller does not wait.
pub open spec fn after_scan(ready: int, immediate: bool) -> PollStep {
    if ready > 0 || immediate {
        PollStep::Return(ready as i64)
    } else {
        PollStep::Wait
    }
}

/// After a wait.
pub open spec fn after_wait(outcome: WaitOutcome) -> PollStep {
    match outcome {
        WaitOutcome::Interrupted => PollStep::Return(errno::EINTR),
        WaitOutcome::TimedOut => PollStep::Return(0),
        WaitOutcome::Woken => PollStep::Scan,
    }
}

/// What is left of the deadlines once a caller goes on as `step` says: with the answer its own
/// goes.
pub open spec fn deadlines_after(
    before: Seq<(u64, Pid)>,
    pid: Pid,
    deadline: Option<u64>,
    step: PollStep,
) -> Seq<(u64, Pid)> {
    if deadline is Some && step is Return {
        timeout::without_pid(before, pid)
    } else {
        before
    }
}

/// Begins a wait: the caller has its deadline until there is an answer.
pub fn poll_begin(deadlines: &mut Deadlines, pid: Pid, deadline: Option<u64>)
    requires
        old(deadlines).wf(),
    ensures
        final(deadlines).wf(),
        match deadline {
            None => *final(deadlines) == *old(deadlines),
            Some(d) => timeout::put_in_order(
                timeout::without_pid(old(deadlines)@, pid),
                final(deadlines)@,
                (d, pid),
            ),
        },
{
    if let Some(d) = deadline {
        timeout::register(deadlines, d, pid);
    }
}

/// Looks at all descriptors, with the caller in the queues of their files: `polled` is what each
/// file is ready for, where it is open. `queued` says whether the caller stays in the queues.
pub fn poll_round(
    deadlines: &mut Deadlines,
    queued: &mut bool,
    pid: Pid,
    deadline: Option<u64>,
    immediate: bool,
    fds: &mut Vec<PollFd>,
    polled: &Vec<Option<u16>>,
) -> (step: PollStep)
    requires
        old(deadlines).wf(),
        old(fds)@.len() == polled@.len(),
        polled@.len() <= FD_SETSIZE,
    ensures
        final(deadlines).wf(),
        final(fds)@ == scanned(old(fds)@, polled@),
        step == after_scan(
            ready_count(final(fds)@, final(fds)@.len() as int) as int,
            immediate,
        ),
        *final(queued) == step is Wait,
        final(deadlines)@ == deadlines_after(old(deadlines)@, pid, deadline, step),
{
    let ready: i64 = poll_scan(fds, polled);
    *queued = ready == 0 && !immediate;
    if ready > 0 || immediate {
        if deadline.is_some() {
            let _ = timeout::unregister(deadlines, pid);
        }
        return PollStep::Return(ready);
    }
    PollStep::Wait
}

/// Takes the end of a sleep into account: the caller leaves the queues.
pub fn poll_woken(
    deadlines: &mut Deadlines,
    queued: &mut bool,
    pid: Pid,
    deadline: Option<u64>,
    outcome: WaitOutcome,
) -> (step: PollStep)
    requires
        old(deadlines).wf(),
    ensures
        final(deadlines).wf(),
        step == after_wait(outcome),
        !*final(queued),
        final(deadlines)@ == deadlines_after(old(deadlines)@, pid, deadline, step),
{
    *queued = false;
    let step = match outcome {
        WaitOutcome::Interrupted => PollStep::Return(errno::EINTR),
        WaitOutcome::TimedOut => PollStep::Return(0),
        WaitOutcome::Woken => PollStep::Scan,
    };
    if deadline.is_some() {
        match step {
            PollStep::Return(_) => {
                let _ = timeout::unregister(deadlines, pid);
            },
            _ => {},
        }
    }
    step
}

/// Whether a caller still has to wait: its time is not over, and it is still in all queues.
pub fn still_waiting(deadline: Option<u64>, now: u64, in_all_queues: bool) -> (r: bool)
    ensures
        r == (in_all_queues && (deadline is None || now < deadline->0)),
{
    match deadline {
        Some(d) => if now >= d {
            false
        } else {
            in_all_queues
        },
        None => in_all_queues,
    }
}

/// How many bytes of descriptors are read.
pub fn poll_len(nfds: u64) -> (r: Result<u64, i64>)
    ensures
        r == (if nfds > FD_SETSIZE {
            Err(errno::EINVAL)
        } else {
            Ok::<u64, i64>((8 * nfds) as u64)
        }),
{
    if nfds > FD_SETSIZE {
        return Err(errno::EINVAL);
    }
    Ok(8 * nfds)
}

/// Until when `poll` waits, and whether it waits at all: milliseconds, of which fewer than
/// none are for ever.
pub fn poll_deadline(timeout_ms: u64, now: u64) -> (r: (Option<u64>, bool))
    ensures
        ({
            let t = timeout_ms as i32;
            r == (
                if t > 0 {
                    Some(util::later(now, (t * 1_000_000) as u64))
                } else {
                    None
                },
                t == 0,
            )
        }),
{
    let t: i32 = timeout_ms as i32;
    if t > 0 {
        (Some(now.saturating_add((t as u64) * 1_000_000)), false)
    } else {
        (None, t == 0)
    }
}

/// `poll`, once the wait is over: the answer, and the descriptors that go out as far as they
/// can.
pub fn sys_poll(fds: &Vec<PollFd>, code: i64) -> (r: Option<Vec<u8>>)
    ensures
        r is Some == (code >= 0 && fds@.len() > 0),
        r is Some ==> r->0@ == packed_pollfds(fds@, fds@.len() as int),
{
    if code >= 0 && fds.len() > 0 {
        Some(write_pollfds(fds))
    } else {
        None
    }
}

/// Until when a wait lasts, and whether there is any: a time of nothing does not wait.
pub open spec fn timeout_of(ptr: u64, is_timeval: bool, buf: Option<Seq<u8>>, now: u64) -> Result<
    (Option<u64>, bool),
    i64,
> {
    if ptr == 0 {
        Ok((None, false))
    } else if buf is None {
        Err(errno::EFAULT)
    } else {
        let sec = bytes::le64(buf->0, 0) as i64;
        let frac = bytes::le64(buf->0, 8) as i64;
        let limit = if is_timeval {
            1_000_000int
        } else {
            1_000_000_000int
        };
        let ns = if is_timeval {
            time::micros_of(sec as u64, frac as u64)
        } else {
            util::nanos_of(sec as u64, frac as u64)
        };
        if sec < 0 || frac < 0 || frac >= limit {
            Err(errno::EINVAL)
        } else if ns == 0 {
            Ok((None, true))
        } else {
            Ok((Some(util::later(now, ns)), false))
        }
    }
}

/// Until when a wait lasts.
pub fn timeout_deadline(ptr: u64, is_timeval: bool, buf: Option<Vec<u8>>, now: u64) -> (r: Result<
    (Option<u64>, bool),
    i64,
>)
    requires
        buf is Some ==> buf->0@.len() == 16,
    ensures
        r == timeout_of(ptr, is_timeval, util::bytes_view(buf), now),
{
    if ptr == 0 {
        return Ok((None, false));
    }
    let b = match buf {
        Some(b) => b,
        None => {
            return Err(errno::EFAULT);
        },
    };
    let sec: i64 = bytes::u64_at(&b, 0) as i64;
    let frac: i64 = bytes::u64_at(&b, 8) as i64;
    let limit: i64 = if is_timeval {
        1_000_000
    } else {
        1_000_000_000
    };
    if sec < 0 || frac < 0 || frac >= limit {
        return Err(errno::EINVAL);
    }
    let part: u64 = if is_timeval {
        (frac as u64) * 1_000
    } else {
        frac as u64
    };
    let ns: u64 = util::total_nanos(sec as u64, part);
    if ns == 0 {
        Ok((None, true))
    } else {
        Ok((Some(now.saturating_add(ns)), false))
    }
}

/// Whether a descriptor is in a set.
pub open spec fn in_set(set: Seq<u8>, fd: int) -> bool {
    (set[fd / 8] >> ((fd % 8) as u8)) & 1u8 != 0
}

pub open spec fn set_has(set: Option<Seq<u8>>, fd: int) -> bool {
    set is Some && in_set(set->0, fd)
}

/// How many bytes a set of `n` descriptors has.
pub open spec fn set_bytes(n: int) -> int {
    (n + 7) / 8
}

/// What is waited for on a descriptor.
pub open spec fn events_for(
    r: Option<Seq<u8>>,
    w: Option<Seq<u8>>,
    e: Option<Seq<u8>>,
    fd: int,
) -> u16 {
    ((if set_has(r, fd) {
        POLLIN as int
    } else {
        0
    }) + (if set_has(w, fd) {
        POLLOUT as int
    } else {
        0
    }) + (if set_has(e, fd) {
        POLLPRI as int
    } else {
        0
    })) as u16
}

/// Those of the first `n` descriptors that are in a set, with what is waited for on each.
pub open spec fn selected(
    r: Option<Seq<u8>>,
    w: Option<Seq<u8>>,
    e: Option<Seq<u8>>,
    n: int,
) -> Seq<PollFd>
    decreases n,
{
    if n <= 0 {
        Seq::empty()
    } else {
        let before = selected(r, w, e, n - 1);
        let events = events_for(r, w, e, n - 1);
        if events == 0 {
            before
        } else {
            before.push(PollFd { fd: (n - 1) as i32, events, revents: 0 })
        }
    }
}

fn has_fd(set: &Option<Vec<u8>>, fd: usize) -> (r: bool)
    requires
        set is Some ==> fd / 8 < set->0@.len(),
    ensures
        r == set_has(util::bytes_view(*set), fd as int),
{
    match set {
        Some(s) => (s[fd / 8] >> ((fd % 8) as u8)) & 1u8 != 0,
        None => false,
    }
}

/// How many bytes of each set `select` reads.
pub fn select_len(nfds: i64) -> (r: Result<usize, i64>)
    ensures
        r == (if nfds < 0 || nfds > FD_SETSIZE {
            Err(errno::EINVAL)
        } else {
            Ok::<usize, i64>(set_bytes(nfds as int) as usize)
        }),
{
    if nfds < 0 || nfds > FD_SETSIZE as i64 {
        return Err(errno::EINVAL);
    }
    Ok(((nfds as usize) + 7) / 8)
}

/// What `select` waits for, as `poll` does.
pub fn select_fds(n: usize, r: &Option<Vec<u8>>, w: &Option<Vec<u8>>, e: &Option<Vec<u8>>) -> (fds:
    Vec<PollFd>)
    requires
        n <= FD_SETSIZE,
        r is Some ==> r->0@.len() == set_bytes(n as int),
        w is Some ==> w->0@.len() == set_bytes(n as int),
        e is Some ==> e->0@.len() == set_bytes(n as int),
    ensures
        fds@ == selected(
            util::bytes_view(*r),
            util::bytes_view(*w),
            util::bytes_view(*e),
            n as int,
        ),
{
    let mut fds: Vec<PollFd> = Vec::new();
    let mut fd: usize = 0;
    while fd < n
        invariant
            fd <= n,
            n <= FD_SETSIZE,
            r is Some ==> r->0@.len() == set_bytes(n as int),
            w is Some ==> w->0@.len() == set_bytes(n as int),
            e is Some ==> e->0@.len() == set_bytes(n as int),
            fds@ == selected(
                util::bytes_view(*r),
                util::bytes_view(*w),
                util::bytes_view(*e),
                fd as int,
            ),
        decreases n - fd,
    {
        let mut events: u16 = 0;
        if has_fd(r, fd) {
            events += POLLIN;
        }
        if has_fd(w, fd) {
            events += POLLOUT;
        }
        if has_fd(e, fd) {
            events += POLLPRI;
        }
        if events != 0 {
            fds.push(PollFd { fd: fd as i32, events, revents: 0 });
        }
        fd += 1;
    }
    fds
}

/// What `select` counts as ready to read, to write, and as an exception.
pub const READABLE: u16 = POLLIN | POLLHUP | POLLERR;

pub const WRITABLE: u16 = POLLOUT | POLLERR;

/// Whether one of the first `k` descriptors is `fd` and has something of `mask`.
pub open spec fn hit(fds: Seq<PollFd>, mask: u16, fd: int, k: int) -> bool {
    exists|i: int|
        0 <= i < k && (#[trigger] fds[i]).fd == fd && fds[i].revents & mask != 0
}

/// How many of the first `k` descriptors have something of `mask`.
pub open spec fn hits(fds: Seq<PollFd>, mask: u16, k: int) -> nat
    decreases k,
{
    if k <= 0 {
        0
    } else {
        hits(fds, mask, k - 1) + (if fds[k - 1].revents & mask != 0 {
            1nat
        } else {
            0
        })
    }
}

/// A set of `n` descriptors with exactly those that have something of `mask`.
pub open spec fn is_result(set: Seq<u8>, fds: Seq<PollFd>, mask: u16, n: int) -> bool {
    set.len() == set_bytes(n) && forall|fd: int|
        0 <= fd < 8 * set.len() ==> #[trigger] in_set(set, fd) == hit(
            fds,
            mask,
            fd,
            fds.len() as int,
        )
}

pub open spec fn are_within(fds: Seq<PollFd>, n: int) -> bool {
    forall|i: int| 0 <= i < fds.len() ==> 0 <= (#[trigger] fds[i]).fd < n
}

proof fn lemma_bit(b: u8, k: u8, j: u8)
    requires
        k < 8,
        j < 8,
    ensures
        ((b | (1u8 << k)) >> j) & 1u8 != 0 <==> (j == k || (b >> j) & 1u8 != 0),
{
    assert((((b | (1u8 << k)) >> j) & 1u8 != 0) == (j == k || (b >> j) & 1u8 != 0)) by (bit_vector)
        requires
            k < 8,
            j < 8,
    ;
}

fn result_set(fds: &Vec<PollFd>, mask: u16, n: usize) -> (r: (Vec<u8>, i64))
    requires
        n <= FD_SETSIZE,
        fds@.len() <= FD_SETSIZE,
        are_within(fds@, n as int),
    ensures
        is_result(r.0@, fds@, mask, n as int),
        r.1 == hits(fds@, mask, fds@.len() as int),
        r.1 <= fds@.len(),
{
    let len: usize = (n + 7) / 8;
    let mut set: Vec<u8> = Vec::new();
    bytes::push_zeros(&mut set, len);
    let mut count: i64 = 0;
    let mut i: usize = 0;
    assert(set@.len() == len);
    assert forall|fd: int| 0 <= fd < 8 * set@.len() implies #[trigger] in_set(set@, fd) == hit(
        fds@,
        mask,
        fd,
        0,
    ) by {
        let k = (fd % 8) as u8;
        assert((0u8 >> k) & 1u8 == 0) by (bit_vector);
    }
    while i < fds.len()
        invariant
            i <= fds@.len(),
            n <= FD_SETSIZE,
            fds@.len() <= FD_SETSIZE,
            are_within(fds@, n as int),
            set@.len() == len,
            len == set_bytes(n as int),
            forall|fd: int|
                0 <= fd < 8 * len ==> #[trigger] in_set(set@, fd) == hit(fds@, mask, fd, i as int),
            count == hits(fds@, mask, i as int),
            count <= i,
        decreases fds.len() - i,
    {
        let p = fds[i];
        assert(0 <= fds@[i as int].fd < n);
        let ghost before = set@;
        if p.revents & mask != 0 {
            let at: usize = (p.fd as usize) / 8;
            let k: u8 = ((p.fd as usize) % 8) as u8;
            let b: u8 = set[at];
            set.set(at, b | (1u8 << k));
            count += 1;
            assert forall|fd: int| 0 <= fd < 8 * len implies #[trigger] in_set(set@, fd) == hit(
                fds@,
                mask,
                fd,
                i + 1,
            ) by {
                assert(in_set(before, fd) == hit(fds@, mask, fd, i as int));
                let j = (fd % 8) as u8;
                if fd / 8 == at {
                    lemma_bit(b, k, j);
                    if j == k {
                        assert(fds@[i as int].fd == fd);
                    }
                }
                if hit(fds@, mask, fd, i + 1) && fd != p.fd {
                    let w = choose|w: int|
                        0 <= w < i + 1 && (#[trigger] fds@[w]).fd == fd && fds@[w].revents & mask
                            != 0;
                    assert(w < i);
                }
            }
        } else {
            assert forall|fd: int| 0 <= fd < 8 * len implies #[trigger] in_set(set@, fd) == hit(
                fds@,
                mask,
                fd,
                i + 1,
            ) by {
                assert(in_set(before, fd) == hit(fds@, mask, fd, i as int));
                if hit(fds@, mask, fd, i + 1) {
                    let w = choose|w: int|
                        0 <= w < i + 1 && (#[trigger] fds@[w]).fd == fd && fds@[w].revents & mask
                            != 0;
                    assert(w < i);
                }
            }
        }
        i += 1;
    }
    (set, count)
}

/// The sets that `select` gives back, and how many descriptors are in them.
pub struct Selected {
    pub count: i64,
    pub readable: Vec<u8>,
    pub writable: Vec<u8>,
    pub exceptional: Vec<u8>,
}

pub open spec fn some_invalid(fds: Seq<PollFd>) -> bool {
    exists|i: int| 0 <= i < fds.len() && (#[trigger] fds[i]).revents & POLLNVAL != 0
}

/// `select`, once the wait is over: each set that was given comes back with what is ready.
/// A descriptor that is not open makes the call fail.
pub fn do_select(fds: &Vec<PollFd>, n: usize, r: bool, w: bool, e: bool) -> (out: Result<
    Selected,
    i64,
>)
    requires
        n <= FD_SETSIZE,
        fds@.len() <= n,
        are_within(fds@, n as int),
    ensures
        match out {
            Err(code) => code == errno::EBADF && some_invalid(fds@),
            Ok(s) => {
                let k = fds@.len() as int;
                &&& !some_invalid(fds@)
                &&& is_result(s.readable@, fds@, READABLE, n as int)
                &&& is_result(s.writable@, fds@, WRITABLE, n as int)
                &&& is_result(s.exceptional@, fds@, POLLPRI, n as int)
                &&& s.count == (if r {
                    hits(fds@, READABLE, k)
                } else {
                    0
                }) + (if w {
                    hits(fds@, WRITABLE, k)
                } else {
                    0
                }) + (if e {
                    hits(fds@, POLLPRI, k)
                } else {
                    0
                })
            },
        },
{
    let mut i: usize = 0;
    while i < fds.len()
        invariant
            i <= fds@.len(),
            forall|j: int| 0 <= j < i ==> (#[trigger] fds@[j]).revents & POLLNVAL == 0,
        decreases fds.len() - i,
    {
        if fds[i].revents & POLLNVAL != 0 {
            return Err(errno::EBADF);
        }
        i += 1;
    }
    let (readable, nr) = result_set(fds, READABLE, n);
    let (writable, nw) = result_set(fds, WRITABLE, n);
    let (exceptional, ne) = result_set(fds, POLLPRI, n);
    let mut count: i64 = 0;
    if r {
        count += nr;
    }
    if w {
        count += nw;
    }
    if e {
        count += ne;
    }
    Ok(Selected { count, readable, writable, exceptional })
}

/// What `select` tells of the time that is left, as far as it can.
pub fn select_left(tv: u64, code: i64, deadline: Option<u64>, now: u64) -> (r: Option<Vec<u8>>)
    ensures
        r is Some == (tv != 0 && code >= 0),
        r is Some ==> r->0@ == time::packed_micros(
            if deadline is Some {
                time::remaining(deadline->0, now)
            } else {
                0
            },
        ),
{
    if tv == 0 || code < 0 {
        return None;
    }
    let left: u64 = match deadline {
        Some(d) => d.saturating_sub(now),
        None => 0,
    };
    let mut b: Vec<u8> = Vec::new();
    bytes::push_u64(&mut b, left / NANOS);
    bytes::push_u64(&mut b, left % NANOS / 1_000);
    assert(b@ =~= time::packed_micros(left));
    Some(b)
}

/// The signals that are blocked during a wait, where the caller says so.
pub fn read_sigmask(ptr: u64, sigsetsize: u64, buf: Option<Vec<u8>>) -> (r: Result<
    Option<u64>,
    i64,
>)
    requires
        buf is Some ==> buf->0@.len() == 8,
    ensures
        r == (if ptr == 0 {
            Ok(None)
        } else if sigsetsize != 8 {
            Err(errno::EINVAL)
        } else if buf is None {
            Err(errno::EFAULT)
        } else {
            Ok::<Option<u64>, i64>(Some(bytes::le64(buf->0@, 0)))
        }),
{
    if ptr == 0 {
        return Ok(None);
    }
    if sigsetsize != 8 {
        return Err(errno::EINVAL);
    }
    match buf {
        None => Err(errno::EFAULT),
        Some(b) => Ok(Some(bytes::u64_at(&b, 0))),
    }
}

/// Where `pselect6` has its mask, and how long it is; nowhere where there is none.
pub fn read_pselect_sigmask(arg: u64, buf: Option<Vec<u8>>) -> (r: Result<(u64, u64), i64>)
    requires
        buf is Some ==> buf->0@.len() == 16,
    ensures
        r == (if arg == 0 {
            Ok((0u64, 0u64))
        } else if buf is None {
            Err(errno::EFAULT)
        } else {
            Ok::<(u64, u64), i64>((bytes::le64(buf->0@, 0), bytes::le64(buf->0@, 8)))
        }),
{
    if arg == 0 {
        return Ok((0, 0));
    }
    match buf {
        None => Err(errno::EFAULT),
        Some(b) => Ok((bytes::u64_at(&b, 0), bytes::u64_at(&b, 8))),
    }
}

/// What is blocked during a wait, and what is to be blocked again after it.
pub open spec fn entered(blocked: u64, mask: Option<u64>) -> (u64, Option<u64>) {
    match mask {
        Some(m) => (m, Some(blocked)),
        None => (blocked, None),
    }
}

/// What is blocked after a wait.
pub open spec fn left_with(blocked: u64, saved: Option<u64>) -> u64 {
    match saved {
        Some(m) => m,
        None => blocked,
    }
}

/// Blocks signals for a wait, where the caller says which, and gives back those before.
pub fn enter_sigmask(blocked: &mut u64, mask: Option<u64>) -> (saved: Option<u64>)
    ensures
        (*final(blocked), saved) == entered(*old(blocked), mask),
{
    match mask {
        Some(m) => {
            let before: u64 = *blocked;
            *blocked = m;
            Some(before)
        },
        None => None,
    }
}

/// Blocks what was blocked before a wait.
pub fn leave_sigmask(blocked: &mut u64, saved: Option<u64>)
    ensures
        *final(blocked) == left_with(*old(blocked), saved),
{
    if let Some(m) = saved {
        *blocked = m;
    }
}

/// A wait leaves what is blocked as it was.
pub proof fn law_wait_keeps_what_is_blocked(blocked: u64, mask: Option<u64>)
    ensures
        left_with(entered(blocked, mask).0, entered(blocked, mask).1) == blocked,
{
}

proof fn lemma_selected(
    r: Option<Seq<u8>>,
    w: Option<Seq<u8>>,
    e: Option<Seq<u8>>,
    n: int,
)
    requires
        0 <= n <= FD_SETSIZE,
    ensures
        selected(r, w, e, n).len() <= n,
        are_within(selected(r, w, e, n), n),
    decreases n,
{
    if n > 0 {
        lemma_selected(r, w, e, n - 1);
        let before = selected(r, w, e, n - 1);
        let all = selected(r, w, e, n);
        assert forall|i: int| 0 <= i < all.len() implies 0 <= (#[trigger] all[i]).fd < n by {
            if i < before.len() {
                assert(all[i] == before[i]);
            }
        }
    }
}

/// What `select` waits for can be looked at and given back.
pub proof fn law_select_fits_poll(
    r: Option<Seq<u8>>,
    w: Option<Seq<u8>>,
    e: Option<Seq<u8>>,
    n: int,
    polled: Seq<Option<u16>>,
)
    requires
        0 <= n <= FD_SETSIZE,
        polled.len() == selected(r, w, e, n).len(),
    ensures
        selected(r, w, e, n).len() <= n,
        are_within(scanned(selected(r, w, e, n), polled), n),
{
    lemma_selected(r, w, e, n);
    let s = selected(r, w, e, n);
    let t = scanned(s, polled);
    assert forall|i: int| 0 <= i < t.len() implies 0 <= (#[trigger] t[i]).fd < n by {
        assert(t[i].fd == s[i].fd);
    }
}

} // verus!
