//! The calls that wait for several files, from their arguments to the wait, and from its end to
//! the answer.
use super::event;
use super::poll;
use super::poll::PollFd;
use super::reply;
use super::reply::{Reply, ReplyView};
use super::util;
use crate::bytes;
use crate::errno;
use vstd::prelude::*;

verus! {

/// A wait: for what, until when, whether it is one at all, and what is blocked meanwhile.
pub struct Wait {
    pub fds: Vec<PollFd>,
    pub deadline: Option<u64>,
    pub immediate: bool,
    pub mask: Option<u64>,
}

#[verifier::ext_equal]
pub ghost struct WaitView {
    pub fds: Seq<PollFd>,
    pub deadline: Option<u64>,
    pub immediate: bool,
    pub mask: Option<u64>,
}

pub open spec fn wait_view(r: Result<Wait, i64>) -> Result<WaitView, i64> {
    match r {
        Ok(w) => Ok(
            WaitView {
                fds: w.fds@,
                deadline: w.deadline,
                immediate: w.immediate,
                mask: w.mask,
            },
        ),
        Err(e) => Err(e),
    }
}

/// A place in the caller's memory, and what was read there.
pub struct Given {
    pub at: u64,
    pub read: Option<Vec<u8>>,
}

impl Given {
    pub open spec fn has(&self, len: int) -> bool {
        self.read is Some ==> self.read->0@.len() == len
    }
}

/// The descriptors that `poll` gets.
pub open spec fn polled_for(nfds: u64, read: Option<Seq<u8>>) -> Result<Seq<PollFd>, i64> {
    if nfds > poll::FD_SETSIZE {
        Err(errno::EINVAL)
    } else if nfds == 0 {
        Ok(Seq::empty())
    } else {
        match read {
            None => Err(errno::EFAULT),
            Some(b) => Ok(poll::pollfds_in(b)),
        }
    }
}

pub open spec fn fds_view(r: Result<Vec<PollFd>, i64>) -> Result<Seq<PollFd>, i64> {
    match r {
        Ok(v) => Ok(v@),
        Err(e) => Err(e),
    }
}

fn get_pollfds(nfds: u64, read: Option<Vec<u8>>) -> (r: Result<Vec<PollFd>, i64>)
    ensures
        fds_view(r) == polled_for(nfds, util::bytes_view(read)),
{
    if nfds > poll::FD_SETSIZE {
        return Err(errno::EINVAL);
    }
    if nfds == 0 {
        let none: Vec<PollFd> = Vec::new();
        assert(none@ =~= Seq::empty());
        return Ok(none);
    }
    match read {
        None => Err(errno::EFAULT),
        Some(b) => Ok(poll::read_pollfds(&b)),
    }
}

/// What `poll` waits for. Fewer milliseconds than none are for ever.
pub open spec fn poll_request_of(nfds: u64, read: Option<Seq<u8>>, timeout_ms: u64, now: u64) -> Result<
    WaitView,
    i64,
> {
    match polled_for(nfds, read) {
        Err(e) => Err(e),
        Ok(fds) => {
            let t = timeout_ms as i32;
            Ok(
                WaitView {
                    fds,
                    deadline: if t > 0 {
                        Some(util::later(now, (t * 1_000_000) as u64))
                    } else {
                        None
                    },
                    immediate: t == 0,
                    mask: None,
                },
            )
        },
    }
}

/// `poll`, up to the wait.
pub fn poll_request(nfds: u64, read: Option<Vec<u8>>, timeout_ms: u64, now: u64) -> (r: Result<
    Wait,
    i64,
>)
    requires
        read is Some ==> read->0@.len() == 8 * nfds,
    ensures
        wait_view(r) == poll_request_of(nfds, util::bytes_view(read), timeout_ms, now),
{
    match get_pollfds(nfds, read) {
        Err(e) => Err(e),
        Ok(fds) => {
            let (deadline, immediate) = poll::poll_deadline(timeout_ms, now);
            Ok(Wait { fds, deadline, immediate, mask: None })
        },
    }
}

/// The signals that are blocked meanwhile, where the caller says so.
pub open spec fn mask_in(at: u64, size: u64, read: Option<Seq<u8>>) -> Result<Option<u64>, i64> {
    if at == 0 {
        Ok(None)
    } else if size != 8 {
        Err(errno::EINVAL)
    } else {
        match read {
            None => Err(errno::EFAULT),
            Some(b) => Ok(Some(bytes::le64(b, 0))),
        }
    }
}

/// What `ppoll` waits for: the descriptors are looked at first, then the time, then the signals.
pub open spec fn ppoll_wait_of(
    nfds: u64,
    read: Option<Seq<u8>>,
    ts: Given,
    mask: Given,
    sigsetsize: u64,
    now: u64,
) -> Result<WaitView, i64> {
    match polled_for(nfds, read) {
        Err(e) => Err(e),
        Ok(fds) => match poll::timeout_of(ts.at, false, util::bytes_view(ts.read), now) {
            Err(e) => Err(e),
            Ok((deadline, immediate)) => match mask_in(
                mask.at,
                sigsetsize,
                util::bytes_view(mask.read),
            ) {
                Err(e) => Err(e),
                Ok(mask) => Ok(WaitView { fds, deadline, immediate, mask }),
            },
        },
    }
}

/// `ppoll`, up to the wait.
pub fn sys_ppoll(
    nfds: u64,
    read: Option<Vec<u8>>,
    ts: Given,
    mask: Given,
    sigsetsize: u64,
    now: u64,
) -> (r: Result<Wait, i64>)
    requires
        read is Some ==> read->0@.len() == 8 * nfds,
        ts.has(16),
        mask.has(8),
    ensures
        wait_view(r) == ppoll_wait_of(nfds, util::bytes_view(read), ts, mask, sigsetsize, now),
{
    let fds = match get_pollfds(nfds, read) {
        Err(e) => {
            return Err(e);
        },
        Ok(f) => f,
    };
    let (deadline, immediate) = match poll::timeout_deadline(ts.at, false, ts.read, now) {
        Err(e) => {
            return Err(e);
        },
        Ok(x) => x,
    };
    match poll::read_sigmask(mask.at, sigsetsize, mask.read) {
        Err(e) => Err(e),
        Ok(mask) => Ok(Wait { fds, deadline, immediate, mask }),
    }
}

/// The three sets of `select`.
pub struct Sets {
    pub readable: Given,
    pub writable: Given,
    pub exceptional: Given,
}

impl Sets {
    pub open spec fn have(&self, len: int) -> bool {
        self.readable.has(len) && self.writable.has(len) && self.exceptional.has(len)
    }
}

pub open spec fn set_in(set: Given) -> Result<Option<Seq<u8>>, i64> {
    if set.at == 0 {
        Ok(None)
    } else {
        match set.read {
            None => Err(errno::EFAULT),
            Some(b) => Ok(Some(b@)),
        }
    }
}

/// The descriptors that `select` waits for.
pub open spec fn selected_for(nfds: i64, sets: Sets) -> Result<Seq<PollFd>, i64> {
    if nfds < 0 || nfds > poll::FD_SETSIZE {
        Err(errno::EINVAL)
    } else {
        match (set_in(sets.readable), set_in(sets.writable), set_in(sets.exceptional)) {
            (Ok(r), Ok(w), Ok(e)) => Ok(poll::selected(r, w, e, nfds as int)),
            _ => Err(errno::EFAULT),
        }
    }
}

fn get_set(set: Given) -> (r: Result<Option<Vec<u8>>, i64>)
    ensures
        match r {
            Err(e) => set_in(set) == Err::<Option<Seq<u8>>, i64>(e) && e == errno::EFAULT,
            Ok(b) => set_in(set) == Ok::<Option<Seq<u8>>, i64>(util::bytes_view(b)),
        },
{
    if set.at == 0 {
        return Ok(None);
    }
    match set.read {
        None => Err(errno::EFAULT),
        Some(b) => Ok(Some(b)),
    }
}

fn get_selected(nfds: i64, sets: Sets) -> (r: Result<Vec<PollFd>, i64>)
    requires
        0 <= nfds <= poll::FD_SETSIZE ==> sets.have(poll::set_bytes(nfds as int)),
    ensures
        fds_view(r) == selected_for(nfds, sets),
{
    match poll::select_len(nfds) {
        Err(e) => {
            return Err(e);
        },
        Ok(_) => {},
    }
    match (get_set(sets.readable), get_set(sets.writable), get_set(sets.exceptional)) {
        (Ok(r), Ok(w), Ok(e)) => Ok(poll::select_fds(nfds as usize, &r, &w, &e)),
        _ => Err(errno::EFAULT),
    }
}

/// What `select` waits for: the time is looked at before the sets.
pub open spec fn select_wait_of(nfds: u64, sets: Sets, tv: Given, now: u64) -> Result<
    WaitView,
    i64,
> {
    match poll::timeout_of(tv.at, true, util::bytes_view(tv.read), now) {
        Err(e) => Err(e),
        Ok((deadline, immediate)) => match selected_for(nfds as i64, sets) {
            Err(e) => Err(e),
            Ok(fds) => Ok(WaitView { fds, deadline, immediate, mask: None }),
        },
    }
}

/// `select`, up to the wait.
pub fn sys_select(nfds: u64, sets: Sets, tv: Given, now: u64) -> (r: Result<Wait, i64>)
    requires
        tv.has(16),
        0 <= nfds as i64 <= poll::FD_SETSIZE ==> sets.have(poll::set_bytes((nfds as i64) as int)),
    ensures
        wait_view(r) == select_wait_of(nfds, sets, tv, now),
{
    let (deadline, immediate) = match poll::timeout_deadline(tv.at, true, tv.read, now) {
        Err(e) => {
            return Err(e);
        },
        Ok(x) => x,
    };
    match get_selected(nfds as i64, sets) {
        Err(e) => Err(e),
        Ok(fds) => Ok(Wait { fds, deadline, immediate, mask: None }),
    }
}

/// What `pselect6` waits for: the time is looked at first, then the signals, then the sets.
/// `place` says where the signals are, and how many.
pub open spec fn pselect_wait_of(
    nfds: u64,
    sets: Sets,
    ts: Given,
    place: Given,
    mask: Option<Seq<u8>>,
    now: u64,
) -> Result<WaitView, i64> {
    match poll::timeout_of(ts.at, false, util::bytes_view(ts.read), now) {
        Err(e) => Err(e),
        Ok((deadline, immediate)) => if place.at != 0 && place.read is None {
            Err(errno::EFAULT)
        } else {
            let (at, size) = if place.at == 0 {
                (0u64, 0u64)
            } else {
                (bytes::le64(place.read->0@, 0), bytes::le64(place.read->0@, 8))
            };
            match mask_in(at, size, mask) {
                Err(e) => Err(e),
                Ok(mask) => match selected_for(nfds as i64, sets) {
                    Err(e) => Err(e),
                    Ok(fds) => Ok(WaitView { fds, deadline, immediate, mask }),
                },
            }
        },
    }
}

/// `pselect6`, up to the wait.
pub fn sys_pselect6(
    nfds: u64,
    sets: Sets,
    ts: Given,
    place: Given,
    mask: Option<Vec<u8>>,
    now: u64,
) -> (r: Result<Wait, i64>)
    requires
        ts.has(16),
        place.has(16),
        mask is Some ==> mask->0@.len() == 8,
        0 <= nfds as i64 <= poll::FD_SETSIZE ==> sets.have(poll::set_bytes((nfds as i64) as int)),
    ensures
        wait_view(r) == pselect_wait_of(nfds, sets, ts, place, util::bytes_view(mask), now),
{
    let (deadline, immediate) = match poll::timeout_deadline(ts.at, false, ts.read, now) {
        Err(e) => {
            return Err(e);
        },
        Ok(x) => x,
    };
    let (at, size) = match poll::read_pselect_sigmask(place.at, place.read) {
        Err(e) => {
            return Err(e);
        },
        Ok(x) => x,
    };
    let mask = match poll::read_sigmask(at, size, mask) {
        Err(e) => {
            return Err(e);
        },
        Ok(m) => m,
    };
    match get_selected(nfds as i64, sets) {
        Err(e) => Err(e),
        Ok(fds) => Ok(Wait { fds, deadline, immediate, mask }),
    }
}

/// Where the sets of `select` are.
#[derive(Clone, Copy, PartialEq, Eq, Structural, Debug)]
pub struct Places {
    pub readable: u64,
    pub writable: u64,
    pub exceptional: u64,
}

/// How many descriptors are in the sets that were given.
pub open spec fn select_count(fds: Seq<PollFd>, at: Places) -> int {
    let k = fds.len() as int;
    (if at.readable != 0 {
        poll::hits(fds, poll::READABLE, k) as int
    } else {
        0
    }) + (if at.writable != 0 {
        poll::hits(fds, poll::WRITABLE, k) as int
    } else {
        0
    }) + (if at.exceptional != 0 {
        poll::hits(fds, poll::POLLPRI, k) as int
    } else {
        0
    })
}

/// The answer with the three sets, each where it was given.
pub open spec fn sets_out(code: i64, at: Places, r: Seq<u8>, w: Seq<u8>, e: Seq<u8>) -> ReplyView {
    reply::where_wanted(
        reply::where_wanted(
            reply::where_wanted(reply::plain(code), at.readable, r),
            at.writable,
            w,
        ),
        at.exceptional,
        e,
    )
}

/// The end of `select`: `waited` is what the wait came to, `fds` what it found.
pub fn select_end(fds: &Vec<PollFd>, nfds: u64, at: Places, waited: i64) -> (out: Reply)
    requires
        nfds <= poll::FD_SETSIZE,
        fds@.len() <= nfds,
        poll::are_within(fds@, nfds as int),
    ensures
        if waited < 0 {
            out@ == reply::plain(waited)
        } else if poll::some_invalid(fds@) {
            out@ == reply::plain(errno::EBADF)
        } else {
            exists|r: Seq<u8>, w: Seq<u8>, e: Seq<u8>|
                #![trigger sets_out(select_count(fds@, at) as i64, at, r, w, e)]
                {
                    &&& poll::is_result(r, fds@, poll::READABLE, nfds as int)
                    &&& poll::is_result(w, fds@, poll::WRITABLE, nfds as int)
                    &&& poll::is_result(e, fds@, poll::POLLPRI, nfds as int)
                    &&& out@ == sets_out(select_count(fds@, at) as i64, at, r, w, e)
                }
        },
{
    if waited < 0 {
        return Reply::plain(waited);
    }
    match poll::do_select(
        fds,
        nfds as usize,
        at.readable != 0,
        at.writable != 0,
        at.exceptional != 0,
    ) {
        Err(e) => Reply::plain(e),
        Ok(s) => {
            let ghost (r, w, e) = (s.readable@, s.writable@, s.exceptional@);
            assert(s.count == select_count(fds@, at));
            let mut out = Reply::plain(s.count);
            out.hand_over(at.readable, s.readable);
            out.hand_over(at.writable, s.writable);
            out.hand_over(at.exceptional, s.exceptional);
            assert(out@ == sets_out(select_count(fds@, at) as i64, at, r, w, e));
            out
        },
    }
}

/// A wait for the events of an instance: how many, for how many milliseconds, and what is
/// blocked meanwhile.
#[derive(Clone, Copy, PartialEq, Eq, Structural, Debug)]
pub struct EpollWait {
    pub max: u64,
    pub timeout_ms: i32,
    pub mask: Option<u64>,
}

/// What is waited for: the time is looked at first, then the signals, then the instance.
pub open spec fn epoll_wait_of(
    is_epoll: bool,
    maxevents: u64,
    timeout: Result<i32, i64>,
    mask: Result<Option<u64>, i64>,
) -> Result<EpollWait, i64> {
    match timeout {
        Err(e) => Err(e),
        Ok(timeout_ms) => match mask {
            Err(e) => Err(e),
            Ok(mask) => if !is_epoll {
                Err(errno::EBADF)
            } else {
                Ok(
                    EpollWait {
                        max: if maxevents > event::EPOLL_MAX {
                            event::EPOLL_MAX
                        } else {
                            maxevents
                        },
                        timeout_ms,
                        mask,
                    },
                )
            },
        },
    }
}

/// `epoll_wait`, up to the wait.
pub fn sys_epoll_wait(is_epoll: bool, maxevents: u64, timeout: u64) -> (r: Result<EpollWait, i64>)
    ensures
        r == epoll_wait_of(is_epoll, maxevents, Ok(timeout as i32), Ok(None)),
{
    if !is_epoll {
        return Err(errno::EBADF);
    }
    Ok(EpollWait { max: event::epoll_max(maxevents), timeout_ms: timeout as i32, mask: None })
}

/// `epoll_pwait`, up to the wait.
pub fn sys_epoll_pwait(
    is_epoll: bool,
    maxevents: u64,
    timeout: u64,
    mask: Given,
    sigsetsize: u64,
) -> (r: Result<EpollWait, i64>)
    requires
        mask.has(8),
    ensures
        r == epoll_wait_of(
            is_epoll,
            maxevents,
            Ok(timeout as i32),
            mask_in(mask.at, sigsetsize, util::bytes_view(mask.read)),
        ),
{
    let mask = match poll::read_sigmask(mask.at, sigsetsize, mask.read) {
        Err(e) => {
            return Err(e);
        },
        Ok(m) => m,
    };
    if !is_epoll {
        return Err(errno::EBADF);
    }
    Ok(EpollWait { max: event::epoll_max(maxevents), timeout_ms: timeout as i32, mask })
}

/// `epoll_pwait2`, up to the wait.
pub fn sys_epoll_pwait2(
    is_epoll: bool,
    maxevents: u64,
    ts: Given,
    mask: Given,
    sigsetsize: u64,
) -> (r: Result<EpollWait, i64>)
    requires
        ts.has(16),
        mask.has(8),
    ensures
        r == epoll_wait_of(
            is_epoll,
            maxevents,
            event::epoll_time(ts.at, util::bytes_view(ts.read)),
            mask_in(mask.at, sigsetsize, util::bytes_view(mask.read)),
        ),
{
    let timeout_ms: i32 = match event::epoll_timeout(ts.at, ts.read) {
        Err(e) => {
            return Err(e);
        },
        Ok(t) => t,
    };
    let mask = match poll::read_sigmask(mask.at, sigsetsize, mask.read) {
        Err(e) => {
            return Err(e);
        },
        Ok(m) => m,
    };
    if !is_epoll {
        return Err(errno::EBADF);
    }
    Ok(EpollWait { max: event::epoll_max(maxevents), timeout_ms, mask })
}

} // verus!
