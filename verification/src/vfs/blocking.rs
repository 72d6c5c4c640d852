//! Waiting until something can be done: the attempt, the sleep, and what ends it.
use vstd::prelude::*;

use crate::errno;
use crate::process_model::Pid;
use crate::timeout;
use crate::timeout::Deadlines;

verus! {

/// What an attempt came to.
pub enum IoAttempt<T> {
    Ready(T),
    WouldBlock,
    Failed(i64),
}

/// What ended a sleep.
#[derive(Clone, Copy, Debug, PartialEq, Eq, Structural)]
pub enum WaitOutcome {
    Interrupted,
    TimedOut,
    Woken,
}

/// The result of a call after an attempt; `None` where it is to sleep.
pub open spec fn after_attempt<T>(
    attempt: IoAttempt<T>,
    nonblock: bool,
    deadline: Option<u64>,
    now: u64,
) -> Option<Result<T, i64>> {
    match attempt {
        IoAttempt::Ready(v) => Some(Ok(v)),
        IoAttempt::Failed(e) => Some(Err(e)),
        IoAttempt::WouldBlock => if nonblock {
            Some(Err(errno::EAGAIN))
        } else {
            match deadline {
                Some(d) if now >= d => Some(Err(errno::EAGAIN)),
                _ => None,
            }
        },
    }
}

/// The error that ends a call after a sleep; `None` where it tries again.
pub open spec fn after_sleep(outcome: WaitOutcome) -> Option<i64> {
    match outcome {
        WaitOutcome::Interrupted => Some(errno::EINTR),
        WaitOutcome::TimedOut => Some(errno::EAGAIN),
        WaitOutcome::Woken => None,
    }
}

/// Takes an attempt into account. The process stands in the queue while it attempts and sleeps,
/// which `queued` says, and has its deadline registered while it sleeps. Once there is a result
/// it has neither.
pub fn block_io<T>(
    deadlines: &mut Deadlines,
    queued: &mut bool,
    cur: Pid,
    nonblock: bool,
    deadline: Option<u64>,
    now: u64,
    attempt: IoAttempt<T>,
) -> (result: Option<Result<T, i64>>)
    requires
        old(deadlines).wf(),
    ensures
        final(deadlines).wf(),
        result == after_attempt(attempt, nonblock, deadline, now),
        *final(queued) == result is None,
        match deadline {
            None => *final(deadlines) == *old(deadlines),
            Some(d) => if result is Some {
                final(deadlines)@ == timeout::without_pid(old(deadlines)@, cur)
            } else {
                timeout::put_in_order(
                    timeout::without_pid(old(deadlines)@, cur),
                    final(deadlines)@,
                    (d, cur),
                )
            },
        },
{
    let result: Option<Result<T, i64>> = match attempt {
        IoAttempt::Ready(v) => Some(Ok(v)),
        IoAttempt::Failed(e) => Some(Err(e)),
        IoAttempt::WouldBlock => if nonblock {
            Some(Err(errno::EAGAIN))
        } else {
            match deadline {
                Some(d) => if now >= d {
                    Some(Err(errno::EAGAIN))
                } else {
                    None
                },
                None => None,
            }
        },
    };
    *queued = result.is_none();
    match deadline {
        None => {},
        Some(d) => {
            if result.is_none() {
                timeout::register(deadlines, d, cur);
            } else {
                let _ = timeout::unregister(deadlines, cur);
            }
        },
    }
    result
}

/// Takes the end of a sleep into account: the error that ends the call, or another attempt.
pub fn block_io_woken(
    deadlines: &mut Deadlines,
    queued: &mut bool,
    cur: Pid,
    deadline: Option<u64>,
    outcome: WaitOutcome,
) -> (result: Option<i64>)
    requires
        old(deadlines).wf(),
    ensures
        final(deadlines).wf(),
        result == after_sleep(outcome),
        !*final(queued),
        deadline is None || result is None ==> *final(deadlines) == *old(deadlines),
        deadline is Some && result is Some ==> final(deadlines)@ == timeout::without_pid(
            old(deadlines)@,
            cur,
        ),
{
    *queued = false;
    let result: Option<i64> = match outcome {
        WaitOutcome::Interrupted => Some(errno::EINTR),
        WaitOutcome::TimedOut => Some(errno::EAGAIN),
        WaitOutcome::Woken => None,
    };
    if deadline.is_some() && result.is_some() {
        let _ = timeout::unregister(deadlines, cur);
    }
    result
}

/// A call that may not wait never sleeps.
pub proof fn law_nonblocking_call_never_sleeps<T>(
    attempt: IoAttempt<T>,
    deadline: Option<u64>,
    now: u64,
)
    ensures
        after_attempt(attempt, true, deadline, now) is Some,
{
}

/// A call whose deadline has come does not sleep any more.
pub proof fn law_expired_call_never_sleeps<T>(
    attempt: IoAttempt<T>,
    nonblock: bool,
    deadline: u64,
    now: u64,
)
    requires
        now >= deadline,
    ensures
        after_attempt(attempt, nonblock, Some(deadline), now) is Some,
{
}

} // verus!
