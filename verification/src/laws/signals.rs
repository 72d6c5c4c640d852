//! Signals: whom they reach, what they do, and how they are waited for.

use vstd::prelude::*;

use super::bits;
use super::layout;
use crate::bytes;
use crate::process_model::Pid;
use crate::syscall::signal;
use crate::syscall::signal::{AltStack, Kill, Queued, SigAction, StackChange};

verus! {

/// A signal to a thread has a number below sixty-four; the number `0` only asks whether the thread
/// is there.
pub proof fn law_signal_reaches_its_thread(sig: u64, target: Option<Pid>)
    ensures
        ({
            let low = sig % 0x1_0000_0000;
            let r = signal::thread_kill(sig, target);
            &&& low >= 64 ==> r == Kill::Reply(-22i64)
            &&& low < 64 && target is None ==> r == Kill::Reply(-3i64)
            &&& sig == 0 && target is Some ==> r == Kill::Reply(0)
            &&& 0 < sig < 64 ==> (target matches Some(p) ==> r == Kill::Process(p, sig as u32))
        }),
{
    bits::lemma_low_parts(sig);
}

/// The stack for signals is told by where it is, its flags and its size. It is given up where the
/// second bit of its flags says so, is not too small, and does not change while it is in use.
pub proof fn law_stack_for_signals(a: AltStack, min_size: u64)
    ensures
        ({
            let s = signal::packed_stack(a);
            &&& s.len() == 24
            &&& bytes::le64(s, 0) == a.sp
            &&& bytes::le32(s, 8) == a.flags as u32
            &&& bytes::le64(s, 16) == a.size
        }),
        signal::stack_request(true, Some(a), min_size) == Err::<StackChange, i64>(-1i64),
        signal::stack_request(false, None, min_size) == Err::<StackChange, i64>(-14i64),
        a.flags == 2 ==> signal::stack_request(false, Some(a), min_size) == Ok::<StackChange, i64>(
            StackChange::Disable,
        ),
        a.flags == 0 ==> signal::stack_request(false, Some(a), min_size) == (if a.size < min_size {
            Err::<StackChange, i64>(-22i64)
        } else {
            Ok(StackChange::Use(a))
        }),
{
    let none = Seq::<u8>::empty();
    let s0 = bytes::put64(a.sp);
    layout::lemma_put64(none, a.sp);
    assert(none + s0 =~= s0);
    let s1 = s0 + bytes::put32(a.flags as u32);
    layout::lemma_put32(s0, a.flags as u32);
    layout::lemma_behind(s0, bytes::put32(a.flags as u32));
    let s2 = s1 + bytes::zeros(4);
    layout::lemma_behind(s1, bytes::zeros(4));
    layout::lemma_put64(s2, a.size);
    layout::lemma_behind(s2, bytes::put64(a.size));
    bits::lemma_descriptor_bits(0);
}

/// What a signal does is told by the handler, the flags, where to go on after it, and the signals
/// that wait meanwhile.
pub proof fn law_action_stands_at_its_places(a: SigAction)
    ensures
        ({
            let s = signal::packed_action(a);
            &&& s.len() == 32
            &&& bytes::le64(s, 0) == a.handler
            &&& bytes::le64(s, 8) == a.flags
            &&& bytes::le64(s, 16) == a.restorer
            &&& bytes::le64(s, 24) == a.mask
        }),
{
    let none = Seq::<u8>::empty();
    let s0 = bytes::put64(a.handler);
    layout::lemma_put64(none, a.handler);
    assert(none + s0 =~= s0);
    let s1 = s0 + bytes::put64(a.flags);
    layout::lemma_put64(s0, a.flags);
    layout::lemma_behind(s0, bytes::put64(a.flags));
    let s2 = s1 + bytes::put64(a.restorer);
    layout::lemma_put64(s1, a.restorer);
    layout::lemma_behind(s1, bytes::put64(a.restorer));
    layout::lemma_put64(s2, a.mask);
    layout::lemma_behind(s2, bytes::put64(a.mask));
}

/// What a signal does may be set for all but `9` and `19`, and asked for all.
pub proof fn law_two_signals_keep_what_they_do(signum: u64, sets: bool, size: u64)
    ensures
        signal::action_allowed(signum, sets, size) == (1 <= signum <= 63 && size == 8 && !(sets && (
        signum == 9 || signum == 19))),
{
}

/// A wait for a signal ends so much later than now; without a time it goes on.
pub proof fn law_wait_for_a_signal_ends(b: Seq<u8>, now: u64)
    requires
        now + bytes::le64(b, 0) * 1_000_000_000 + bytes::le64(b, 8) <= u64::MAX,
    ensures
        ({
            let by = bytes::le64(b, 0) * 1_000_000_000 + bytes::le64(b, 8);
            &&& signal::wait_until(0, Some(b), now) == Ok::<Option<u64>, i64>(None)
            &&& signal::wait_until(1, None, now) == Err::<Option<u64>, i64>(-14i64)
            &&& by > 0 ==> signal::wait_until(1, Some(b), now) == Ok::<Option<u64>, i64>(
                Some((now + by) as u64),
            )
            &&& by == 0 ==> signal::wait_until(1, Some(b), now) == Ok::<Option<u64>, i64>(
                Some(0u64),
            )
        }),
{
}

/// A signal that was taken is told by its number and where it came from.
pub proof fn law_taken_signal_is_told(signum: u32, code: i32)
    ensures
        ({
            let s = signal::packed_info(signum, code);
            &&& s.len() == 128
            &&& bytes::le32(s, 0) == signum
            &&& bytes::le32(s, 4) == 0
            &&& bytes::le32(s, 8) == code as u32
        }),
{
    let none = Seq::<u8>::empty();
    let s0 = bytes::put32(signum);
    layout::lemma_put32(none, signum);
    assert(none + s0 =~= s0);
    let s1 = s0 + bytes::put32(0);
    layout::lemma_put32(s0, 0);
    layout::lemma_behind(s0, bytes::put32(0));
    let s2 = s1 + bytes::put32(code as u32);
    layout::lemma_put32(s1, code as u32);
    layout::lemma_behind(s1, bytes::put32(code as u32));
    layout::lemma_behind(s2, bytes::zeros(116));
}

/// A signal is queued with the value that it came with. Only the first user may say that it came
/// from the kernel or was sent plainly.
pub proof fn law_signal_is_queued_with_its_value(target: Pid, sig: u64, b: Seq<u8>, euid: u32)
    ensures
        ({
            let code = bytes::le32(b, 8);
            let r = signal::queue_request(target, sig, Some(b), euid);
            &&& code < 0x8000_0000 && euid != 0 ==> r == Err::<Queued, i64>(-1i64)
            &&& code >= 0x8000_0000 || euid == 0 ==> r == Ok::<Queued, i64>(
                Queued { target, sig: sig as u32, si_code: code as i32, value: bytes::le64(b, 24) },
            )
            &&& signal::queue_request(target, sig, None, euid) == Err::<Queued, i64>(-14i64)
        }),
{
    bits::lemma_low_sign(bytes::le32(b, 8) as u64);
}

/// One signal is the lowest of those that wait.
pub proof fn law_one_signal_is_the_lowest(mask: u64, k: int, other: int)
    requires
        signal::is_lowest(mask, k),
    ensures
        0 <= k < 64,
        0 <= other < k ==> !signal::bit(mask, other),
        signal::is_lowest(mask, other) ==> other == k,
        mask != 0,
        k == 0 <==> mask % 2 == 1,
        k == 1 <==> mask % 4 == 2,
{
    bits::lemma_word_bits(mask);
    assert(signal::bit(mask, k));
    if k > 0 {
        assert(!signal::bit(mask, 0));
    }
    if k > 1 {
        assert(!signal::bit(mask, 1));
    }
    if signal::is_lowest(mask, other) {
        if other < k {
            assert(!signal::bit(mask, other));
        }
        if k < other {
            assert(!signal::bit(mask, k));
        }
    }
}

/// A stack for signals is changed where a new one is given, unless the call failed already or
/// the stack is in use.
pub proof fn law_stack_is_changed_where_one_is_given(
    at: u64,
    b: Seq<u8>,
    min_size: u64,
    code: i64,
    on_stack: bool,
)
    ensures
        signal::stack_changed(code, 0, on_stack, Some(b), min_size) == (code, StackChange::Keep),
        code != 0 ==> signal::stack_changed(code, at, on_stack, Some(b), min_size) == (
            code,
            StackChange::Keep,
        ),
        at != 0 ==> signal::stack_changed(0, at, true, Some(b), min_size) == (
            -1i64,
            StackChange::Keep,
        ),
        at != 0 ==> signal::stack_changed(0, at, false, None, min_size) == (
            -14i64,
            StackChange::Keep,
        ),
        at != 0 && bytes::le32(b, 8) == 0 ==> signal::stack_changed(
            0,
            at,
            false,
            Some(b),
            min_size,
        ) == (if bytes::le64(b, 16) < min_size {
            (-22i64, StackChange::Keep)
        } else {
            (
                0i64,
                StackChange::Use(
                    (AltStack { sp: bytes::le64(b, 0), flags: 0, size: bytes::le64(b, 16) }),
                ),
            )
        }),
{
    bits::lemma_descriptor_bits(0);
}

/// What a signal does is changed where something new is given, unless the call failed already.
pub proof fn law_action_is_changed_where_one_is_given(code: i64, at: u64, b: Seq<u8>)
    ensures
        signal::action_changed(code, 0, Some(b)) == (code, None::<SigAction>),
        code != 0 ==> signal::action_changed(code, at, Some(b)) == (code, None::<SigAction>),
        at != 0 ==> signal::action_changed(0, at, None) == (-14i64, None::<SigAction>),
        at != 0 ==> signal::action_changed(0, at, Some(b)) == (0i64, Some(signal::action_in(b))),
{
}

} // verus!
