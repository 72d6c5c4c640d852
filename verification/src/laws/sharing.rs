//! Sharing the processor and memory between processes.

use vstd::prelude::*;

use super::bits;
use super::layout;
use crate::bytes;
use crate::process_model::Pid;
use crate::syscall::ipc;
use crate::syscall::ipc::{FutexOp, Waiter};
use crate::syscall::mempolicy;
use crate::syscall::scheduling;
use crate::syscall::scheduling::{Rseq, SchedAttr, SchedClass, SetAttr, SetClass};

verus! {

/// The policies by their numbers: `1` and `2` are for real time, with a priority from `1` to `99`,
/// and in turns by `2`; `0`, `3` and `5` are the usual one, without a priority.
pub proof fn law_policies_by_their_numbers(policy: u64, priority: i32)
    ensures
        ({
            let r = scheduling::class_for(policy, priority);
            let real_time = policy == 1 || policy == 2;
            let usual = policy == 0 || policy == 3 || policy == 5;
            &&& real_time && 1 <= priority <= 99 ==> r == Ok::<SchedClass, i64>(
                SchedClass::Rt { priority: priority as u8, round_robin: policy == 2 },
            )
            &&& usual && priority == 0 ==> r == Ok::<SchedClass, i64>(SchedClass::Cfs)
            &&& real_time && !(1 <= priority <= 99) ==> r == Err::<SchedClass, i64>(-22i64)
            &&& usual && priority != 0 ==> r == Err::<SchedClass, i64>(-22i64)
            &&& !real_time && !usual ==> r == Err::<SchedClass, i64>(-22i64)
        }),
{
}

/// A class is told by the numbers by which it would be set.
pub proof fn law_class_is_told_by_its_numbers(class: SchedClass)
    requires
        class matches SchedClass::Rt { priority, .. } ==> 1 <= priority <= 99,
    ensures
        class is Cfs ==> scheduling::policy_of(class) == 0 && scheduling::priority_of(class) == 0,
        class is Deadline ==> scheduling::policy_of(class) == 6 && scheduling::priority_of(class)
            == 0,
        !(class is Deadline) ==> scheduling::class_for(
            scheduling::policy_of(class),
            scheduling::priority_of(class) as i32,
        ) == Ok::<SchedClass, i64>(class),
{
}

/// Real time is for who may have it; the process named gets the class.
pub proof fn law_real_time_is_for_who_may(
    target: Pid,
    policy: u64,
    priority: i32,
    capable: bool,
)
    ensures
        ({
            let r = scheduling::setscheduler_request(Some(target), policy, Some(priority), capable);
            let c = scheduling::class_for(policy, priority);
            &&& c matches Err(e) ==> r == SetClass::Reply(e)
            &&& c matches Ok(class) ==> r == (if policy != 1 && policy != 2 || capable {
                SetClass::Of(target, class)
            } else {
                SetClass::Reply(-1i64)
            })
        }),
        scheduling::setscheduler_request(None, policy, Some(priority), capable) == SetClass::Reply(
            -3i64,
        ),
        scheduling::setscheduler_request(Some(target), policy, None, capable) == SetClass::Reply(
            -14i64,
        ),
{
}

/// A new priority keeps whether turns are taken.
pub proof fn law_priority_keeps_the_turns(
    target: Pid,
    round_robin: bool,
    was: u8,
    priority: i32,
    capable: bool,
)
    ensures
        scheduling::setparam_request(
            Some(target),
            Some(SchedClass::Rt { priority: was, round_robin }),
            Some(priority),
            capable,
        ) == (if !(1 <= priority <= 99) {
            SetClass::Reply(-22i64)
        } else if !capable {
            SetClass::Reply(-1i64)
        } else {
            SetClass::Of(target, SchedClass::Rt { priority: priority as u8, round_robin })
        }),
        scheduling::setparam_request(
            Some(target),
            Some(SchedClass::Cfs),
            Some(priority),
            capable,
        ) == SetClass::Reply(
            if priority == 0 {
                0
            } else {
                -22i64
            },
        ),
{
}

/// Niceness lies between `-20` and `19`.
pub proof fn law_niceness_has_bounds(nice: i8)
    ensures
        -20 <= scheduling::clamped(nice) <= 19,
        -20 <= nice <= 19 ==> scheduling::clamped(nice) == nice,
        nice < -20 ==> scheduling::clamped(nice) == -20,
        nice > 19 ==> scheduling::clamped(nice) == 19,
{
}

/// Time in each period is for who may have it, and lies in order: the time, until when, and the
/// period, which is until when where it is not given.
pub proof fn law_time_in_each_period(pid: Pid, a: SchedAttr, nice_now: i8, capable: bool)
    requires
        a.policy == 6,
    ensures
        ({
            let period = if a.period == 0 {
                a.deadline
            } else {
                a.period
            };
            let in_order = 0 < a.runtime <= a.deadline <= period;
            scheduling::attr_request(pid, a, nice_now, capable) == (if !in_order {
                SetAttr::Reply(-22i64)
            } else if !capable {
                SetAttr::Reply(-1i64)
            } else {
                SetAttr::Deadline { pid, runtime: a.runtime, deadline: a.deadline, period }
            })
        }),
{
}

/// The class of a process is told in forty-eight bytes.
pub proof fn law_class_stands_at_its_places(class: SchedClass, nice: i8)
    ensures
        ({
            let s = scheduling::packed_attr(class, nice);
            &&& s.len() == 48
            &&& bytes::le32(s, 0) == 48
            &&& bytes::le32(s, 4) == scheduling::policy_of(class)
            &&& bytes::le32(s, 16) == (nice as i32) as u32
            &&& bytes::le32(s, 20) == scheduling::priority_of(class)
            &&& class matches SchedClass::Deadline { runtime_ns, deadline_ns, period_ns } ==> {
                &&& bytes::le64(s, 24) == runtime_ns
                &&& bytes::le64(s, 32) == deadline_ns
                &&& bytes::le64(s, 40) == period_ns
            }
        }),
{
    let none = Seq::<u8>::empty();
    let policy = scheduling::policy_of(class) as u32;
    let n = (nice as i32) as u32;
    let priority = scheduling::priority_of(class);
    let times = scheduling::times_of(class);
    let s0 = bytes::put32(48);
    layout::lemma_put32(none, 48);
    assert(none + s0 =~= s0);
    let s1 = s0 + bytes::put32(policy);
    layout::lemma_put32(s0, policy);
    layout::lemma_behind(s0, bytes::put32(policy));
    let s2 = s1 + bytes::zeros(8);
    layout::lemma_behind(s1, bytes::zeros(8));
    let s3 = s2 + bytes::put32(n);
    layout::lemma_put32(s2, n);
    layout::lemma_behind(s2, bytes::put32(n));
    let s4 = s3 + bytes::put32(priority);
    layout::lemma_put32(s3, priority);
    layout::lemma_behind(s3, bytes::put32(priority));
    let s5 = s4 + bytes::put64(times.0);
    layout::lemma_put64(s4, times.0);
    layout::lemma_behind(s4, bytes::put64(times.0));
    let s6 = s5 + bytes::put64(times.1);
    layout::lemma_put64(s5, times.1);
    layout::lemma_behind(s5, bytes::put64(times.1));
    layout::lemma_put64(s6, times.2);
    layout::lemma_behind(s6, bytes::put64(times.2));
}

/// A place for restartable code is a multiple of thirty-two, of three lengths. It is set where none
/// is, stays where the same is set again, and is given up only by who names it.
pub proof fn law_restartable_code_has_one_place(now: Rseq, ptr: u64, len: u64, sig: u64)
    requires
        ptr != 0,
        ptr % 32 == 0,
        len == 32 || len == 36 || len == 44,
        sig <= 0xffff_ffff,
    ensures
        now.addr == 0 ==> scheduling::rseq_result(now, ptr, len, 0, sig) == (
            0i64,
            Rseq { addr: ptr, len: len as u32, sig: sig as u32 },
        ),
        now.addr != 0 ==> scheduling::rseq_result(now, ptr, len, 0, sig) == (
            if now.addr == ptr && now.len == len && now.sig == sig {
                0
            } else {
                -16i64
            },
            now,
        ),
        scheduling::rseq_result(now, ptr, len, 1, sig) == (if now.addr == 0 {
            (-22i64, now)
        } else if now.addr == ptr && now.sig == sig {
            (0i64, Rseq { addr: 0, len: 0, sig: 0 })
        } else {
            (-1i64, now)
        }),
        scheduling::rseq_result(now, ptr, len, 2, sig) == (-22i64, now),
        scheduling::rseq_result(now, ptr, 33, 0, sig) == (-22i64, now),
        scheduling::rseq_result(now, 0, len, 0, sig) == (-22i64, now),
        scheduling::rseq_result(now, 33, len, 0, sig) == (-22i64, now),
{
    bits::lemma_low_parts(sig);
    bits::lemma_low_parts(len);
}

/// Calls on a word in memory that processes wait at, by their numbers: `0` waits and `1` wakes, `9`
/// and `10` do so for some, `3` and `4` move those who wait to another word, `5` wakes at two, and
/// `6` to `8` lock it. The bits `0x80` and `0x100` change none of that.
pub proof fn law_words_to_wait_at(
    uaddr: u64,
    val: u64,
    timeout: u64,
    uaddr2: u64,
    val3: u64,
    time: Option<Seq<u8>>,
    now: u64,
)
    ensures
        ipc::futex_request(uaddr, 0, val, 0, uaddr2, val3, time, now) == Ok::<FutexOp, i64>(
            FutexOp::Wait { uaddr, val: val as i32, deadline: None },
        ),
        ipc::futex_request(uaddr, 1, val, timeout, uaddr2, val3, time, now) == Ok::<FutexOp, i64>(
            FutexOp::Wake { uaddr, count: val as u32 },
        ),
        ipc::futex_request(uaddr, 0x81, val, timeout, uaddr2, val3, time, now) == Ok::<
            FutexOp,
            i64,
        >(FutexOp::Wake { uaddr, count: val as u32 }),
        ipc::futex_request(uaddr, 3, val, timeout, uaddr2, val3, time, now) == Ok::<FutexOp, i64>(
            FutexOp::Requeue {
                from: uaddr,
                to: uaddr2,
                wake: val as u32,
                requeue: timeout as u32,
                expected: None,
            },
        ),
        ipc::futex_request(uaddr, 4, val, timeout, uaddr2, val3, time, now) == Ok::<FutexOp, i64>(
            FutexOp::Requeue {
                from: uaddr,
                to: uaddr2,
                wake: val as u32,
                requeue: timeout as u32,
                expected: Some(val3 as i32),
            },
        ),
        ipc::futex_request(uaddr, 5, val, timeout, uaddr2, val3, time, now) == Ok::<FutexOp, i64>(
            FutexOp::WakeOp {
                uaddr,
                uaddr2,
                wake: val as u32,
                wake2: timeout as u32,
                op: val3 as u32,
            },
        ),
        ipc::futex_request(uaddr, 6, val, 0, uaddr2, val3, time, now) == Ok::<FutexOp, i64>(
            FutexOp::LockPi { uaddr, deadline: None },
        ),
        ipc::futex_request(uaddr, 7, val, timeout, uaddr2, val3, time, now) == Ok::<FutexOp, i64>(
            FutexOp::UnlockPi { uaddr },
        ),
        ipc::futex_request(uaddr, 8, val, timeout, uaddr2, val3, time, now) == Ok::<FutexOp, i64>(
            FutexOp::TrylockPi { uaddr },
        ),
        ipc::futex_request(uaddr, 9, val, 0, uaddr2, val3, time, now) == Ok::<FutexOp, i64>(
            FutexOp::WaitBitset { uaddr, val: val as i32, bits: val3 as u32, deadline: None },
        ),
        ipc::futex_request(uaddr, 10, val, timeout, uaddr2, val3, time, now) == Ok::<FutexOp, i64>(
            FutexOp::WakeBitset { uaddr, count: val as u32, bits: val3 as u32 },
        ),
        ipc::futex_request(uaddr, 11, val, 0, uaddr2, val3, time, now) == Ok::<FutexOp, i64>(
            FutexOp::WaitRequeuePi { uaddr, val: val as i32, deadline: None, to: uaddr2 },
        ),
        ipc::futex_request(uaddr, 12, val, timeout, uaddr2, val3, time, now) == Ok::<FutexOp, i64>(
            FutexOp::RequeuePi {
                uaddr,
                wake: val as u32,
                requeue: timeout as u32,
                to: uaddr2,
                value: val3 as i32,
            },
        ),
        ipc::futex_request(uaddr, 13, val, 0, uaddr2, val3, time, now) == Ok::<FutexOp, i64>(
            FutexOp::LockPi { uaddr, deadline: None },
        ),
        ipc::futex_request(uaddr, 2, val, timeout, uaddr2, val3, time, now) == Err::<FutexOp, i64>(
            -38i64,
        ),
{
    bits::lemma_word_bits(0);
}

/// A wait at a word ends so much later than now, and one for a lock at the time given.
pub proof fn law_waits_at_words_end(uaddr: u64, val: u64, b: Seq<u8>, now: u64)
    requires
        bytes::le64(b, 8) < 1_000_000_000,
        now + bytes::le64(b, 0) * 1_000_000_000 + bytes::le64(b, 8) <= u64::MAX,
    ensures
        ({
            let by = bytes::le64(b, 0) * 1_000_000_000 + bytes::le64(b, 8);
            &&& ipc::futex_request(uaddr, 0, val, 1, 0, 0, Some(b), now) == Ok::<FutexOp, i64>(
                FutexOp::Wait { uaddr, val: val as i32, deadline: Some((now + by) as u64) },
            )
            &&& ipc::futex_request(uaddr, 6, val, 1, 0, 0, Some(b), now) == Ok::<FutexOp, i64>(
                FutexOp::LockPi { uaddr, deadline: Some(by as u64) },
            )
        }),
{
    bits::lemma_word_bits(0);
}

/// One of several words to wait at is twenty-four bytes: what it should hold, where it is, and how
/// long it is, which has to be four bytes.
pub proof fn law_several_words_to_wait_at(b: Seq<u8>, i: int)
    requires
        0 <= i < b.len() / 24,
    ensures
        ipc::waiters_in(b).len() == b.len() / 24,
        ipc::waiters_in(b)[i] == (Waiter {
            uaddr: bytes::le64(b, 24 * i + 8),
            val: bytes::le64(b, 24 * i) as u32,
        }),
        ipc::sizes_are_right(b) ==> bytes::le32(b, 24 * i + 16) % 4 == 2,
{
    if ipc::sizes_are_right(b) {
        assert(ipc::size_is_right(b, i));
    }
}

/// Memory comes from the one node that there is: a policy that names another is refused.
pub proof fn law_memory_comes_from_one_node(mode: u64, mask: u64)
    ensures
        mode > 4 ==> mempolicy::policy_result(mode, 1, 64, Some(mask)) == -22,
        mode == 0 || mode == 4 ==> mempolicy::policy_result(mode, 1, 64, Some(mask)) == 0,
        1 <= mode <= 3 ==> mempolicy::policy_result(mode, 1, 64, Some(mask)) == (if mask <= 1 {
            0
        } else {
            -22int
        }),
        1 <= mode <= 3 ==> mempolicy::policy_result(mode, 1, 64, None) == -14,
        mode <= 4 ==> mempolicy::policy_result(mode, 0, 64, None) == 0,
        mempolicy::mask_len(64) == 8,
        mempolicy::mask_len(8) == 1,
        mempolicy::mask_len(9) == 2,
{
    bits::lemma_word_bits(mask);
}

/// The priority is the first number of what is given.
pub proof fn law_priority_is_the_first_number(param: u64, buf: Option<Vec<u8>>)
    ensures
        scheduling::priority_in(0, buf) is None,
        buf is None ==> scheduling::priority_in(param, buf) is None,
        param != 0 && buf is Some ==> scheduling::priority_in(param, buf) == Some(
            bytes::le32(buf->0@, 0) as i32,
        ),
        scheduling::set_code(Ok(())) == 0,
        forall|e: i64| #[trigger] scheduling::set_code(Err(e)) == e,
{
}

/// Processors are wanted by the bits of a number of up to eight bytes, the lowest byte first.
pub proof fn law_processors_are_wanted_by_bits(buf: Seq<u8>)
    requires
        0 < buf.len() <= 8,
    ensures
        ({
            let w = scheduling::wanted_cpus(buf);
            &&& w % 0x100 == buf[0]
            &&& buf.len() == 1 ==> w == buf[0]
            &&& buf.len() == 2 ==> w == bytes::le16(buf, 0)
            &&& buf.len() == 4 ==> w == bytes::le32(buf, 0)
            &&& buf.len() == 8 ==> w == bytes::le64(buf, 0)
        }),
{
    let b = buf + bytes::zeros((8 - buf.len()) as nat);
    assert(b[0] == buf[0]);
    assert(forall|i: int| 0 <= i < buf.len() ==> b[i] == buf[i]);
    assert(forall|i: int| buf.len() <= i < 8 ==> b[i] == 0);
}

/// Restartable code is told on which processor it runs, twice, and on which node, as far as there
/// is room.
pub proof fn law_restartable_code_is_told_its_processor(ptr: u64, len: u64, cpu: u32)
    requires
        ptr <= u64::MAX - 64,
    ensures
        ({
            let told = scheduling::rseq_told(ptr, len, cpu);
            &&& told.len() == (if len >= 44 {
                4int
            } else if len >= 36 {
                3int
            } else {
                2int
            })
            &&& told[0] == (ptr, bytes::put32(cpu))
            &&& told[1].0 == ptr + 4 && told[1].1 == bytes::put32(cpu)
            &&& len >= 36 ==> told[2].0 == ptr + 24 && told[2].1 == bytes::put32(0)
            &&& len >= 44 ==> told[3].0 == ptr + 28 && told[3].1 == bytes::put64(0)
        }),
{
}

/// There is one node, the first.
pub proof fn law_first_node_is_told(n: nat, i: int)
    requires
        0 <= i < n,
    ensures
        mempolicy::first_node(n).len() == n,
        mempolicy::first_node(n)[i] == (if i == 0 {
            1u8
        } else {
            0u8
        }),
{
}

/// A wait for bits ends so much later than now; one that goes over to a lock, and one for a lock,
/// at the time given, by either clock.
pub proof fn law_other_waits_at_words_end(
    uaddr: u64,
    val: u64,
    to: u64,
    wanted: u64,
    b: Seq<u8>,
    now: u64,
)
    requires
        bytes::le64(b, 8) < 1_000_000_000,
        now + bytes::le64(b, 0) * 1_000_000_000 + bytes::le64(b, 8) <= u64::MAX,
    ensures
        ({
            let by = bytes::le64(b, 0) * 1_000_000_000 + bytes::le64(b, 8);
            &&& ipc::futex_request(uaddr, 9, val, 1, to, wanted, Some(b), now) == Ok::<FutexOp, i64>(
                FutexOp::WaitBitset {
                    uaddr,
                    val: val as i32,
                    bits: wanted as u32,
                    deadline: Some((now + by) as u64),
                },
            )
            &&& ipc::futex_request(uaddr, 11, val, 1, to, wanted, Some(b), now) == Ok::<
                FutexOp,
                i64,
            >(
                FutexOp::WaitRequeuePi {
                    uaddr,
                    val: val as i32,
                    deadline: Some(by as u64),
                    to,
                },
            )
            &&& ipc::futex_request(uaddr, 0x10b, val, 1, to, wanted, Some(b), now)
                == ipc::futex_request(uaddr, 11, val, 1, to, wanted, Some(b), now)
            &&& ipc::futex_request(uaddr, 13, val, 1, to, wanted, Some(b), now) == Ok::<
                FutexOp,
                i64,
            >(FutexOp::LockPi { uaddr, deadline: Some(by as u64) })
        }),
        ipc::futex_request(uaddr, 0, val, 1, to, wanted, None, now) == Err::<FutexOp, i64>(-14i64),
        ipc::futex_request(uaddr, 6, val, 1, to, wanted, None, now) == Err::<FutexOp, i64>(-14i64),
{
    bits::lemma_word_bits(0);
}

/// Without a count of nodes none are named.
pub proof fn law_no_nodes_are_named_without_a_count(mode: u64, at: u64)
    requires
        mode <= 4,
    ensures
        !mempolicy::names_nodes(mode, at, 0),
        !mempolicy::names_nodes(mode, 0, 64),
        at != 0 ==> mempolicy::names_nodes(mode, at, 64) == (1 <= mode <= 3),
{
}

} // verus!
