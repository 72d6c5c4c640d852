//! How processes share the processors: classes, priorities, affinities.
use super::reply;
use super::reply::{CopyOut, Reply};
use crate::bytes;
use crate::errno;
use crate::process_model::Pid;
use vstd::prelude::*;

verus! {

pub const SCHED_OTHER: u64 = 0;

pub const SCHED_FIFO: u64 = 1;

pub const SCHED_RR: u64 = 2;

pub const SCHED_BATCH: u64 = 3;

pub const SCHED_IDLE: u64 = 5;

pub const SCHED_DEADLINE: u64 = 6;

/// The class of a process.
#[derive(Clone, Copy, PartialEq, Eq, Structural, Debug)]
pub enum SchedClass {
    Cfs,
    Rt { priority: u8, round_robin: bool },
    Deadline { runtime_ns: u64, deadline_ns: u64, period_ns: u64 },
}

/// The process that an argument names: none is the caller.
pub open spec fn named(pid: u64, caller: Pid, mapped: Option<Pid>) -> Option<Pid> {
    if pid == 0 {
        Some(caller)
    } else {
        mapped
    }
}

/// The process that an argument names; `mapped` is what the caller's number stands for.
pub fn resolve_affinity_pid(pid: u64, caller: Pid, mapped: Option<Pid>) -> (r: Option<Pid>)
    ensures
        r == named(pid, caller, mapped),
{
    if pid == 0 {
        Some(caller)
    } else {
        mapped
    }
}

pub open spec fn is_rt_priority(priority: i32) -> bool {
    1 <= priority <= 99
}

/// The class that a policy and a priority ask for.
pub open spec fn class_for(policy: u64, priority: i32) -> Result<SchedClass, i64> {
    if policy == SCHED_FIFO || policy == SCHED_RR {
        if is_rt_priority(priority) {
            Ok(SchedClass::Rt { priority: priority as u8, round_robin: policy == SCHED_RR })
        } else {
            Err(errno::EINVAL)
        }
    } else if policy == SCHED_OTHER || policy == SCHED_BATCH || policy == SCHED_IDLE {
        if priority == 0 {
            Ok(SchedClass::Cfs)
        } else {
            Err(errno::EINVAL)
        }
    } else {
        Err(errno::EINVAL)
    }
}

fn choose_class(policy: u64, priority: i32) -> (r: Result<SchedClass, i64>)
    ensures
        r == class_for(policy, priority),
{
    match policy {
        SCHED_FIFO | SCHED_RR => {
            if priority < 1 || priority > 99 {
                return Err(errno::EINVAL);
            }
            Ok(SchedClass::Rt { priority: priority as u8, round_robin: policy == SCHED_RR })
        },
        SCHED_OTHER | SCHED_BATCH | SCHED_IDLE => {
            if priority != 0 {
                return Err(errno::EINVAL);
            }
            Ok(SchedClass::Cfs)
        },
        _ => Err(errno::EINVAL),
    }
}

/// What is set for whom, or an answer at once.
#[derive(Clone, Copy, PartialEq, Eq, Structural, Debug)]
pub enum SetClass {
    Reply(i64),
    Of(Pid, SchedClass),
}

/// `sched_setscheduler`: a real-time class needs the capability.
pub open spec fn setscheduler_request(
    target: Option<Pid>,
    policy: u64,
    priority: Option<i32>,
    capable: bool,
) -> SetClass {
    if priority is None {
        SetClass::Reply(errno::EFAULT)
    } else if target is None {
        SetClass::Reply(errno::ESRCH)
    } else {
        match class_for(policy, priority->0) {
            Err(e) => SetClass::Reply(e),
            Ok(class) => if class is Rt && !capable {
                SetClass::Reply(errno::EPERM)
            } else {
                SetClass::Of(target->0, class)
            },
        }
    }
}

/// The priority that was read of the caller's memory.
pub open spec fn priority_in(param: u64, buf: Option<Vec<u8>>) -> Option<i32> {
    if param == 0 || buf is None {
        None
    } else {
        Some(bytes::le32(buf->0@, 0) as i32)
    }
}

fn read_priority(param: u64, buf: Option<Vec<u8>>) -> (r: Option<i32>)
    requires
        buf is Some ==> buf->0@.len() == 4,
    ensures
        r == priority_in(param, buf),
{
    if param == 0 {
        return None;
    }
    match buf {
        Some(b) => Some(bytes::u32_at(&b, 0) as i32),
        None => None,
    }
}

/// `sched_setscheduler`
pub fn sys_sched_setscheduler(
    target: Option<Pid>,
    policy: u64,
    param: u64,
    buf: Option<Vec<u8>>,
    capable: bool,
) -> (r: SetClass)
    requires
        buf is Some ==> buf->0@.len() == 4,
    ensures
        r == setscheduler_request(target, policy, priority_in(param, buf), capable),
{
    let priority: i32 = match read_priority(param, buf) {
        Some(p) => p,
        None => {
            return SetClass::Reply(errno::EFAULT);
        },
    };
    let pid = match target {
        Some(p) => p,
        None => {
            return SetClass::Reply(errno::ESRCH);
        },
    };
    let class = match choose_class(policy, priority) {
        Ok(c) => c,
        Err(e) => {
            return SetClass::Reply(e);
        },
    };
    if let SchedClass::Rt { .. } = class {
        if !capable {
            return SetClass::Reply(errno::EPERM);
        }
    }
    SetClass::Of(pid, class)
}

/// What the answer is once something was set: an error of setting it, or nothing.
pub open spec fn set_code(set: Result<(), i64>) -> i64 {
    match set {
        Ok(_) => 0,
        Err(e) => e,
    }
}

/// `sched_setscheduler` and `sched_setparam`, once the class is set.
pub fn class_answer(step: &SetClass, set: Result<(), i64>) -> (code: i64)
    ensures
        code == (match *step {
            SetClass::Reply(c) => c,
            SetClass::Of(_, _) => set_code(set),
        }),
{
    match step {
        SetClass::Reply(code) => *code,
        SetClass::Of(_, _) => match set {
            Ok(_) => 0,
            Err(e) => e,
        },
    }
}

/// The policy of a class.
pub open spec fn policy_of(class: SchedClass) -> u64 {
    match class {
        SchedClass::Cfs => SCHED_OTHER,
        SchedClass::Rt { round_robin, .. } => if round_robin {
            SCHED_RR
        } else {
            SCHED_FIFO
        },
        SchedClass::Deadline { .. } => SCHED_DEADLINE,
    }
}

fn class_policy(class: SchedClass) -> (p: u64)
    ensures
        p == policy_of(class),
{
    match class {
        SchedClass::Cfs => SCHED_OTHER,
        SchedClass::Rt { round_robin, .. } => if round_robin {
            SCHED_RR
        } else {
            SCHED_FIFO
        },
        SchedClass::Deadline { .. } => SCHED_DEADLINE,
    }
}

/// `sched_getscheduler`, with the class of the process, where there is one.
pub fn sys_sched_getscheduler(class: Option<SchedClass>) -> (code: i64)
    ensures
        code == (if class is None {
            errno::ESRCH
        } else {
            policy_of(class->0) as i64
        }),
{
    match class {
        Some(c) => class_policy(c) as i64,
        None => errno::ESRCH,
    }
}

/// `sched_setparam`: a process keeps its policy. One that has no real-time class has no
/// priority to set.
pub open spec fn setparam_request(
    target: Option<Pid>,
    class: Option<SchedClass>,
    priority: Option<i32>,
    capable: bool,
) -> SetClass {
    if priority is None {
        SetClass::Reply(errno::EFAULT)
    } else if target is None || class is None {
        SetClass::Reply(errno::ESRCH)
    } else {
        match class->0 {
            SchedClass::Rt { round_robin, .. } => if !is_rt_priority(priority->0) {
                SetClass::Reply(errno::EINVAL)
            } else if !capable {
                SetClass::Reply(errno::EPERM)
            } else {
                SetClass::Of(
                    target->0,
                    SchedClass::Rt { priority: priority->0 as u8, round_robin },
                )
            },
            SchedClass::Cfs => SetClass::Reply(
                if priority->0 == 0 {
                    0
                } else {
                    errno::EINVAL
                },
            ),
            SchedClass::Deadline { .. } => SetClass::Reply(errno::EINVAL),
        }
    }
}

/// `sched_setparam`
pub fn sys_sched_setparam(
    target: Option<Pid>,
    class: Option<SchedClass>,
    param: u64,
    buf: Option<Vec<u8>>,
    capable: bool,
) -> (r: SetClass)
    requires
        buf is Some ==> buf->0@.len() == 4,
    ensures
        r == setparam_request(target, class, priority_in(param, buf), capable),
{
    let priority: i32 = match read_priority(param, buf) {
        Some(p) => p,
        None => {
            return SetClass::Reply(errno::EFAULT);
        },
    };
    let pid = match target {
        Some(p) => p,
        None => {
            return SetClass::Reply(errno::ESRCH);
        },
    };
    let class = match class {
        Some(c) => c,
        None => {
            return SetClass::Reply(errno::ESRCH);
        },
    };
    match class {
        SchedClass::Rt { round_robin, .. } => {
            if priority < 1 || priority > 99 {
                return SetClass::Reply(errno::EINVAL);
            }
            if !capable {
                return SetClass::Reply(errno::EPERM);
            }
            SetClass::Of(pid, SchedClass::Rt { priority: priority as u8, round_robin })
        },
        SchedClass::Cfs => {
            if priority != 0 {
                return SetClass::Reply(errno::EINVAL);
            }
            SetClass::Reply(0)
        },
        SchedClass::Deadline { .. } => SetClass::Reply(errno::EINVAL),
    }
}

/// The priority of a class.
pub open spec fn priority_of(class: SchedClass) -> u32 {
    match class {
        SchedClass::Rt { priority, .. } => priority as u32,
        _ => 0,
    }
}

fn class_priority(class: SchedClass) -> (p: u32)
    ensures
        p == priority_of(class),
{
    match class {
        SchedClass::Rt { priority, .. } => priority as u32,
        _ => 0,
    }
}

/// `sched_getparam`
pub fn sys_sched_getparam(param: u64, class: Option<SchedClass>) -> (r: Reply)
    ensures
        r@ == (if param == 0 {
            reply::plain(errno::EFAULT)
        } else if class is None {
            reply::plain(errno::ESRCH)
        } else {
            reply::with_bytes(0, param, bytes::put32(priority_of(class->0)))
        }),
{
    if param == 0 {
        return Reply::plain(errno::EFAULT);
    }
    let class = match class {
        Some(c) => c,
        None => {
            return Reply::plain(errno::ESRCH);
        },
    };
    let mut buf: Vec<u8> = Vec::new();
    bytes::push_u32(&mut buf, class_priority(class));
    assert(buf@ =~= bytes::put32(priority_of(class)));
    Reply::with_bytes(0, param, buf)
}

/// `sched_get_priority_max`
pub fn sys_sched_get_priority_max(policy: u64) -> (code: i64)
    ensures
        code == (if policy == SCHED_FIFO || policy == SCHED_RR {
            99
        } else if policy == SCHED_OTHER || policy == SCHED_BATCH || policy == SCHED_IDLE {
            0
        } else {
            errno::EINVAL
        }),
{
    match policy {
        SCHED_FIFO | SCHED_RR => 99,
        SCHED_OTHER | SCHED_BATCH | SCHED_IDLE => 0,
        _ => errno::EINVAL,
    }
}

/// `sched_get_priority_min`
pub fn sys_sched_get_priority_min(policy: u64) -> (code: i64)
    ensures
        code == (if policy == SCHED_FIFO || policy == SCHED_RR {
            1
        } else if policy == SCHED_OTHER || policy == SCHED_BATCH || policy == SCHED_IDLE {
            0
        } else {
            errno::EINVAL
        }),
{
    match policy {
        SCHED_FIFO | SCHED_RR => 1,
        SCHED_OTHER | SCHED_BATCH | SCHED_IDLE => 0,
        _ => errno::EINVAL,
    }
}

/// The least and the greatest niceness.
pub open spec fn clamped(nice: i8) -> i8 {
    if nice < -20 {
        -20i8
    } else if nice > 19 {
        19
    } else {
        nice
    }
}

fn clamp_nice(nice: i8) -> (r: i8)
    ensures
        r == clamped(nice),
{
    if nice < -20 {
        -20
    } else if nice > 19 {
        19
    } else {
        nice
    }
}

/// The attributes of a request.
#[derive(Clone, Copy, PartialEq, Eq, Structural, Debug)]
pub struct SchedAttr {
    pub policy: u32,
    pub nice: i32,
    pub priority: u32,
    pub runtime: u64,
    pub deadline: u64,
    pub period: u64,
}

/// The size of the attributes.
pub const ATTR_SIZE: u64 = 48;

pub open spec fn attr_in(buf: Seq<u8>) -> SchedAttr {
    SchedAttr {
        policy: bytes::le32(buf, 4),
        nice: bytes::le32(buf, 16) as i32,
        priority: bytes::le32(buf, 20),
        runtime: bytes::le64(buf, 24),
        deadline: bytes::le64(buf, 32),
        period: bytes::le64(buf, 40),
    }
}

fn read_attr(buf: &Vec<u8>) -> (a: SchedAttr)
    requires
        buf@.len() == 48,
    ensures
        a == attr_in(buf@),
{
    SchedAttr {
        policy: bytes::u32_at(buf, 4),
        nice: bytes::u32_at(buf, 16) as i32,
        priority: bytes::u32_at(buf, 20),
        runtime: bytes::u64_at(buf, 24),
        deadline: bytes::u64_at(buf, 32),
        period: bytes::u64_at(buf, 40),
    }
}

/// What `sched_setattr` does.
#[derive(Clone, Copy, PartialEq, Eq, Structural, Debug)]
pub enum SetAttr {
    Reply(i64),
    Deadline { pid: Pid, runtime: u64, deadline: u64, period: u64 },
    /// The niceness is set where there is one, then the class.
    Class { pid: Pid, nice: Option<i8>, class: SchedClass },
}

/// A period of nothing is as long as the deadline.
pub open spec fn period_of(a: SchedAttr) -> u64 {
    if a.period == 0 {
        a.deadline
    } else {
        a.period
    }
}

/// What attributes ask for. Deadlines and real-time classes need the capability, and so does
/// a niceness below the present one.
pub open spec fn attr_request(pid: Pid, a: SchedAttr, nice_now: i8, capable: bool) -> SetAttr {
    let nice = clamped(a.nice as i8);
    if a.policy == SCHED_DEADLINE {
        if a.runtime == 0 || a.deadline == 0 || a.runtime > a.deadline || a.deadline > period_of(
            a,
        ) {
            SetAttr::Reply(errno::EINVAL)
        } else if !capable {
            SetAttr::Reply(errno::EPERM)
        } else {
            SetAttr::Deadline {
                pid,
                runtime: a.runtime,
                deadline: a.deadline,
                period: period_of(a),
            }
        }
    } else {
        match class_for(a.policy as u64, a.priority as i32) {
            Err(e) => SetAttr::Reply(e),
            Ok(class) => if class is Rt {
                if capable {
                    SetAttr::Class { pid, nice: None, class }
                } else {
                    SetAttr::Reply(errno::EPERM)
                }
            } else if a.policy == SCHED_OTHER {
                if nice < nice_now && !capable {
                    SetAttr::Reply(errno::EPERM)
                } else {
                    SetAttr::Class { pid, nice: Some(nice), class }
                }
            } else {
                SetAttr::Class { pid, nice: None, class }
            },
        }
    }
}

/// Whether the attributes are to be read at all, by the size that they begin with.
pub fn setattr_size(attr_ptr: u64, head: Option<Vec<u8>>) -> (r: Result<u32, i64>)
    requires
        head is Some ==> head->0@.len() == 4,
    ensures
        r == (if attr_ptr == 0 || head is None {
            Err(errno::EFAULT)
        } else if bytes::le32(head->0@, 0) < ATTR_SIZE {
            Err(errno::EINVAL)
        } else {
            Ok::<u32, i64>(bytes::le32(head->0@, 0))
        }),
{
    if attr_ptr == 0 {
        return Err(errno::EFAULT);
    }
    match head {
        None => Err(errno::EFAULT),
        Some(h) => {
            let size: u32 = bytes::u32_at(&h, 0);
            if size < ATTR_SIZE as u32 {
                return Err(errno::EINVAL);
            }
            Ok(size)
        },
    }
}

/// `sched_setattr`, with the attributes that were read.
pub fn sys_sched_setattr(
    target: Option<Pid>,
    buf: Option<Vec<u8>>,
    nice_now: i8,
    capable: bool,
) -> (r: SetAttr)
    requires
        buf is Some ==> buf->0@.len() == 48,
    ensures
        r == (if buf is None {
            SetAttr::Reply(errno::EFAULT)
        } else if target is None {
            SetAttr::Reply(errno::ESRCH)
        } else {
            attr_request(target->0, attr_in(buf->0@), nice_now, capable)
        }),
{
    let a = match buf {
        Some(b) => read_attr(&b),
        None => {
            return SetAttr::Reply(errno::EFAULT);
        },
    };
    let pid = match target {
        Some(p) => p,
        None => {
            return SetAttr::Reply(errno::ESRCH);
        },
    };
    let policy: u64 = a.policy as u64;
    if policy == SCHED_DEADLINE {
        let period: u64 = if a.period == 0 {
            a.deadline
        } else {
            a.period
        };
        if a.runtime == 0 || a.deadline == 0 || period == 0 {
            return SetAttr::Reply(errno::EINVAL);
        }
        if a.runtime > a.deadline || a.deadline > period {
            return SetAttr::Reply(errno::EINVAL);
        }
        if !capable {
            return SetAttr::Reply(errno::EPERM);
        }
        return SetAttr::Deadline { pid, runtime: a.runtime, deadline: a.deadline, period };
    }
    let class = match choose_class(policy, a.priority as i32) {
        Ok(c) => c,
        Err(e) => {
            return SetAttr::Reply(e);
        },
    };
    if let SchedClass::Rt { .. } = class {
        if !capable {
            return SetAttr::Reply(errno::EPERM);
        }
        return SetAttr::Class { pid, nice: None, class };
    }
    if policy == SCHED_OTHER {
        let nice: i8 = clamp_nice(a.nice as i8);
        if nice < nice_now && !capable {
            return SetAttr::Reply(errno::EPERM);
        }
        return SetAttr::Class { pid, nice: Some(nice), class };
    }
    SetAttr::Class { pid, nice: None, class }
}

/// `sched_setattr`, once the deadline or the class is set.
pub fn attr_answer(step: &SetAttr, set: Result<(), i64>) -> (code: i64)
    ensures
        code == (match *step {
            SetAttr::Reply(c) => c,
            _ => set_code(set),
        }),
{
    match step {
        SetAttr::Reply(code) => *code,
        _ => match set {
            Ok(_) => 0,
            Err(e) => e,
        },
    }
}

/// The times of a class: runtime, deadline and period.
pub open spec fn times_of(class: SchedClass) -> (u64, u64, u64) {
    match class {
        SchedClass::Deadline { runtime_ns, deadline_ns, period_ns } => (
            runtime_ns,
            deadline_ns,
            period_ns,
        ),
        _ => (0, 0, 0),
    }
}

/// The attributes of a process as the caller gets them.
pub open spec fn packed_attr(class: SchedClass, nice: i8) -> Seq<u8> {
    bytes::put32(48) + bytes::put32(policy_of(class) as u32) + bytes::zeros(8) + bytes::put32(
        (nice as i32) as u32,
    ) + bytes::put32(priority_of(class)) + bytes::put64(times_of(class).0) + bytes::put64(
        times_of(class).1,
    ) + bytes::put64(times_of(class).2)
}

/// `sched_getattr`
pub fn sys_sched_getattr(
    attr_ptr: u64,
    size: u64,
    target: Option<Pid>,
    found: Option<(SchedClass, i8)>,
) -> (r: Reply)
    ensures
        r@ == (if attr_ptr == 0 {
            reply::plain(errno::EFAULT)
        } else if size < ATTR_SIZE {
            reply::plain(errno::EINVAL)
        } else if target is None || found is None {
            reply::plain(errno::ESRCH)
        } else {
            let (class, nice) = found->0;
            reply::with_bytes(0, attr_ptr, packed_attr(class, nice))
        }),
{
    if attr_ptr == 0 {
        return Reply::plain(errno::EFAULT);
    }
    if size < ATTR_SIZE {
        return Reply::plain(errno::EINVAL);
    }
    if target.is_none() {
        return Reply::plain(errno::ESRCH);
    }
    let (class, nice) = match found {
        Some(f) => f,
        None => {
            return Reply::plain(errno::ESRCH);
        },
    };
    let (runtime, deadline, period): (u64, u64, u64) = match class {
        SchedClass::Deadline { runtime_ns, deadline_ns, period_ns } => (
            runtime_ns,
            deadline_ns,
            period_ns,
        ),
        _ => (0, 0, 0),
    };
    let mut buf: Vec<u8> = Vec::new();
    bytes::push_u32(&mut buf, 48);
    assert(buf@ =~= bytes::put32(48));
    bytes::push_u32(&mut buf, class_policy(class) as u32);
    bytes::push_zeros(&mut buf, 8);
    bytes::push_u32(&mut buf, (nice as i32) as u32);
    bytes::push_u32(&mut buf, class_priority(class));
    bytes::push_u64(&mut buf, runtime);
    bytes::push_u64(&mut buf, deadline);
    bytes::push_u64(&mut buf, period);
    Reply::with_bytes(0, attr_ptr, buf)
}

/// Nanoseconds as a time: seconds, then the rest.
pub open spec fn packed_time(ns: u64) -> Seq<u8> {
    bytes::put64(ns / 1_000_000_000) + bytes::put64(ns % 1_000_000_000)
}

/// `sched_rr_get_interval`: processes that take turns have a slice, others none.
pub fn sys_sched_rr_get_interval(
    ts_ptr: u64,
    target: Option<Pid>,
    class: Option<SchedClass>,
    slice_ns: u64,
) -> (r: Reply)
    ensures
        r@ == (if ts_ptr == 0 {
            reply::plain(errno::EFAULT)
        } else if target is None {
            reply::plain(errno::ESRCH)
        } else if class is Some && class->0 is Rt && class->0->round_robin {
            reply::with_bytes(0, ts_ptr, packed_time(slice_ns))
        } else {
            reply::with_bytes(0, ts_ptr, packed_time(0))
        }),
{
    if ts_ptr == 0 {
        return Reply::plain(errno::EFAULT);
    }
    if target.is_none() {
        return Reply::plain(errno::ESRCH);
    }
    let ns: u64 = match class {
        Some(SchedClass::Rt { round_robin, .. }) => if round_robin {
            slice_ns
        } else {
            0
        },
        _ => 0,
    };
    let mut buf: Vec<u8> = Vec::new();
    bytes::push_u64(&mut buf, ns / 1_000_000_000);
    bytes::push_u64(&mut buf, ns % 1_000_000_000);
    assert(buf@ =~= packed_time(ns));
    Reply::with_bytes(0, ts_ptr, buf)
}

pub const PRIO_PROCESS: u64 = 0;

/// `getpriority`: the answer is above zero for all nicenesses.
pub fn sys_getpriority(which: u64, target: Option<Pid>, nice: i8) -> (code: i64)
    ensures
        code == (if which != PRIO_PROCESS {
            errno::EINVAL
        } else if target is None {
            errno::ESRCH
        } else {
            (20 - nice) as i64
        }),
{
    if which != PRIO_PROCESS {
        return errno::EINVAL;
    }
    if target.is_none() {
        return errno::ESRCH;
    }
    20 - nice as i64
}

/// `setpriority`: whose niceness is set to what, or what is wrong. A lower one needs the
/// capability.
pub fn sys_setpriority(
    which: u64,
    target: Option<Pid>,
    niceval: u64,
    nice_now: i8,
    capable: bool,
) -> (r: Result<(Pid, i8), i64>)
    ensures
        ({
            let nice = clamped((niceval as i32) as i8);
            r == (if which != PRIO_PROCESS {
                Err(errno::EINVAL)
            } else if target is None {
                Err(errno::ESRCH)
            } else if nice < nice_now && !capable {
                Err(errno::EPERM)
            } else {
                Ok::<(Pid, i8), i64>((target->0, nice))
            })
        }),
{
    if which != PRIO_PROCESS {
        return Err(errno::EINVAL);
    }
    let nice: i8 = clamp_nice((niceval as i32) as i8);
    let pid = match target {
        Some(p) => p,
        None => {
            return Err(errno::ESRCH);
        },
    };
    if nice < nice_now && !capable {
        return Err(errno::EPERM);
    }
    Ok((pid, nice))
}

/// Of the processors that are asked for, the mask.
pub open spec fn wanted_cpus(buf: Seq<u8>) -> u64 {
    bytes::le64(buf + bytes::zeros((8 - buf.len()) as nat), 0)
}

/// The other process, where it is another.
#[derive(Clone, Copy, PartialEq, Eq, Structural, Debug)]
pub struct Peer {
    pub caller_euid: u32,
    pub target_euid: Option<u32>,
    pub capable: bool,
}

/// How many bytes of a mask are read.
pub fn affinity_len(mask: u64, cpusetsize: u64) -> (r: Result<usize, i64>)
    ensures
        r == (if mask == 0 {
            Err(errno::EFAULT)
        } else if cpusetsize == 0 {
            Err(errno::EINVAL)
        } else if cpusetsize > 8 {
            Ok(8usize)
        } else {
            Ok::<usize, i64>(cpusetsize as usize)
        }),
{
    if mask == 0 {
        return Err(errno::EFAULT);
    }
    if cpusetsize == 0 {
        return Err(errno::EINVAL);
    }
    if cpusetsize > 8 {
        Ok(8)
    } else {
        Ok(cpusetsize as usize)
    }
}

/// `sched_setaffinity`, with the bytes that were read: who runs where from now on, or what
/// is wrong. A process may place itself and those of the same user; others need the
/// capability.
pub fn sys_sched_setaffinity(
    buf: Option<Vec<u8>>,
    online: u64,
    caller: Pid,
    target: Option<Pid>,
    peer: Peer,
) -> (r: Result<(Pid, u64), i64>)
    requires
        buf is Some ==> buf->0@.len() <= 8,
    ensures
        r == (if buf is None {
            Err(errno::EFAULT)
        } else if wanted_cpus(buf->0@) & online == 0 {
            Err(errno::EINVAL)
        } else if target is None || (target->0 != caller && peer.target_euid is None) {
            Err(errno::ESRCH)
        } else if target->0 != caller && !peer.capable && peer.caller_euid != peer.target_euid->0 {
            Err(errno::EPERM)
        } else {
            Ok::<(Pid, u64), i64>((target->0, wanted_cpus(buf->0@)))
        }),
{
    let mut b = match buf {
        Some(b) => b,
        None => {
            return Err(errno::EFAULT);
        },
    };
    let n: usize = b.len();
    bytes::push_zeros(&mut b, 8 - n);
    let want: u64 = bytes::u64_at(&b, 0);
    if want & online == 0 {
        return Err(errno::EINVAL);
    }
    let pid = match target {
        Some(p) => p,
        None => {
            return Err(errno::ESRCH);
        },
    };
    if pid.0 != caller.0 {
        let euid: u32 = match peer.target_euid {
            Some(u) => u,
            None => {
                return Err(errno::ESRCH);
            },
        };
        if !peer.capable && peer.caller_euid != euid {
            return Err(errno::EPERM);
        }
    }
    Ok((pid, want))
}

/// `sched_setaffinity`, once the mask is set or the process was found to be gone: the answer,
/// and whether the caller has to leave the processor that it is on.
pub fn affinity_set(set: bool, own: bool, want: u64, cpu: u32) -> (r: (i64, bool))
    requires
        set && own ==> cpu < 64,
    ensures
        r == (if !set {
            (errno::ESRCH, false)
        } else {
            (0, own && want & (1u64 << cpu) == 0)
        }),
{
    if !set {
        return (errno::ESRCH, false);
    }
    (0, own && (want & (1u64 << cpu)) == 0)
}

/// `sched_getaffinity`: the processors that are there and that the process may use.
pub fn sys_sched_getaffinity(
    cpusetsize: u64,
    mask: u64,
    max_cpus: u32,
    target: Option<Pid>,
    affinity: Option<u64>,
    online: u64,
) -> (r: Reply)
    ensures
        r@ == (if mask == 0 {
            reply::plain(errno::EFAULT)
        } else if cpusetsize == 0 || cpusetsize % 8 != 0 || 8 * cpusetsize < max_cpus {
            reply::plain(errno::EINVAL)
        } else if target is None || affinity is None {
            reply::plain(errno::ESRCH)
        } else {
            reply::with_bytes(8, mask, bytes::put64(affinity->0 & online))
        }),
{
    if mask == 0 {
        return Reply::plain(errno::EFAULT);
    }
    if cpusetsize == 0 || cpusetsize % 8 != 0 {
        return Reply::plain(errno::EINVAL);
    }
    let needed: u64 = (max_cpus as u64 + 7) / 8;
    if cpusetsize < needed {
        return Reply::plain(errno::EINVAL);
    }
    if target.is_none() {
        return Reply::plain(errno::ESRCH);
    }
    let cpus: u64 = match affinity {
        Some(m) => m & online,
        None => {
            return Reply::plain(errno::ESRCH);
        },
    };
    let mut buf: Vec<u8> = Vec::new();
    bytes::push_u64(&mut buf, cpus);
    assert(buf@ =~= bytes::put64(cpus));
    Reply::with_bytes(8, mask, buf)
}

/// `getcpu`: the processor, and the one node that there is.
pub fn sys_getcpu(cpu_ptr: u64, node_ptr: u64, cpu: u32) -> (r: Reply)
    ensures
        r@ == reply::where_wanted(
            reply::where_wanted(reply::plain(0), cpu_ptr, bytes::put32(cpu)),
            node_ptr,
            bytes::put32(0),
        ),
{
    let mut r = Reply::plain(0);
    let mut c: Vec<u8> = Vec::new();
    bytes::push_u32(&mut c, cpu);
    assert(c@ =~= bytes::put32(cpu));
    let mut n: Vec<u8> = Vec::new();
    bytes::push_u32(&mut n, 0);
    assert(n@ =~= bytes::put32(0));
    r.hand_over(cpu_ptr, c);
    r.hand_over(node_ptr, n);
    r
}

/// What a process has registered for restartable sequences; an address of none is nothing.
#[derive(Clone, Copy, PartialEq, Eq, Structural, Debug)]
pub struct Rseq {
    pub addr: u64,
    pub len: u32,
    pub sig: u32,
}

pub const RSEQ_FLAG_UNREGISTER: u64 = 1;

pub const RSEQ_LEN_V0: u64 = 32;

pub const RSEQ_LEN_V1: u64 = 36;

pub const RSEQ_LEN_V2: u64 = 44;

pub open spec fn rseq_valid(ptr: u64, len: u64, flags: u64) -> bool {
    flags <= RSEQ_FLAG_UNREGISTER && (len == RSEQ_LEN_V0 || len == RSEQ_LEN_V1 || len
        == RSEQ_LEN_V2) && ptr != 0 && ptr % 32 == 0
}

/// What a request comes to: a code, and what is registered after it.
pub open spec fn rseq_result(now: Rseq, ptr: u64, len: u64, flags: u64, sig: u64) -> (i64, Rseq) {
    let asked = Rseq { addr: ptr, len: len as u32, sig: sig as u32 };
    if !rseq_valid(ptr, len, flags) {
        (errno::EINVAL, now)
    } else if flags == RSEQ_FLAG_UNREGISTER {
        if now.addr == 0 {
            (errno::EINVAL, now)
        } else if now.addr != ptr || now.sig != sig as u32 {
            (errno::EPERM, now)
        } else {
            (0, Rseq { addr: 0, len: 0, sig: 0 })
        }
    } else if now.addr != 0 {
        if now == asked {
            (0, now)
        } else {
            (errno::EBUSY, now)
        }
    } else {
        (0, asked)
    }
}

/// What the caller is told on registering: the processor twice, and by the length of the
/// area the node and the number of the memory.
pub open spec fn rseq_told(ptr: u64, len: u64, cpu: u32) -> Seq<(u64, Seq<u8>)> {
    let cpus = seq![(ptr, bytes::put32(cpu)), ((ptr + 4) as u64, bytes::put32(cpu))];
    let node = if len >= RSEQ_LEN_V1 {
        cpus.push(((ptr + 24) as u64, bytes::put32(0)))
    } else {
        cpus
    };
    if len >= RSEQ_LEN_V2 {
        node.push(((ptr + 28) as u64, bytes::put64(0)))
    } else {
        node
    }
}

fn tell(out: &mut Vec<CopyOut>, to: u64, x: u32)
    ensures
        reply::copies_view(final(out)@) == reply::copies_view(old(out)@).push(
            (to, bytes::put32(x)),
        ),
{
    let ghost before = reply::copies_view(out@);
    let mut b: Vec<u8> = Vec::new();
    bytes::push_u32(&mut b, x);
    assert(b@ =~= bytes::put32(x));
    out.push(CopyOut { to, bytes: b });
    assert(reply::copies_view(out@) =~= before.push((to, bytes::put32(x))));
}

/// `rseq`: the answer, and what the caller is told, as far as it can be.
pub fn sys_rseq(now: &mut Rseq, ptr: u64, len: u64, flags: u64, sig: u64, cpu: u32) -> (r: (
    i64,
    Vec<CopyOut>,
))
    ensures
        (r.0, *final(now)) == rseq_result(*old(now), ptr, len, flags, sig),
        reply::copies_view(r.1@) == (if r.0 == 0 && flags == 0 && old(now).addr == 0 {
            rseq_told(ptr, len, cpu)
        } else {
            Seq::empty()
        }),
{
    let mut out: Vec<CopyOut> = Vec::new();
    assert(reply::copies_view(out@) =~= Seq::empty());
    if flags > RSEQ_FLAG_UNREGISTER {
        return (errno::EINVAL, out);
    }
    if len != RSEQ_LEN_V0 && len != RSEQ_LEN_V1 && len != RSEQ_LEN_V2 {
        return (errno::EINVAL, out);
    }
    if ptr == 0 || ptr % 32 != 0 {
        return (errno::EINVAL, out);
    }
    if flags == RSEQ_FLAG_UNREGISTER {
        if now.addr == 0 {
            return (errno::EINVAL, out);
        }
        if now.addr != ptr || now.sig != sig as u32 {
            return (errno::EPERM, out);
        }
        *now = Rseq { addr: 0, len: 0, sig: 0 };
        return (0, out);
    }
    if now.addr != 0 {
        if now.addr == ptr && now.len == len as u32 && now.sig == sig as u32 {
            return (0, out);
        }
        return (errno::EBUSY, out);
    }
    *now = Rseq { addr: ptr, len: len as u32, sig: sig as u32 };
    tell(&mut out, ptr, cpu);
    tell(&mut out, ptr + 4, cpu);
    if len >= RSEQ_LEN_V1 {
        tell(&mut out, ptr + 24, 0);
    }
    if len >= RSEQ_LEN_V2 {
        let ghost before = reply::copies_view(out@);
        let mut b: Vec<u8> = Vec::new();
        bytes::push_u64(&mut b, 0);
        assert(b@ =~= bytes::put64(0));
        out.push(CopyOut { to: ptr + 28, bytes: b });
        assert(reply::copies_view(out@) =~= before.push(((ptr + 28) as u64, bytes::put64(0))));
    }
    assert(reply::copies_view(out@) =~= rseq_told(ptr, len, cpu));
    (0, out)
}

/// Unregistering what was registered leaves nothing registered.
pub proof fn law_unregister_undoes_register(now: Rseq, ptr: u64, len: u64, sig: u64)
    requires
        now.addr == 0,
        rseq_valid(ptr, len, 0),
    ensures
        rseq_result(now, ptr, len, 0, sig).0 == 0,
        rseq_result(rseq_result(now, ptr, len, 0, sig).1, ptr, len, RSEQ_FLAG_UNREGISTER, sig) == (
            0i64,
            Rseq { addr: 0, len: 0, sig: 0 },
        ),
{
}

/// What `sched_getattr` shows of a process, `sched_setattr` reads.
pub proof fn law_setattr_reads_what_getattr_shows(class: SchedClass, nice: i8)
    ensures
        packed_attr(class, nice).len() == 48,
        attr_in(packed_attr(class, nice)) == (SchedAttr {
            policy: policy_of(class) as u32,
            nice: nice as i32,
            priority: priority_of(class),
            runtime: times_of(class).0,
            deadline: times_of(class).1,
            period: times_of(class).2,
        }),
{
    let (x, y, z) = times_of(class);
    let s = packed_attr(class, nice);
    lemma_attr_layout(
        bytes::put32(48),
        bytes::put32(policy_of(class) as u32),
        bytes::zeros(8),
        bytes::put32((nice as i32) as u32),
        bytes::put32(priority_of(class)),
        bytes::put64(x),
        bytes::put64(y),
        bytes::put64(z),
    );
    bytes::lemma_at32(s, 4, policy_of(class) as u32);
    bytes::lemma_at32(s, 16, (nice as i32) as u32);
    bytes::lemma_at32(s, 20, priority_of(class));
    bytes::lemma_at64(s, 24, x);
    bytes::lemma_at64(s, 32, y);
    bytes::lemma_at64(s, 40, z);
    assert(((nice as i32) as u32) as i32 == nice as i32) by (bit_vector);
}

proof fn lemma_attr_layout(
    head: Seq<u8>,
    policy: Seq<u8>,
    none: Seq<u8>,
    n: Seq<u8>,
    p: Seq<u8>,
    a: Seq<u8>,
    b: Seq<u8>,
    c: Seq<u8>,
)
    requires
        head.len() == 4 && policy.len() == 4 && none.len() == 8 && n.len() == 4 && p.len() == 4,
        a.len() == 8 && b.len() == 8 && c.len() == 8,
    ensures
        ({
            let s = head + policy + none + n + p + a + b + c;
            &&& s.len() == 48
            &&& s.subrange(4, 8) == policy
            &&& s.subrange(16, 20) == n
            &&& s.subrange(20, 24) == p
            &&& s.subrange(24, 32) == a
            &&& s.subrange(32, 40) == b
            &&& s.subrange(40, 48) == c
        }),
{
    let s = head + policy + none + n + p + a + b + c;
    assert(s.subrange(4, 8) =~= policy);
    assert(s.subrange(16, 20) =~= n);
    assert(s.subrange(20, 24) =~= p);
    assert(s.subrange(24, 32) =~= a);
    assert(s.subrange(32, 40) =~= b);
    assert(s.subrange(40, 48) =~= c);
}

} // verus!
