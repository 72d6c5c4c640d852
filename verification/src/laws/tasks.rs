//! New processes and threads, the programs that they run, and what is told of them.

use vstd::prelude::*;

use super::bits;
use super::layout;
use crate::bytes;
use crate::process_model::Pid;
use crate::syscall::clone;
use crate::syscall::clone::NewTask;
use crate::syscall::exec;
use crate::syscall::fs::paths;
use crate::syscall::fs::paths::{At, PathRead};
use crate::syscall::proc;
use crate::syscall::proc::{Attrs, CpuTimes, Machine, PrctlFacts, PrctlView, Rlimit};
use crate::syscall::reply::ReplyView;
use crate::syscall::seccomp;
use crate::syscall::seccomp::{SockFilter, Verdict};

verus! {

/// A thread shares memory, directories, files, signal handlers and the process; a process shares
/// none of them, but may borrow the memory of its maker while that waits. New namespaces are for
/// who may make them.
pub proof fn law_new_task_is_what_was_asked(flags: u64, stack: u64, admin: bool)
    ensures
        ({
            let memory = (flags / 0x100) % 2 == 1;
            let directories = (flags / 0x200) % 2 == 1;
            let files = (flags / 0x400) % 2 == 1;
            let handlers = (flags / 0x800) % 2 == 1;
            let waits = (flags / 0x4000) % 2 == 1;
            let same_process = (flags / 0x1_0000) % 2 == 1;
            let new_pid = (flags / 0x2000_0000) % 2 == 1;
            let new_ipc = (flags / 0x0800_0000) % 2 == 1;
            let new_net = (flags / 0x4000_0000) % 2 == 1;
            let shares_all = directories && files && handlers && same_process;
            let shares_none = !directories && !files && !handlers && !same_process;
            let r = clone::clone_request(flags, stack, admin);
            &&& memory && shares_all ==> r == Ok::<NewTask, i64>(NewTask::Thread { stack })
            &&& !(memory && shares_all) && !shares_none ==> r == Err::<NewTask, i64>(-38i64)
            &&& shares_none && memory && !waits ==> r == Err::<NewTask, i64>(-38i64)
            &&& shares_none && (!memory || waits) ==> r == (if (new_pid || new_ipc || new_net)
                && !admin {
                Err::<NewTask, i64>(-1i64)
            } else {
                Ok(
                    NewTask::Process {
                        stack,
                        borrows_memory: memory,
                        new_pid,
                        new_ipc,
                        new_net,
                    },
                )
            })
        }),
{
    bits::lemma_clone_bits(flags);
}

/// A request to make a task that comes as a record says the same things at these places.
pub proof fn law_request_in_a_record(buf: Seq<u8>)
    requires
        buf.len() == 64,
        bytes::le64(buf, 40) + bytes::le64(buf, 48) <= u64::MAX,
    ensures
        ({
            let flags = bytes::le64(buf, 0);
            let r = clone::clone3_request(buf);
            let watched = (flags / 0x1000) % 2 == 1;
            &&& r is Err ==> r->Err_0 == -22
            &&& r is Ok == ((flags / 0x1_0000_0000) % 4 == 0 && !(watched && bytes::le64(buf, 8)
                == 0))
            &&& r matches Ok(a) ==> {
                &&& a.flags / 0x100 == flags / 0x100
                &&& a.flags % 0x100 == bytes::le64(buf, 32) % 0x100
                &&& a.pidfd == (if watched {
                    Some(bytes::le64(buf, 8))
                } else {
                    None
                })
                &&& a.ctid == bytes::le64(buf, 16)
                &&& a.ptid == bytes::le64(buf, 24)
                &&& bytes::le64(buf, 40) == 0 ==> a.child_stack == 0
                &&& bytes::le64(buf, 40) != 0 ==> a.child_stack == bytes::le64(buf, 40)
                    + bytes::le64(buf, 48)
                &&& a.tls == bytes::le64(buf, 56)
            }
        }),
{
    bits::lemma_record_bits(bytes::le64(buf, 0), bytes::le64(buf, 32));
}

/// What a filter says of a call: the upper half of the word is the verdict and the lower half
/// goes with it.
pub proof fn law_verdicts_of_filters(word: u32)
    ensures
        ({
            let action = (word / 0x1_0000) % 0x8000;
            let data = word % 0x1_0000;
            seccomp::verdict_of(word) == (if action == 0x7fff {
                Verdict::Allow
            } else if action == 0x7ffc {
                Verdict::Log
            } else if action == 5 {
                Verdict::Errno(
                    if data > 4095 {
                        -4095i64
                    } else {
                        (0 - data) as i64
                    },
                )
            } else if action == 3 {
                Verdict::Trap { data: data as u16 }
            } else {
                Verdict::Kill
            })
        }),
        seccomp::available(word) == (word == 0 || word == 0x8000_0000 || word == 0x0003_0000 || word
            == 0x0005_0000 || word == 0x7ffc_0000 || word == 0x7fff_0000),
{
    bits::lemma_verdict_bits(word);
}

/// An instruction of a filter is eight bytes long.
pub proof fn law_instructions_of_filters(buf: Seq<u8>, i: int)
    requires
        0 <= i < buf.len() / 8,
    ensures
        seccomp::instructions(buf).len() == buf.len() / 8,
        seccomp::instructions(buf)[i] == (SockFilter {
            code: bytes::le16(buf, 8 * i),
            jt: buf[8 * i + 2],
            jf: buf[8 * i + 3],
            k: bytes::le32(buf, 8 * i + 4),
        }),
{
}

proof fn lemma_word_of(name: Seq<u8>, rest: Seq<u8>)
    requires
        forall|i: int| 0 <= i < name.len() ==> name[i] != 0x20 && #[trigger] name[i] != 0x09,
        rest.len() == 0 || rest[0] == 0x20 || rest[0] == 0x09,
    ensures
        exec::word(name + rest) == name.len(),
    decreases name.len(),
{
    let s = name + rest;
    if name.len() == 0 {
        assert(s =~= rest);
    } else {
        assert(s.skip(1) =~= name.skip(1) + rest);
        assert(s[0] == name[0]);
        lemma_word_of(name.skip(1), rest);
    }
}

proof fn lemma_line_of(line: Seq<u8>, rest: Seq<u8>)
    requires
        forall|i: int| 0 <= i < line.len() ==> line[i] != 0x0a && #[trigger] line[i] != 0x0d,
        rest.len() == 0 || rest[0] == 0x0a || rest[0] == 0x0d,
    ensures
        exec::line_len(line + rest) == line.len(),
    decreases line.len(),
{
    let s = line + rest;
    if line.len() == 0 {
        assert(s =~= rest);
    } else {
        assert(s.skip(1) =~= line.skip(1) + rest);
        assert(s[0] == line[0]);
        lemma_line_of(line.skip(1), rest);
    }
}

/// A byte that stands in a word of a line.
pub open spec fn is_plain(b: u8) -> bool {
    b != 0x20 && b != 0x09 && b != 0x0a && b != 0x0d
}

/// A script begins with `#!`, the name of its interpreter, a blank and an argument, to the end of
/// the line. The interpreter gets its own name, the argument, the path of the script, and what
/// the script was given after its own name.
pub proof fn law_script_names_its_interpreter(
    name: Seq<u8>,
    arg: Seq<u8>,
    rest: Seq<u8>,
    path: Seq<u8>,
    own: Seq<u8>,
    given: Seq<Seq<u8>>,
)
    requires
        name.len() > 0,
        arg.len() > 0,
        forall|i: int| 0 <= i < name.len() ==> is_plain(#[trigger] name[i]),
        forall|i: int| 0 <= i < arg.len() ==> is_plain(#[trigger] arg[i]),
    ensures
        ({
            let image = seq![0x23u8, 0x21u8] + (name + seq![0x20u8] + arg) + (seq![0x0au8] + rest);
            let argv = exec::script_args(image, path, seq![own] + given);
            &&& exec::is_script(image)
            &&& exec::interpreter(image) == name
            &&& exec::interpreter_arg(image) == arg
            &&& argv == seq![name, arg, path] + given
        }),
        ({
            let image = seq![0x23u8, 0x21u8] + name + (seq![0x0au8] + rest);
            let argv = exec::script_args(image, path, seq![own] + given);
            &&& exec::is_script(image)
            &&& exec::interpreter(image) == name
            &&& exec::interpreter_arg(image).len() == 0
            &&& argv == seq![name, path] + given
        }),
{
    reveal_with_fuel(exec::blanks, 3);
    assert forall|i: int| 0 <= i < name.len() implies name[i] != 0x20 && #[trigger] name[i]
        != 0x09 by {
        assert(is_plain(name[i]));
    }
    assert(is_plain(name[0]));
    assert(is_plain(arg[0]));
    let end = seq![0x0au8] + rest;
    assert((seq![own] + given).skip(1) =~= given);
    {
        let line = name + seq![0x20u8] + arg;
        let image = seq![0x23u8, 0x21u8] + line + end;
        assert forall|i: int| 0 <= i < line.len() implies line[i] != 0x0a && #[trigger] line[i]
            != 0x0d by {
            if i < name.len() {
                assert(line[i] == name[i]);
            } else if i > name.len() {
                assert(line[i] == arg[i - name.len() - 1]);
            }
        }
        assert(image.skip(2) =~= line + end);
        lemma_line_of(line, end);
        assert((line + end).take(line.len() as int) =~= line);
        assert(exec::blanks(line) == 0);
        assert(line.skip(0) =~= line);
        assert(exec::script_line(image) == line);
        let tail = seq![0x20u8] + arg;
        assert(line =~= name + tail);
        lemma_word_of(name, tail);
        assert(line.take(name.len() as int) =~= name);
        assert(line.skip(name.len() as int) =~= tail);
        assert(tail.skip(1) =~= arg);
        assert(exec::blanks(arg) == 0);
        assert(exec::blanks(tail) == 1);
        assert(exec::interpreter_arg(image) == arg);
        assert(exec::script_args(image, path, seq![own] + given) =~= seq![name, arg, path] + given);
    }
    {
        let image = seq![0x23u8, 0x21u8] + name + end;
        assert forall|i: int| 0 <= i < name.len() implies name[i] != 0x0a && #[trigger] name[i]
            != 0x0d by {
            assert(is_plain(name[i]));
        }
        assert(image.skip(2) =~= name + end);
        lemma_line_of(name, end);
        assert((name + end).take(name.len() as int) =~= name);
        assert(exec::blanks(name) == 0);
        assert(name.skip(0) =~= name);
        let none = Seq::<u8>::empty();
        lemma_word_of(name, none);
        assert(name + none =~= name);
        assert(name.take(name.len() as int) =~= name);
        assert(name.skip(name.len() as int) =~= none);
        assert(none.skip(0) =~= none);
        assert(exec::script_args(image, path, seq![own] + given) =~= seq![name, path] + given);
    }
}

proof fn lemma_base(front: Seq<u8>, name: Seq<u8>)
    requires
        forall|i: int| 0 <= i < name.len() ==> #[trigger] name[i] != 0x2f,
    ensures
        exec::base_name(front + seq![0x2fu8] + name) == name,
        exec::base_name(name) == name,
    decreases name.len(),
{
    let s = front + seq![0x2fu8] + name;
    if name.len() == 0 {
        assert(s.last() == 0x2f);
        assert(exec::base_name(s) =~= name);
    } else {
        let shorter = name.drop_last();
        assert forall|i: int| 0 <= i < shorter.len() implies #[trigger] shorter[i] != 0x2f by {
            assert(shorter[i] == name[i]);
        }
        lemma_base(front, shorter);
        assert(s.drop_last() =~= front + seq![0x2fu8] + shorter);
        assert(s.last() == name.last());
        assert(name[name.len() - 1] != 0x2f);
        assert(shorter.push(name.last()) =~= name);
    }
}

/// A program is known by the last part of its path, in sixteen bytes of which the last is zero.
pub proof fn law_program_is_known_by_its_last_name(front: Seq<u8>, name: Seq<u8>)
    requires
        forall|i: int| 0 <= i < name.len() ==> #[trigger] name[i] != 0x2f,
    ensures
        ({
            let s = exec::short_name(front + seq![0x2fu8] + name);
            &&& s.len() == 16
            &&& s[15] == 0
            &&& name.len() <= 15 ==> s.take(name.len() as int) == name
            &&& name.len() > 15 ==> s.take(15) == name.take(15)
            &&& forall|i: int| name.len() <= i < 16 ==> #[trigger] s[i] == 0
        }),
{
    lemma_base(front, name);
    let s = exec::short_name(front + seq![0x2fu8] + name);
    if name.len() > 15 {
        assert(s.take(15) =~= name.take(15));
    } else {
        assert(s.take(name.len() as int) =~= name);
    }
}

/// An answer without bytes.
pub open spec fn says(code: i64) -> PrctlView {
    PrctlView::Answer(ReplyView { code, out: Seq::empty() })
}

/// An answer with a number of four bytes.
pub open spec fn says_at(to: u64, x: u32) -> PrctlView {
    PrctlView::Answer(ReplyView { code: 0, out: seq![(to, bytes::put32(x))] })
}

/// What a process sets of itself is what it is told then. `1` and `2` are the signal at its
/// maker's death, `3` and `4` whether it may be dumped, `7` and `8` whether it keeps its
/// capabilities, `36` and `37` whether it adopts orphans, and `38` and `39` that it gains nothing
/// by running a program.
pub proof fn law_what_is_set_is_told(
    a: Attrs,
    x: u64,
    to: u64,
    arg3: u64,
    facts: PrctlFacts,
    name: Seq<u8>,
)
    requires
        to != 0,
    ensures
        ({
            let (after, step) = proc::prctl_request(a, 1, x, arg3, facts, None, name);
            &&& step == says(
                if x <= 64 {
                    0
                } else {
                    -22i64
                },
            )
            &&& x <= 64 ==> proc::prctl_request(after, 2, to, arg3, facts, None, name) == (
                after,
                says_at(to, x as u32),
            )
            &&& x > 64 ==> after == a
        }),
        ({
            let (after, step) = proc::prctl_request(a, 4, x, arg3, facts, None, name);
            &&& step == says(
                if x <= 1 {
                    0
                } else {
                    -22i64
                },
            )
            &&& x <= 1 ==> proc::prctl_request(after, 3, to, arg3, facts, None, name) == (
                after,
                says(x as i64),
            )
            &&& x > 1 ==> after == a
        }),
        ({
            let (after, step) = proc::prctl_request(a, 8, x, arg3, facts, None, name);
            &&& step == says(
                if x <= 1 {
                    0
                } else {
                    -22i64
                },
            )
            &&& x <= 1 ==> proc::prctl_request(after, 7, to, arg3, facts, None, name) == (
                after,
                says(x as i64),
            )
            &&& x > 1 ==> after == a
        }),
        ({
            let (after, step) = proc::prctl_request(a, 36, x, arg3, facts, None, name);
            &&& step == says(0)
            &&& proc::prctl_request(after, 37, to, arg3, facts, None, name) == (
                after,
                says_at(
                    to,
                    if x == 0 {
                        0u32
                    } else {
                        1
                    },
                ),
            )
        }),
        ({
            let (after, step) = proc::prctl_request(a, 38, x, arg3, facts, None, name);
            &&& step == says(
                if x == 1 {
                    0
                } else {
                    -22i64
                },
            )
            &&& x == 1 ==> proc::prctl_request(after, 39, to, arg3, facts, None, name) == (
                after,
                says(1),
            )
            &&& x != 1 ==> after == a
        }),
{
}

/// What a process asks of its name, its filters and the bounds of its capabilities.
pub proof fn law_names_filters_and_bounds(
    a: Attrs,
    x: u64,
    arg3: u64,
    facts: PrctlFacts,
    given: Seq<u8>,
    len: usize,
    name: Seq<u8>,
)
    requires
        given.len() == 16,
    ensures
        proc::prctl_request(a, 16, x, arg3, facts, None, name) == (
            a,
            if x == 0 {
                says(-14i64)
            } else {
                PrctlView::Answer(ReplyView { code: 0, out: seq![(x, name)] })
            },
        ),
        ({
            let (after, step) = proc::prctl_request(a, 15, x, arg3, facts, Some((given, len)), name);
            &&& after == a
            &&& x == 0 ==> step == says(-14i64)
            &&& x != 0 ==> (step matches PrctlView::SetName(n) && n.len() == 16 && n[if len < 15 {
                len as int
            } else {
                15
            }] == 0 && forall|i: int| 0 <= i < len && i < 15 ==> #[trigger] n[i] == given[i])
        }),
        proc::prctl_request(a, 22, 1, arg3, facts, None, name) == (
            a,
            PrctlView::Seccomp { operation: 0, args: 0 },
        ),
        proc::prctl_request(a, 22, 2, arg3, facts, None, name) == (
            a,
            PrctlView::Seccomp { operation: 1, args: arg3 },
        ),
        proc::prctl_request(a, 21, x, arg3, facts, None, name) == (
            a,
            says(
                if facts.filtered {
                    2
                } else {
                    0i64
                },
            ),
        ),
        proc::prctl_request(a, 23, x, arg3, facts, None, name) == (
            a,
            says(
                if x >= 64 {
                    -22i64
                } else if facts.bounded {
                    1
                } else {
                    0i64
                },
            ),
        ),
        proc::prctl_request(a, 24, x, arg3, facts, None, name) == (
            a,
            if x >= 64 {
                says(-22i64)
            } else if facts.may_drop {
                PrctlView::DropBound(x as u32)
            } else {
                says(-1i64)
            },
        ),
{
}

/// Which children are waited for: any by `0`, the one named by `1`, and those of a group by `2`.
pub proof fn law_children_are_waited_for(kind: u64, id: u64, mapped: Option<Pid>)
    ensures
        ({
            let r = proc::waitid_request(kind, id, mapped);
            let named = id != 0 && id < 0x8000_0000_0000_0000;
            &&& kind == 0 ==> r == Ok::<i64, i64>(-1i64)
            &&& kind == 1 && named ==> (mapped matches Some(p) ==> r == Ok::<i64, i64>(p.0 as i64))
            &&& kind == 1 && named && mapped is None ==> r == Err::<i64, i64>(-10i64)
            &&& kind == 1 && !named ==> r == Err::<i64, i64>(-22i64)
            &&& kind == 2 && id == 0 ==> r == Ok::<i64, i64>(0)
            &&& kind == 2 && id != 0 ==> (mapped matches Some(p) ==> r == Ok::<i64, i64>(
                (0 - p.0) as i64,
            ))
            &&& kind == 2 && id != 0 && mapped is None ==> r == Err::<i64, i64>(-10i64)
            &&& kind > 2 ==> r == Err::<i64, i64>(-22i64)
        }),
{
    bits::lemma_sign(id);
}

/// The time that a process used, in user code and in the kernel, and that its children used.
pub proof fn law_time_used_is_told(t: CpuTimes)
    ensures
        proc::usage_of(0, t) == (t.utime_ns, t.stime_ns),
        proc::usage_of(1, t) == (t.utime_ns, t.stime_ns),
        proc::usage_of(0xffff_ffff_ffff_ffff, t) == (t.cutime_ns, t.cstime_ns),
        ({
            let s = proc::packed_ticks(t);
            &&& s.len() == 32
            &&& bytes::le64(s, 0) == t.utime_ns / 10_000_000
            &&& bytes::le64(s, 8) == t.stime_ns / 10_000_000
            &&& bytes::le64(s, 16) == t.cutime_ns / 10_000_000
            &&& bytes::le64(s, 24) == t.cstime_ns / 10_000_000
        }),
        ({
            let s = proc::packed_micros(t.utime_ns);
            &&& s.len() == 16
            &&& bytes::le64(s, 0) == t.utime_ns / 1_000_000_000
            &&& bytes::le64(s, 8) == (t.utime_ns % 1_000_000_000) / 1000
        }),
{
    let none = Seq::<u8>::empty();
    let a = t.utime_ns / 10_000_000;
    let b = t.stime_ns / 10_000_000;
    let c = t.cutime_ns / 10_000_000;
    let d = t.cstime_ns / 10_000_000;
    let s0 = bytes::put64(a);
    layout::lemma_put64(none, a);
    assert(none + s0 =~= s0);
    let s1 = s0 + bytes::put64(b);
    layout::lemma_put64(s0, b);
    layout::lemma_behind(s0, bytes::put64(b));
    let s2 = s1 + bytes::put64(c);
    layout::lemma_put64(s1, c);
    layout::lemma_behind(s1, bytes::put64(c));
    layout::lemma_put64(s2, d);
    layout::lemma_behind(s2, bytes::put64(d));
    let sec = t.utime_ns / 1_000_000_000;
    let usec = t.utime_ns % 1_000_000_000 / 1_000;
    let u0 = bytes::put64(sec);
    layout::lemma_put64(none, sec);
    assert(none + u0 =~= u0);
    layout::lemma_put64(u0, usec);
    layout::lemma_behind(u0, bytes::put64(usec));
}

/// What is told of the machine: how long it runs, in seconds, its load, its memory and how much
/// of that is free, and how many processes there are.
pub proof fn law_machine_is_told(m: Machine)
    requires
        m.frames * 4096 <= u64::MAX,
    ensures
        ({
            let s = proc::packed_sysinfo(m);
            &&& s.len() == 112
            &&& bytes::le64(s, 0) == m.uptime_ns / 1_000_000_000
            &&& bytes::le64(s, 8) == m.load1
            &&& bytes::le64(s, 16) == m.load5
            &&& bytes::le64(s, 24) == m.load15
            &&& bytes::le64(s, 32) == m.frames * 4096
            &&& m.frames_used <= m.frames ==> bytes::le64(s, 40) == (m.frames - m.frames_used)
                * 4096
            &&& m.frames_used > m.frames ==> bytes::le64(s, 40) == 0
            &&& bytes::le16(s, 80) == m.processes
            &&& bytes::le32(s, 104) == 1
        }),
{
    let none = Seq::<u8>::empty();
    let up = m.uptime_ns / 1_000_000_000;
    let all = (m.frames * 4096) as u64;
    let free = (proc::free_frames(m) * 4096) as u64;
    let s0 = bytes::put64(up);
    layout::lemma_put64(none, up);
    assert(none + s0 =~= s0);
    let s1 = s0 + bytes::put64(m.load1);
    layout::lemma_put64(s0, m.load1);
    layout::lemma_behind(s0, bytes::put64(m.load1));
    let s2 = s1 + bytes::put64(m.load5);
    layout::lemma_put64(s1, m.load5);
    layout::lemma_behind(s1, bytes::put64(m.load5));
    let s3 = s2 + bytes::put64(m.load15);
    layout::lemma_put64(s2, m.load15);
    layout::lemma_behind(s2, bytes::put64(m.load15));
    let s4 = s3 + bytes::put64(all);
    layout::lemma_put64(s3, all);
    layout::lemma_behind(s3, bytes::put64(all));
    let s5 = s4 + bytes::put64(free);
    layout::lemma_put64(s4, free);
    layout::lemma_behind(s4, bytes::put64(free));
    let s6 = s5 + bytes::zeros(32);
    layout::lemma_behind(s5, bytes::zeros(32));
    let s7 = s6 + bytes::put16(m.processes);
    layout::lemma_put(s6, 0, 0, m.processes);
    layout::lemma_behind(s6, bytes::put16(m.processes));
    let s8 = s7 + bytes::zeros(22);
    layout::lemma_behind(s7, bytes::zeros(22));
    let s9 = s8 + bytes::put32(1);
    layout::lemma_put32(s8, 1);
    layout::lemma_behind(s8, bytes::put32(1));
    layout::lemma_behind(s9, bytes::zeros(4));
    assert(proc::packed_sysinfo(m) == s9 + bytes::zeros(4));
}

/// A limit is set where it is no more than it may be raised to; nobody has more than `65536`
/// descriptors.
pub proof fn law_limits_are_set_in_order(resource: u64, new: Rlimit)
    ensures
        proc::limit_request(resource, Some(new)) == (if new.cur > new.max || (resource == 7
            && new.max > 65536) {
            Err::<Rlimit, i64>(-22i64)
        } else {
            Ok(new)
        }),
        proc::limit_request(resource, None) == Err::<Rlimit, i64>(-14i64),
        bytes::le64(proc::packed_limit(new), 0) == new.cur,
        bytes::le64(proc::packed_limit(new), 8) == new.max,
        forall|pid: u64, caller: Pid, res: u64| #[trigger]
            proc::no_such_limit(pid, caller, res) == (res >= 16 || (pid != 0 && pid != caller.0)),
{
    let none = Seq::<u8>::empty();
    let s0 = bytes::put64(new.cur);
    layout::lemma_put64(none, new.cur);
    assert(none + s0 =~= s0);
    layout::lemma_put64(s0, new.max);
    layout::lemma_behind(s0, bytes::put64(new.max));
}

/// The names of the machine are told in fields of sixty-five bytes: the system, the host, the
/// release, the version, the machine and the domain.
pub proof fn law_names_of_the_machine(
    buf: u64,
    host: Seq<u8>,
    version: Seq<u8>,
    domain: Seq<u8>,
)
    requires
        buf + 390 <= u64::MAX,
        host.len() <= 64,
        version.len() <= 64,
        domain.len() <= 64,
    ensures
        ({
            let names = proc::uts_names(host, version, domain);
            let placed = proc::names_placed(buf, names, 6);
            &&& placed.len() == 6
            &&& placed[0].0 == buf
            &&& placed[1].0 == buf + 65 && placed[1].1.take(host.len() as int) == host
            &&& placed[2].0 == buf + 130
            &&& placed[3].0 == buf + 195 && placed[3].1.take(version.len() as int) == version
            &&& placed[4].0 == buf + 260
            &&& placed[5].0 == buf + 325 && placed[5].1.take(domain.len() as int) == domain
            &&& forall|i: int| 0 <= i < 6 ==> (#[trigger] placed[i]).1.len() == 65
            &&& forall|i: int| 0 <= i < 6 ==> (#[trigger] placed[i]).1[64] == 0
            &&& placed[0].1.take(5) == seq![0x4cu8, 0x69, 0x6e, 0x75, 0x78]
            &&& placed[4].1.take(6) == seq![0x78u8, 0x38, 0x36, 0x5f, 0x36, 0x34]
        }),
{
    let names = proc::uts_names(host, version, domain);
    reveal_with_fuel(proc::names_placed, 7);
    let placed = proc::names_placed(buf, names, 6);
    assert(names.len() == 6);
    assert(placed[1].1 == proc::uts_field(host));
    assert(placed[1].1.take(host.len() as int) =~= host);
    assert(placed[3].1.take(version.len() as int) =~= version);
    assert(placed[5].1.take(domain.len() as int) =~= domain);
    assert(placed[0].1.take(5) =~= proc::sysname());
    assert(placed[4].1.take(6) =~= proc::machine());
}

/// A program is run by the path that was given, seen from the directory that was given; what runs
/// from memory does not run itself again by the names that stand for it.
pub proof fn law_program_is_the_one_named(at: At, read: PathRead, from_memory: bool)
    ensures
        ({
            let r = exec::program_path(at, read, from_memory);
            let full = paths::user_path(at, paths::path_read(read)->Ok_0);
            &&& read is TooLong ==> r == Err::<Seq<char>, i64>(-36i64)
            &&& read is NotText ==> r == Err::<Seq<char>, i64>(-22i64)
            &&& read is Path && full is Err ==> r == full
            &&& read is Path && full is Ok && !from_memory ==> r == full
            &&& read is Path && full is Ok && from_memory ==> r == (if exec::is_own_file(
                full->Ok_0,
            ) {
                Err::<Seq<char>, i64>(-13i64)
            } else {
                full
            })
        }),
{
}

/// A process stands under two names of its own: its program and its open files.
pub proof fn law_names_of_its_own(rest: Seq<char>, p: Seq<char>)
    ensures
        exec::is_own_file("/proc/self/exe"@ + rest),
        exec::is_own_file("/proc/self/fd/"@ + rest),
        p.len() < 14 ==> !exec::is_own_file(p),
        exec::is_own_file(p) ==> p.take(11) == "/proc/self/"@,
{
    reveal_strlit("/proc/self/exe");
    reveal_strlit("/proc/self/fd/");
    reveal_strlit("/proc/self/");
    let a = "/proc/self/exe"@ + rest;
    assert(a.take(14) =~= "/proc/self/exe"@);
    let b = "/proc/self/fd/"@ + rest;
    assert(b.take(14) =~= "/proc/self/fd/"@);
    if exec::is_own_file(p) {
        assert(p.take(14).take(11) =~= p.take(11));
        assert("/proc/self/exe"@.take(11) =~= "/proc/self/"@);
        assert("/proc/self/fd/"@.take(11) =~= "/proc/self/"@);
    }
}

/// An open file is run where no path is given and the flag for that is set; it is neither empty
/// nor over `64` mebibytes.
pub proof fn law_open_file_is_run(
    pathname: u64,
    read: PathRead,
    flags: u64,
    from_memory: bool,
    size: u64,
)
    requires
        read is Path,
    ensures
        ({
            let r = exec::open_program(pathname, read, Ok(()), flags, from_memory, Some(size));
            let asked = (flags / 0x1000) % 2 == 1 && !from_memory && (pathname == 0
                || paths::path_read(read)->Ok_0.len() == 0);
            &&& !asked ==> r == Err::<u64, i64>(-38i64)
            &&& asked && size == 0 ==> r == Err::<u64, i64>(-8i64)
            &&& asked && size > 0x400_0000 ==> r == Err::<u64, i64>(-7i64)
            &&& asked && 0 < size <= 0x400_0000 ==> r == Ok::<u64, i64>(size)
            &&& asked ==> exec::open_program(pathname, read, Ok(()), flags, from_memory, None)
                == Err::<u64, i64>(-9i64)
        }),
        forall|e: i64| #[trigger]
            exec::open_program(pathname, read, Err(e), flags, from_memory, Some(size)) == Err::<
                u64,
                i64,
            >(e),
        exec::unnamed() == seq![
            '/' as u8,
            'p' as u8,
            'r' as u8,
            'o' as u8,
            'c' as u8,
            '/' as u8,
            's' as u8,
            'e' as u8,
            'l' as u8,
            'f' as u8,
            '/' as u8,
            'f' as u8,
            'd' as u8,
        ],
{
    bits::lemma_mode_bits(flags);
}

/// A program is shown under its first argument where that is an absolute path, and else under the
/// path that it was run by.
pub proof fn law_program_is_shown_by_its_path(argv: Seq<Seq<u8>>, path: Seq<u8>, first: Seq<u8>)
    ensures
        exec::shown_as(Seq::empty(), path) == path,
        exec::shown_as(seq![Seq::<u8>::empty()] + argv, path) == path,
        first.len() > 0 ==> exec::shown_as(seq![first] + argv, path) == (if first[0] == '/' as u8 {
            first
        } else {
            path
        }),
{
    assert((seq![first] + argv)[0] == first);
    assert((seq![Seq::<u8>::empty()] + argv)[0] == Seq::<u8>::empty());
}

} // verus!
