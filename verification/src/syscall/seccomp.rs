//! Filters on system calls.
use crate::bytes;
use crate::errno;
use vstd::prelude::*;

verus! {

pub const SECCOMP_SET_MODE_STRICT: u64 = 0;

pub const SECCOMP_SET_MODE_FILTER: u64 = 1;

pub const SECCOMP_GET_ACTION_AVAIL: u64 = 2;

pub const SECCOMP_FILTER_FLAG_TSYNC: u64 = 1;

pub const SECCOMP_FILTER_FLAG_LOG: u64 = 2;

pub const SECCOMP_FILTER_FLAG_SPEC_ALLOW: u64 = 4;

pub const SECCOMP_RET_KILL_PROCESS: u32 = 0x8000_0000;

pub const SECCOMP_RET_KILL_THREAD: u32 = 0;

pub const SECCOMP_RET_TRAP: u32 = 0x0003_0000;

pub const SECCOMP_RET_ERRNO: u32 = 0x0005_0000;

pub const SECCOMP_RET_LOG: u32 = 0x7ffc_0000;

pub const SECCOMP_RET_ALLOW: u32 = 0x7fff_0000;

pub const SECCOMP_RET_ACTION: u32 = 0x7fff_0000;

pub const SECCOMP_RET_DATA: u32 = 0x0000_ffff;

/// The most instructions of a filter.
pub const FILTER_MAX: u64 = 4096;

/// One instruction of a filter.
#[derive(Clone, Copy, PartialEq, Eq, Structural, Debug)]
pub struct SockFilter {
    pub code: u16,
    pub jt: u8,
    pub jf: u8,
    pub k: u32,
}

/// How a request goes on.
#[derive(Clone, Copy, PartialEq, Eq, Structural, Debug)]
pub enum SeccompStep {
    Reply(i64),
    /// The strict filter is set: `0`.
    SetStrict,
    /// The head of a filter is read.
    ReadFilter { all_threads: bool },
    /// The action that is asked about is read.
    ReadAction,
}

/// `seccomp`: who may gain privileges by running a program may set filters only as an
/// administrator. `strict_valid` says whether the strict filter passes the verifier.
pub fn sys_seccomp(
    operation: u64,
    flags: u64,
    no_new_privs: bool,
    admin: bool,
    strict_valid: bool,
) -> (r: SeccompStep)
    ensures
        r == (if operation == SECCOMP_SET_MODE_STRICT {
            if !strict_valid {
                SeccompStep::Reply(errno::EINVAL)
            } else if !no_new_privs && !admin {
                SeccompStep::Reply(errno::EPERM)
            } else {
                SeccompStep::SetStrict
            }
        } else if operation == SECCOMP_SET_MODE_FILTER {
            if flags & !(SECCOMP_FILTER_FLAG_TSYNC | SECCOMP_FILTER_FLAG_LOG
                | SECCOMP_FILTER_FLAG_SPEC_ALLOW) != 0 {
                SeccompStep::Reply(errno::EINVAL)
            } else if !no_new_privs && !admin {
                SeccompStep::Reply(errno::EPERM)
            } else {
                SeccompStep::ReadFilter { all_threads: flags & SECCOMP_FILTER_FLAG_TSYNC != 0 }
            }
        } else if operation == SECCOMP_GET_ACTION_AVAIL {
            SeccompStep::ReadAction
        } else {
            SeccompStep::Reply(errno::EINVAL)
        }),
{
    match operation {
        SECCOMP_SET_MODE_STRICT => {
            if !strict_valid {
                return SeccompStep::Reply(errno::EINVAL);
            }
            if !no_new_privs && !admin {
                return SeccompStep::Reply(errno::EPERM);
            }
            SeccompStep::SetStrict
        },
        SECCOMP_SET_MODE_FILTER => {
            if (flags & !(SECCOMP_FILTER_FLAG_TSYNC | SECCOMP_FILTER_FLAG_LOG
                | SECCOMP_FILTER_FLAG_SPEC_ALLOW)) != 0 {
                return SeccompStep::Reply(errno::EINVAL);
            }
            if !no_new_privs && !admin {
                return SeccompStep::Reply(errno::EPERM);
            }
            SeccompStep::ReadFilter { all_threads: flags & SECCOMP_FILTER_FLAG_TSYNC != 0 }
        },
        SECCOMP_GET_ACTION_AVAIL => SeccompStep::ReadAction,
        _ => SeccompStep::Reply(errno::EINVAL),
    }
}

/// Where a filter stands in the caller's memory, and how many instructions it has.
pub fn filter_header(hdr: Option<Vec<u8>>) -> (r: Result<(u64, u64), i64>)
    requires
        hdr is Some ==> hdr->0@.len() == 16,
    ensures
        r == (if hdr is None {
            Err(errno::EFAULT)
        } else if bytes::le16(hdr->0@, 0) == 0 || bytes::le16(hdr->0@, 0) > FILTER_MAX {
            Err(errno::EINVAL)
        } else {
            Ok::<(u64, u64), i64>((bytes::le64(hdr->0@, 8), bytes::le16(hdr->0@, 0) as u64))
        }),
{
    let hdr = match hdr {
        Some(h) => h,
        None => {
            return Err(errno::EFAULT);
        },
    };
    let len: u64 = bytes::u16_at(&hdr, 0) as u64;
    let at: u64 = bytes::u64_at(&hdr, 8);
    if len == 0 || len > FILTER_MAX {
        return Err(errno::EINVAL);
    }
    Ok((at, len))
}

/// The instruction at a place.
pub open spec fn instruction(buf: Seq<u8>, at: int) -> SockFilter {
    SockFilter {
        code: bytes::le16(buf, at),
        jt: buf[at + 2],
        jf: buf[at + 3],
        k: bytes::le32(buf, at + 4),
    }
}

pub open spec fn instructions(buf: Seq<u8>) -> Seq<SockFilter> {
    Seq::new((buf.len() / 8) as nat, |i: int| instruction(buf, 8 * i))
}

/// Reads the instructions of a filter.
pub fn read_filter(buf: &Vec<u8>) -> (insns: Vec<SockFilter>)
    ensures
        insns@ == instructions(buf@),
{
    let n: usize = buf.len() / 8;
    let mut insns: Vec<SockFilter> = Vec::new();
    let mut i: usize = 0;
    while i < n
        invariant
            i <= n,
            n == buf@.len() / 8,
            insns@.len() == i,
            forall|j: int| 0 <= j < i ==> insns@[j] == #[trigger] instructions(buf@)[j],
        decreases n - i,
    {
        assert(8 * i + 8 <= buf.len());
        let at: usize = 8 * i;
        insns.push(
            SockFilter {
                code: bytes::u16_at(buf, at),
                jt: buf[at + 2],
                jf: buf[at + 3],
                k: bytes::u32_at(buf, at + 4),
            },
        );
        i += 1;
    }
    assert(insns@ =~= instructions(buf@));
    insns
}

/// Whether filters can ask for an action.
pub open spec fn available(action: u32) -> bool {
    action == SECCOMP_RET_KILL_PROCESS || action == SECCOMP_RET_KILL_THREAD || action
        == SECCOMP_RET_TRAP || action == SECCOMP_RET_ERRNO || action == SECCOMP_RET_LOG || action
        == SECCOMP_RET_ALLOW
}

/// The instructions of a filter, with its bytes where they could be read.
pub fn filter_program(buf: Option<Vec<u8>>) -> (r: Result<Vec<SockFilter>, i64>)
    ensures
        match r {
            Err(e) => buf is None && e == errno::EFAULT,
            Ok(insns) => buf is Some && insns@ == instructions(buf->0@),
        },
{
    match buf {
        None => Err(errno::EFAULT),
        Some(b) => Ok(read_filter(&b)),
    }
}

/// `seccomp` with a filter, once the verifier has looked at it. A filter that passes is set.
pub fn filter_answer(valid: bool) -> (code: i64)
    ensures
        code == (if valid {
            0
        } else {
            errno::EINVAL
        }),
{
    if valid {
        0
    } else {
        errno::EINVAL
    }
}

/// Says whether filters can ask for an action.
pub fn action_available(a: Option<Vec<u8>>) -> (code: i64)
    requires
        a is Some ==> a->0@.len() == 4,
    ensures
        code == (if a is None {
            errno::EFAULT
        } else if available(bytes::le32(a->0@, 0)) {
            0
        } else {
            errno::EINVAL
        }),
{
    match a {
        None => errno::EFAULT,
        Some(b) => match bytes::u32_at(&b, 0) {
            SECCOMP_RET_KILL_PROCESS
            | SECCOMP_RET_KILL_THREAD
            | SECCOMP_RET_TRAP
            | SECCOMP_RET_ERRNO
            | SECCOMP_RET_LOG
            | SECCOMP_RET_ALLOW => 0,
            _ => errno::EINVAL,
        },
    }
}

/// Load the word at `k` of what is known of the call.
pub const OP_LOAD: u16 = 0x20;

/// Jump by whether the word is `k`.
pub const OP_JUMP_EQ: u16 = 0x15;

/// End with `k`.
pub const OP_RETURN: u16 = 0x06;

pub open spec fn insn(code: u16, jt: u8, jf: u8, k: u32) -> SockFilter {
    SockFilter { code, jt, jf, k }
}

/// The strict filter.
pub open spec fn strict_program() -> Seq<SockFilter> {
    seq![
        insn(OP_LOAD, 0, 0, 0),
        insn(OP_JUMP_EQ, 5, 0, 0),
        insn(OP_JUMP_EQ, 4, 0, 1),
        insn(OP_JUMP_EQ, 3, 0, 15),
        insn(OP_JUMP_EQ, 2, 0, 60),
        insn(OP_JUMP_EQ, 1, 0, 231),
        insn(OP_RETURN, 0, 0, SECCOMP_RET_KILL_PROCESS),
        insn(OP_RETURN, 0, 0, SECCOMP_RET_ALLOW),
    ]
}

fn make_insn(code: u16, jt: u8, jf: u8, k: u32) -> (r: SockFilter)
    ensures
        r == insn(code, jt, jf, k),
{
    SockFilter { code, jt, jf, k }
}

/// The strict filter: read, write, exit and the return from a signal.
pub fn strict_mode_program() -> (p: Vec<SockFilter>)
    ensures
        p@ == strict_program(),
{
    let mut p: Vec<SockFilter> = Vec::new();
    p.push(make_insn(OP_LOAD, 0, 0, 0));
    p.push(make_insn(OP_JUMP_EQ, 5, 0, 0));
    p.push(make_insn(OP_JUMP_EQ, 4, 0, 1));
    p.push(make_insn(OP_JUMP_EQ, 3, 0, 15));
    p.push(make_insn(OP_JUMP_EQ, 2, 0, 60));
    p.push(make_insn(OP_JUMP_EQ, 1, 0, 231));
    p.push(make_insn(OP_RETURN, 0, 0, SECCOMP_RET_KILL_PROCESS));
    p.push(make_insn(OP_RETURN, 0, 0, SECCOMP_RET_ALLOW));
    assert(p@ =~= strict_program());
    p
}

/// What the instructions from `at` on end with, for a call of number `nr`, with `acc` the
/// word loaded last. Of the words known of a call the first is its number.
pub open spec fn run(program: Seq<SockFilter>, at: int, acc: u32, nr: u32) -> Option<u32>
    decreases
            (if at < program.len() {
                program.len() - at
            } else {
                0
            }),
{
    if at < 0 || at >= program.len() {
        None
    } else {
        let i = program[at];
        if i.code == OP_LOAD && i.k == 0 {
            run(program, at + 1, nr, nr)
        } else if i.code == OP_JUMP_EQ {
            run(
                program,
                at + 1 + (if acc == i.k {
                    i.jt as int
                } else {
                    i.jf as int
                }),
                acc,
                nr,
            )
        } else if i.code == OP_RETURN {
            Some(i.k)
        } else {
            None
        }
    }
}

/// The strict filter allows reading, writing, exiting and the return from a signal, and
/// kills for all else.
pub proof fn law_strict_filter(nr: u32)
    ensures
        run(strict_program(), 0, 0, nr) == Some(
            if nr == 0 || nr == 1 || nr == 15 || nr == 60 || nr == 231 {
                SECCOMP_RET_ALLOW
            } else {
                SECCOMP_RET_KILL_PROCESS
            },
        ),
{
    reveal_with_fuel(run, 9);
}

/// What a filter's word comes to.
#[derive(Clone, Copy, PartialEq, Eq, Structural, Debug)]
pub enum Verdict {
    Allow,
    /// The call is noted and allowed.
    Log,
    /// The call is answered at once.
    Errno(i64),
    /// The caller gets a signal that tells of the call.
    Trap { data: u16 },
    /// The caller is killed.
    Kill,
}

/// The largest number of an error.
pub const ERRNO_MAX: u32 = 4095;

pub open spec fn verdict_of(word: u32) -> Verdict {
    let action = word & SECCOMP_RET_ACTION;
    let data = word & SECCOMP_RET_DATA;
    if action == SECCOMP_RET_ALLOW {
        Verdict::Allow
    } else if action == SECCOMP_RET_LOG {
        Verdict::Log
    } else if action == SECCOMP_RET_ERRNO {
        Verdict::Errno(
            -(if data > ERRNO_MAX {
                ERRNO_MAX as i64
            } else {
                data as i64
            }) as i64,
        )
    } else if action == SECCOMP_RET_TRAP {
        Verdict::Trap { data: data as u16 }
    } else {
        Verdict::Kill
    }
}

/// What a filter's word comes to.
pub fn apply_seccomp(word: u32) -> (v: Verdict)
    ensures
        v == verdict_of(word),
{
    let action: u32 = word & SECCOMP_RET_ACTION;
    let data: u32 = word & SECCOMP_RET_DATA;
    match action {
        SECCOMP_RET_ALLOW => Verdict::Allow,
        SECCOMP_RET_LOG => Verdict::Log,
        SECCOMP_RET_ERRNO => {
            let e: i64 = if data > ERRNO_MAX {
                ERRNO_MAX as i64
            } else {
                data as i64
            };
            Verdict::Errno(-e)
        },
        SECCOMP_RET_TRAP => Verdict::Trap { data: data as u16 },
        _ => Verdict::Kill,
    }
}

} // verus!
