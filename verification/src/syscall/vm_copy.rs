//! Copying between the memories of two processes.
use crate::bytes;
use crate::errno;
use crate::process_model::Pid;
use crate::syscall::util;
use vstd::prelude::*;

verus! {

/// A part of a memory.
#[derive(Clone, Copy, PartialEq, Eq, Structural, Debug)]
pub struct IoVec {
    pub base: u64,
    pub len: u64,
}

/// The most parts on either side.
pub const IOV_MAX: u64 = 1024;

/// The most bytes that are moved at once.
pub const CHUNK: u64 = 4096;

pub open spec fn iovecs(buf: Seq<u8>) -> Seq<IoVec> {
    Seq::new(
        (buf.len() / 16) as nat,
        |i: int| IoVec { base: bytes::le64(buf, 16 * i), len: bytes::le64(buf, 16 * i + 8) },
    )
}

/// Reads a list of parts.
pub fn read_iovecs(buf: &Vec<u8>) -> (out: Vec<IoVec>)
    ensures
        out@ == iovecs(buf@),
{
    let n: usize = buf.len() / 16;
    let mut out: Vec<IoVec> = Vec::new();
    let mut i: usize = 0;
    while i < n
        invariant
            i <= n,
            n == buf@.len() / 16,
            out@.len() == i,
            forall|j: int| 0 <= j < i ==> out@[j] == #[trigger] iovecs(buf@)[j],
        decreases n - i,
    {
        assert(16 * i + 16 <= buf.len());
        let at: usize = 16 * i;
        out.push(IoVec { base: bytes::u64_at(buf, at), len: bytes::u64_at(buf, at + 8) });
        i += 1;
    }
    assert(out@ =~= iovecs(buf@));
    out
}

/// The other process, as far as access to its memory goes.
#[derive(Clone, Copy, PartialEq, Eq, Structural, Debug)]
pub struct Target {
    pub euid: u32,
    pub dumpable: bool,
}

/// Whose memory is copied, or what forbids it: one's own, any for the superuser, else that
/// of a process of the same user that lets itself be dumped.
pub fn process_vm_target(
    liovcnt: u64,
    riovcnt: u64,
    caller: Pid,
    caller_euid: u32,
    pid: Option<Pid>,
    target: Option<Target>,
) -> (r: Result<Pid, i64>)
    ensures
        r == (if liovcnt > IOV_MAX || riovcnt > IOV_MAX {
            Err(errno::EINVAL)
        } else if pid is None {
            Err(errno::ESRCH)
        } else if pid->0 == caller || caller_euid == 0 || (target is Some && target->0.euid
            == caller_euid && target->0.dumpable) {
            Ok(pid->0)
        } else {
            Err::<Pid, i64>(errno::EPERM)
        }),
{
    if liovcnt > IOV_MAX || riovcnt > IOV_MAX {
        return Err(errno::EINVAL);
    }
    let pid = match pid {
        Some(p) => p,
        None => {
            return Err(errno::ESRCH);
        },
    };
    if pid.0 != caller.0 && caller_euid != 0 {
        let allowed = match target {
            Some(t) => t.euid == caller_euid && t.dumpable,
            None => false,
        };
        if !allowed {
            return Err(errno::EPERM);
        }
    }
    Ok(pid)
}

/// How many bytes the first `n` parts hold.
pub open spec fn total(v: Seq<IoVec>, n: int) -> nat
    decreases n,
{
    if n <= 0 {
        0
    } else {
        total(v, n - 1) + v[n - 1].len as nat
    }
}

pub proof fn lemma_total_grows(v: Seq<IoVec>, a: int, b: int)
    requires
        a <= b,
    ensures
        total(v, a) <= total(v, b),
    decreases b - a,
{
    if a < b {
        lemma_total_grows(v, a, b - 1);
    }
}

/// The parts on both sides of a copy, or why there is none: each list is looked at where it has
/// parts, the caller's own first, and then whether the other process has memory.
pub open spec fn copy_parts(
    liovcnt: u64,
    local: Option<Seq<u8>>,
    riovcnt: u64,
    remote: Option<Seq<u8>>,
    space: bool,
) -> Result<(Seq<IoVec>, Seq<IoVec>), i64> {
    if liovcnt > 0 && local is None {
        Err(errno::EFAULT)
    } else if riovcnt > 0 && remote is None {
        Err(errno::EFAULT)
    } else if !space {
        Err(errno::ESRCH)
    } else {
        Ok(
            (
                if liovcnt > 0 {
                    iovecs(local->0)
                } else {
                    Seq::empty()
                },
                if riovcnt > 0 {
                    iovecs(remote->0)
                } else {
                    Seq::empty()
                },
            ),
        )
    }
}

pub open spec fn both_view(r: Result<(Vec<IoVec>, Vec<IoVec>), i64>) -> Result<
    (Seq<IoVec>, Seq<IoVec>),
    i64,
> {
    match r {
        Ok((l, m)) => Ok((l@, m@)),
        Err(e) => Err(e),
    }
}

fn parts_of(count: u64, raw: Option<Vec<u8>>) -> (r: Option<Vec<IoVec>>)
    ensures
        match r {
            None => count > 0 && raw is None,
            Some(v) => (count == 0 || raw is Some) && v@ == (if count > 0 {
                iovecs(raw->0@)
            } else {
                Seq::empty()
            }),
        },
{
    if count == 0 {
        let none: Vec<IoVec> = Vec::new();
        assert(none@ =~= Seq::empty());
        return Some(none);
    }
    match raw {
        None => None,
        Some(b) => Some(read_iovecs(&b)),
    }
}

/// The parts on both sides of a copy. `space` says whether the other process has memory.
pub fn process_vm_parts(
    liovcnt: u64,
    local: Option<Vec<u8>>,
    riovcnt: u64,
    remote: Option<Vec<u8>>,
    space: bool,
) -> (r: Result<(Vec<IoVec>, Vec<IoVec>), i64>)
    ensures
        both_view(r) == copy_parts(
            liovcnt,
            util::bytes_view(local),
            riovcnt,
            util::bytes_view(remote),
            space,
        ),
{
    let l = match parts_of(liovcnt, local) {
        None => {
            return Err(errno::EFAULT);
        },
        Some(v) => v,
    };
    let m = match parts_of(riovcnt, remote) {
        None => {
            return Err(errno::EFAULT);
        },
        Some(v) => v,
    };
    if !space {
        return Err(errno::ESRCH);
    }
    Ok((l, m))
}

/// Where a copy stands: in which part on either side, and how far into it.
#[derive(Clone, Copy, PartialEq, Eq, Structural, Debug)]
pub struct CopyState {
    pub local: usize,
    pub local_off: u64,
    pub remote: usize,
    pub remote_off: u64,
    pub copied: u64,
}

/// Bytes to be moved at once.
#[derive(Clone, Copy, PartialEq, Eq, Structural, Debug)]
pub struct Chunk {
    pub local: u64,
    pub remote: u64,
    pub len: u64,
}

/// A place in the parts: `part` of them are done, and `off` bytes of the next.
pub open spec fn is_place(v: Seq<IoVec>, part: usize, off: u64) -> bool {
    part <= v.len() && (part < v.len() ==> off <= v[part as int].len) && (part == v.len() ==> off
        == 0)
}

/// A copy that is past the parts of which nothing is left, on either side.
pub open spec fn past_empty(s: CopyState, local: Seq<IoVec>, remote: Seq<IoVec>) -> CopyState
    decreases local.len() - s.local + remote.len() - s.remote,
{
    if s.local < local.len() <= usize::MAX && s.remote < remote.len() <= usize::MAX {
        let local_done = s.local_off >= local[s.local as int].len;
        let remote_done = s.remote_off >= remote[s.remote as int].len;
        if local_done && remote_done {
            past_empty(
                CopyState {
                    local: (s.local + 1) as usize,
                    local_off: 0,
                    remote: (s.remote + 1) as usize,
                    remote_off: 0,
                    ..s
                },
                local,
                remote,
            )
        } else if local_done {
            past_empty(
                CopyState { local: (s.local + 1) as usize, local_off: 0, ..s },
                local,
                remote,
            )
        } else if remote_done {
            past_empty(
                CopyState { remote: (s.remote + 1) as usize, remote_off: 0, ..s },
                local,
                remote,
            )
        } else {
            s
        }
    } else {
        s
    }
}

/// How many bytes are moved at once: as many as both parts still hold, and no more than one
/// chunk.
pub open spec fn chunk_len(s: CopyState, local: Seq<IoVec>, remote: Seq<IoVec>) -> int {
    let l = local[s.local as int].len - s.local_off;
    let r = remote[s.remote as int].len - s.remote_off;
    let shorter = if l < r {
        l
    } else {
        r
    };
    if shorter < CHUNK {
        shorter
    } else {
        CHUNK as int
    }
}

/// Whether the place that a copy stands at has an address on either side, and its next bytes can
/// be counted.
pub open spec fn goes_on(s: CopyState, local: Seq<IoVec>, remote: Seq<IoVec>) -> bool {
    &&& local[s.local as int].base + s.local_off <= u64::MAX
    &&& remote[s.remote as int].base + s.remote_off <= u64::MAX
    &&& s.copied + chunk_len(s, local, remote) <= u64::MAX
}

/// The bytes that are to be moved where a copy stands. There are none at the end of a side, nor
/// beyond the last address.
pub open spec fn chunk_at(s: CopyState, local: Seq<IoVec>, remote: Seq<IoVec>) -> Option<Chunk> {
    if s.local >= local.len() || s.remote >= remote.len() || !goes_on(s, local, remote) {
        None
    } else {
        Some(
            Chunk {
                local: (local[s.local as int].base + s.local_off) as u64,
                remote: (remote[s.remote as int].base + s.remote_off) as u64,
                len: chunk_len(s, local, remote) as u64,
            },
        )
    }
}

impl CopyState {
    /// What was copied is what lies before the place, on either side.
    pub open spec fn wf(self, local: Seq<IoVec>, remote: Seq<IoVec>) -> bool {
        &&& is_place(local, self.local, self.local_off)
        &&& is_place(remote, self.remote, self.remote_off)
        &&& self.copied == total(local, self.local as int) + self.local_off
        &&& self.copied == total(remote, self.remote as int) + self.remote_off
    }

    pub fn new() -> (s: CopyState)
        ensures
            s == (CopyState { local: 0, local_off: 0, remote: 0, remote_off: 0, copied: 0 }),
            forall|local: Seq<IoVec>, remote: Seq<IoVec>| #[trigger] s.wf(local, remote),
    {
        CopyState { local: 0, local_off: 0, remote: 0, remote_off: 0, copied: 0 }
    }

    /// The next bytes to be moved, behind the parts of which nothing is left.
    pub fn next(&mut self, local: &Vec<IoVec>, remote: &Vec<IoVec>) -> (r: Option<Chunk>)
        requires
            old(self).wf(local@, remote@),
        ensures
            final(self).wf(local@, remote@),
            final(self).copied == old(self).copied,
            *final(self) == past_empty(*old(self), local@, remote@),
            r == chunk_at(*final(self), local@, remote@),
            r matches Some(c) ==> 0 < c.len <= CHUNK,
    {
        while self.local < local.len() && self.remote < remote.len()
            invariant
                self.wf(local@, remote@),
                self.copied == old(self).copied,
                past_empty(*self, local@, remote@) == past_empty(*old(self), local@, remote@),
            decreases local@.len() - self.local + remote@.len() - self.remote,
        {
            assert(self.local < local@.len() && self.remote < remote@.len());
            let here = local[self.local];
            let there = remote[self.remote];
            let local_left: u64 = here.len - self.local_off;
            let remote_left: u64 = there.len - self.remote_off;
            let mut len: u64 = CHUNK;
            if local_left < len {
                len = local_left;
            }
            if remote_left < len {
                len = remote_left;
            }
            if len > 0 {
                if self.copied > u64::MAX - len {
                    return None;
                }
                let from = here.base.checked_add(self.local_off);
                let to = there.base.checked_add(self.remote_off);
                return match (from, to) {
                    (Some(local), Some(remote)) => Some(Chunk { local, remote, len }),
                    _ => None,
                };
            }
            if local_left == 0 {
                self.local += 1;
                self.local_off = 0;
            }
            if remote_left == 0 {
                self.remote += 1;
                self.remote_off = 0;
            }
        }
        None
    }

    /// Notes that the bytes where the copy stands were moved.
    pub fn moved(&mut self, c: Chunk, local: &Vec<IoVec>, remote: &Vec<IoVec>)
        requires
            old(self).wf(local@, remote@),
            chunk_at(*old(self), local@, remote@) == Some(c),
        ensures
            final(self).wf(local@, remote@),
            *final(self) == (CopyState {
                local_off: (old(self).local_off + c.len) as u64,
                remote_off: (old(self).remote_off + c.len) as u64,
                copied: (old(self).copied + c.len) as u64,
                ..*old(self)
            }),
    {
        self.local_off += c.len;
        self.remote_off += c.len;
        self.copied += c.len;
    }
}

/// No more is ever copied than either side holds.
pub proof fn law_copy_stays_within_both(s: CopyState, local: Seq<IoVec>, remote: Seq<IoVec>)
    requires
        s.wf(local, remote),
    ensures
        s.copied <= total(local, local.len() as int),
        s.copied <= total(remote, remote.len() as int),
{
    if s.local < local.len() {
        lemma_total_grows(local, s.local + 1, local.len() as int);
    }
    if s.remote < remote.len() {
        lemma_total_grows(remote, s.remote + 1, remote.len() as int);
    }
}

/// A copy that never fails ends with all that the shorter side holds, unless it reaches the last
/// address.
pub proof fn law_copy_is_complete(s: CopyState, local: Seq<IoVec>, remote: Seq<IoVec>)
    requires
        s.wf(local, remote),
        chunk_at(s, local, remote) is None,
        s.local < local.len() && s.remote < remote.len() ==> goes_on(s, local, remote),
    ensures
        s.copied == total(local, local.len() as int) || s.copied == total(
            remote,
            remote.len() as int,
        ),
{
}

} // verus!
