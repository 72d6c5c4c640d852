//! What a process is told of itself and its children, and what it may set of itself.
use super::reply;
use super::reply::Reply;
use super::util;
use crate::bytes;
use crate::errno;
use crate::process_model::Pid;
use crate::vfs::fd;
use vstd::prelude::*;

verus! {

/// The size of a name that `uname` gives.
pub const UTS_FIELD: u64 = 65;

/// A name as `uname` gives it: at most 64 bytes, filled up.
pub open spec fn uts_field(src: Seq<u8>) -> Seq<u8> {
    if src.len() > 64 {
        src.take(64) + bytes::zeros(1)
    } else {
        src + bytes::zeros((65 - src.len()) as nat)
    }
}

fn fill_utsname_field(src: &Vec<u8>) -> (dst: Vec<u8>)
    ensures
        dst@ == uts_field(src@),
        dst@.len() == 65,
{
    let n: usize = if src.len() > 64 {
        64
    } else {
        src.len()
    };
    let mut dst: Vec<u8> = Vec::new();
    let mut i: usize = 0;
    while i < n
        invariant
            i <= n <= src@.len(),
            n <= 64,
            dst@ == src@.take(i as int),
        decreases n - i,
    {
        dst.push(src[i]);
        i += 1;
        assert(dst@ =~= src@.take(i as int));
    }
    bytes::push_zeros(&mut dst, 65 - n);
    assert(dst@ =~= uts_field(src@));
    dst
}

/// `Linux`
pub open spec fn sysname() -> Seq<u8> {
    seq![0x4cu8, 0x69, 0x6e, 0x75, 0x78]
}

/// `6.1.0`
pub open spec fn release() -> Seq<u8> {
    seq![0x36u8, 0x2e, 0x31, 0x2e, 0x30]
}

/// `x86_64`
pub open spec fn machine() -> Seq<u8> {
    seq![0x78u8, 0x38, 0x36, 0x5f, 0x36, 0x34]
}

/// The six names that `uname` gives.
pub open spec fn uts_names(host: Seq<u8>, version: Seq<u8>, domain: Seq<u8>) -> Seq<Seq<u8>> {
    seq![
        uts_field(sysname()),
        uts_field(host),
        uts_field(release()),
        uts_field(version),
        uts_field(machine()),
        uts_field(domain),
    ]
}

/// The first `n` names one after the other, as far as there are addresses.
pub open spec fn names_placed(buf: u64, names: Seq<Seq<u8>>, n: int) -> Seq<(u64, Seq<u8>)>
    decreases n,
{
    if n <= 0 {
        Seq::empty()
    } else {
        let before = names_placed(buf, names, n - 1);
        let at = buf + (n - 1) * UTS_FIELD;
        if at <= u64::MAX {
            before.push((at as u64, names[n - 1]))
        } else {
            before
        }
    }
}

/// `uname`: a place that reaches beyond the last address has no room.
pub fn sys_uname(buf: u64, host: &Vec<u8>, version: &Vec<u8>, domain: &Vec<u8>) -> (r: Reply)
    ensures
        r@ == (if buf == 0 {
            reply::plain(errno::EFAULT)
        } else {
            reply::ReplyView {
                code: if buf + 5 * UTS_FIELD <= u64::MAX {
                    0
                } else {
                    errno::EFAULT
                },
                out: names_placed(buf, uts_names(host@, version@, domain@), 6),
            }
        }),
{
    if buf == 0 {
        return Reply::plain(errno::EFAULT);
    }
    let sys: Vec<u8> = vec![0x4c, 0x69, 0x6e, 0x75, 0x78];
    let rel: Vec<u8> = vec![0x36, 0x2e, 0x31, 0x2e, 0x30];
    let mach: Vec<u8> = vec![0x78, 0x38, 0x36, 0x5f, 0x36, 0x34];
    assert(sys@ =~= sysname());
    assert(rel@ =~= release());
    assert(mach@ =~= machine());
    let mut names: Vec<Vec<u8>> = Vec::new();
    names.push(fill_utsname_field(&sys));
    names.push(fill_utsname_field(host));
    names.push(fill_utsname_field(&rel));
    names.push(fill_utsname_field(version));
    names.push(fill_utsname_field(&mach));
    names.push(fill_utsname_field(domain));
    let ghost all = uts_names(host@, version@, domain@);
    let mut r = Reply::plain(0);
    let mut i: usize = 0;
    assert(r@.out =~= names_placed(buf, all, 0));
    while i < 6
        invariant
            i <= 6,
            buf > 0,
            names@.len() == 6,
            all.len() == 6,
            forall|k: int| 0 <= k < 6 ==> (#[trigger] names@[k])@ == all[k],
            r@ == (reply::ReplyView {
                code: if i == 0 || buf + (i - 1) * UTS_FIELD <= u64::MAX {
                    0
                } else {
                    errno::EFAULT
                },
                out: names_placed(buf, all, i as int),
            }),
        decreases 6 - i,
    {
        match buf.checked_add(i as u64 * UTS_FIELD) {
            Some(at) => {
                let name = bytes::part(&names[i], 0, names[i].len());
                assert(name@ =~= all[i as int]);
                r.hand_over(at, name);
            },
            None => {
                r.code = errno::EFAULT;
            },
        }
        i += 1;
    }
    r
}

pub const RLIMIT_STACK: u64 = 3;

pub const RLIMIT_NOFILE: u64 = 7;

pub const RLIMIT_AS: u64 = 9;

pub const RLIMIT_INFINITY: u64 = 0xffff_ffff_ffff_ffff;

/// How many resources there are.
pub const RLIMIT_COUNT: u64 = 16;

/// What a process may use of something, and how far it may raise that.
#[derive(Clone, Copy, PartialEq, Eq, Structural, Debug)]
pub struct Rlimit {
    pub cur: u64,
    pub max: u64,
}

/// What a process may use at first.
pub fn default_rlimit(resource: u64) -> (r: Rlimit)
    ensures
        r == (if resource == RLIMIT_NOFILE {
            (Rlimit { cur: fd::MAX_FDS as u64, max: fd::HARD_MAX_FDS as u64 })
        } else if resource == RLIMIT_STACK {
            (Rlimit { cur: 0x80_0000, max: RLIMIT_INFINITY })
        } else if resource == RLIMIT_AS {
            (Rlimit { cur: 0x8000_0000_0000, max: RLIMIT_INFINITY })
        } else {
            (Rlimit { cur: RLIMIT_INFINITY, max: RLIMIT_INFINITY })
        }),
        r.cur <= r.max,
{
    match resource {
        RLIMIT_NOFILE => Rlimit { cur: fd::MAX_FDS as u64, max: fd::HARD_MAX_FDS as u64 },
        RLIMIT_STACK => Rlimit { cur: 0x80_0000, max: RLIMIT_INFINITY },
        RLIMIT_AS => Rlimit { cur: 0x8000_0000_0000, max: RLIMIT_INFINITY },
        _ => Rlimit { cur: RLIMIT_INFINITY, max: RLIMIT_INFINITY },
    }
}

pub open spec fn packed_limit(r: Rlimit) -> Seq<u8> {
    bytes::put64(r.cur) + bytes::put64(r.max)
}

fn write_rlimit(r: Rlimit) -> (b: Vec<u8>)
    ensures
        b@ == packed_limit(r),
{
    let mut b: Vec<u8> = Vec::new();
    bytes::push_u64(&mut b, r.cur);
    bytes::push_u64(&mut b, r.max);
    assert(b@ =~= packed_limit(r));
    b
}

pub open spec fn limit_in(b: Seq<u8>) -> Rlimit {
    Rlimit { cur: bytes::le64(b, 0), max: bytes::le64(b, 8) }
}

/// `getrlimit`
pub fn sys_getrlimit(rlim_ptr: u64, now: Rlimit) -> (r: Reply)
    ensures
        r@ == (if rlim_ptr == 0 {
            reply::plain(errno::EFAULT)
        } else {
            reply::with_bytes(0, rlim_ptr, packed_limit(now))
        }),
{
    if rlim_ptr == 0 {
        return Reply::plain(errno::EFAULT);
    }
    Reply::with_bytes(0, rlim_ptr, write_rlimit(now))
}

/// An answer, and a limit that is set.
#[derive(Clone, Copy, PartialEq, Eq, Structural, Debug)]
pub struct SetLimit {
    pub code: i64,
    pub set: Option<Rlimit>,
    /// How many descriptors the process may have from then on.
    pub descriptors: Option<u64>,
}

/// The limit that a request sets, or what is wrong with it.
pub open spec fn limit_request(resource: u64, new: Option<Rlimit>) -> Result<Rlimit, i64> {
    if new is None {
        Err(errno::EFAULT)
    } else if new->0.cur > new->0.max {
        Err(errno::EINVAL)
    } else if resource == RLIMIT_NOFILE && new->0.max > fd::HARD_MAX_FDS {
        Err(errno::EINVAL)
    } else {
        Ok(new->0)
    }
}

/// Whether a process has no such limit to look at or set: it has limits for itself alone.
pub open spec fn no_such_limit(pid: u64, caller: Pid, resource: u64) -> bool {
    (pid != 0 && pid != caller.0) || resource >= RLIMIT_COUNT
}

/// `prlimit64`, first: the limit that there is is shown. The new one is read after that, and
/// `limit_change` goes on.
pub fn sys_prlimit64(pid: u64, caller: Pid, resource: u64, old_rlim: u64, now: Rlimit) -> (r: Reply)
    ensures
        r@ == (if no_such_limit(pid, caller, resource) {
            reply::plain(errno::EINVAL)
        } else {
            reply::where_wanted(reply::plain(0), old_rlim, packed_limit(now))
        }),
{
    if (pid != 0 && pid != caller.0 as u64) || resource >= RLIMIT_COUNT {
        return Reply::plain(errno::EINVAL);
    }
    let mut r = Reply::plain(0);
    r.hand_over(old_rlim, write_rlimit(now));
    r
}

/// The answer of `prlimit64`, and what it sets. `code` is what showing the old limit came to, and
/// `new` what was read after that.
pub open spec fn limit_changed(code: i64, resource: u64, new_rlim: u64, new: Option<Seq<u8>>)
    -> SetLimit {
    if code != 0 || new_rlim == 0 {
        SetLimit { code, set: None, descriptors: None }
    } else {
        match limit_request(
            resource,
            if new is Some {
                Some(limit_in(new->0))
            } else {
                None
            },
        ) {
            Err(e) => SetLimit { code: e, set: None, descriptors: None },
            Ok(limit) => SetLimit {
                code: 0,
                set: Some(limit),
                descriptors: if resource == RLIMIT_NOFILE {
                    Some(limit.cur)
                } else {
                    None
                },
            },
        }
    }
}

/// `prlimit64`, once the old limit is shown.
pub fn limit_change(code: i64, resource: u64, new_rlim: u64, new: Option<Vec<u8>>) -> (r: SetLimit)
    requires
        new is Some ==> new->0@.len() == 16,
    ensures
        r == limit_changed(code, resource, new_rlim, util::bytes_view(new)),
{
    if code != 0 || new_rlim == 0 {
        return SetLimit { code, set: None, descriptors: None };
    }
    let limit = match new {
        None => {
            return SetLimit { code: errno::EFAULT, set: None, descriptors: None };
        },
        Some(b) => Rlimit { cur: bytes::u64_at(&b, 0), max: bytes::u64_at(&b, 8) },
    };
    if limit.cur > limit.max || (resource == RLIMIT_NOFILE && limit.max > fd::HARD_MAX_FDS as u64) {
        return SetLimit { code: errno::EINVAL, set: None, descriptors: None };
    }
    let descriptors = if resource == RLIMIT_NOFILE {
        Some(limit.cur)
    } else {
        None
    };
    SetLimit { code: 0, set: Some(limit), descriptors }
}

/// `setrlimit`: `prlimit64` for the caller, without showing the old limit.
pub fn sys_setrlimit(resource: u64, rlim_ptr: u64, new: Option<Vec<u8>>) -> (r: SetLimit)
    requires
        new is Some ==> new->0@.len() == 16,
    ensures
        r == limit_changed(
            if resource >= RLIMIT_COUNT {
                errno::EINVAL
            } else {
                0
            },
            resource,
            rlim_ptr,
            util::bytes_view(new),
        ),
{
    let code: i64 = if resource >= RLIMIT_COUNT {
        errno::EINVAL
    } else {
        0
    };
    limit_change(code, resource, rlim_ptr, new)
}

/// Where the old limit is shown in the place that the new one is read from, it stays.
pub proof fn law_limit_stays_where_both_are_one(resource: u64, new_rlim: u64, now: Rlimit)
    requires
        new_rlim != 0,
        limit_request(resource, Some(now)) is Ok,
    ensures
        limit_changed(0, resource, new_rlim, Some(packed_limit(now))).set == Some(now),
        limit_changed(0, resource, new_rlim, Some(packed_limit(now))).code == 0,
{
    law_limit_reads_as_shown(now);
}

/// A limit that is set is one that can be kept: what may be used is no more than what it may
/// be raised to.
pub proof fn law_limits_are_ordered(resource: u64, new: Option<Rlimit>)
    requires
        limit_request(resource, new) is Ok,
    ensures
        limit_request(resource, new)->Ok_0.cur <= limit_request(resource, new)->Ok_0.max,
        resource == RLIMIT_NOFILE ==> limit_request(resource, new)->Ok_0.cur <= fd::HARD_MAX_FDS,
{
}

/// What a limit is shown as is read as that limit.
pub proof fn law_limit_reads_as_shown(r: Rlimit)
    ensures
        packed_limit(r).len() == 16,
        limit_in(packed_limit(r)) == r,
{
    let s = packed_limit(r);
    assert(s.subrange(0, 8) =~= bytes::put64(r.cur));
    assert(s.subrange(8, 16) =~= bytes::put64(r.max));
    bytes::lemma_at64(s, 0, r.cur);
    bytes::lemma_at64(s, 8, r.max);
}

pub const PR_SET_PDEATHSIG: u64 = 1;

pub const PR_GET_PDEATHSIG: u64 = 2;

pub const PR_GET_DUMPABLE: u64 = 3;

pub const PR_SET_DUMPABLE: u64 = 4;

pub const PR_GET_KEEPCAPS: u64 = 7;

pub const PR_SET_KEEPCAPS: u64 = 8;

pub const PR_SET_NAME: u64 = 15;

pub const PR_GET_NAME: u64 = 16;

pub const PR_GET_SECCOMP: u64 = 21;

pub const PR_SET_SECCOMP: u64 = 22;

pub const PR_CAPBSET_READ: u64 = 23;

pub const PR_CAPBSET_DROP: u64 = 24;

pub const PR_SET_CHILD_SUBREAPER: u64 = 36;

pub const PR_GET_CHILD_SUBREAPER: u64 = 37;

pub const PR_SET_NO_NEW_PRIVS: u64 = 38;

pub const PR_GET_NO_NEW_PRIVS: u64 = 39;

/// What a process may set of itself.
#[derive(Clone, Copy, PartialEq, Eq, Structural, Debug)]
pub struct Attrs {
    pub no_new_privs: bool,
    pub subreaper: bool,
    pub pdeathsig: u32,
    pub dumpable: u32,
    pub keep_caps: bool,
}

/// What a request on a process looks at besides.
#[derive(Clone, Copy, PartialEq, Eq, Structural, Debug)]
pub struct PrctlFacts {
    /// Whether the process has filters.
    pub filtered: bool,
    /// Whether the capability that the argument names is within the bounds.
    pub bounded: bool,
    /// Whether the process may narrow the bounds.
    pub may_drop: bool,
}

/// What a request on a process does.
pub enum PrctlStep {
    /// It is answered.
    Answer(Reply),
    /// The name, filled up, is set: `0`.
    SetName(Vec<u8>),
    /// A filter is set.
    Seccomp { operation: u64, args: u64 },
    /// A capability leaves the bounds: `0`.
    DropBound(u32),
}

#[verifier::ext_equal]
pub ghost enum PrctlView {
    Answer(reply::ReplyView),
    SetName(Seq<u8>),
    Seccomp { operation: u64, args: u64 },
    DropBound(u32),
}

impl View for PrctlStep {
    type V = PrctlView;

    open spec fn view(&self) -> PrctlView {
        match self {
            PrctlStep::Answer(r) => PrctlView::Answer(r@),
            PrctlStep::SetName(n) => PrctlView::SetName(n@),
            PrctlStep::Seccomp { operation, args } => PrctlView::Seccomp {
                operation: *operation,
                args: *args,
            },
            PrctlStep::DropBound(c) => PrctlView::DropBound(*c),
        }
    }
}

pub open spec fn answer(code: i64) -> PrctlView {
    PrctlView::Answer(reply::plain(code))
}

pub open spec fn yes_no(b: bool) -> i64 {
    if b {
        1
    } else {
        0
    }
}

/// A number for the caller, who has to say where.
pub open spec fn told(arg2: u64, x: u32) -> PrctlView {
    if arg2 == 0 {
        answer(errno::EFAULT)
    } else {
        PrctlView::Answer(reply::with_bytes(0, arg2, bytes::put32(x)))
    }
}

/// A name that was read, ended at its length or at fifteen bytes.
pub open spec fn ended(name: Seq<u8>, len: usize) -> Seq<u8> {
    name.update(
        if len > 15 {
            15
        } else {
            len as int
        },
        0,
    )
}

/// What a request does: a process as it is after it, and what follows. `read` is the name that
/// was read and its length; `name` is the name of the process.
pub open spec fn prctl_request(
    a: Attrs,
    option: u64,
    arg2: u64,
    arg3: u64,
    facts: PrctlFacts,
    read: Option<(Seq<u8>, usize)>,
    name: Seq<u8>,
) -> (Attrs, PrctlView) {
    if option == PR_SET_NAME {
        if arg2 == 0 || read is None {
            (a, answer(errno::EFAULT))
        } else {
            let (n, len) = read->0;
            (a, PrctlView::SetName(ended(n, len)))
        }
    } else if option == PR_GET_NAME {
        if arg2 == 0 {
            (a, answer(errno::EFAULT))
        } else {
            (a, PrctlView::Answer(reply::with_bytes(0, arg2, name)))
        }
    } else if option == PR_SET_NO_NEW_PRIVS {
        if arg2 != 1 {
            (a, answer(errno::EINVAL))
        } else {
            (Attrs { no_new_privs: true, ..a }, answer(0))
        }
    } else if option == PR_GET_NO_NEW_PRIVS {
        (a, answer(yes_no(a.no_new_privs)))
    } else if option == PR_SET_SECCOMP {
        if arg2 == 1 {
            (a, PrctlView::Seccomp { operation: 0, args: 0 })
        } else if arg2 == 2 {
            (a, PrctlView::Seccomp { operation: 1, args: arg3 })
        } else {
            (a, answer(errno::EINVAL))
        }
    } else if option == PR_GET_SECCOMP {
        (a, answer((2 * yes_no(facts.filtered)) as i64))
    } else if option == PR_CAPBSET_READ {
        (
            a,
            answer(
                if arg2 > 63 {
                    errno::EINVAL
                } else {
                    yes_no(facts.bounded)
                },
            ),
        )
    } else if option == PR_CAPBSET_DROP {
        if arg2 > 63 {
            (a, answer(errno::EINVAL))
        } else if !facts.may_drop {
            (a, answer(errno::EPERM))
        } else {
            (a, PrctlView::DropBound(arg2 as u32))
        }
    } else if option == PR_SET_CHILD_SUBREAPER {
        (Attrs { subreaper: arg2 != 0, ..a }, answer(0))
    } else if option == PR_GET_CHILD_SUBREAPER {
        (a, told(arg2, yes_no(a.subreaper) as u32))
    } else if option == PR_SET_PDEATHSIG {
        if arg2 > 64 {
            (a, answer(errno::EINVAL))
        } else {
            (Attrs { pdeathsig: arg2 as u32, ..a }, answer(0))
        }
    } else if option == PR_GET_PDEATHSIG {
        (a, told(arg2, a.pdeathsig))
    } else if option == PR_SET_DUMPABLE {
        if arg2 > 1 {
            (a, answer(errno::EINVAL))
        } else {
            (Attrs { dumpable: arg2 as u32, ..a }, answer(0))
        }
    } else if option == PR_GET_DUMPABLE {
        (a, answer(a.dumpable as i64))
    } else if option == PR_SET_KEEPCAPS {
        if arg2 > 1 {
            (a, answer(errno::EINVAL))
        } else {
            (Attrs { keep_caps: arg2 != 0, ..a }, answer(0))
        }
    } else if option == PR_GET_KEEPCAPS {
        (a, answer(yes_no(a.keep_caps)))
    } else {
        (a, answer(errno::EINVAL))
    }
}

fn tell(arg2: u64, x: u32) -> (r: PrctlStep)
    ensures
        r@ == told(arg2, x),
{
    if arg2 == 0 {
        return PrctlStep::Answer(Reply::plain(errno::EFAULT));
    }
    let mut b: Vec<u8> = Vec::new();
    bytes::push_u32(&mut b, x);
    assert(b@ =~= bytes::put32(x));
    PrctlStep::Answer(Reply::with_bytes(0, arg2, b))
}

fn say(code: i64) -> (r: PrctlStep)
    ensures
        r@ == answer(code),
{
    PrctlStep::Answer(Reply::plain(code))
}

fn as_number(b: bool) -> (x: i64)
    ensures
        x == yes_no(b),
{
    if b {
        1
    } else {
        0
    }
}

pub open spec fn read_view(read: Option<(Vec<u8>, usize)>) -> Option<(Seq<u8>, usize)> {
    match read {
        Some((b, n)) => Some((b@, n)),
        None => None,
    }
}

/// `prctl`
pub fn sys_prctl(
    a: &mut Attrs,
    option: u64,
    arg2: u64,
    arg3: u64,
    facts: PrctlFacts,
    read: Option<(Vec<u8>, usize)>,
    name: Vec<u8>,
) -> (r: PrctlStep)
    requires
        match read {
            Some((b, n)) => b@.len() == 16,
            None => true,
        },
    ensures
        (*final(a), r@) == prctl_request(
            *old(a),
            option,
            arg2,
            arg3,
            facts,
            read_view(read),
            name@,
        ),
{
    match option {
        PR_SET_NAME => {
            if arg2 == 0 {
                return say(errno::EFAULT);
            }
            match read {
                None => say(errno::EFAULT),
                Some((mut b, n)) => {
                    let len: usize = if n > 15 {
                        15
                    } else {
                        n
                    };
                    b.set(len, 0);
                    PrctlStep::SetName(b)
                },
            }
        },
        PR_GET_NAME => {
            if arg2 == 0 {
                return say(errno::EFAULT);
            }
            PrctlStep::Answer(Reply::with_bytes(0, arg2, name))
        },
        PR_SET_NO_NEW_PRIVS => {
            if arg2 != 1 {
                return say(errno::EINVAL);
            }
            a.no_new_privs = true;
            say(0)
        },
        PR_GET_NO_NEW_PRIVS => say(as_number(a.no_new_privs)),
        PR_SET_SECCOMP => match arg2 {
            1 => PrctlStep::Seccomp { operation: 0, args: 0 },
            2 => PrctlStep::Seccomp { operation: 1, args: arg3 },
            _ => say(errno::EINVAL),
        },
        PR_GET_SECCOMP => say(2 * as_number(facts.filtered)),
        PR_CAPBSET_READ => {
            if arg2 > 63 {
                return say(errno::EINVAL);
            }
            say(as_number(facts.bounded))
        },
        PR_CAPBSET_DROP => {
            if arg2 > 63 {
                return say(errno::EINVAL);
            }
            if !facts.may_drop {
                return say(errno::EPERM);
            }
            PrctlStep::DropBound(arg2 as u32)
        },
        PR_SET_CHILD_SUBREAPER => {
            a.subreaper = arg2 != 0;
            say(0)
        },
        PR_GET_CHILD_SUBREAPER => tell(arg2, as_number(a.subreaper) as u32),
        PR_SET_PDEATHSIG => {
            if arg2 > 64 {
                return say(errno::EINVAL);
            }
            a.pdeathsig = arg2 as u32;
            say(0)
        },
        PR_GET_PDEATHSIG => tell(arg2, a.pdeathsig),
        PR_SET_DUMPABLE => {
            if arg2 > 1 {
                return say(errno::EINVAL);
            }
            a.dumpable = arg2 as u32;
            say(0)
        },
        PR_GET_DUMPABLE => say(a.dumpable as i64),
        PR_SET_KEEPCAPS => {
            if arg2 > 1 {
                return say(errno::EINVAL);
            }
            a.keep_caps = arg2 != 0;
            say(0)
        },
        PR_GET_KEEPCAPS => say(as_number(a.keep_caps)),
        _ => say(errno::EINVAL),
    }
}

/// Once a process gains no more privileges, no request takes that back.
pub proof fn law_no_new_privs_stays(
    a: Attrs,
    option: u64,
    arg2: u64,
    arg3: u64,
    facts: PrctlFacts,
    read: Option<(Seq<u8>, usize)>,
    name: Seq<u8>,
)
    requires
        a.no_new_privs,
    ensures
        prctl_request(a, option, arg2, arg3, facts, read, name).0.no_new_privs,
{
}

pub const ARCH_SET_FS: u64 = 0x1002;

pub const ARCH_GET_FS: u64 = 0x1003;

/// What `arch_prctl` does.
pub enum ArchStep {
    Answer(Reply),
    /// The base is set: `0`.
    SetFs(u64),
}

/// `arch_prctl`: the base of one segment can be set and got.
pub fn sys_arch_prctl(code: u64, addr: u64, fs_base: u64) -> (r: ArchStep)
    ensures
        match r {
            ArchStep::SetFs(base) => code == ARCH_SET_FS && base == addr,
            ArchStep::Answer(a) => code != ARCH_SET_FS && a@ == (if code == ARCH_GET_FS && addr
                == 0 {
                reply::plain(errno::EFAULT)
            } else if code == ARCH_GET_FS {
                reply::with_bytes(0, addr, bytes::put64(fs_base))
            } else {
                reply::plain(errno::EINVAL)
            }),
        },
{
    match code {
        ARCH_SET_FS => ArchStep::SetFs(addr),
        ARCH_GET_FS => {
            if addr == 0 {
                return ArchStep::Answer(Reply::plain(errno::EFAULT));
            }
            let mut b: Vec<u8> = Vec::new();
            bytes::push_u64(&mut b, fs_base);
            assert(b@ =~= bytes::put64(fs_base));
            ArchStep::Answer(Reply::with_bytes(0, addr, b))
        },
        _ => ArchStep::Answer(Reply::plain(errno::EINVAL)),
    }
}

/// Whom `wait4` waits for: a child by its number, or as the argument says. `mapped` is what
/// the caller's number stands for.
pub fn wait4_target(pid: u64, mapped: Option<Pid>) -> (r: Result<i64, i64>)
    ensures
        r == (if pid as i64 > 0 {
            match mapped {
                Some(p) => Ok(p.0 as i64),
                None => Err(errno::ECHILD),
            }
        } else {
            Ok::<i64, i64>(pid as i64)
        }),
{
    let raw: i64 = pid as i64;
    if raw > 0 {
        match mapped {
            Some(p) => Ok(p.0 as i64),
            None => Err(errno::ECHILD),
        }
    } else {
        Ok(raw)
    }
}

/// A child that changed: its number for the caller, and what it changed to.
#[derive(Clone, Copy, PartialEq, Eq, Structural, Debug)]
pub struct Waited {
    pub local: u32,
    pub status: i32,
}

/// `wait4`, once the wait is over.
pub fn sys_wait4(status_ptr: u64, waited: Result<Option<Waited>, i64>) -> (r: Reply)
    ensures
        r@ == match waited {
            Err(e) => reply::plain(e),
            Ok(None) => reply::plain(0),
            Ok(Some(w)) => reply::where_wanted(
                reply::plain(w.local as i64),
                status_ptr,
                bytes::put32(w.status as u32),
            ),
        },
{
    match waited {
        Err(e) => Reply::plain(e),
        Ok(None) => Reply::plain(0),
        Ok(Some(w)) => {
            let mut b: Vec<u8> = Vec::new();
            bytes::push_u32(&mut b, w.status as u32);
            assert(b@ =~= bytes::put32(w.status as u32));
            let mut r = Reply::plain(w.local as i64);
            r.hand_over(status_ptr, b);
            r
        },
    }
}

pub const P_ALL: u64 = 0;

pub const P_PID: u64 = 1;

pub const P_PGID: u64 = 2;

pub open spec fn waitid_request(idtype: u64, id: u64, mapped: Option<Pid>) -> Result<i64, i64> {
    if idtype == P_ALL {
        Ok(-1i64)
    } else if idtype == P_PID && id != 0 && id as i64 >= 0 {
        match mapped {
            Some(p) => Ok(p.0 as i64),
            None => Err(errno::ECHILD),
        }
    } else if idtype == P_PGID && id == 0 {
        Ok(0i64)
    } else if idtype == P_PGID {
        match mapped {
            Some(p) => Ok(-(p.0 as i64) as i64),
            None => Err(errno::ECHILD),
        }
    } else {
        Err(errno::EINVAL)
    }
}

/// Whom `waitid` waits for: any child is -1, a group is the number below zero, and the
/// caller's own group is 0.
pub fn waitid_target(idtype: u64, id: u64, mapped: Option<Pid>) -> (r: Result<i64, i64>)
    ensures
        r == waitid_request(idtype, id, mapped),
{
    match idtype {
        P_ALL => Ok(-1),
        P_PID => {
            if id == 0 || (id as i64) < 0 {
                return Err(errno::EINVAL);
            }
            match mapped {
                Some(p) => Ok(p.0 as i64),
                None => Err(errno::ECHILD),
            }
        },
        P_PGID => {
            if id == 0 {
                return Ok(0);
            }
            match mapped {
                Some(p) => Ok(-(p.0 as i64)),
                None => Err(errno::ECHILD),
            }
        },
        _ => Err(errno::EINVAL),
    }
}

pub const CLD_EXITED: i32 = 1;

pub const CLD_KILLED: i32 = 2;

/// How a child ended, and with what: of its own with a code, or by a signal.
pub fn child_end(status: i32) -> (r: (i32, i32))
    ensures
        ({
            let raw = status as u32;
            r == (if raw & 0x7f == 0 {
                (CLD_EXITED, ((raw >> 8) & 0xff) as i32)
            } else {
                (CLD_KILLED, (raw & 0x7f) as i32)
            })
        }),
{
    let raw: u32 = status as u32;
    if raw & 0x7f == 0 {
        (CLD_EXITED, ((raw >> 8) & 0xff) as i32)
    } else {
        (CLD_KILLED, (raw & 0x7f) as i32)
    }
}

/// `waitid`, once the wait is over: `info` tells of the child that changed, if one did.
pub fn sys_waitid(info_ptr: u64, waited: Result<bool, i64>, info: Vec<u8>) -> (r: Reply)
    ensures
        r@ == match waited {
            Err(e) => reply::plain(e),
            Ok(changed) => if changed {
                reply::where_wanted(reply::plain(0), info_ptr, info@)
            } else {
                reply::plain(0)
            },
        },
{
    match waited {
        Err(e) => Reply::plain(e),
        Ok(changed) => {
            let mut r = Reply::plain(0);
            if changed {
                r.hand_over(info_ptr, info);
            }
            r
        },
    }
}

/// The time that a process and its children that ended spent, in and out of the kernel.
#[derive(Clone, Copy, PartialEq, Eq, Structural, Debug)]
pub struct CpuTimes {
    pub utime_ns: u64,
    pub stime_ns: u64,
    pub cutime_ns: u64,
    pub cstime_ns: u64,
}

pub const RUSAGE_SELF: u64 = 0;

pub const RUSAGE_THREAD: u64 = 1;

pub const RUSAGE_CHILDREN: u64 = 0xffff_ffff_ffff_ffff;

/// The times that are asked for.
pub open spec fn usage_of(who: u64, t: CpuTimes) -> (u64, u64) {
    if who == RUSAGE_SELF || who == RUSAGE_THREAD {
        (t.utime_ns, t.stime_ns)
    } else if who == RUSAGE_CHILDREN {
        (t.cutime_ns, t.cstime_ns)
    } else {
        (0, 0)
    }
}

/// Nanoseconds as seconds and microseconds.
pub open spec fn packed_micros(ns: u64) -> Seq<u8> {
    bytes::put64(ns / 1_000_000_000) + bytes::put64(ns % 1_000_000_000 / 1_000)
}

fn push_micros(b: &mut Vec<u8>, ns: u64)
    ensures
        final(b)@ == old(b)@ + packed_micros(ns),
{
    let ghost before = b@;
    bytes::push_u64(b, ns / 1_000_000_000);
    bytes::push_u64(b, ns % 1_000_000_000 / 1_000);
    assert(b@ =~= before + packed_micros(ns));
}

/// `getrusage`: of what is used the times alone are counted.
pub fn sys_getrusage(who: u64, usage_ptr: u64, t: CpuTimes) -> (r: Reply)
    ensures
        r@ == (if usage_ptr == 0 {
            reply::plain(errno::EFAULT)
        } else {
            reply::with_bytes(
                0,
                usage_ptr,
                packed_micros(usage_of(who, t).0) + packed_micros(usage_of(who, t).1)
                    + bytes::zeros(112),
            )
        }),
{
    if usage_ptr == 0 {
        return Reply::plain(errno::EFAULT);
    }
    let (u, s): (u64, u64) = if who == RUSAGE_SELF || who == RUSAGE_THREAD {
        (t.utime_ns, t.stime_ns)
    } else if who == RUSAGE_CHILDREN {
        (t.cutime_ns, t.cstime_ns)
    } else {
        (0, 0)
    };
    let mut b: Vec<u8> = Vec::new();
    push_micros(&mut b, u);
    assert(b@ =~= packed_micros(u));
    push_micros(&mut b, s);
    bytes::push_zeros(&mut b, 112);
    Reply::with_bytes(0, usage_ptr, b)
}

/// Nanoseconds per tick of the clock that `times` counts by.
pub const TICK_NS: u64 = 10_000_000;

pub open spec fn packed_ticks(t: CpuTimes) -> Seq<u8> {
    bytes::put64(t.utime_ns / TICK_NS) + bytes::put64(t.stime_ns / TICK_NS) + bytes::put64(
        t.cutime_ns / TICK_NS,
    ) + bytes::put64(t.cstime_ns / TICK_NS)
}

/// `times`: the answer is the time since the start of the machine.
pub fn sys_times(buf_ptr: u64, t: CpuTimes, now_ns: u64) -> (r: Reply)
    ensures
        r@ == reply::where_wanted(
            reply::plain((now_ns / TICK_NS) as i64),
            buf_ptr,
            packed_ticks(t),
        ),
{
    let mut b: Vec<u8> = Vec::new();
    bytes::push_u64(&mut b, t.utime_ns / TICK_NS);
    assert(b@ =~= bytes::put64(t.utime_ns / TICK_NS));
    bytes::push_u64(&mut b, t.stime_ns / TICK_NS);
    bytes::push_u64(&mut b, t.cutime_ns / TICK_NS);
    bytes::push_u64(&mut b, t.cstime_ns / TICK_NS);
    let mut r = Reply::plain((now_ns / TICK_NS) as i64);
    r.hand_over(buf_ptr, b);
    r
}

/// `personality`: there is one.
pub fn sys_personality() -> (code: i64)
    ensures
        code == 0,
{
    0
}

/// What `sysinfo` tells of the machine.
#[derive(Clone, Copy, PartialEq, Eq, Structural, Debug)]
pub struct Machine {
    pub uptime_ns: u64,
    pub load1: u64,
    pub load5: u64,
    pub load15: u64,
    pub frames: u64,
    pub frames_used: u64,
    pub processes: u16,
}

pub open spec fn free_frames(m: Machine) -> u64 {
    if m.frames_used > m.frames {
        0
    } else {
        (m.frames - m.frames_used) as u64
    }
}

pub open spec fn packed_sysinfo(m: Machine) -> Seq<u8> {
    bytes::put64(m.uptime_ns / 1_000_000_000) + bytes::put64(m.load1) + bytes::put64(m.load5)
        + bytes::put64(m.load15) + bytes::put64((m.frames * 4096) as u64) + bytes::put64(
        (free_frames(m) * 4096) as u64,
    ) + bytes::zeros(32) + bytes::put16(m.processes) + bytes::zeros(22) + bytes::put32(1)
        + bytes::zeros(4)
}

/// `sysinfo`
pub fn sys_sysinfo(info_ptr: u64, m: Machine) -> (r: Reply)
    requires
        info_ptr != 0 ==> m.frames * 4096 <= u64::MAX,
    ensures
        r@ == (if info_ptr == 0 {
            reply::plain(errno::EFAULT)
        } else {
            reply::with_bytes(0, info_ptr, packed_sysinfo(m))
        }),
{
    if info_ptr == 0 {
        return Reply::plain(errno::EFAULT);
    }
    let free: u64 = if m.frames_used > m.frames {
        0
    } else {
        m.frames - m.frames_used
    };
    let mut b: Vec<u8> = Vec::new();
    bytes::push_u64(&mut b, m.uptime_ns / 1_000_000_000);
    assert(b@ =~= bytes::put64(m.uptime_ns / 1_000_000_000));
    bytes::push_u64(&mut b, m.load1);
    bytes::push_u64(&mut b, m.load5);
    bytes::push_u64(&mut b, m.load15);
    bytes::push_u64(&mut b, m.frames * 4096);
    bytes::push_u64(&mut b, free * 4096);
    bytes::push_zeros(&mut b, 32);
    bytes::push_u16(&mut b, m.processes);
    bytes::push_zeros(&mut b, 22);
    bytes::push_u32(&mut b, 1);
    bytes::push_zeros(&mut b, 4);
    Reply::with_bytes(0, info_ptr, b)
}

/// An answer, and whether the log is cleared once it went out.
pub struct Syslog {
    pub reply: Reply,
    pub clear: bool,
}

/// `syslog`: the log can be read, read and cleared, cleared, and asked for its sizes.
pub fn sys_syslog(
    typ: u64,
    buf_ptr: u64,
    len: u64,
    log: &Vec<u8>,
    unread: u64,
    capacity: u64,
) -> (r: Syslog)
    ensures
        ({
            let n = if len < log@.len() {
                len as int
            } else {
                log@.len() as int
            };
            let reads = 2 <= typ <= 4;
            &&& r.reply@ == (if reads {
                if buf_ptr == 0 || len == 0 {
                    reply::plain(errno::EINVAL)
                } else if n == 0 {
                    reply::plain(0)
                } else {
                    reply::with_bytes(n as i64, buf_ptr, log@.take(n))
                }
            } else if typ == 9 {
                reply::plain(unread as i64)
            } else if typ == 10 {
                reply::plain(capacity as i64)
            } else if typ <= 8 {
                reply::plain(0)
            } else {
                reply::plain(errno::EINVAL)
            })
            &&& r.clear == (typ == 5 || (typ == 4 && buf_ptr != 0 && len != 0))
        }),
{
    match typ {
        0 | 1 | 6 | 7 | 8 => Syslog { reply: Reply::plain(0), clear: false },
        2 | 3 | 4 => {
            if buf_ptr == 0 || len == 0 {
                return Syslog { reply: Reply::plain(errno::EINVAL), clear: false };
            }
            let n: usize = if len < log.len() as u64 {
                len as usize
            } else {
                log.len()
            };
            let clear = typ == 4;
            if n == 0 {
                return Syslog { reply: Reply::plain(0), clear };
            }
            let mut b: Vec<u8> = Vec::new();
            let mut i: usize = 0;
            while i < n
                invariant
                    i <= n <= log@.len(),
                    b@ == log@.take(i as int),
                decreases n - i,
            {
                b.push(log[i]);
                i += 1;
                assert(b@ =~= log@.take(i as int));
            }
            Syslog { reply: Reply::with_bytes(n as i64, buf_ptr, b), clear }
        },
        5 => Syslog { reply: Reply::plain(0), clear: true },
        9 => Syslog { reply: Reply::plain(unread as i64), clear: false },
        10 => Syslog { reply: Reply::plain(capacity as i64), clear: false },
        _ => Syslog { reply: Reply::plain(errno::EINVAL), clear: false },
    }
}

} // verus!
