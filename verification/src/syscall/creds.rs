//! Who a process is: its user and group numbers, its capabilities, the names of its host.
//!
//! User and group numbers are mapped by the namespace of the caller. The functions get what
//! a number is mapped to, where it is mapped at all.
use super::reply;
use super::reply::Reply;
use super::util;
use crate::bytes;
use crate::errno;
use crate::text;
use vstd::prelude::*;

verus! {

/// The argument that leaves a number as it is.
pub const SETID_KEEP: u32 = 0xffff_ffff;

/// The real, effective and saved number, and the one for files.
#[derive(Clone, Copy, PartialEq, Eq, Structural, Debug)]
pub struct Ids {
    pub real_id: u32,
    pub effective: u32,
    pub saved: u32,
    pub fs: u32,
}

/// The number that an argument asks for.
pub open spec fn asked_for(arg: u32, mapped: Option<u32>) -> Option<u32> {
    if arg == SETID_KEEP {
        Some(SETID_KEEP)
    } else {
        mapped
    }
}

fn ask(arg: u32, mapped: Option<u32>) -> (r: Option<u32>)
    ensures
        r == asked_for(arg, mapped),
{
    if arg == SETID_KEEP {
        Some(SETID_KEEP)
    } else {
        mapped
    }
}

/// Whether a process may take a number: any with the privilege, else one it has.
pub open spec fn may_take(new: u32, ids: Ids, privileged: bool) -> bool {
    new == SETID_KEEP || privileged || new == ids.real_id || new == ids.effective || new == ids.saved
}

fn check_setid_transition(new: u32, ids: &Ids, privileged: bool) -> (r: bool)
    ensures
        r == may_take(new, *ids, privileged),
{
    new == SETID_KEEP || privileged || new == ids.real_id || new == ids.effective || new == ids.saved
}

pub open spec fn pick(new: u32, old: u32) -> u32 {
    if new == SETID_KEEP {
        old
    } else {
        new
    }
}

/// What setting all three numbers comes to.
pub open spec fn set_all(
    ids: Ids,
    real_id: Option<u32>,
    effective: Option<u32>,
    saved: Option<u32>,
    privileged: bool,
) -> (i64, Ids) {
    match (real_id, effective, saved) {
        (Some(r), Some(e), Some(s)) => if may_take(r, ids, privileged) && may_take(
            e,
            ids,
            privileged,
        ) && may_take(s, ids, privileged) {
            (
                0,
                Ids {
                    real_id: pick(r, ids.real_id),
                    effective: pick(e, ids.effective),
                    saved: pick(s, ids.saved),
                    fs: pick(e, ids.fs),
                },
            )
        } else {
            (errno::EPERM, ids)
        },
        _ => (errno::EINVAL, ids),
    }
}

fn set_res(
    ids: &mut Ids,
    real_id: Option<u32>,
    effective: Option<u32>,
    saved: Option<u32>,
    privileged: bool,
) -> (code: i64)
    ensures
        (code, *final(ids)) == set_all(*old(ids), real_id, effective, saved, privileged),
{
    let (r, e, s) = match (real_id, effective, saved) {
        (Some(r), Some(e), Some(s)) => (r, e, s),
        _ => {
            return errno::EINVAL;
        },
    };
    if !check_setid_transition(r, ids, privileged) || !check_setid_transition(e, ids, privileged)
        || !check_setid_transition(s, ids, privileged) {
        return errno::EPERM;
    }
    if r != SETID_KEEP {
        ids.real_id = r;
    }
    if e != SETID_KEEP {
        ids.effective = e;
        ids.fs = e;
    }
    if s != SETID_KEEP {
        ids.saved = s;
    }
    0
}

/// `setresuid`. Where it succeeds, the capabilities follow the change from the old numbers.
pub fn sys_setresuid(
    ids: &mut Ids,
    new_ruid: u32,
    new_euid: u32,
    new_suid: u32,
    mapped_ruid: Option<u32>,
    mapped_euid: Option<u32>,
    mapped_suid: Option<u32>,
    privileged: bool,
) -> (code: i64)
    ensures
        (code, *final(ids)) == set_all(
            *old(ids),
            asked_for(new_ruid, mapped_ruid),
            asked_for(new_euid, mapped_euid),
            asked_for(new_suid, mapped_suid),
            privileged,
        ),
{
    set_res(
        ids,
        ask(new_ruid, mapped_ruid),
        ask(new_euid, mapped_euid),
        ask(new_suid, mapped_suid),
        privileged,
    )
}

/// `setresgid`
pub fn sys_setresgid(
    ids: &mut Ids,
    new_rgid: u32,
    new_egid: u32,
    new_sgid: u32,
    mapped_rgid: Option<u32>,
    mapped_egid: Option<u32>,
    mapped_sgid: Option<u32>,
    privileged: bool,
) -> (code: i64)
    ensures
        (code, *final(ids)) == set_all(
            *old(ids),
            asked_for(new_rgid, mapped_rgid),
            asked_for(new_egid, mapped_egid),
            asked_for(new_sgid, mapped_sgid),
            privileged,
        ),
{
    set_res(
        ids,
        ask(new_rgid, mapped_rgid),
        ask(new_egid, mapped_egid),
        ask(new_sgid, mapped_sgid),
        privileged,
    )
}

/// What setting the number comes to: all of them with the privilege, else the effective one,
/// to a number that the process has.
pub open spec fn set_one(ids: Ids, mapped: Option<u32>, privileged: bool) -> (i64, Ids) {
    match mapped {
        None => (errno::EINVAL, ids),
        Some(k) => if privileged {
            (0, Ids { real_id: k, effective: k, saved: k, fs: k })
        } else if k == ids.real_id || k == ids.effective || k == ids.saved {
            (0, Ids { effective: k, fs: k, ..ids })
        } else {
            (errno::EPERM, ids)
        },
    }
}

fn set_id(ids: &mut Ids, mapped: Option<u32>, privileged: bool) -> (code: i64)
    ensures
        (code, *final(ids)) == set_one(*old(ids), mapped, privileged),
{
    let k: u32 = match mapped {
        Some(k) => k,
        None => {
            return errno::EINVAL;
        },
    };
    if privileged {
        *ids = Ids { real_id: k, effective: k, saved: k, fs: k };
        return 0;
    }
    if k == ids.real_id || k == ids.effective || k == ids.saved {
        ids.effective = k;
        ids.fs = k;
        return 0;
    }
    errno::EPERM
}

/// `setuid`
pub fn sys_setuid(ids: &mut Ids, mapped: Option<u32>, privileged: bool) -> (code: i64)
    ensures
        (code, *final(ids)) == set_one(*old(ids), mapped, privileged),
{
    set_id(ids, mapped, privileged)
}

/// `setgid`
pub fn sys_setgid(ids: &mut Ids, mapped: Option<u32>, privileged: bool) -> (code: i64)
    ensures
        (code, *final(ids)) == set_one(*old(ids), mapped, privileged),
{
    set_id(ids, mapped, privileged)
}

/// What setting the real and the effective number comes to. The saved number follows the
/// effective one where the real one changes, or the effective one to another than the saved.
pub open spec fn set_two(
    ids: Ids,
    real_id: Option<u32>,
    effective: Option<u32>,
    privileged: bool,
) -> (i64, Ids) {
    match (real_id, effective) {
        (Some(r), Some(e)) => if may_take(r, ids, privileged) && may_take(e, ids, privileged) {
            let new_r = pick(r, ids.real_id);
            let new_e = pick(e, ids.effective);
            let follows = new_r != ids.real_id || (new_e != ids.effective && new_e != ids.saved);
            (
                0,
                Ids {
                    real_id: new_r,
                    effective: new_e,
                    saved: if follows {
                        new_e
                    } else {
                        ids.saved
                    },
                    fs: pick(e, ids.fs),
                },
            )
        } else {
            (errno::EPERM, ids)
        },
        _ => (errno::EINVAL, ids),
    }
}

fn set_re(ids: &mut Ids, real_id: Option<u32>, effective: Option<u32>, privileged: bool) -> (code: i64)
    ensures
        (code, *final(ids)) == set_two(*old(ids), real_id, effective, privileged),
{
    let (r, e) = match (real_id, effective) {
        (Some(r), Some(e)) => (r, e),
        _ => {
            return errno::EINVAL;
        },
    };
    if !check_setid_transition(r, ids, privileged) || !check_setid_transition(e, ids, privileged) {
        return errno::EPERM;
    }
    let real_changing = r != SETID_KEEP && r != ids.real_id;
    let effective_changing = e != SETID_KEEP && e != ids.effective;
    if r != SETID_KEEP {
        ids.real_id = r;
    }
    if e != SETID_KEEP {
        ids.effective = e;
        ids.fs = e;
    }
    if real_changing || (effective_changing && e != ids.saved) {
        ids.saved = ids.effective;
    }
    0
}

/// `setreuid`
pub fn sys_setreuid(
    ids: &mut Ids,
    new_ruid: u32,
    new_euid: u32,
    mapped_ruid: Option<u32>,
    mapped_euid: Option<u32>,
    privileged: bool,
) -> (code: i64)
    ensures
        (code, *final(ids)) == set_two(
            *old(ids),
            asked_for(new_ruid, mapped_ruid),
            asked_for(new_euid, mapped_euid),
            privileged,
        ),
{
    set_re(ids, ask(new_ruid, mapped_ruid), ask(new_euid, mapped_euid), privileged)
}

/// `setregid`
pub fn sys_setregid(
    ids: &mut Ids,
    new_rgid: u32,
    new_egid: u32,
    mapped_rgid: Option<u32>,
    mapped_egid: Option<u32>,
    privileged: bool,
) -> (code: i64)
    ensures
        (code, *final(ids)) == set_two(
            *old(ids),
            asked_for(new_rgid, mapped_rgid),
            asked_for(new_egid, mapped_egid),
            privileged,
        ),
{
    set_re(ids, ask(new_rgid, mapped_rgid), ask(new_egid, mapped_egid), privileged)
}

/// The numbers once the one for files is set, where it may be.
pub open spec fn set_fs(ids: Ids, new: Option<u32>, privileged: bool) -> Ids {
    match new {
        Some(k) => if k != SETID_KEEP && (may_take(k, ids, privileged) || k == ids.fs) {
            Ids { fs: k, ..ids }
        } else {
            ids
        },
        None => ids,
    }
}

fn set_fs_id(ids: &mut Ids, new: Option<u32>, privileged: bool)
    ensures
        *final(ids) == set_fs(*old(ids), new, privileged),
{
    if let Some(k) = new {
        let allowed = privileged || k == ids.real_id || k == ids.effective || k == ids.saved || k
            == ids.fs;
        if allowed && k != SETID_KEEP {
            ids.fs = k;
        }
    }
}

/// `setfsuid`: the answer is the number before, whatever comes of the request. `shown` is
/// that number as the caller sees it.
pub fn sys_setfsuid(
    ids: &mut Ids,
    new_fsuid: u32,
    mapped: Option<u32>,
    shown: u32,
    privileged: bool,
) -> (code: i64)
    ensures
        code == shown,
        *final(ids) == set_fs(*old(ids), asked_for(new_fsuid, mapped), privileged),
{
    set_fs_id(ids, ask(new_fsuid, mapped), privileged);
    shown as i64
}

/// `setfsgid`
pub fn sys_setfsgid(
    ids: &mut Ids,
    new_fsgid: u32,
    mapped: Option<u32>,
    shown: u32,
    privileged: bool,
) -> (code: i64)
    ensures
        code == shown,
        *final(ids) == set_fs(*old(ids), asked_for(new_fsgid, mapped), privileged),
{
    set_fs_id(ids, ask(new_fsgid, mapped), privileged);
    shown as i64
}

/// Whether a number is one that a process has.
pub open spec fn holds_id(ids: Ids, id: u32) -> bool {
    id == ids.real_id || id == ids.effective || id == ids.saved
}

/// Without the privilege no call gives a process a number that it does not have.
pub proof fn law_unprivileged_gains_no_id(
    ids: Ids,
    a: Option<u32>,
    b: Option<u32>,
    c: Option<u32>,
    id: u32,
)
    requires
        !holds_id(ids, id),
    ensures
        !holds_id(set_all(ids, a, b, c, false).1, id),
        !holds_id(set_two(ids, a, b, false).1, id),
        !holds_id(set_one(ids, a, false).1, id),
        !holds_id(set_fs(ids, a, false), id),
{
}

/// A process that gave up all other numbers and has no privilege cannot take them back.
pub proof fn law_given_up_for_good(ids: Ids, id: u32, other: u32)
    requires
        ids.real_id == id && ids.effective == id && ids.saved == id,
        other != id,
        other != SETID_KEEP,
    ensures
        set_all(ids, Some(other), Some(other), Some(other), false) == (errno::EPERM, ids),
        set_two(ids, Some(other), Some(other), false) == (errno::EPERM, ids),
        set_one(ids, Some(other), false) == (errno::EPERM, ids),
{
}

/// Asking for nothing changes nothing.
pub proof fn law_keep_changes_nothing(ids: Ids, m: Option<u32>, privileged: bool)
    ensures
        set_all(
            ids,
            asked_for(SETID_KEEP, m),
            asked_for(SETID_KEEP, m),
            asked_for(SETID_KEEP, m),
            privileged,
        ) == (0i64, ids),
        set_two(ids, asked_for(SETID_KEEP, m), asked_for(SETID_KEEP, m), privileged) == (0i64, ids),
        set_fs(ids, asked_for(SETID_KEEP, m), privileged) == ids,
{
}

fn u32_bytes(x: u32) -> (b: Vec<u8>)
    ensures
        b@ == bytes::put32(x),
{
    let mut b: Vec<u8> = Vec::new();
    bytes::push_u32(&mut b, x);
    assert(b@ =~= bytes::put32(x));
    b
}

/// The three numbers, each where there is a place for it.
pub open spec fn three_numbers(
    r_ptr: u64,
    e_ptr: u64,
    s_ptr: u64,
    r: u32,
    e: u32,
    s: u32,
) -> reply::ReplyView {
    reply::where_wanted(
        reply::where_wanted(
            reply::where_wanted(reply::plain(0), r_ptr, bytes::put32(r)),
            e_ptr,
            bytes::put32(e),
        ),
        s_ptr,
        bytes::put32(s),
    )
}

/// `getresuid`, with the numbers as the caller sees them.
pub fn sys_getresuid(r_ptr: u64, e_ptr: u64, s_ptr: u64, ruid: u32, euid: u32, suid: u32) -> (r:
    Reply)
    ensures
        r@ == three_numbers(r_ptr, e_ptr, s_ptr, ruid, euid, suid),
{
    let mut r = Reply::plain(0);
    r.hand_over(r_ptr, u32_bytes(ruid));
    r.hand_over(e_ptr, u32_bytes(euid));
    r.hand_over(s_ptr, u32_bytes(suid));
    r
}

/// `getresgid`, with the numbers as the caller sees them.
pub fn sys_getresgid(r_ptr: u64, e_ptr: u64, s_ptr: u64, rgid: u32, egid: u32, sgid: u32) -> (r:
    Reply)
    ensures
        r@ == three_numbers(r_ptr, e_ptr, s_ptr, rgid, egid, sgid),
{
    sys_getresuid(r_ptr, e_ptr, s_ptr, rgid, egid, sgid)
}

/// `getgroups`, with the groups as the caller sees them: a size of none asks how many there
/// are.
pub fn sys_getgroups(size: u64, list: u64, groups: &Vec<u32>) -> (r: Reply)
    ensures
        r@ == (if size == 0 || groups@.len() == 0 {
            reply::plain(groups@.len() as i64)
        } else if size < groups@.len() {
            reply::plain(errno::ERANGE)
        } else {
            reply::with_bytes(groups@.len() as i64, list, bytes::put32s(groups@))
        }),
{
    let n: usize = groups.len();
    if size == 0 {
        return Reply::plain(n as i64);
    }
    if size < n as u64 {
        return Reply::plain(errno::ERANGE);
    }
    let mut buf: Vec<u8> = Vec::new();
    let mut i: usize = 0;
    assert(groups@.take(0) =~= Seq::<u32>::empty());
    while i < n
        invariant
            i <= n,
            n == groups@.len(),
            buf@ == bytes::put32s(groups@.take(i as int)),
        decreases n - i,
    {
        bytes::push_u32(&mut buf, groups[i]);
        assert(groups@.take(i + 1).drop_last() =~= groups@.take(i as int));
        i += 1;
    }
    assert(groups@.take(n as int) =~= groups@);
    if n == 0 {
        Reply::plain(n as i64)
    } else {
        Reply::with_bytes(n as i64, list, buf)
    }
}

/// What `setgroups` has to read: how many groups, or an answer at once. `max` is the most
/// that a process may have; `allowed` is false where its namespace forbids the call.
pub fn setgroups_len(size: u64, allowed: bool, privileged: bool, max: u64) -> (r: Result<u64, i64>)
    ensures
        r == (if !allowed || !privileged {
            Err(errno::EPERM)
        } else if size > max {
            Err(errno::EINVAL)
        } else {
            Ok::<u64, i64>(size)
        }),
{
    if !allowed || !privileged {
        return Err(errno::EPERM);
    }
    if size > max {
        return Err(errno::EINVAL);
    }
    Ok(size)
}

/// The groups that the caller's bytes list.
pub open spec fn listed_groups(buf: Seq<u8>) -> Seq<u32> {
    Seq::new((buf.len() / 4) as nat, |i: int| bytes::le32(buf, 4 * i))
}

/// Reads a list of groups.
pub fn read_groups(buf: &Vec<u8>) -> (groups: Vec<u32>)
    ensures
        groups@ == listed_groups(buf@),
{
    let n: usize = buf.len() / 4;
    let mut groups: Vec<u32> = Vec::new();
    let mut i: usize = 0;
    while i < n
        invariant
            i <= n,
            n == buf@.len() / 4,
            groups@.len() == i,
            forall|j: int| 0 <= j < i ==> groups@[j] == #[trigger] listed_groups(buf@)[j],
        decreases n - i,
    {
        assert(4 * (i + 1) <= buf.len());
        groups.push(bytes::u32_at(buf, 4 * i));
        i += 1;
    }
    assert(groups@ =~= listed_groups(buf@));
    groups
}

pub open spec fn all_mapped(mapped: Seq<Option<u32>>) -> bool {
    forall|i: int| 0 <= i < mapped.len() ==> (#[trigger] mapped[i]) is Some
}

/// `setgroups`, with what each group of the list is mapped to: all of them are set, or none
/// where one is not mapped.
pub fn sys_setgroups(groups: &mut Vec<u32>, mapped: &Vec<Option<u32>>) -> (code: i64)
    ensures
        code == (if all_mapped(mapped@) {
            0i64
        } else {
            errno::EINVAL
        }),
        final(groups)@ == if all_mapped(mapped@) {
            mapped@.map_values(|m: Option<u32>| m->0)
        } else {
            old(groups)@
        },
{
    let mut new: Vec<u32> = Vec::new();
    let mut i: usize = 0;
    while i < mapped.len()
        invariant
            i <= mapped@.len(),
            new@.len() == i,
            forall|j: int|
                0 <= j < i ==> (#[trigger] mapped@[j]) is Some && new@[j] == mapped@[j]->0,
            groups@ == old(groups)@,
        decreases mapped.len() - i,
    {
        match mapped[i] {
            Some(k) => new.push(k),
            None => {
                assert(!all_mapped(mapped@));
                return errno::EINVAL;
            },
        }
        i += 1;
    }
    *groups = new;
    assert(groups@ =~= mapped@.map_values(|m: Option<u32>| m->0));
    0
}

/// The longest name of a host or a domain.
pub const UTS_NAME_MAX: u64 = 64;

/// Whether the name of a host or a domain is to be read at all.
pub open spec fn uts_name_refused(name: u64, len: u64, allowed: bool) -> Option<i64> {
    if len > UTS_NAME_MAX || name == 0 {
        Some(errno::EINVAL)
    } else if !allowed {
        Some(errno::EPERM)
    } else {
        None
    }
}

/// What setting a name comes to: a code, and the name. `read` is what was read of the
/// caller's memory.
pub open spec fn uts_name_set(
    now: Seq<char>,
    name: u64,
    len: u64,
    allowed: bool,
    read: Option<Seq<u8>>,
) -> (i64, Seq<char>) {
    match uts_name_refused(name, len, allowed) {
        Some(e) => (e, now),
        None => match read {
            None => (errno::EFAULT, now),
            Some(b) => match text::text_of(b) {
                None => (errno::EINVAL, now),
                Some(t) => (0, t),
            },
        },
    }
}

fn set_uts_name(now: &mut String, name: u64, len: u64, allowed: bool, read: Option<Vec<u8>>) -> (code:
    i64)
    ensures
        (code, final(now)@) == uts_name_set(old(now)@, name, len, allowed, util::bytes_view(read)),
{
    if len > UTS_NAME_MAX || name == 0 {
        return errno::EINVAL;
    }
    if !allowed {
        return errno::EPERM;
    }
    match read {
        None => errno::EFAULT,
        Some(b) => match text::from_utf8(&b) {
            Some(t) => {
                *now = t;
                0
            },
            None => errno::EINVAL,
        },
    }
}

/// `sethostname`
pub fn sys_sethostname(
    hostname: &mut String,
    name: u64,
    len: u64,
    allowed: bool,
    read: Option<Vec<u8>>,
) -> (code: i64)
    ensures
        (code, final(hostname)@) == uts_name_set(
            old(hostname)@,
            name,
            len,
            allowed,
            util::bytes_view(read),
        ),
{
    set_uts_name(hostname, name, len, allowed, read)
}

/// `setdomainname`
pub fn sys_setdomainname(
    domainname: &mut String,
    name: u64,
    len: u64,
    allowed: bool,
    read: Option<Vec<u8>>,
) -> (code: i64)
    ensures
        (code, final(domainname)@) == uts_name_set(
            old(domainname)@,
            name,
            len,
            allowed,
            util::bytes_view(read),
        ),
{
    set_uts_name(domainname, name, len, allowed, read)
}

} // verus!
