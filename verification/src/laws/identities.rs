//! Who a process acts as, and what it may.

use vstd::prelude::*;

use super::bits;
use crate::bytes;
use crate::syscall::caps;
use crate::syscall::caps::Caps;
use crate::syscall::creds;
use crate::syscall::creds::Ids;
use crate::syscall::reply::ReplyView;
use crate::text;

verus! {

/// An id that is `0xffffffff` asks for nothing; any other may be taken by who is privileged, and
/// by others where it is one of their own three.
pub open spec fn is_open_to(id: u32, ids: Ids, privileged: bool) -> bool {
    id == 0xffff_ffff || privileged || id == ids.real_id || id == ids.effective || id == ids.saved
}

/// What was asked for, or what was there where nothing was.
pub open spec fn asked_or_kept(id: u32, kept: u32) -> u32 {
    if id == 0xffff_ffff {
        kept
    } else {
        id
    }
}

/// Three ids are set as asked, all of them or none; the one for files follows the effective one.
pub proof fn law_three_ids_are_set_as_asked(ids: Ids, r: u32, e: u32, s: u32, privileged: bool)
    ensures
        creds::set_all(ids, Some(r), Some(e), Some(s), privileged) == (if is_open_to(
            r,
            ids,
            privileged,
        ) && is_open_to(e, ids, privileged) && is_open_to(s, ids, privileged) {
            (
                0i64,
                Ids {
                    real_id: asked_or_kept(r, ids.real_id),
                    effective: asked_or_kept(e, ids.effective),
                    saved: asked_or_kept(s, ids.saved),
                    fs: asked_or_kept(e, ids.fs),
                },
            )
        } else {
            (-1i64, ids)
        }),
        creds::set_all(ids, None, Some(e), Some(s), privileged) == (-22i64, ids),
        creds::set_all(ids, Some(r), None, Some(s), privileged) == (-22i64, ids),
        creds::set_all(ids, Some(r), Some(e), None, privileged) == (-22i64, ids),
{
}

/// Two ids are set as asked. The saved one follows the effective one where the real one changes,
/// or where the effective one becomes neither what it was nor the saved one.
pub proof fn law_two_ids_are_set_as_asked(ids: Ids, r: u32, e: u32, privileged: bool)
    ensures
        ({
            let (code, after) = creds::set_two(ids, Some(r), Some(e), privileged);
            let allowed = is_open_to(r, ids, privileged) && is_open_to(e, ids, privileged);
            &&& !allowed ==> code == -1 && after == ids
            &&& allowed ==> {
                &&& code == 0
                &&& after.real_id == asked_or_kept(r, ids.real_id)
                &&& after.effective == asked_or_kept(e, ids.effective)
                &&& after.fs == asked_or_kept(e, ids.fs)
                &&& after.real_id != ids.real_id ==> after.saved == after.effective
                &&& after.effective != ids.effective && after.effective != ids.saved
                    ==> after.saved == after.effective
                &&& after.real_id == ids.real_id && (after.effective == ids.effective
                    || after.effective == ids.saved) ==> after.saved == ids.saved
            }
        }),
        creds::set_two(ids, None, Some(e), privileged) == (-22i64, ids),
        creds::set_two(ids, Some(r), None, privileged) == (-22i64, ids),
{
}

/// One id is set for all purposes by who is privileged. Others change only the effective one and
/// the one for files, to one of their own three.
pub proof fn law_one_id_is_set_as_asked(ids: Ids, id: u32, privileged: bool)
    ensures
        privileged ==> creds::set_one(ids, Some(id), privileged) == (
            0i64,
            Ids { real_id: id, effective: id, saved: id, fs: id },
        ),
        !privileged && (id == ids.real_id || id == ids.effective || id == ids.saved)
            ==> creds::set_one(ids, Some(id), privileged) == (
            0i64,
            Ids { real_id: ids.real_id, effective: id, saved: ids.saved, fs: id },
        ),
        !privileged && id != ids.real_id && id != ids.effective && id != ids.saved
            ==> creds::set_one(ids, Some(id), privileged) == (-1i64, ids),
        creds::set_one(ids, None, privileged) == (-22i64, ids),
{
}

/// The id for files is set alone, by who may take it or has it; a refusal changes nothing.
pub proof fn law_id_for_files_is_set_alone(ids: Ids, id: u32, privileged: bool)
    ensures
        ({
            let after = creds::set_fs(ids, Some(id), privileged);
            let own = id == ids.real_id || id == ids.effective || id == ids.saved || id == ids.fs;
            &&& after.real_id == ids.real_id && after.effective == ids.effective && after.saved
                == ids.saved
            &&& id != 0xffff_ffff && (privileged || own) ==> after.fs == id
            &&& id == 0xffff_ffff || !(privileged || own) ==> after.fs == ids.fs
            &&& creds::set_fs(ids, None, privileged) == ids
        }),
{
}

/// Three ids are told in their order, each where there is a place for it.
pub proof fn law_three_ids_are_told_in_order(
    r_ptr: u64,
    e_ptr: u64,
    s_ptr: u64,
    r: u32,
    e: u32,
    s: u32,
)
    requires
        r_ptr != 0,
        e_ptr != 0,
        s_ptr != 0,
    ensures
        ({
            let told = creds::three_numbers(r_ptr, e_ptr, s_ptr, r, e, s);
            told == (ReplyView {
                code: 0,
                out: seq![
                    (r_ptr, bytes::put32(r)),
                    (e_ptr, bytes::put32(e)),
                    (s_ptr, bytes::put32(s)),
                ],
            })
        }),
        creds::three_numbers(0, e_ptr, 0, r, e, s).out == seq![(e_ptr, bytes::put32(e))],
{
    assert(creds::three_numbers(r_ptr, e_ptr, s_ptr, r, e, s).out =~= seq![
        (r_ptr, bytes::put32(r)),
        (e_ptr, bytes::put32(e)),
        (s_ptr, bytes::put32(s)),
    ]);
    assert(creds::three_numbers(0, e_ptr, 0, r, e, s).out =~= seq![(e_ptr, bytes::put32(e))]);
}

/// Groups are listed as numbers of four bytes each.
pub proof fn law_groups_are_listed(groups: Seq<u32>)
    ensures
        creds::listed_groups(bytes::put32s(groups)) == groups,
{
    bytes::law_numbers_are_read_back(groups);
    let listed = creds::listed_groups(bytes::put32s(groups));
    assert(listed.len() == groups.len());
    assert forall|i: int| 0 <= i < groups.len() implies #[trigger] listed[i] == groups[i] by {
        assert(bytes::le32(bytes::put32s(groups), 4 * i) == groups[i]);
    }
    assert(listed =~= groups);
}

/// A name of the machine has at most sixty-four bytes, and is set by who may.
pub proof fn law_machine_is_named_by_who_may(
    now: Seq<char>,
    name: u64,
    len: u64,
    allowed: bool,
    read: Option<Seq<u8>>,
)
    ensures
        ({
            let (code, after) = creds::uts_name_set(now, name, len, allowed, read);
            &&& len > 64 || name == 0 ==> code == -22
            &&& len <= 64 && name != 0 && !allowed ==> code == -1
            &&& len <= 64 && name != 0 && allowed && read is None ==> code == -14
            &&& code != 0 ==> after == now
            &&& code == 0 ==> len <= 64 && name != 0 && allowed && read is Some
                && crate::text::text_of(read->0) == Some(after)
        }),
{
}

/// Every bit of `a` is one of `b`.
pub open spec fn is_part_of(a: u64, b: u64) -> bool {
    a & b == a
}

/// A process gives itself capabilities within those that it is permitted, makes effective what it
/// permits itself, and hands on what it has or may have within its bounds.
pub proof fn law_capabilities_are_set_within_bounds(c: Caps, e: u64, p: u64, i: u64, mask: u64)
    ensures
        ({
            let (code, after) = caps::after_capset(c, e, p, i, mask);
            let allowed = is_part_of(p, c.permitted) && is_part_of(e, p) && is_part_of(
                i,
                c.inheritable | c.permitted,
            ) && is_part_of(i, c.bounding | c.inheritable);
            &&& !allowed ==> code == -1 && after == c
            &&& allowed ==> code == 0 && after.effective == e & mask && after.permitted == p & mask
                && after.inheritable == i & mask && after.bounding == c.bounding
        }),
{
    bits::lemma_part(p, c.permitted);
    bits::lemma_part(e, p);
    bits::lemma_part(i, c.inheritable | c.permitted);
    bits::lemma_part(i, c.bounding | c.inheritable);
}

/// The effective, permitted and inheritable capabilities are told in two halves each.
pub proof fn law_capabilities_are_told_in_halves(c: Caps)
    ensures
        ({
            let s = caps::packed(c);
            &&& s.len() == 24
            &&& bytes::le32(s, 0) == c.effective % 0x1_0000_0000
            &&& bytes::le32(s, 4) == c.permitted % 0x1_0000_0000
            &&& bytes::le32(s, 8) == c.inheritable % 0x1_0000_0000
            &&& bytes::le32(s, 12) == c.effective / 0x1_0000_0000
            &&& bytes::le32(s, 16) == c.permitted / 0x1_0000_0000
            &&& bytes::le32(s, 20) == c.inheritable / 0x1_0000_0000
        }),
{
    let w = caps::words(c);
    bytes::law_numbers_are_read_back(w);
    assert(w.len() == 6);
    assert(bytes::le32(caps::packed(c), 4int * 0) == w[0]);
    assert(bytes::le32(caps::packed(c), 4int * 1) == w[1]);
    assert(bytes::le32(caps::packed(c), 4int * 2) == w[2]);
    assert(bytes::le32(caps::packed(c), 4int * 3) == w[3]);
    assert(bytes::le32(caps::packed(c), 4int * 4) == w[4]);
    assert(bytes::le32(caps::packed(c), 4int * 5) == w[5]);
}

/// The head of a request for capabilities is its version and the process.
pub proof fn law_head_of_a_request(hdr: Seq<u8>)
    ensures
        caps::header_of(hdr).version == bytes::le32(hdr, 0),
        caps::header_of(hdr).pid == bytes::le32(hdr, 4) as i32,
{
}

/// A readable name is taken by who may, if it is text.
pub proof fn law_readable_name_is_taken(now: Seq<char>, name: u64, len: u64, b: Seq<u8>)
    requires
        len <= 64,
        name != 0,
    ensures
        creds::uts_name_set(now, name, len, true, Some(b)) == (match text::text_of(b) {
            Some(t) => (0i64, t),
            None => (-22i64, now),
        }),
{
}

} // verus!
