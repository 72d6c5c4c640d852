//! What the calls on memory promise of the ranges and pages that they change.

use vstd::prelude::*;

use super::bits;
use crate::syscall::mm;
use crate::syscall::mm::{Backing, Brk, BrkStep, MapFile, MmapState, MmapStep, Perms, Vma};
use crate::syscall::mm_range;
use crate::syscall::mm_range::{Detach, MremapStep, Writeback};

verus! {

/// Permissions are those that a request asks for: the lowest bit asks for reading, the one above
/// for writing, and the third for executing.
pub open spec fn are_those_asked(perms: Perms, prot: u64) -> bool {
    &&& perms.read == (prot % 2 == 1)
    &&& perms.write == ((prot / 2) % 2 == 1)
    &&& perms.execute == ((prot / 4) % 2 == 1)
}

/// The range that a step enters.
pub open spec fn entered(step: MmapStep) -> Option<Vma> {
    match step {
        MmapStep::Reply(_) => None,
        MmapStep::Enter { vma, .. } => Some(vma),
        MmapStep::EnterShared { vma, .. } => Some(vma),
    }
}

/// What may be done with a range is what was asked for when it was mapped or protected.
pub proof fn law_pages_allow_what_was_asked(
    m: MmapState,
    borrower: bool,
    addr: u64,
    length: u64,
    prot: u64,
    flags: u64,
    fd: u64,
    offset: u64,
    file: Option<MapFile>,
    gap: Option<u64>,
)
    ensures
        entered(mm::map_request(m, borrower, addr, length, prot, flags, fd, offset, file, gap))
            matches Some(vma) ==> are_those_asked(vma.prot, prot),
        mm::protect_request(borrower, addr, length, prot) matches Ok(p) ==> are_those_asked(
            p.perms,
            prot,
        ),
{
    bits::lemma_low_bits(prot);
}

/// A range is protected where it begins at a page, is not empty and no unknown permission is
/// asked for; the pages are those that hold any of its bytes.
pub proof fn law_protected_pages_hold_the_range(
    borrower: bool,
    addr: u64,
    length: u64,
    prot: u64,
)
    requires
        addr + length + 4095 <= u64::MAX,
    ensures
        ({
            let r = mm::protect_request(borrower, addr, length, prot);
            &&& r is Ok == (!borrower && length > 0 && addr % 4096 == 0 && prot < 8)
            &&& r matches Ok(p) ==> {
                &&& p.lo == addr
                &&& p.pages * 4096 == p.hi - p.lo
                &&& addr + length <= p.hi < addr + length + 4096
            }
            &&& r matches Err(e) ==> e == (if borrower {
                -12i64
            } else {
                -22i64
            })
        }),
{
    bits::lemma_low_bits(prot);
    bits::lemma_mapping_bits(prot);
}

/// A mapped range holds the bytes asked for in whole pages. Where the place is fixed it begins at
/// the address given. It shows a file from the offset given, or nothing where it is anonymous,
/// and others see what is written to it where it is shared.
pub proof fn law_mapping_is_as_asked(
    m: MmapState,
    borrower: bool,
    addr: u64,
    length: u64,
    prot: u64,
    flags: u64,
    fd: u64,
    offset: u64,
    file: Option<MapFile>,
    gap: Option<u64>,
)
    requires
        addr + length + 4095 <= u64::MAX,
        gap is Some ==> gap->0 + length + 4095 <= u64::MAX,
    ensures
        ({
            let step = mm::map_request(
                m,
                borrower,
                addr,
                length,
                prot,
                flags,
                fd,
                offset,
                file,
                gap,
            );
            let anonymous = (flags / 0x20) % 2 == 1;
            let fixed = (flags / 0x10) % 2 == 1;
            let kept = (flags / 0x10_0000) % 2 == 1;
            let shared = flags % 2 == 1;
            &&& entered(step) matches Some(vma) ==> {
                &&& !borrower && length > 0
                &&& vma.start == addr || (!fixed && !kept && Some(vma.start) == gap)
                &&& fixed || kept ==> addr % 4096 == 0
                &&& kept ==> !m.meets_some(vma.start, vma.end)
                &&& vma.start + length <= vma.end < vma.start + length + 4096
                &&& (vma.end - vma.start) % 4096 == 0
                &&& vma.shared == shared
                &&& vma.backing == (if anonymous {
                    Backing::Anonymous
                } else {
                    Backing::File { inode: file->0.inode, offset }
                })
                &&& !anonymous ==> file is Some && file->0.readable && fd
                    != 0xffff_ffff_ffff_ffff
                &&& mm::map_answer(
                    step,
                    Some(mm::SharedMap::Enter(vma)),
                ) as u64 == vma.start
            }
            &&& step matches MmapStep::Enter { vma, pages, replace } ==> {
                &&& pages * 4096 == vma.end - vma.start
                &&& replace == fixed
                &&& vma.anon == anonymous
                &&& !(anonymous && shared)
            }
            &&& step matches MmapStep::EnterShared { vma, pages, replace } ==> {
                &&& pages * 4096 == vma.end - vma.start
                &&& replace == fixed
                &&& !vma.anon && anonymous && shared
            }
        }),
{
    bits::lemma_low_bits(flags);
    bits::lemma_mapping_bits(flags);
    bits::lemma_sign(fd);
    let step = mm::map_request(m, borrower, addr, length, prot, flags, fd, offset, file, gap);
    if entered(step) is Some {
        bits::lemma_sign(entered(step)->0.start);
    }
}

/// What is wrong with a mapping is told by its number.
pub proof fn law_refused_mappings(
    m: MmapState,
    borrower: bool,
    addr: u64,
    length: u64,
    prot: u64,
    flags: u64,
    fd: u64,
    offset: u64,
    file: Option<MapFile>,
    gap: Option<u64>,
)
    requires
        addr + length + 4095 <= u64::MAX,
    ensures
        ({
            let step = mm::map_request(
                m,
                borrower,
                addr,
                length,
                prot,
                flags,
                fd,
                offset,
                file,
                gap,
            );
            let anonymous = (flags / 0x20) % 2 == 1;
            let fixed = (flags / 0x10) % 2 == 1;
            let kept = (flags / 0x10_0000) % 2 == 1;
            &&& borrower ==> step == MmapStep::Reply(-12i64)
            &&& !borrower && length == 0 ==> step == MmapStep::Reply(-22i64)
            &&& !borrower && length > 0 && (fixed || kept) && addr % 4096 != 0 ==> step
                == MmapStep::Reply(-22i64)
            &&& !borrower && length > 0 && addr % 4096 == 0 && !anonymous && fd
                == 0xffff_ffff_ffff_ffff ==> step == MmapStep::Reply(-22i64)
            &&& !borrower && length > 0 && addr % 4096 == 0 && !anonymous && fd
                != 0xffff_ffff_ffff_ffff && (file is None || !file->0.readable) ==> step
                == MmapStep::Reply(-9i64)
            &&& !borrower && length > 0 && addr % 4096 == 0 && anonymous && kept
                && m.meets_some(addr, ((addr + length + 4095) / 4096 * 4096) as u64) ==> step
                == MmapStep::Reply(-17i64)
            &&& !borrower && length > 0 && addr == 0 && anonymous && !kept && !fixed && gap
                is None ==> step == MmapStep::Reply(-12i64)
            &&& mm::map_answer(step, None) == -12 || entered(step) is Some || mm::map_answer(
                step,
                None,
            ) == -22 || mm::map_answer(step, None) == -9 || mm::map_answer(step, None) == -17
        }),
{
    bits::lemma_low_bits(flags);
    bits::lemma_mapping_bits(flags);
    bits::lemma_sign(fd);
    assert(((addr + length + 4095) / 4096 * 4096) == addr + (length + 4095) / 4096 * 4096
        || addr % 4096 != 0);
}

/// The end of the data segment is told for `0`, moves down freely, and moves up to where it was
/// asked as long as the pages lie below the limit; those pages reach from the old end to the new
/// one.
pub proof fn law_break_moves_where_asked(cur: Brk, addr: u64)
    requires
        addr + 4095 <= u64::MAX,
        cur.current + 4095 <= u64::MAX,
    ensures
        addr == 0 ==> mm::brk_request(cur, false, addr) == BrkStep::Move(cur.current),
        0 < addr <= cur.current ==> mm::brk_request(cur, false, addr) == BrkStep::Move(addr),
        addr > cur.current && addr > cur.max ==> mm::brk_request(cur, false, addr)
            == BrkStep::Stay(cur.current),
        addr > cur.current && addr + 4095 <= cur.max ==> (match mm::brk_request(cur, false, addr) {
            BrkStep::Stay(_) => false,
            BrkStep::Move(to) => to == addr && addr - cur.current < 4096,
            BrkStep::Grow { from, pages, to } => {
                &&& to == addr
                &&& cur.current <= from < cur.current + 4096
                &&& from % 4096 == 0
                &&& addr <= from + pages * 4096 < addr + 4096
                &&& pages > 0
            },
        }),
        mm::brk_request(cur, true, addr) == BrkStep::Stay(cur.current),
        forall|step: BrkStep, mapped: bool, set: u64| #[trigger]
            mm::brk_end(cur, step, mapped, set) == (match step {
                BrkStep::Stay(end) => end,
                BrkStep::Move(_) => set,
                BrkStep::Grow { .. } => if mapped {
                    set
                } else {
                    cur.current
                },
            }),
{
}

/// The byte at an address belongs to the part of a file that a range shows there.
pub open spec fn shown_at(v: Vma, at: u64) -> int {
    v.backing->offset + (at - v.start)
}

/// What is written back holds exactly the bytes of files that shared ranges show between two
/// addresses.
pub proof fn law_written_back_is_what_is_shown(vmas: Seq<Vma>, addr: u64, end: u64, n: int)
    requires
        0 <= n <= vmas.len(),
        forall|i: int| 0 <= i < n ==> (#[trigger] vmas[i]).wf(),
    ensures
        forall|i: int, at: u64|
            #![trigger vmas[i].holds(at)]
            0 <= i < n && vmas[i].holds(at) && addr <= at < end && vmas[i].shared
                && vmas[i].backing is File ==> exists|j: int|
                #![trigger mm_range::writebacks(vmas, addr, end, n)[j]]
                {
                    let out = mm_range::writebacks(vmas, addr, end, n);
                    0 <= j < out.len() && out[j].inode == vmas[i].backing->inode && out[j].lo
                        <= shown_at(vmas[i], at) < out[j].hi
                },
        forall|j: int|
            0 <= j < mm_range::writebacks(vmas, addr, end, n).len() ==> stems_from_a_range(
                vmas,
                addr,
                end,
                n,
                #[trigger] mm_range::writebacks(vmas, addr, end, n)[j],
            ),
    decreases n,
{
    if n > 0 {
        law_written_back_is_what_is_shown(vmas, addr, end, n - 1);
        let before = mm_range::writebacks(vmas, addr, end, n - 1);
        let own = mm_range::writeback_of(vmas[n - 1], addr, end);
        let out = mm_range::writebacks(vmas, addr, end, n);
        assert(out == before + own);
        assert forall|i: int, at: u64|
            #![trigger vmas[i].holds(at)]
            0 <= i < n && vmas[i].holds(at) && addr <= at < end && vmas[i].shared
                && vmas[i].backing is File implies exists|j: int|
            #![trigger out[j]]
            0 <= j < out.len() && out[j].inode == vmas[i].backing->inode && out[j].lo <= shown_at(
                vmas[i],
                at,
            ) < out[j].hi by {
            if i < n - 1 {
                let j = choose|j: int|
                    #![trigger before[j]]
                    0 <= j < before.len() && before[j].inode == vmas[i].backing->inode
                        && before[j].lo <= shown_at(vmas[i], at) < before[j].hi;
                assert(out[j] == before[j]);
            } else {
                assert(vmas[i].wf());
                assert(out[before.len() as int] == own[0]);
            }
        }
        assert forall|j: int| 0 <= j < out.len() implies stems_from_a_range(
            vmas,
            addr,
            end,
            n,
            #[trigger] out[j],
        ) by {
            if j < before.len() {
                assert(out[j] == before[j]);
                assert(stems_from_a_range(vmas, addr, end, n - 1, before[j]));
                let i = choose|i: int|
                    0 <= i < n - 1 && is_shown_between(#[trigger] vmas[i], addr, end, before[j]);
                assert(is_shown_between(vmas[i], addr, end, out[j]));
            } else {
                assert(vmas[n - 1].wf());
                assert(out[j] == own[j - before.len()]);
                assert(is_shown_between(vmas[n - 1], addr, end, out[j]));
            }
        }
    }
}

/// A part of a file is what a shared range shows between two addresses.
pub open spec fn is_shown_between(v: Vma, addr: u64, end: u64, w: Writeback) -> bool {
    &&& v.shared && v.backing is File
    &&& w.inode == v.backing->inode
    &&& v.backing->offset <= w.lo < w.hi <= v.backing->offset + (v.end - v.start)
    &&& addr <= v.start + (w.lo - v.backing->offset)
    &&& v.start + (w.hi - v.backing->offset) <= end
}

pub open spec fn stems_from_a_range(
    vmas: Seq<Vma>,
    addr: u64,
    end: u64,
    n: int,
    w: Writeback,
) -> bool {
    exists|i: int| 0 <= i < n && is_shown_between(#[trigger] vmas[i], addr, end, w)
}

/// The pages from an address on, below another, one page apart.
pub proof fn law_pages_follow_each_other(lo: int, hi: int, k: int)
    requires
        0 <= lo,
        hi <= u64::MAX,
        0 <= k,
    ensures
        lo + k * 4096 < hi ==> k < mm::page_list(lo, hi).len() && mm::page_list(lo, hi)[k] == lo
            + k * 4096,
        lo + k * 4096 >= hi ==> k >= mm::page_list(lo, hi).len(),
    decreases k,
{
    if lo < hi {
        let rest = mm::page_list(lo + 4096, hi);
        assert(mm::page_list(lo, hi) == seq![lo as u64] + rest);
        if k > 0 {
            law_pages_follow_each_other(lo + 4096, hi, k - 1);
            if lo + k * 4096 < hi {
                assert((seq![lo as u64] + rest)[k] == rest[k - 1]);
            }
        }
    }
}

/// A page of a shared file that is let go is the one that the range showed at its address, and
/// lies in the part that is unmapped; shared memory is let go page by page and has then one user
/// fewer; nothing is let go of what belongs to the process alone.
pub proof fn law_only_shared_pages_are_let_go(v: Vma, addr: u64, end: u64)
    requires
        mm_range::is_whole(v),
    ensures
        ({
            let out = mm_range::detaches_of(v, addr, end);
            &&& v.backing is Anonymous || (v.backing is File && !v.shared) ==> out.len() == 0
            &&& v.backing is File && v.shared ==> forall|j: int|
                0 <= j < out.len() ==> (match #[trigger] out[j] {
                    Detach::FilePage { at, inode, offset } => {
                        &&& inode == v.backing->inode
                        &&& offset == shown_at(v, at)
                        &&& v.start <= at < v.end
                        &&& at < end && addr < at + 4096
                        &&& at % 4096 == 0
                    },
                    _ => false,
                })
            &&& v.backing is Shm ==> {
                &&& out.len() == (v.end - v.start) / 4096 + 1
                &&& out.last() == (Detach::Release { segment: v.backing->segment })
                &&& forall|j: int|
                    0 <= j < out.len() - 1 ==> #[trigger] out[j] == (Detach::ShmPage {
                        at: (v.start + j * 4096) as u64,
                    })
            }
        }),
{
    if v.backing is File && v.shared {
        let lo = mm::page_floor(mm_range::larger(v.start, addr) as int);
        let hi = mm_range::smaller(v.end, end) as int;
        let pages = mm::page_list(lo, hi);
        let out = mm_range::detaches_of(v, addr, end);
        assert(v.start % 4096 == 0);
        assert forall|j: int| 0 <= j < out.len() implies (match #[trigger] out[j] {
            Detach::FilePage { at, inode, offset } => {
                &&& inode == v.backing->inode
                &&& offset == shown_at(v, at)
                &&& v.start <= at < v.end
                &&& at < end && addr < at + 4096
                &&& at % 4096 == 0
            },
            _ => false,
        }) by {
            law_pages_follow_each_other(lo, hi, j);
            assert(out[j] == (Detach::FilePage {
                at: pages[j],
                inode: v.backing->inode,
                offset: (v.backing->offset + (pages[j] - v.start)) as u64,
            }));
            assert(lo % 4096 == 0);
            assert((lo + j * 4096) % 4096 == 0);
        }
    }
}

/// Each page of a shared file that the unmapped part holds is let go.
pub proof fn law_each_shared_page_is_let_go(v: Vma, addr: u64, end: u64, at: u64)
    requires
        mm_range::is_whole(v),
        v.backing is File,
        v.shared,
        at % 4096 == 0,
        v.start <= at < v.end,
        at < end,
        addr < at + 4096,
    ensures
        mm_range::detaches_of(v, addr, end).contains(
            Detach::FilePage {
                at,
                inode: v.backing->inode,
                offset: (v.backing->offset + (at - v.start)) as u64,
            },
        ),
{
    let lo = mm::page_floor(mm_range::larger(v.start, addr) as int);
    let hi = mm_range::smaller(v.end, end) as int;
    assert(v.start % 4096 == 0);
    let k = (at - lo) / 4096;
    assert(lo % 4096 == 0);
    assert(lo <= at);
    assert(at == lo + k * 4096);
    law_pages_follow_each_other(lo, hi, k);
    let out = mm_range::detaches_of(v, addr, end);
    assert(out[k] == (Detach::FilePage {
        at,
        inode: v.backing->inode,
        offset: (v.backing->offset + (at - v.start)) as u64,
    }));
}

/// An address lies in a part of a list of parts.
pub open spec fn lies_in_a_part(parts: Seq<(u64, u64)>, at: u64) -> bool {
    exists|j: int| 0 <= j < parts.len() && (#[trigger] parts[j]).0 <= at < parts[j].1
}

/// A range that nobody else sees holds the address.
pub open spec fn is_held_alone(vmas: Seq<Vma>, n: int, at: u64) -> bool {
    exists|i: int|
        0 <= i < n && (#[trigger] vmas[i]).holds(at) && (vmas[i].anon || (vmas[i].backing is File
            && !vmas[i].shared))
}

proof fn lemma_dropped(vmas: Seq<Vma>, addr: u64, end: u64, n: int, at: u64)
    requires
        0 <= n <= vmas.len(),
    ensures
        lies_in_a_part(mm_range::dropped_parts(vmas, addr, end, n), at) == (addr <= at < end
            && is_held_alone(vmas, n, at)),
    decreases n,
{
    let out = mm_range::dropped_parts(vmas, addr, end, n);
    if n > 0 {
        lemma_dropped(vmas, addr, end, n - 1, at);
        let before = mm_range::dropped_parts(vmas, addr, end, n - 1);
        let v = vmas[n - 1];
        let own = mm_range::dropped_of(v, addr, end);
        assert(out == before + own);
        if lies_in_a_part(out, at) {
            let j = choose|j: int| 0 <= j < out.len() && (#[trigger] out[j]).0 <= at < out[j].1;
            if j < before.len() {
                assert(before[j].0 <= at < before[j].1);
                assert(lies_in_a_part(before, at));
                let i = choose|i: int|
                    0 <= i < n - 1 && (#[trigger] vmas[i]).holds(at) && (vmas[i].anon || (
                    vmas[i].backing is File && !vmas[i].shared));
                assert(vmas[i].holds(at));
            } else {
                assert(out[j] == own[j - before.len()]);
                assert(vmas[n - 1].holds(at));
            }
        }
        if addr <= at < end && is_held_alone(vmas, n, at) {
            if is_held_alone(vmas, n - 1, at) {
                let j = choose|j: int|
                    0 <= j < before.len() && (#[trigger] before[j]).0 <= at < before[j].1;
                assert(out[j] == before[j]);
            } else {
                let i = choose|i: int|
                    0 <= i < n && (#[trigger] vmas[i]).holds(at) && (vmas[i].anon || (
                    vmas[i].backing is File && !vmas[i].shared));
                assert(i == n - 1);
                assert(out[before.len() as int] == own[0]);
            }
        }
    }
}

/// Advice of the numbers `4` and `8` drops exactly what lies in the range and belongs to the
/// process alone. Other advice up to `4`, and from `8` to `23`, is taken and drops nothing; any
/// other number is refused.
pub proof fn law_advice_drops_what_is_the_callers(
    m: MmapState,
    addr: u64,
    len: u64,
    advice: u64,
    at: u64,
)
    requires
        addr + len + 4095 <= u64::MAX,
    ensures
        ({
            let r = mm_range::advice_result(m, false, addr, len, advice);
            let drops = (advice == 4 || advice == 8) && addr % 4096 == 0 && len > 0;
            &&& advice > 4 && advice < 8 || advice > 23 ==> r.0 == -22
            &&& (advice == 4 || advice == 8) && addr % 4096 != 0 ==> r.0 == -22
            &&& advice < 4 || 8 < advice <= 23 || drops ==> r.0 == 0
            &&& !drops ==> r.1.len() == 0
            &&& drops ==> lies_in_a_part(r.1, at) == (addr <= at < addr + (len + 4095) / 4096
                * 4096 && is_held_alone(m.vmas@, m.vmas@.len() as int, at))
        }),
{
    let end = (addr + (len + 4095) / 4096 * 4096) as u64;
    lemma_dropped(m.vmas@, addr, end, m.vmas@.len() as int, at);
}

/// Memory is locked where each of its pages begins in a mapped range.
pub proof fn law_locked_memory_is_mapped(m: MmapState, addr: u64, len: u64, p: u64)
    requires
        addr + len <= u64::MAX,
        len > 0,
    ensures
        mm_range::lock_result(m, addr, len) == 0 || mm_range::lock_result(m, addr, len) == -12,
        mm_range::lock_result(m, addr, len) == 0 && p % 4096 == 0 && addr < p + 4096 && p < addr
            + len ==> m.is_mapped(p),
        (forall|q: u64|
            q % 4096 == 0 && addr < q + 4096 && q < addr + len ==> #[trigger] m.is_mapped(q))
            ==> mm_range::lock_result(m, addr, len) == 0,
{
    let lo = mm::page_floor(addr as int);
    let hi = addr + len;
    assert(lo % 4096 == 0);
    if mm_range::lock_result(m, addr, len) == 0 && p % 4096 == 0 && addr < p + 4096 && p < hi {
        let k = (p - lo) / 4096;
        assert(p == lo + k * 4096);
        lemma_all_mapped(m, lo, hi, k);
    }
    if forall|q: u64|
        q % 4096 == 0 && addr < q + 4096 && q < addr + len ==> #[trigger] m.is_mapped(q) {
        lemma_mapped_all(m, addr, lo, hi);
    }
}

proof fn lemma_all_mapped(m: MmapState, lo: int, hi: int, k: int)
    requires
        mm_range::all_mapped(m, lo, hi),
        0 <= k,
        lo + k * 4096 < hi,
    ensures
        m.is_mapped((lo + k * 4096) as u64),
    decreases k,
{
    if k > 0 {
        lemma_all_mapped(m, lo + 4096, hi, k - 1);
    }
}

proof fn lemma_mapped_all(m: MmapState, addr: u64, lo: int, hi: int)
    requires
        0 <= lo,
        lo % 4096 == 0,
        addr < lo + 4096,
        hi <= u64::MAX,
        forall|q: u64|
            q % 4096 == 0 && addr < q + 4096 && q < hi ==> #[trigger] m.is_mapped(q),
    ensures
        mm_range::all_mapped(m, lo, hi),
    decreases hi - lo + 4096,
{
    if lo < hi {
        lemma_mapped_all(m, addr, lo + 4096, hi);
        assert(m.is_mapped(lo as u64));
    }
}

/// A range that is given another size keeps its address where it shrinks or has room; where it
/// is moved, it is moved to the free place, with all that it is. A range of a file keeps its
/// size.
pub proof fn law_resized_range_keeps_what_it_is(
    m: MmapState,
    old_addr: u64,
    old_size: u64,
    new_size: u64,
    flags: u64,
    found: Vma,
    gap: Option<u64>,
)
    requires
        old_addr + old_size + 4095 <= u64::MAX,
        old_addr + new_size + 4095 <= u64::MAX,
        gap is Some ==> gap->0 + new_size + 4095 <= u64::MAX,
    ensures
        ({
            let step = mm_range::remap_request(
                m,
                false,
                old_addr,
                old_size,
                new_size,
                flags,
                Some(found),
                gap,
            );
            let old_len = (old_size + 4095) / 4096 * 4096;
            let new_len = (new_size + 4095) / 4096 * 4096;
            let whole = old_addr % 4096 == 0 && new_size > 0 && (flags / 2) % 2 == 0 && found.start
                == old_addr && found.end == old_addr + old_len;
            &&& !whole ==> step == MremapStep::Reply(-22i64)
            &&& whole && new_len == old_len ==> step == MremapStep::Reply(old_addr as i64)
            &&& whole && new_len != old_len && !found.anon ==> step == MremapStep::Reply(-22i64)
            &&& whole && new_len < old_len && found.anon ==> (step matches MremapStep::Shrink {
                tail,
            } && tail.lo == old_addr + new_len && tail.hi == found.end && tail.pages * 4096
                == tail.hi - tail.lo)
            &&& whole && new_len > old_len && found.anon && old_addr + new_len <= m.arena_hi
                && !m.meets_some(found.end, (old_addr + new_len) as u64) ==> step == (
            MremapStep::Extend { end: (old_addr + new_len) as u64 })
            &&& step matches MremapStep::Relocate { to, old } ==> {
                &&& flags % 2 == 1
                &&& Some(to.start) == gap
                &&& to.end == to.start + new_len
                &&& to.prot == found.prot && to.anon == found.anon && to.shared == found.shared
                    && to.backing == found.backing
                &&& old.lo == old_addr && old.hi == found.end && old.pages * 4096 == old.hi
                    - old.lo
                &&& mm_range::remap_answer(step, old_addr, true) == to.start as i64
                &&& mm_range::remap_answer(step, old_addr, false) == -14
            }
            &&& step matches MremapStep::Extend { end } ==> end == old_addr + new_len
                && mm_range::remap_answer(step, old_addr, true) == old_addr as i64
            &&& step is Shrink ==> mm_range::remap_answer(step, old_addr, true) == old_addr as i64
            &&& whole && new_len > old_len && found.anon && step is Reply ==> step
                == MremapStep::Reply(-12i64) && (flags % 2 == 0 || gap is None)
        }),
{
    bits::lemma_low_bits(flags);
}

/// The range that begins at an address ends where it was told to, and keeps all else; the other
/// ranges are as they were.
pub proof fn law_one_range_is_extended(vmas: Seq<Vma>, start: u64, end: u64)
    ensures
        mm_range::extended(vmas, start, end).len() == vmas.len(),
        forall|i: int|
            0 <= i < vmas.len() ==> #[trigger] mm_range::extended(vmas, start, end)[i] == (
            if vmas[i].start == start && forall|j: int|
                0 <= j < i ==> (#[trigger] vmas[j]).start != start {
                Vma { end, ..vmas[i] }
            } else {
                vmas[i]
            }),
    decreases vmas.len(),
{
    if vmas.len() > 0 && vmas[0].start != start {
        let rest = vmas.skip(1);
        law_one_range_is_extended(rest, start, end);
        let out = mm_range::extended(vmas, start, end);
        let tail = mm_range::extended(rest, start, end);
        assert(out == seq![vmas[0]] + tail);
        assert forall|i: int| 0 <= i < vmas.len() implies #[trigger] out[i] == (if vmas[i].start
            == start && forall|j: int| 0 <= j < i ==> (#[trigger] vmas[j]).start != start {
            Vma { end, ..vmas[i] }
        } else {
            vmas[i]
        }) by {
            if i > 0 {
                assert(out[i] == tail[i - 1]);
                assert(rest[i - 1] == vmas[i]);
                if forall|j: int| 0 <= j < i ==> (#[trigger] vmas[j]).start != start {
                    assert forall|j: int| 0 <= j < i - 1 implies (#[trigger] rest[j]).start
                        != start by {
                        assert(rest[j] == vmas[j + 1]);
                    }
                } else {
                    let j = choose|j: int| 0 <= j < i && !((#[trigger] vmas[j]).start != start);
                    assert(rest[j - 1] == vmas[j]);
                }
            }
        }
    }
}

/// Pages that are there are counted.
pub proof fn law_present_pages_are_counted(present: Seq<bool>)
    ensures
        mm::trues(Seq::empty()) == 0,
        mm::trues(present.push(true)) == mm::trues(present) + 1,
        mm::trues(present.push(false)) == mm::trues(present),
        mm::trues(present) <= present.len(),
        mm::trues(present) == present.len() <==> forall|i: int|
            0 <= i < present.len() ==> #[trigger] present[i],
    decreases present.len(),
{
    assert(present.push(true).drop_last() =~= present);
    assert(present.push(false).drop_last() =~= present);
    if present.len() > 0 {
        let front = present.drop_last();
        law_present_pages_are_counted(front);
        assert(forall|i: int| 0 <= i < front.len() ==> front[i] == present[i]);
        assert(present[present.len() - 1] == present.last());
        if mm::trues(present) == present.len() {
            assert forall|i: int| 0 <= i < present.len() implies #[trigger] present[i] by {
                if i < front.len() {
                    assert(front[i]);
                }
            }
        }
        if forall|i: int| 0 <= i < present.len() ==> #[trigger] present[i] {
            assert forall|i: int| 0 <= i < front.len() implies #[trigger] front[i] by {
                assert(present[i]);
            }
        }
    }
}

/// Each page that is there is told by a one, in its place.
pub proof fn law_each_page_is_told(present: Seq<bool>, i: int)
    requires
        0 <= i < present.len(),
    ensures
        mm_range::flag_bytes(present).len() == present.len(),
        mm_range::flag_bytes(present)[i] == 1 <==> present[i],
        mm_range::flag_bytes(present)[i] == 0 <==> !present[i],
{
}

/// A range of pages holds the bytes that were asked for, and less than a page more.
pub proof fn law_range_holds_what_was_asked(addr: u64, length: u64)
    requires
        addr + length <= u64::MAX - 4096,
        addr % 4096 == 0,
    ensures
        mm_range::range_end(addr, length) % 4096 == 0,
        addr + length <= mm_range::range_end(addr, length) < addr + length + 4096,
{
}

/// What is let go is what each range lets go.
pub proof fn law_every_range_lets_go(dropped: Seq<Vma>, addr: u64, end: u64, n: int, d: Detach)
    requires
        0 <= n <= dropped.len(),
    ensures
        mm_range::detaches(dropped, addr, end, n).contains(d) <==> exists|i: int|
            0 <= i < n && mm_range::detaches_of(#[trigger] dropped[i], addr, end).contains(d),
    decreases n,
{
    if n > 0 {
        law_every_range_lets_go(dropped, addr, end, n - 1, d);
        let a = mm_range::detaches(dropped, addr, end, n - 1);
        let b = mm_range::detaches_of(dropped[n - 1], addr, end);
        let all = a + b;
        if a.contains(d) {
            let k = choose|k: int| 0 <= k < a.len() && a[k] == d;
            assert(all[k] == d);
        }
        if b.contains(d) {
            let k = choose|k: int| 0 <= k < b.len() && b[k] == d;
            assert(all[a.len() + k] == d);
        }
        if all.contains(d) {
            let k = choose|k: int| 0 <= k < all.len() && all[k] == d;
            if k < a.len() {
                assert(a[k] == d);
            } else {
                assert(b[k - a.len()] == d);
            }
        }
    }
}

} // verus!
