//! Calls on mapped ranges: unmapping, moving, syncing, locking, advice.
use super::mm;
use super::mm::{Backing, MmapState, Vma, PAGE};
use super::reply;
use super::reply::Reply;
use crate::errno;
use vstd::prelude::*;

verus! {

/// The larger of two.
pub open spec fn larger(a: u64, b: u64) -> u64 {
    if a >= b {
        a
    } else {
        b
    }
}

pub open spec fn smaller(a: u64, b: u64) -> u64 {
    if a <= b {
        a
    } else {
        b
    }
}

fn max(a: u64, b: u64) -> (r: u64)
    ensures
        r == larger(a, b),
{
    if a >= b {
        a
    } else {
        b
    }
}

fn min(a: u64, b: u64) -> (r: u64)
    ensures
        r == smaller(a, b),
{
    if a <= b {
        a
    } else {
        b
    }
}

/// What is undone when a range goes whose pages belong to others.
#[derive(Clone, Copy, PartialEq, Eq, Structural, Debug)]
pub enum Detach {
    /// The page, where it is there, is unmapped and the file's page is let go.
    FilePage { at: u64, inode: u64, offset: u64 },
    /// The page is unmapped; its memory stays.
    ShmPage { at: u64 },
    /// The shared memory has one user fewer.
    Release { segment: u64 },
}

/// The pages of a range from `addr` to `end`.
pub open spec fn pages_within(v: Vma, addr: u64, end: u64) -> Seq<u64> {
    mm::page_list(mm::page_floor(larger(v.start, addr) as int), smaller(v.end, end) as int)
}

pub open spec fn file_detaches(v: Vma, pages: Seq<u64>) -> Seq<Detach> {
    Seq::new(
        pages.len(),
        |i: int|
            Detach::FilePage {
                at: pages[i],
                inode: v.backing->inode,
                offset: (v.backing->offset + (pages[i] - v.start)) as u64,
            },
    )
}

pub open spec fn shm_detaches(v: Vma) -> Seq<Detach> {
    Seq::new(
        ((v.end - v.start) / PAGE as int) as nat,
        |i: int| Detach::ShmPage { at: (v.start + i * PAGE) as u64 },
    )
}

/// What is undone for one range.
pub open spec fn detaches_of(v: Vma, addr: u64, end: u64) -> Seq<Detach> {
    match v.backing {
        Backing::File { .. } => if v.shared {
            file_detaches(v, pages_within(v, addr, end))
        } else {
            Seq::empty()
        },
        Backing::Shm { segment } => shm_detaches(v).push(Detach::Release { segment }),
        Backing::Anonymous => Seq::empty(),
    }
}

/// What is undone for the first `n` ranges, one after the other.
pub open spec fn detaches(dropped: Seq<Vma>, addr: u64, end: u64, n: int) -> Seq<Detach>
    decreases n,
{
    if n <= 0 {
        Seq::empty()
    } else {
        detaches(dropped, addr, end, n - 1) + detaches_of(dropped[n - 1], addr, end)
    }
}

/// A range begins at a page.
pub open spec fn is_whole(v: Vma) -> bool {
    v.wf() && v.start % PAGE == 0
}

pub proof fn lemma_page_list(lo: int, hi: int)
    requires
        0 <= lo,
        hi <= u64::MAX,
    ensures
        forall|i: int|
            0 <= i < mm::page_list(lo, hi).len() ==> lo <= #[trigger] mm::page_list(lo, hi)[i]
                < hi,
    decreases hi - lo + PAGE,
{
    if lo < hi {
        lemma_page_list(lo + PAGE, hi);
        let rest = mm::page_list(lo + PAGE, hi);
        let all = mm::page_list(lo, hi);
        assert forall|i: int| 0 <= i < all.len() implies lo <= #[trigger] all[i] < hi by {
            if i > 0 {
                assert(all[i] == rest[i - 1]);
            }
        }
    }
}

fn detach_file(v: &Vma, inode: u64, offset: u64, addr: u64, end: u64, out: &mut Vec<Detach>)
    requires
        is_whole(*v),
        v.backing == (Backing::File { inode, offset }),
    ensures
        final(out)@ == old(out)@ + file_detaches(*v, pages_within(*v, addr, end)),
{
    let ghost before = out@;
    let lo: u64 = max(v.start, addr) / PAGE * PAGE;
    let hi: u64 = min(v.end, end);
    assert(lo >= v.start);
    let pages = mm::pages_between(lo, hi);
    let ghost want = file_detaches(*v, pages@);
    proof {
        lemma_page_list(lo as int, hi as int);
    }
    let mut i: usize = 0;
    assert(out@ =~= before + want.take(0));
    while i < pages.len()
        invariant
            i <= pages@.len(),
            is_whole(*v),
            v.backing == (Backing::File { inode, offset }),
            want == file_detaches(*v, pages@),
            forall|k: int| 0 <= k < pages@.len() ==> v.start <= #[trigger] pages@[k] < v.end,
            out@ == before + want.take(i as int),
        decreases pages.len() - i,
    {
        let at: u64 = pages[i];
        out.push(Detach::FilePage { at, inode, offset: offset + (at - v.start) });
        assert(out@.last() == want[i as int]);
        assert(out@ =~= before + want.take(i + 1));
        i += 1;
    }
    assert(want.take(i as int) =~= want);
}

fn detach_shm(v: &Vma, segment: u64, out: &mut Vec<Detach>)
    requires
        v.wf(),
        v.backing == (Backing::Shm { segment }),
    ensures
        final(out)@ == old(out)@ + shm_detaches(*v).push(Detach::Release { segment }),
{
    let ghost before = out@;
    let ghost want = shm_detaches(*v);
    let n: u64 = (v.end - v.start) / PAGE;
    let mut i: u64 = 0;
    assert(out@ =~= before + want.take(0));
    while i < n
        invariant
            i <= n,
            v.wf(),
            n == (v.end - v.start) / PAGE as int,
            want == shm_detaches(*v),
            out@ == before + want.take(i as int),
        decreases n - i,
    {
        assert(i * PAGE <= v.end - v.start);
        out.push(Detach::ShmPage { at: v.start + i * PAGE });
        assert(out@ =~= before + want.take(i + 1));
        i += 1;
    }
    assert(want.take(i as int) =~= want);
    out.push(Detach::Release { segment });
    assert(out@ =~= before + want.push(Detach::Release { segment }));
}

/// What is undone for ranges that were dropped when `addr` to `end` was unmapped.
pub fn detach_shared_dropped(dropped: &Vec<Vma>, addr: u64, end: u64) -> (out: Vec<Detach>)
    requires
        forall|i: int| 0 <= i < dropped@.len() ==> is_whole(#[trigger] dropped@[i]),
    ensures
        out@ == detaches(dropped@, addr, end, dropped@.len() as int),
{
    let mut out: Vec<Detach> = Vec::new();
    let mut i: usize = 0;
    while i < dropped.len()
        invariant
            i <= dropped@.len(),
            forall|k: int| 0 <= k < dropped@.len() ==> is_whole(#[trigger] dropped@[k]),
            out@ == detaches(dropped@, addr, end, i as int),
        decreases dropped.len() - i,
    {
        let v = &dropped[i];
        assert(is_whole(dropped@[i as int]));
        match v.backing {
            Backing::File { inode, offset } => {
                if v.shared {
                    detach_file(v, inode, offset, addr, end, &mut out);
                }
            },
            Backing::Shm { segment } => {
                detach_shm(v, segment, &mut out);
            },
            Backing::Anonymous => {},
        }
        assert(out@ =~= detaches(dropped@, addr, end, i + 1));
        i += 1;
    }
    out
}

/// Whether shared memory that was marked to go goes now: `users` is how many it had before
/// one left.
pub fn shm_goes(users: u64, marked: bool) -> (r: bool)
    ensures
        r == (users == 1 && marked),
{
    users == 1 && marked
}

/// A part of a file that is written back.
#[derive(Clone, Copy, PartialEq, Eq, Structural, Debug)]
pub struct Writeback {
    pub inode: u64,
    pub lo: u64,
    pub hi: u64,
}

/// What is written back of a range from `addr` to `end`: the part that lies there, if the
/// range shows a file that is shared.
pub open spec fn writeback_of(v: Vma, addr: u64, end: u64) -> Seq<Writeback> {
    let lo = larger(v.start, addr);
    let hi = smaller(v.end, end);
    if v.shared && v.backing is File && lo < hi {
        seq![
            Writeback {
                inode: v.backing->inode,
                lo: (v.backing->offset + (lo - v.start)) as u64,
                hi: (v.backing->offset + (hi - v.start)) as u64,
            },
        ]
    } else {
        Seq::empty()
    }
}

pub open spec fn writebacks(vmas: Seq<Vma>, addr: u64, end: u64, n: int) -> Seq<Writeback>
    decreases n,
{
    if n <= 0 {
        Seq::empty()
    } else {
        writebacks(vmas, addr, end, n - 1) + writeback_of(vmas[n - 1], addr, end)
    }
}

/// What is written back of ranges from `addr` to `end`.
pub fn writeback_ranges(vmas: &Vec<Vma>, addr: u64, end: u64) -> (out: Vec<Writeback>)
    requires
        forall|i: int| 0 <= i < vmas@.len() ==> (#[trigger] vmas@[i]).wf(),
    ensures
        out@ == writebacks(vmas@, addr, end, vmas@.len() as int),
{
    let mut out: Vec<Writeback> = Vec::new();
    let mut i: usize = 0;
    while i < vmas.len()
        invariant
            i <= vmas@.len(),
            forall|k: int| 0 <= k < vmas@.len() ==> (#[trigger] vmas@[k]).wf(),
            out@ == writebacks(vmas@, addr, end, i as int),
        decreases vmas.len() - i,
    {
        let v = &vmas[i];
        assert(vmas@[i as int].wf());
        if v.shared {
            if let Backing::File { inode, offset } = v.backing {
                let lo: u64 = max(v.start, addr);
                let hi: u64 = min(v.end, end);
                if lo < hi {
                    out.push(
                        Writeback {
                            inode,
                            lo: offset + (lo - v.start),
                            hi: offset + (hi - v.start),
                        },
                    );
                }
            }
        }
        assert(out@ =~= writebacks(vmas@, addr, end, i + 1));
        i += 1;
    }
    out
}

/// A range of whole pages.
#[derive(Clone, Copy, PartialEq, Eq, Structural, Debug)]
pub struct PageRange {
    pub lo: u64,
    pub hi: u64,
    pub pages: u64,
}

/// `munmap`: the range, or what is wrong.
pub fn sys_munmap(borrower: bool, addr: u64, length: u64) -> (r: Result<PageRange, i64>)
    requires
        !borrower && length != 0 && addr % PAGE == 0 ==> addr + mm::page_ceil(length as int)
            <= u64::MAX,
    ensures
        r == (if borrower {
            Err(errno::ENOMEM)
        } else if length == 0 || addr % PAGE != 0 {
            Err(errno::EINVAL)
        } else {
            Ok::<PageRange, i64>(
                PageRange {
                    lo: addr,
                    hi: (addr + mm::page_ceil(length as int)) as u64,
                    pages: mm::pages_for(length as int) as u64,
                },
            )
        }),
{
    if borrower {
        return Err(errno::ENOMEM);
    }
    if length == 0 || addr % PAGE != 0 {
        return Err(errno::EINVAL);
    }
    let aligned: u64 = mm::align_up_page(length);
    Ok(PageRange { lo: addr, hi: addr + aligned, pages: aligned / PAGE })
}

pub const MREMAP_MAYMOVE: u64 = 1;

pub const MREMAP_FIXED: u64 = 2;

/// What `mremap` does.
#[derive(Clone, Copy, PartialEq, Eq, Structural, Debug)]
pub enum MremapStep {
    Reply(i64),
    /// The tail is unmapped.
    Shrink { tail: PageRange },
    /// The range that begins at the old address ends here from now on.
    Extend { end: u64 },
    /// The new range is entered, what the old one holds is copied, and the old one goes.
    Relocate { to: Vma, old: PageRange },
}

/// `mremap` of the range `found` at the old address. `gap` is the free place proposed for the
/// new range.
pub open spec fn remap_request(
    m: MmapState,
    borrower: bool,
    old_addr: u64,
    old_size: u64,
    new_size: u64,
    flags: u64,
    found: Option<Vma>,
    gap: Option<u64>,
) -> MremapStep {
    let old_len = mm::page_ceil(old_size as int) as u64;
    let new_len = mm::page_ceil(new_size as int) as u64;
    let old_end = (old_addr + old_len) as u64;
    let new_end = (old_addr + new_len) as u64;
    if borrower {
        MremapStep::Reply(errno::ENOMEM)
    } else if old_addr % PAGE != 0 || new_size == 0 || flags & MREMAP_FIXED != 0 {
        MremapStep::Reply(errno::EINVAL)
    } else if found is None {
        MremapStep::Reply(errno::EFAULT)
    } else if found->0.start != old_addr || found->0.end - found->0.start != old_len {
        MremapStep::Reply(errno::EINVAL)
    } else if !found->0.anon && new_len != old_len {
        MremapStep::Reply(errno::EINVAL)
    } else if new_len == old_len {
        MremapStep::Reply(old_addr as i64)
    } else if new_len < old_len {
        MremapStep::Shrink {
            tail: PageRange {
                lo: new_end,
                hi: old_end,
                pages: ((old_len - new_len) / PAGE as int) as u64,
            },
        }
    } else if new_end <= m.arena_hi && !m.meets_some(old_end, new_end) {
        MremapStep::Extend { end: new_end }
    } else if flags & MREMAP_MAYMOVE == 0 || gap is None {
        MremapStep::Reply(errno::ENOMEM)
    } else {
        MremapStep::Relocate {
            to: Vma { start: gap->0, end: (gap->0 + new_len) as u64, ..found->0 },
            old: PageRange {
                lo: old_addr,
                hi: old_end,
                pages: mm::pages_for(old_size as int) as u64,
            },
        }
    }
}

/// Whether a request is one for a range of whole pages, from a process with an address space of
/// its own.
pub open spec fn is_remappable(borrower: bool, old_addr: u64, new_size: u64, flags: u64) -> bool {
    !borrower && old_addr % PAGE == 0 && new_size != 0 && flags & MREMAP_FIXED == 0
}

/// Whether `found` is the range in a request, and is to have more pages.
pub open spec fn grows(found: Vma, old_addr: u64, old_size: u64, new_size: u64) -> bool {
    &&& found.start == old_addr
    &&& found.end - found.start == mm::page_ceil(old_size as int)
    &&& found.anon
    &&& mm::page_ceil(new_size as int) > mm::page_ceil(old_size as int)
}

/// `mremap`
pub fn sys_mremap(
    m: &MmapState,
    borrower: bool,
    old_addr: u64,
    old_size: u64,
    new_size: u64,
    flags: u64,
    found: Option<Vma>,
    gap: Option<u64>,
) -> (r: MremapStep)
    requires
        found is Some ==> found->0.wf(),
        is_remappable(borrower, old_addr, new_size, flags) ==> {
            &&& mm::page_ceil(old_size as int) <= u64::MAX
            &&& mm::page_ceil(new_size as int) <= u64::MAX
            &&& found is Some && grows(found->0, old_addr, old_size, new_size) ==> {
                &&& old_addr + mm::page_ceil(new_size as int) <= u64::MAX
                &&& gap is Some ==> gap->0 + mm::page_ceil(new_size as int) <= u64::MAX
            }
        },
    ensures
        r == remap_request(*m, borrower, old_addr, old_size, new_size, flags, found, gap),
{
    if borrower {
        return MremapStep::Reply(errno::ENOMEM);
    }
    if old_addr % PAGE != 0 || new_size == 0 {
        return MremapStep::Reply(errno::EINVAL);
    }
    if flags & MREMAP_FIXED != 0 {
        return MremapStep::Reply(errno::EINVAL);
    }
    let old_len: u64 = mm::align_up_page(old_size);
    let new_len: u64 = mm::align_up_page(new_size);
    let v = match found {
        Some(v) => v,
        None => {
            return MremapStep::Reply(errno::EFAULT);
        },
    };
    if v.start != old_addr || v.end - v.start != old_len {
        return MremapStep::Reply(errno::EINVAL);
    }
    if !v.anon && new_len != old_len {
        return MremapStep::Reply(errno::EINVAL);
    }
    if new_len == old_len {
        return MremapStep::Reply(old_addr as i64);
    }
    let old_end: u64 = v.end;
    let new_end: u64 = old_addr + new_len;
    if new_len < old_len {
        return MremapStep::Shrink {
            tail: PageRange { lo: new_end, hi: old_end, pages: (old_len - new_len) / PAGE },
        };
    }
    if new_end <= m.arena_hi && !m.overlaps(old_end, new_end) {
        return MremapStep::Extend { end: new_end };
    }
    if flags & MREMAP_MAYMOVE == 0 {
        return MremapStep::Reply(errno::ENOMEM);
    }
    match gap {
        None => MremapStep::Reply(errno::ENOMEM),
        Some(dest) => MremapStep::Relocate {
            to: Vma { start: dest, end: dest + new_len, ..v },
            old: PageRange { lo: old_addr, hi: old_end, pages: old_len / PAGE },
        },
    }
}

/// What `mremap` answers in the end: the address of the range, which is a new one where the
/// range was moved; and `EFAULT` where its bytes could not be copied there.
pub open spec fn remap_answer(step: MremapStep, old_addr: u64, copied: bool) -> i64 {
    match step {
        MremapStep::Reply(code) => code,
        MremapStep::Shrink { .. } => old_addr as i64,
        MremapStep::Extend { .. } => old_addr as i64,
        MremapStep::Relocate { to, .. } => if copied {
            to.start as i64
        } else {
            errno::EFAULT
        },
    }
}

/// `mremap`, once the step is taken. `copied` says whether the bytes of a range that moves
/// could be copied.
pub fn mremap_answer(step: &MremapStep, old_addr: u64, copied: bool) -> (code: i64)
    ensures
        code == remap_answer(*step, old_addr, copied),
{
    match step {
        MremapStep::Reply(code) => *code,
        MremapStep::Shrink { .. } => old_addr as i64,
        MremapStep::Extend { .. } => old_addr as i64,
        MremapStep::Relocate { to, .. } => if copied {
            to.start as i64
        } else {
            errno::EFAULT
        },
    }
}

/// The ranges once the one that begins at `start` ends at `end`: the first such one.
pub open spec fn extended(vmas: Seq<Vma>, start: u64, end: u64) -> Seq<Vma>
    decreases vmas.len(),
{
    if vmas.len() == 0 {
        vmas
    } else if vmas[0].start == start {
        vmas.update(0, Vma { end, ..vmas[0] })
    } else {
        seq![vmas[0]] + extended(vmas.skip(1), start, end)
    }
}

/// Moves the end of the range that begins at `start`, and the highest end that any range had.
pub fn extend_in_place(vmas: &mut Vec<Vma>, last_end: &mut u64, start: u64, end: u64)
    ensures
        final(vmas)@ == extended(old(vmas)@, start, end),
        *final(last_end) == (if exists|i: int|
            0 <= i < old(vmas)@.len() && (#[trigger] old(vmas)@[i]).start == start {
            larger(*old(last_end), end)
        } else {
            *old(last_end)
        }),
{
    let ghost all = vmas@;
    let mut i: usize = 0;
    assert(all.skip(0) =~= all);
    assert(extended(all, start, end) =~= all.take(0) + extended(all.skip(0), start, end));
    while i < vmas.len()
        invariant
            i <= vmas@.len(),
            vmas@ == all,
            all == old(vmas)@,
            *last_end == *old(last_end),
            forall|k: int| 0 <= k < i ==> (#[trigger] all[k]).start != start,
            extended(all, start, end) == all.take(i as int) + extended(
                all.skip(i as int),
                start,
                end,
            ),
        decreases vmas.len() - i,
    {
        assert(all.skip(i as int)[0] == all[i as int]);
        if vmas[i].start == start {
            let v = vmas[i];
            vmas.set(i, Vma { end, ..v });
            if end > *last_end {
                *last_end = end;
            }
            assert(all[i as int].start == start);
            assert(vmas@ =~= all.take(i as int) + extended(all.skip(i as int), start, end));
            return;
        }
        assert(all.skip(i as int).skip(1) =~= all.skip(i + 1));
        assert(all.take(i as int) + (seq![all[i as int]] + extended(all.skip(i + 1), start, end))
            =~= all.take(i + 1) + extended(all.skip(i + 1), start, end));
        i += 1;
    }
    assert(all.skip(i as int) =~= Seq::<Vma>::empty());
    assert(all.take(i as int) + Seq::<Vma>::empty() =~= all);
}

/// `msync`: what is written back, or what is wrong.
pub fn sys_msync(m: &MmapState, addr: u64, length: u64) -> (r: Result<Vec<Writeback>, i64>)
    requires
        m.wf(),
        length != 0 && addr % PAGE == 0 ==> mm::page_ceil(length as int) <= u64::MAX,
    ensures
        match r {
            Err(e) => e == errno::EINVAL && (length == 0 || addr % PAGE != 0),
            Ok(out) => length != 0 && addr % PAGE == 0 && out@ == writebacks(
                m.vmas@,
                addr,
                range_end(addr, length),
                m.vmas@.len() as int,
            ),
        },
{
    if length == 0 || addr % PAGE != 0 {
        return Err(errno::EINVAL);
    }
    let end: u64 = addr.saturating_add(mm::align_up_page(length));
    Ok(writeback_ranges(&m.vmas, addr, end))
}

/// The end of a range of whole pages, or the last address.
pub open spec fn range_end(addr: u64, length: u64) -> u64 {
    if addr + mm::page_ceil(length as int) > u64::MAX {
        u64::MAX
    } else {
        (addr + mm::page_ceil(length as int)) as u64
    }
}

pub const MADV_DONTNEED: u64 = 4;

pub const MADV_FREE: u64 = 8;

pub const MADV_POPULATE_WRITE: u64 = 23;

/// The pieces of advice that are known.
pub open spec fn is_advice(advice: u64) -> bool {
    advice <= MADV_DONTNEED || MADV_FREE <= advice <= MADV_POPULATE_WRITE
}

/// Whether the pages of a range may be dropped: they are nobody else's.
pub open spec fn is_droppable(v: Vma) -> bool {
    v.anon || (v.backing is File && !v.shared)
}

/// The part of a range between two addresses, if its pages may be dropped.
pub open spec fn dropped_of(v: Vma, addr: u64, end: u64) -> Seq<(u64, u64)> {
    if v.meets(addr, end) && is_droppable(v) {
        seq![(larger(v.start, addr), smaller(v.end, end))]
    } else {
        Seq::empty()
    }
}

pub open spec fn dropped_parts(vmas: Seq<Vma>, addr: u64, end: u64, n: int) -> Seq<(u64, u64)>
    decreases n,
{
    if n <= 0 {
        Seq::empty()
    } else {
        dropped_parts(vmas, addr, end, n - 1) + dropped_of(vmas[n - 1], addr, end)
    }
}

/// `madvise`: which parts are dropped, with the answer `0`, or another answer.
pub open spec fn advice_result(
    m: MmapState,
    borrower: bool,
    addr: u64,
    len: u64,
    advice: u64,
) -> (i64, Seq<(u64, u64)>) {
    let none = Seq::<(u64, u64)>::empty();
    if !is_advice(advice) {
        (errno::EINVAL, none)
    } else if advice != MADV_DONTNEED && advice != MADV_FREE {
        (0, none)
    } else if borrower {
        (0, none)
    } else if addr % PAGE != 0 {
        (errno::EINVAL, none)
    } else if len == 0 {
        (0, none)
    } else if addr + mm::page_ceil(len as int) > u64::MAX {
        (errno::EINVAL, none)
    } else {
        (
            0,
            dropped_parts(
                m.vmas@,
                addr,
                (addr + mm::page_ceil(len as int)) as u64,
                m.vmas@.len() as int,
            ),
        )
    }
}

/// `madvise`
pub fn sys_madvise(m: &MmapState, borrower: bool, addr: u64, len: u64, advice: u64) -> (r: (
    i64,
    Vec<(u64, u64)>,
))
    ensures
        (r.0, r.1@) == advice_result(*m, borrower, addr, len, advice),
{
    if !(advice <= MADV_DONTNEED || (MADV_FREE <= advice && advice <= MADV_POPULATE_WRITE)) {
        return (errno::EINVAL, Vec::new());
    }
    if advice != MADV_DONTNEED && advice != MADV_FREE {
        return (0, Vec::new());
    }
    if borrower {
        return (0, Vec::new());
    }
    if addr % PAGE != 0 {
        return (errno::EINVAL, Vec::new());
    }
    if len == 0 {
        return (0, Vec::new());
    }
    if len > 0xffff_ffff_ffff_f000 {
        return (errno::EINVAL, Vec::new());
    }
    let end: u64 = match addr.checked_add(mm::align_up_page(len)) {
        Some(e) => e,
        None => {
            return (errno::EINVAL, Vec::new());
        },
    };
    let mut out: Vec<(u64, u64)> = Vec::new();
    let mut i: usize = 0;
    while i < m.vmas.len()
        invariant
            i <= m.vmas@.len(),
            out@ == dropped_parts(m.vmas@, addr, end, i as int),
        decreases m.vmas.len() - i,
    {
        let v = &m.vmas[i];
        let droppable = v.anon || match v.backing {
            Backing::File { .. } => !v.shared,
            _ => false,
        };
        if v.start < end && addr < v.end && droppable {
            out.push((max(v.start, addr), min(v.end, end)));
        }
        assert(out@ =~= dropped_parts(m.vmas@, addr, end, i + 1));
        i += 1;
    }
    (0, out)
}

pub const MEMBARRIER_CMD_QUERY: u64 = 0;

/// The commands that `membarrier` says it knows.
pub const MEMBARRIER_CMD_SUPPORTED: i64 = 0b1110_1011;

/// `membarrier`: the answer, and whether memory is fenced.
pub fn sys_membarrier(cmd: u64) -> (r: (i64, bool))
    ensures
        r == (if cmd == MEMBARRIER_CMD_QUERY {
            (MEMBARRIER_CMD_SUPPORTED, false)
        } else if cmd == 1 || cmd == 2 || cmd == 8 || cmd == 32 {
            (0, true)
        } else if cmd == 3 || cmd == 16 || cmd == 64 {
            (0, false)
        } else {
            (errno::EINVAL, false)
        }),
{
    match cmd {
        MEMBARRIER_CMD_QUERY => (MEMBARRIER_CMD_SUPPORTED, false),
        1 | 2 | 8 | 32 => (0, true),
        3 | 16 | 64 => (0, false),
        _ => (errno::EINVAL, false),
    }
}

/// Whether each page from `lo` on, below `hi`, begins in a range.
pub open spec fn all_mapped(m: MmapState, lo: int, hi: int) -> bool
    decreases hi - lo + PAGE,
{
    lo >= hi || (m.is_mapped(lo as u64) && all_mapped(m, lo + PAGE, hi))
}

fn check_mapped(m: &MmapState, lo: u64, hi: u64) -> (r: bool)
    ensures
        r == all_mapped(*m, lo as int, hi as int),
{
    let mut cur: u64 = lo;
    if cur >= hi {
        return true;
    }
    loop
        invariant
            cur < hi,
            all_mapped(*m, lo as int, hi as int) == all_mapped(*m, cur as int, hi as int),
        decreases hi - cur,
    {
        if m.find_containing(cur).is_none() {
            return false;
        }
        if hi - cur <= PAGE {
            assert(all_mapped(*m, cur + PAGE, hi as int));
            return true;
        }
        cur += PAGE;
    }
}

/// Whether memory can be locked: all of it has to be mapped.
pub open spec fn lock_result(m: MmapState, addr: u64, len: u64) -> i64 {
    if len == 0 {
        0
    } else if addr + len > u64::MAX {
        errno::EINVAL
    } else if !all_mapped(m, mm::page_floor(addr as int), addr + len) {
        errno::ENOMEM
    } else {
        0
    }
}

fn mlock_validate(m: &MmapState, addr: u64, len: u64) -> (code: i64)
    ensures
        code == lock_result(*m, addr, len),
{
    if len == 0 {
        return 0;
    }
    let end: u64 = match addr.checked_add(len) {
        Some(e) => e,
        None => {
            return errno::EINVAL;
        },
    };
    if !check_mapped(m, addr / PAGE * PAGE, end) {
        return errno::ENOMEM;
    }
    0
}

/// `mlock`
pub fn sys_mlock(m: &MmapState, addr: u64, len: u64) -> (code: i64)
    ensures
        code == lock_result(*m, addr, len),
{
    mlock_validate(m, addr, len)
}

/// `munlock`
pub fn sys_munlock(m: &MmapState, addr: u64, len: u64) -> (code: i64)
    ensures
        code == lock_result(*m, addr, len),
{
    mlock_validate(m, addr, len)
}

/// `mlock2`
pub fn sys_mlock2(m: &MmapState, addr: u64, len: u64, flags: u64) -> (code: i64)
    ensures
        code == (if flags & !1u64 != 0 {
            errno::EINVAL
        } else {
            lock_result(*m, addr, len)
        }),
{
    if flags & !1u64 != 0 {
        return errno::EINVAL;
    }
    mlock_validate(m, addr, len)
}

/// `mlockall`
pub fn sys_mlockall(flags: u64) -> (code: i64)
    ensures
        code == (if 1 <= flags <= 7 {
            0
        } else {
            errno::EINVAL
        }),
{
    if flags == 0 || flags > 7 {
        return errno::EINVAL;
    }
    0
}

/// `munlockall`
pub fn sys_munlockall() -> (code: i64)
    ensures
        code == 0,
{
    0
}

/// What `mincore` looks at: how many pages, or an answer at once.
pub fn mincore_pages(m: &MmapState, addr: u64, len: u64) -> (r: Result<u64, i64>)
    ensures
        r == (if addr % PAGE != 0 {
            Err(errno::EINVAL)
        } else if len == 0 {
            Ok(0)
        } else if addr + len > u64::MAX {
            Err(errno::EINVAL)
        } else if !all_mapped(*m, addr as int, addr + len) {
            Err(errno::ENOMEM)
        } else {
            Ok::<u64, i64>(mm::pages_for(len as int) as u64)
        }),
{
    if addr % PAGE != 0 {
        return Err(errno::EINVAL);
    }
    if len == 0 {
        return Ok(0);
    }
    let end: u64 = match addr.checked_add(len) {
        Some(e) => e,
        None => {
            return Err(errno::EINVAL);
        },
    };
    if !check_mapped(m, addr, end) {
        return Err(errno::ENOMEM);
    }
    let pages: u64 = if len % PAGE == 0 {
        len / PAGE
    } else {
        len / PAGE + 1
    };
    Ok(pages)
}

pub open spec fn flag_bytes(present: Seq<bool>) -> Seq<u8> {
    Seq::new(
        present.len(),
        |i: int|
            if present[i] {
                1u8
            } else {
                0u8
            },
    )
}

/// `mincore`, with what is known of each page, where the process has an address space.
pub fn sys_mincore(
    m: &MmapState,
    addr: u64,
    len: u64,
    vec: u64,
    present: Option<Vec<bool>>,
) -> (r: Reply)
    ensures
        r@ == (if addr % PAGE != 0 {
            reply::plain(errno::EINVAL)
        } else if len == 0 {
            reply::plain(0)
        } else if addr + len > u64::MAX {
            reply::plain(errno::EINVAL)
        } else if !all_mapped(*m, addr as int, addr + len) || present is None {
            reply::plain(errno::ENOMEM)
        } else {
            reply::with_bytes(0, vec, flag_bytes(present->0@))
        }),
{
    match mincore_pages(m, addr, len) {
        Err(e) => {
            return Reply::plain(e);
        },
        Ok(n) => {
            if n == 0 {
                assert(len == 0);
                return Reply::plain(0);
            }
        },
    }
    let present = match present {
        Some(p) => p,
        None => {
            return Reply::plain(errno::ENOMEM);
        },
    };
    let mut out: Vec<u8> = Vec::new();
    let mut i: usize = 0;
    while i < present.len()
        invariant
            i <= present@.len(),
            out@.len() == i,
            forall|k: int| 0 <= k < i ==> out@[k] == #[trigger] flag_bytes(present@)[k],
        decreases present.len() - i,
    {
        out.push(
            if present[i] {
                1u8
            } else {
                0u8
            },
        );
        i += 1;
    }
    assert(out@ =~= flag_bytes(present@));
    Reply::with_bytes(0, vec, out)
}

} // verus!
