//! Memory of a process: which ranges are mapped, and what a call on them does.
//!
//! A process has a list of ranges. Where a range goes, and what falls out of the list when a
//! range is unmapped, is found out by the keeper of the list; the functions here decide what
//! is asked of it and what follows.
use super::reply::Reply;
use crate::errno;
use vstd::prelude::*;

verus! {

pub const PAGE: u64 = 4096;

pub const PROT_READ: u64 = 1;

pub const PROT_WRITE: u64 = 2;

pub const PROT_EXEC: u64 = 4;

pub const MAP_SHARED: u64 = 0x01;

pub const MAP_FIXED: u64 = 0x10;

pub const MAP_ANONYMOUS: u64 = 0x20;

pub const MAP_FIXED_NOREPLACE: u64 = 0x10_0000;

/// What may be done with a page.
#[derive(Clone, Copy, PartialEq, Eq, Structural, Debug)]
pub struct Perms {
    pub read: bool,
    pub write: bool,
    pub execute: bool,
}

/// What a range shows: nothing before it is written, a file from an offset on, or memory
/// that processes share.
#[derive(Clone, Copy, PartialEq, Eq, Structural, Debug)]
pub enum Backing {
    Anonymous,
    File { inode: u64, offset: u64 },
    Shm { segment: u64 },
}

/// A mapped range.
#[derive(Clone, Copy, PartialEq, Eq, Structural, Debug)]
pub struct Vma {
    pub start: u64,
    pub end: u64,
    pub prot: Perms,
    pub anon: bool,
    pub shared: bool,
    pub backing: Backing,
}

impl Vma {
    /// A range is not empty, and the part of a file that it shows has offsets.
    pub open spec fn wf(self) -> bool {
        self.start < self.end && (self.backing is File ==> self.backing->offset + (self.end
            - self.start) <= u64::MAX)
    }

    pub open spec fn holds(self, at: u64) -> bool {
        self.start <= at < self.end
    }

    pub open spec fn meets(self, lo: u64, hi: u64) -> bool {
        self.start < hi && lo < self.end
    }
}

/// The ranges of a process, and the part of its memory where new ones go.
pub struct MmapState {
    pub vmas: Vec<Vma>,
    pub arena_lo: u64,
    pub arena_hi: u64,
}

impl MmapState {
    pub open spec fn wf(self) -> bool {
        forall|i: int| 0 <= i < self.vmas@.len() ==> (#[trigger] self.vmas@[i]).wf()
    }

    pub open spec fn meets_some(self, lo: u64, hi: u64) -> bool {
        exists|i: int| 0 <= i < self.vmas@.len() && (#[trigger] self.vmas@[i]).meets(lo, hi)
    }

    pub open spec fn is_mapped(self, at: u64) -> bool {
        exists|i: int| 0 <= i < self.vmas@.len() && (#[trigger] self.vmas@[i]).holds(at)
    }

    /// Whether a range meets one that is there.
    pub fn overlaps(&self, lo: u64, hi: u64) -> (r: bool)
        ensures
            r == self.meets_some(lo, hi),
    {
        let mut i: usize = 0;
        while i < self.vmas.len()
            invariant
                i <= self.vmas@.len(),
                forall|j: int| 0 <= j < i ==> !(#[trigger] self.vmas@[j]).meets(lo, hi),
            decreases self.vmas.len() - i,
        {
            if self.vmas[i].start < hi && lo < self.vmas[i].end {
                assert(self.vmas@[i as int].meets(lo, hi));
                return true;
            }
            i += 1;
        }
        false
    }

    /// The first range that holds an address.
    pub fn find_containing(&self, at: u64) -> (r: Option<Vma>)
        ensures
            r is Some == self.is_mapped(at),
            r is Some ==> exists|i: int|
                0 <= i < self.vmas@.len() && r->0 == #[trigger] self.vmas@[i] && r->0.holds(at)
                    && forall|j: int| 0 <= j < i ==> !(#[trigger] self.vmas@[j]).holds(at),
    {
        let mut i: usize = 0;
        while i < self.vmas.len()
            invariant
                i <= self.vmas@.len(),
                forall|j: int| 0 <= j < i ==> !(#[trigger] self.vmas@[j]).holds(at),
            decreases self.vmas.len() - i,
        {
            if self.vmas[i].start <= at && at < self.vmas[i].end {
                assert(self.vmas@[i as int].holds(at));
                return Some(self.vmas[i]);
            }
            i += 1;
        }
        None
    }
}

/// How many pages hold `length` bytes.
pub open spec fn pages_for(length: int) -> int {
    (length + PAGE - 1) / PAGE as int
}

/// `length` rounded up to whole pages.
pub open spec fn page_ceil(length: int) -> int {
    pages_for(length) * PAGE
}

/// `at` rounded down to a page.
pub open spec fn page_floor(at: int) -> int {
    at / PAGE as int * PAGE
}

fn count_pages(length: u64) -> (n: u64)
    ensures
        n == pages_for(length as int),
        n <= 0x10_0000_0000_0000,
{
    if length % PAGE == 0 {
        length / PAGE
    } else {
        length / PAGE + 1
    }
}

/// An address rounded up to a page.
pub fn align_up_page(addr: u64) -> (r: u64)
    requires
        addr + 0xfff <= u64::MAX,
    ensures
        r == page_ceil(addr as int),
        r % PAGE == 0,
        addr <= r < addr + PAGE,
{
    (addr + 0xfff) / PAGE * PAGE
}

pub open spec fn perms_of(prot: u64) -> Perms {
    Perms {
        read: prot & PROT_READ != 0,
        write: prot & PROT_WRITE != 0,
        execute: prot & PROT_EXEC != 0,
    }
}

/// What a request allows.
pub fn prot_to_perms(prot: u64) -> (p: Perms)
    ensures
        p == perms_of(prot),
{
    Perms {
        read: prot & PROT_READ != 0,
        write: prot & PROT_WRITE != 0,
        execute: prot & PROT_EXEC != 0,
    }
}

/// A range whose pages get new permissions.
#[derive(Clone, Copy, PartialEq, Eq, Structural, Debug)]
pub struct Protect {
    pub lo: u64,
    pub hi: u64,
    pub pages: u64,
    pub perms: Perms,
}

/// `mprotect`: the range, or what is wrong. A process that runs on borrowed memory may not.
pub open spec fn protect_request(borrower: bool, addr: u64, length: u64, prot: u64) -> Result<
    Protect,
    i64,
> {
    if borrower {
        Err(errno::ENOMEM)
    } else if length == 0 || addr % PAGE != 0 {
        Err(errno::EINVAL)
    } else if prot & !(PROT_READ | PROT_WRITE | PROT_EXEC) != 0 {
        Err(errno::EINVAL)
    } else if addr + page_ceil(length as int) > u64::MAX {
        Err(errno::ENOMEM)
    } else {
        Ok(
            Protect {
                lo: addr,
                hi: (addr + page_ceil(length as int)) as u64,
                pages: pages_for(length as int) as u64,
                perms: perms_of(prot),
            },
        )
    }
}

/// `mprotect`, before anything is changed.
pub fn sys_mprotect(borrower: bool, addr: u64, length: u64, prot: u64) -> (r: Result<Protect, i64>)
    requires
        !borrower && length != 0 && addr % PAGE == 0 && prot & !(PROT_READ | PROT_WRITE | PROT_EXEC)
            == 0 ==> page_ceil(length as int) <= u64::MAX,
    ensures
        r == protect_request(borrower, addr, length, prot),
{
    if borrower {
        return Err(errno::ENOMEM);
    }
    if length == 0 || addr % PAGE != 0 {
        return Err(errno::EINVAL);
    }
    if prot & !(PROT_READ | PROT_WRITE | PROT_EXEC) != 0 {
        return Err(errno::EINVAL);
    }
    let pages: u64 = count_pages(length);
    let aligned: u64 = pages * PAGE;
    let hi: u64 = match addr.checked_add(aligned) {
        Some(h) => h,
        None => {
            return Err(errno::ENOMEM);
        },
    };
    Ok(Protect { lo: addr, hi, pages, perms: prot_to_perms(prot) })
}

/// The pages from `lo` on, below `hi`.
pub open spec fn page_list(lo: int, hi: int) -> Seq<u64>
    decreases hi - lo + PAGE,
{
    if lo >= hi {
        Seq::empty()
    } else {
        seq![lo as u64] + page_list(lo + PAGE, hi)
    }
}

/// The addresses of the pages from `lo` on, below `hi`.
pub fn pages_between(lo: u64, hi: u64) -> (pages: Vec<u64>)
    ensures
        pages@ == page_list(lo as int, hi as int),
{
    let mut pages: Vec<u64> = Vec::new();
    let mut p: u64 = lo;
    let mut more = lo < hi;
    while more
        invariant
            more ==> p < hi,
            more ==> page_list(lo as int, hi as int) == pages@ + page_list(p as int, hi as int),
            !more ==> page_list(lo as int, hi as int) == pages@,
        decreases hi - p + (if more { 1int } else { 0 }),
    {
        let ghost before = pages@;
        pages.push(p);
        proof {
            assert(page_list(p as int, hi as int) == seq![p] + page_list(p + PAGE, hi as int));
            assert(before + (seq![p] + page_list(p + PAGE, hi as int)) =~= pages@ + page_list(
                p + PAGE,
                hi as int,
            ));
        }
        if hi - p > PAGE {
            p += PAGE;
        } else {
            more = false;
            assert(page_list(p + PAGE, hi as int) =~= Seq::<u64>::empty());
        }
    }
    pages
}

pub open spec fn trues(present: Seq<bool>) -> nat
    decreases present.len(),
{
    if present.len() == 0 {
        0
    } else {
        trues(present.drop_last()) + (if present.last() {
            1nat
        } else {
            0
        })
    }
}

pub proof fn lemma_trues_bounded(present: Seq<bool>)
    ensures
        trues(present) <= present.len(),
    decreases present.len(),
{
    if present.len() > 0 {
        lemma_trues_bounded(present.drop_last());
    }
}

/// How many of the pages are there.
pub fn count_present(present: &Vec<bool>) -> (n: usize)
    ensures
        n == trues(present@),
{
    let mut n: usize = 0;
    let mut i: usize = 0;
    assert(present@.take(0) =~= Seq::<bool>::empty());
    while i < present.len()
        invariant
            i <= present@.len(),
            n == trues(present@.take(i as int)),
            n <= i,
        decreases present.len() - i,
    {
        assert(present@.take(i + 1).drop_last() =~= present@.take(i as int));
        if present[i] {
            n += 1;
        }
        i += 1;
    }
    assert(present@.take(i as int) =~= present@);
    n
}

/// `mprotect`, once the permissions are changed: `absent` is how many pages were not there,
/// where the change went through, and `gap_pages` says of each page outside all ranges
/// whether it is there. A page that is neither in a range nor there was asked for in vain.
pub fn mprotect_result(absent: Option<u64>, gap_pages: &Vec<bool>) -> (code: i64)
    ensures
        code == (if absent is None {
            errno::EINVAL
        } else if absent->0 > 0 && trues(gap_pages@) < gap_pages@.len() {
            errno::ENOMEM
        } else {
            0
        }),
{
    let n: u64 = match absent {
        Some(n) => n,
        None => {
            return errno::EINVAL;
        },
    };
    if n > 0 && count_present(gap_pages) < gap_pages.len() {
        return errno::ENOMEM;
    }
    0
}

/// The end of the data of a process, and how far it may go.
#[derive(Clone, Copy, PartialEq, Eq, Structural, Debug)]
pub struct Brk {
    pub current: u64,
    pub max: u64,
}

/// What `brk` does.
#[derive(Clone, Copy, PartialEq, Eq, Structural, Debug)]
pub enum BrkStep {
    /// The end stays; it is the answer.
    Stay(u64),
    /// The end is moved.
    Move(u64),
    /// Pages are mapped from `from` on; the end is moved, or stays where that fails.
    Grow { from: u64, pages: u64, to: u64 },
}

pub open spec fn brk_request(cur: Brk, borrower: bool, addr: u64) -> BrkStep {
    let target = if addr == 0 {
        cur.current
    } else {
        addr
    };
    let from = page_ceil(cur.current as int);
    let to = page_ceil(target as int);
    if borrower {
        BrkStep::Stay(cur.current)
    } else if target <= cur.current {
        BrkStep::Move(target)
    } else if to > cur.max {
        BrkStep::Stay(cur.current)
    } else if to == from {
        BrkStep::Move(target)
    } else {
        BrkStep::Grow { from: from as u64, pages: ((to - from) / PAGE as int) as u64, to: target }
    }
}

/// `brk`
pub fn sys_brk(cur: Brk, borrower: bool, addr: u64) -> (r: BrkStep)
    requires
        !borrower && addr > cur.current ==> addr + 0xfff <= u64::MAX,
    ensures
        r == brk_request(cur, borrower, addr),
{
    if borrower {
        return BrkStep::Stay(cur.current);
    }
    let target: u64 = if addr == 0 {
        cur.current
    } else {
        addr
    };
    if target <= cur.current {
        return BrkStep::Move(target);
    }
    let from: u64 = align_up_page(cur.current);
    let to: u64 = align_up_page(target);
    if to > cur.max {
        return BrkStep::Stay(cur.current);
    }
    let pages: u64 = (to - from) / PAGE;
    if pages == 0 {
        return BrkStep::Move(target);
    }
    BrkStep::Grow { from, pages, to: target }
}

/// What `brk` answers: where the end then is. `set` is the end that came of moving it, and
/// `mapped` says whether the pages could be mapped.
pub open spec fn brk_end(cur: Brk, step: BrkStep, mapped: bool, set: u64) -> u64 {
    match step {
        BrkStep::Stay(end) => end,
        BrkStep::Move(_) => set,
        BrkStep::Grow { .. } => if mapped {
            set
        } else {
            cur.current
        },
    }
}

/// `brk`, once the step is taken.
pub fn brk_answer(cur: Brk, step: &BrkStep, mapped: bool, set: u64) -> (end: u64)
    ensures
        end == brk_end(cur, *step, mapped, set),
{
    match step {
        BrkStep::Stay(end) => *end,
        BrkStep::Move(_) => set,
        BrkStep::Grow { .. } => if mapped {
            set
        } else {
            cur.current
        },
    }
}

/// An open file, as far as mapping it goes.
#[derive(Clone, Copy, PartialEq, Eq, Structural, Debug)]
pub struct MapFile {
    pub readable: bool,
    pub inode: u64,
}

/// What `mmap` does.
#[derive(Clone, Copy, PartialEq, Eq, Structural, Debug)]
pub enum MmapStep {
    Reply(i64),
    /// The range is mapped. Before that, what is there is unmapped where `replace` is set.
    Enter { vma: Vma, pages: u64, replace: bool },
    /// Memory to share is made for the range, and the range is mapped to it.
    EnterShared { vma: Vma, pages: u64, replace: bool },
}

/// What a new range shows, or what is wrong with the request.
pub open spec fn backing_request(
    flags: u64,
    fd: u64,
    file: Option<MapFile>,
    offset: u64,
) -> Result<Backing, i64> {
    if flags & MAP_ANONYMOUS != 0 {
        Ok(Backing::Anonymous)
    } else if fd as i64 == -1 {
        Err(errno::EINVAL)
    } else if file is None || !file->0.readable {
        Err(errno::EBADF)
    } else {
        Ok(Backing::File { inode: file->0.inode, offset })
    }
}

/// Where a new range goes, and whether what is there goes first. `gap` is the free place that
/// the keeper of the list proposes.
pub open spec fn placement(
    m: MmapState,
    addr: u64,
    len: u64,
    flags: u64,
    gap: Option<u64>,
) -> Result<u64, i64> {
    let end = (addr + len) as u64;
    if flags & MAP_FIXED_NOREPLACE != 0 {
        if m.meets_some(addr, end) {
            Err(errno::EEXIST)
        } else {
            Ok(addr)
        }
    } else if flags & MAP_FIXED != 0 {
        Ok(addr)
    } else if addr != 0 && addr >= m.arena_lo && end <= m.arena_hi && !m.meets_some(addr, end) {
        Ok(addr)
    } else if gap is Some {
        Ok(gap->0)
    } else {
        Err(errno::ENOMEM)
    }
}

pub open spec fn map_request(
    m: MmapState,
    borrower: bool,
    addr: u64,
    length: u64,
    prot: u64,
    flags: u64,
    fd: u64,
    offset: u64,
    file: Option<MapFile>,
    gap: Option<u64>,
) -> MmapStep {
    let len = page_ceil(length as int) as u64;
    let pages = pages_for(length as int) as u64;
    let backing = backing_request(flags, fd, file, offset);
    let place = placement(m, addr, len, flags, gap);
    let anon = flags & MAP_ANONYMOUS != 0;
    let shared = flags & MAP_SHARED != 0;
    let replace = flags & MAP_FIXED != 0;
    if borrower {
        MmapStep::Reply(errno::ENOMEM)
    } else if length == 0 {
        MmapStep::Reply(errno::EINVAL)
    } else if addr % PAGE != 0 && flags & (MAP_FIXED | MAP_FIXED_NOREPLACE) != 0 {
        MmapStep::Reply(errno::EINVAL)
    } else if backing is Err {
        MmapStep::Reply(backing->Err_0)
    } else if place is Err {
        MmapStep::Reply(place->Err_0)
    } else {
        let vma = Vma {
            start: place->Ok_0,
            end: (place->Ok_0 + len) as u64,
            prot: perms_of(prot),
            anon: anon && !shared,
            shared,
            backing: backing->Ok_0,
        };
        if anon && shared {
            MmapStep::EnterShared { vma, pages, replace }
        } else {
            MmapStep::Enter { vma: Vma { anon, ..vma }, pages, replace }
        }
    }
}

fn map_backing(flags: u64, fd: u64, file: Option<MapFile>, offset: u64) -> (r: Result<Backing, i64>)
    ensures
        r == backing_request(flags, fd, file, offset),
{
    if flags & MAP_ANONYMOUS != 0 {
        return Ok(Backing::Anonymous);
    }
    if fd as i64 == -1 {
        return Err(errno::EINVAL);
    }
    match file {
        Some(f) => if f.readable {
            Ok(Backing::File { inode: f.inode, offset })
        } else {
            Err(errno::EBADF)
        },
        None => Err(errno::EBADF),
    }
}

/// Whether the address in a request is looked at: it is given as the place, or as a hint in the
/// range for mappings.
pub open spec fn is_proposed(m: MmapState, addr: u64, flags: u64) -> bool {
    flags & MAP_FIXED_NOREPLACE != 0 || flags & MAP_FIXED != 0 || (addr != 0 && addr >= m.arena_lo)
}

/// Whether a request is one for a range of whole pages, from a process with an address space of
/// its own.
pub open spec fn is_mappable(borrower: bool, addr: u64, length: u64, flags: u64) -> bool {
    !borrower && length != 0 && (addr % PAGE == 0 || flags & (MAP_FIXED | MAP_FIXED_NOREPLACE) == 0)
}

fn map_place(m: &MmapState, addr: u64, len: u64, flags: u64, gap: Option<u64>) -> (r: Result<
    u64,
    i64,
>)
    requires
        is_proposed(*m, addr, flags) ==> addr + len <= u64::MAX,
    ensures
        r == placement(*m, addr, len, flags, gap),
{
    if flags & MAP_FIXED_NOREPLACE != 0 {
        if m.overlaps(addr, addr + len) {
            return Err(errno::EEXIST);
        }
        return Ok(addr);
    }
    if flags & MAP_FIXED != 0 {
        return Ok(addr);
    }
    if addr != 0 && addr >= m.arena_lo {
        let end: u64 = addr + len;
        if end <= m.arena_hi && !m.overlaps(addr, end) {
            return Ok(addr);
        }
    }
    match gap {
        Some(a) => Ok(a),
        None => Err(errno::ENOMEM),
    }
}

/// `mmap`: what is mapped where. A proposed place has room for the range.
pub fn sys_mmap(
    m: &MmapState,
    borrower: bool,
    addr: u64,
    length: u64,
    prot: u64,
    flags: u64,
    fd: u64,
    offset: u64,
    file: Option<MapFile>,
    gap: Option<u64>,
) -> (r: MmapStep)
    requires
        is_mappable(borrower, addr, length, flags) ==> page_ceil(length as int) <= u64::MAX,
        is_mappable(borrower, addr, length, flags) && backing_request(flags, fd, file, offset) is Ok
            ==> {
            &&& is_proposed(*m, addr, flags) ==> addr + page_ceil(length as int) <= u64::MAX
            &&& gap is Some ==> gap->0 + page_ceil(length as int) <= u64::MAX
        },
    ensures
        r == map_request(*m, borrower, addr, length, prot, flags, fd, offset, file, gap),
{
    if borrower {
        return MmapStep::Reply(errno::ENOMEM);
    }
    if length == 0 {
        return MmapStep::Reply(errno::EINVAL);
    }
    if addr % PAGE != 0 && (flags & (MAP_FIXED | MAP_FIXED_NOREPLACE)) != 0 {
        return MmapStep::Reply(errno::EINVAL);
    }
    let pages: u64 = count_pages(length);
    let len: u64 = pages * PAGE;
    let prot = prot_to_perms(prot);
    let anon = (flags & MAP_ANONYMOUS) != 0;
    let shared = (flags & MAP_SHARED) != 0;
    let replace = (flags & MAP_FIXED) != 0;
    let backing = match map_backing(flags, fd, file, offset) {
        Ok(b) => b,
        Err(e) => {
            return MmapStep::Reply(e);
        },
    };
    let start: u64 = match map_place(m, addr, len, flags, gap) {
        Ok(a) => a,
        Err(e) => {
            return MmapStep::Reply(e);
        },
    };
    let end: u64 = start + len;
    if anon && shared {
        let vma = Vma { start, end, prot, anon: false, shared: true, backing };
        return MmapStep::EnterShared { vma, pages, replace };
    }
    MmapStep::Enter { vma: Vma { start, end, prot, anon, shared, backing }, pages, replace }
}

/// What making memory to share for a range came to.
#[derive(Clone, Copy, PartialEq, Eq, Structural, Debug)]
pub enum SharedMap {
    Reply(i64),
    /// The first `pages` pages that were mapped are unmapped again: `ENOMEM`.
    Undo { pages: u64 },
    /// The range is entered, its memory has one user more, and the address is the answer.
    Enter(Vma),
}

/// `mmap` of memory to share, once that memory is made: `segment` is its number, `space` says
/// whether the process has an address space, and `mapped` how many of the pages could be
/// mapped.
pub fn mmap_shared(vma: Vma, pages: u64, segment: Option<u64>, space: bool, mapped: u64) -> (r:
    SharedMap)
    ensures
        r == (if segment is None {
            SharedMap::Reply(errno::ENOMEM)
        } else if !space {
            SharedMap::Reply(errno::EINVAL)
        } else if mapped < pages {
            SharedMap::Undo { pages: mapped }
        } else {
            SharedMap::Enter(Vma { backing: Backing::Shm { segment: segment->0 }, ..vma })
        }),
{
    let segment: u64 = match segment {
        Some(s) => s,
        None => {
            return SharedMap::Reply(errno::ENOMEM);
        },
    };
    if !space {
        return SharedMap::Reply(errno::EINVAL);
    }
    if mapped < pages {
        return SharedMap::Undo { pages: mapped };
    }
    SharedMap::Enter(Vma { backing: Backing::Shm { segment }, ..vma })
}

/// What `mmap` answers in the end: the address of the range, or what is wrong. `shared` is what
/// making memory to share came to, where the range shows such.
pub open spec fn map_answer(step: MmapStep, shared: Option<SharedMap>) -> i64 {
    match step {
        MmapStep::Reply(code) => code,
        MmapStep::Enter { vma, .. } => vma.start as i64,
        MmapStep::EnterShared { .. } => match shared->0 {
            SharedMap::Reply(code) => code,
            SharedMap::Undo { .. } => errno::ENOMEM,
            SharedMap::Enter(vma) => vma.start as i64,
        },
    }
}

/// `mmap`, once the step is taken.
pub fn mmap_answer(step: &MmapStep, shared: Option<SharedMap>) -> (code: i64)
    requires
        step is EnterShared ==> shared is Some,
    ensures
        code == map_answer(*step, shared),
{
    match step {
        MmapStep::Reply(code) => *code,
        MmapStep::Enter { vma, .. } => vma.start as i64,
        MmapStep::EnterShared { .. } => match shared.unwrap() {
            SharedMap::Reply(code) => code,
            SharedMap::Undo { .. } => errno::ENOMEM,
            SharedMap::Enter(vma) => vma.start as i64,
        },
    }
}

/// A request that may not replace anything never does, and one that may be put anywhere is
/// not put over what is there, unless the proposed place is taken.
pub proof fn law_mapping_replaces_only_when_fixed(
    m: MmapState,
    addr: u64,
    len: u64,
    flags: u64,
    gap: Option<u64>,
)
    requires
        addr + len <= u64::MAX,
        placement(m, addr, len, flags, gap) is Ok,
        gap is Some ==> gap->0 + len <= u64::MAX && !m.meets_some(gap->0, (gap->0 + len) as u64),
        m.meets_some(
            placement(m, addr, len, flags, gap)->Ok_0,
            (placement(m, addr, len, flags, gap)->Ok_0 + len) as u64,
        ),
    ensures
        flags & MAP_FIXED != 0,
        flags & MAP_FIXED_NOREPLACE == 0,
{
}

} // verus!
