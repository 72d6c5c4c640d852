//! Record locks: byte ranges of a file, owned by a process.

use std::collections::BTreeMap;

use vstd::prelude::*;

use crate::keys;
use crate::keys::keys_of;
use crate::process_model::Pid;
use crate::seqs;

verus! {

pub const F_RDLCK: u16 = 0;
pub const F_WRLCK: u16 = 1;
pub const F_UNLCK: u16 = 2;

/// A lock of one owner on the bytes from `start` up to, not including, `end`.
#[derive(Clone, Copy, Debug, PartialEq, Eq, Structural)]
pub struct FileLock {
    pub kind: u16,
    pub start: u64,
    pub end: u64,
    pub owner: Pid,
}

impl FileLock {
    pub open spec fn spec_overlaps(&self, start: u64, end: u64) -> bool {
        self.start < end && start < self.end
    }

    /// Two locks of different owners on common bytes, one of them a write lock.
    pub open spec fn spec_conflicts(&self, other: &FileLock) -> bool {
        self.owner != other.owner && self.spec_overlaps(other.start, other.end) && (self.kind
            == F_WRLCK || other.kind == F_WRLCK)
    }

    /// Whether this lock and the range from `start` to `end` have bytes in common.
    pub fn overlaps(&self, start: u64, end: u64) -> (overlap: bool)
        ensures
            overlap == self.spec_overlaps(start, end),
    {
        self.start < end && start < self.end
    }

    /// Whether the two locks cannot be held together.
    pub fn conflicts(&self, other: &FileLock) -> (conflict: bool)
        ensures
            conflict == self.spec_conflicts(other),
    {
        if self.owner == other.owner {
            return false;
        }
        if !self.overlaps(other.start, other.end) {
            return false;
        }
        self.kind == F_WRLCK || other.kind == F_WRLCK
    }
}

/// The locks on one file, and the processes that wait for one.
pub struct InodeLocks {
    pub locks: Vec<FileLock>,
    pub waiters: Vec<Pid>,
}

/// The locks on all files, by inode id.
pub struct LockTable {
    pub inodes: BTreeMap<u64, InodeLocks>,
}

/// No two of the locks conflict.
pub open spec fn compatible(s: Seq<FileLock>) -> bool {
    forall|i: int, j: int|
        0 <= i < s.len() && 0 <= j < s.len() ==> !(#[trigger] s[i]).spec_conflicts(
            #[trigger] &s[j],
        )
}

/// Every lock is a read or a write lock on some bytes.
pub open spec fn proper(s: Seq<FileLock>) -> bool {
    forall|i: int|
        0 <= i < s.len() ==> (#[trigger] s[i]).start < s[i].end && (s[i].kind == F_RDLCK
            || s[i].kind == F_WRLCK)
}

/// No byte is locked twice by one owner.
pub open spec fn apart(s: Seq<FileLock>) -> bool {
    forall|i: int, j: int|
        0 <= i < s.len() && 0 <= j < s.len() && i != j && (#[trigger] s[i]).owner == (
        #[trigger] s[j]).owner ==> !s[i].spec_overlaps(s[j].start, s[j].end)
}

/// The locks on a file are in order.
#[verifier::opaque]
pub open spec fn orderly(s: Seq<FileLock>) -> bool {
    proper(s) && apart(s) && compatible(s)
}

/// Whether a lock, or an unlocking, is one of some bytes.
pub open spec fn is_request(kind: u16, start: u64, end: u64) -> bool {
    start < end && (kind == F_RDLCK || kind == F_WRLCK || kind == F_UNLCK)
}

impl LockTable {
    /// The locks held on a file, in the order in which they are searched.
    pub open spec fn locks_of(&self, inode_id: u64) -> Seq<FileLock> {
        if self.inodes@.contains_key(inode_id) {
            self.inodes@[inode_id].locks@
        } else {
            Seq::empty()
        }
    }

    /// The processes that wait for a lock on a file.
    pub open spec fn waiting_for(&self, inode_id: u64) -> Seq<Pid> {
        if self.inodes@.contains_key(inode_id) {
            self.inodes@[inode_id].waiters@
        } else {
            Seq::empty()
        }
    }

    /// Every lock is one of some bytes, nobody holds a byte twice, and nobody holds a lock that
    /// conflicts with another's.
    pub open spec fn wf(&self) -> bool {
        forall|inode_id: u64| orderly(#[trigger] self.locks_of(inode_id))
    }

    /// All files but one are as they were.
    pub open spec fn same_but(&self, before: &LockTable, inode_id: u64) -> bool {
        forall|other: u64|
            other != inode_id ==> #[trigger] self.locks_of(other) == before.locks_of(other)
                && self.waiting_for(other) == before.waiting_for(other)
    }

    /// A table without locks.
    pub fn new() -> (table: LockTable)
        ensures
            table.wf(),
            table.inodes@ == Map::<u64, InodeLocks>::empty(),
            forall|inode_id: u64| #[trigger] table.locks_of(inode_id).len() == 0,
            forall|inode_id: u64| #[trigger] table.waiting_for(inode_id).len() == 0,
    {
        reveal(orderly);
        LockTable { inodes: BTreeMap::new() }
    }
}

/// The first of the locks that conflicts with `probe`.
pub open spec fn first_conflict(s: Seq<FileLock>, probe: FileLock) -> Option<FileLock>
    decreases s.len(),
{
    if s.len() == 0 {
        None
    } else if s[0].spec_conflicts(&probe) {
        Some(s[0])
    } else {
        first_conflict(s.skip(1), probe)
    }
}

proof fn lemma_first_conflict_skip(s: Seq<FileLock>, probe: FileLock, n: int)
    requires
        0 <= n <= s.len(),
        forall|i: int| 0 <= i < n ==> !(#[trigger] s[i]).spec_conflicts(&probe),
    ensures
        first_conflict(s, probe) == first_conflict(s.skip(n), probe),
    decreases n,
{
    if n > 0 {
        lemma_first_conflict_skip(s.skip(1), probe, n - 1);
        assert(s.skip(1).skip(n - 1) =~= s.skip(n));
    } else {
        assert(s.skip(0) =~= s);
    }
}

/// There is a first conflict exactly where some lock conflicts, and it is one of them.
pub proof fn lemma_first_conflict(s: Seq<FileLock>, probe: FileLock)
    ensures
        first_conflict(s, probe) is None <==> forall|i: int|
            0 <= i < s.len() ==> !(#[trigger] s[i]).spec_conflicts(&probe),
        first_conflict(s, probe) matches Some(lock) ==> s.contains(lock) && lock.spec_conflicts(
            &probe,
        ),
    decreases s.len(),
{
    if s.len() > 0 && !s[0].spec_conflicts(&probe) {
        let rest = s.skip(1);
        lemma_first_conflict(rest, probe);
        assert(forall|i: int| 0 <= i < rest.len() ==> rest[i] == s[i + 1]);
        if first_conflict(rest, probe) is None {
            assert forall|i: int| 0 <= i < s.len() implies !(#[trigger] s[i]).spec_conflicts(
                &probe,
            ) by {
                if i > 0 {
                    assert(!rest[i - 1].spec_conflicts(&probe));
                }
            }
        } else {
            let lock = first_conflict(rest, probe)->0;
            let i = choose|i: int| 0 <= i < rest.len() && rest[i] == lock;
            assert(s[i + 1] == lock);
        }
    } else if s.len() > 0 {
        assert(s.contains(s[0]));
    }
}

fn scan_conflict(locks: &Vec<FileLock>, probe: &FileLock) -> (conflict: Option<FileLock>)
    ensures
        conflict == first_conflict(locks@, *probe),
{
    let mut i: usize = 0;
    while i < locks.len()
        invariant
            i <= locks.len(),
            forall|j: int| 0 <= j < i ==> !(#[trigger] locks@[j]).spec_conflicts(probe),
        decreases locks.len() - i,
    {
        if locks[i].conflicts(probe) {
            proof {
                lemma_first_conflict_skip(locks@, *probe, i as int);
            }
            return Some(locks[i]);
        }
        i += 1;
    }
    proof {
        lemma_first_conflict_skip(locks@, *probe, i as int);
    }
    None
}

/// The first lock on a file that would stand in the way of the one described.
pub fn find_conflict(
    table: &LockTable,
    inode_id: u64,
    kind: u16,
    start: u64,
    end: u64,
    owner: Pid,
) -> (conflict: Option<FileLock>)
    ensures
        conflict == first_conflict(
            table.locks_of(inode_id),
            (FileLock { kind, start, end, owner }),
        ),
{
    let probe = FileLock { kind, start, end, owner };
    match table.inodes.get(&inode_id) {
        Some(entry) => scan_conflict(&entry.locks, &probe),
        None => None,
    }
}

/// Says of a lock that it is another's, or has no byte in the range.
pub open spec fn untouched(start: u64, end: u64, owner: Pid) -> spec_fn(FileLock) -> bool {
    |lock: FileLock| lock.owner != owner || !lock.spec_overlaps(start, end)
}

/// What is left of a lock of `owner` when the range is cut out of it.
pub open spec fn cut(lock: FileLock, start: u64, end: u64, owner: Pid) -> Seq<FileLock> {
    if untouched(start, end, owner)(lock) {
        Seq::empty()
    } else {
        (if lock.start < start {
            seq![FileLock { kind: lock.kind, start: lock.start, end: start, owner }]
        } else {
            Seq::empty()
        }) + (if lock.end > end {
            seq![FileLock { kind: lock.kind, start: end, end: lock.end, owner }]
        } else {
            Seq::empty()
        })
    }
}

/// What is left of all locks of `owner` that reach into the range.
pub open spec fn remnants(s: Seq<FileLock>, start: u64, end: u64, owner: Pid) -> Seq<FileLock>
    decreases s.len(),
{
    if s.len() == 0 {
        Seq::empty()
    } else {
        remnants(s.drop_last(), start, end, owner) + cut(s.last(), start, end, owner)
    }
}

/// The locks once `owner` holds nothing in the range any more: those that do not
/// reach into it, then what is left of those that do.
pub open spec fn released(s: Seq<FileLock>, start: u64, end: u64, owner: Pid) -> Seq<FileLock> {
    s.filter(untouched(start, end, owner)) + remnants(s, start, end, owner)
}

fn split_owner_range(locks: &mut Vec<FileLock>, start: u64, end: u64, owner: Pid)
    ensures
        final(locks)@ == released(old(locks)@, start, end, owner),
{
    let mut kept: Vec<FileLock> = Vec::new();
    let mut split: Vec<FileLock> = Vec::new();
    let mut i: usize = 0;
    while i < locks.len()
        invariant
            i <= locks.len(),
            locks@ == old(locks)@,
            kept@ == locks@.take(i as int).filter(untouched(start, end, owner)),
            split@ == remnants(locks@.take(i as int), start, end, owner),
        decreases locks.len() - i,
    {
        let lock = locks[i];
        let ghost split_before = split@;
        proof {
            seqs::lemma_filter_step(locks@, i as int, untouched(start, end, owner));
            assert(locks@.take(i + 1).drop_last() =~= locks@.take(i as int));
            assert(locks@.take(i + 1).last() == lock);
        }
        if lock.owner != owner || !lock.overlaps(start, end) {
            kept.push(lock);
        } else {
            if lock.start < start {
                split.push(FileLock { kind: lock.kind, start: lock.start, end: start, owner });
            }
            if lock.end > end {
                split.push(FileLock { kind: lock.kind, start: end, end: lock.end, owner });
            }
        }
        assert(split@ =~= split_before + cut(lock, start, end, owner));
        i += 1;
    }
    assert(locks@.take(locks@.len() as int) =~= locks@);
    kept.append(&mut split);
    *locks = kept;
}

/// `part` is a piece of `whole`.
pub open spec fn within(part: FileLock, whole: FileLock) -> bool {
    &&& part.kind == whole.kind
    &&& part.owner == whole.owner
    &&& whole.start <= part.start
    &&& part.end <= whole.end
}

proof fn lemma_remnants_origin(s: Seq<FileLock>, start: u64, end: u64, owner: Pid)
    ensures
        forall|i: int|
            0 <= i < remnants(s, start, end, owner).len() ==> {
                let p = #[trigger] remnants(s, start, end, owner)[i];
                &&& p.owner == owner
                &&& p.start < p.end
                &&& p.end <= start || end <= p.start
                &&& exists|k: int|
                    0 <= k < s.len() && within(p, #[trigger] s[k]) && s[k].owner == owner
                        && s[k].spec_overlaps(start, end)
            },
    decreases s.len(),
{
    if s.len() > 0 {
        let front = s.drop_last();
        let r = remnants(s, start, end, owner);
        lemma_remnants_origin(front, start, end, owner);
        assert forall|i: int| 0 <= i < r.len() implies {
            let p = #[trigger] r[i];
            &&& p.owner == owner
            &&& p.start < p.end
            &&& p.end <= start || end <= p.start
            &&& exists|k: int|
                0 <= k < s.len() && within(p, #[trigger] s[k]) && s[k].owner == owner
                    && s[k].spec_overlaps(start, end)
        } by {
            let n = remnants(front, start, end, owner).len();
            if i < n {
                let p = remnants(front, start, end, owner)[i];
                assert(r[i] == p);
                let k = choose|k: int|
                    0 <= k < front.len() && within(p, #[trigger] front[k]) && front[k].owner
                        == owner && front[k].spec_overlaps(start, end);
                assert(within(p, s[k]));
            } else {
                assert(r[i] == cut(s.last(), start, end, owner)[i - n]);
                assert(within(r[i], s[s.len() - 1]));
            }
        }
    }
}

/// Every lock that is left is a lock, or a piece of one, that was there; one of `owner`
/// has no byte in the range.
proof fn lemma_released_origin(s: Seq<FileLock>, start: u64, end: u64, owner: Pid)
    ensures
        forall|i: int|
            0 <= i < released(s, start, end, owner).len() ==> {
                let p = #[trigger] released(s, start, end, owner)[i];
                &&& p.owner == owner ==> !p.spec_overlaps(start, end)
                &&& exists|k: int| 0 <= k < s.len() && within(p, #[trigger] s[k])
            },
{
    let r = released(s, start, end, owner);
    let kept = s.filter(untouched(start, end, owner));
    lemma_remnants_origin(s, start, end, owner);
    let from = seqs::lemma_filter_origin(s, untouched(start, end, owner));
    assert forall|i: int| 0 <= i < r.len() implies {
        let p = #[trigger] r[i];
        &&& p.owner == owner ==> !p.spec_overlaps(start, end)
        &&& exists|k: int| 0 <= k < s.len() && within(p, #[trigger] s[k])
    } by {
        if i < kept.len() {
            assert(r[i] == kept[i] && kept[i] == s[from[i]]);
            assert(within(r[i], s[from[i]]));
        } else {
            assert(r[i] == remnants(s, start, end, owner)[i - kept.len()]);
        }
    }
}

proof fn lemma_released_compatible(s: Seq<FileLock>, start: u64, end: u64, owner: Pid)
    requires
        compatible(s),
    ensures
        compatible(released(s, start, end, owner)),
{
    let r = released(s, start, end, owner);
    lemma_released_origin(s, start, end, owner);
    assert forall|i: int, j: int|
        0 <= i < r.len() && 0 <= j < r.len() implies !(#[trigger] r[i]).spec_conflicts(
        #[trigger] &r[j],
    ) by {
        let k = choose|k: int| 0 <= k < s.len() && within(r[i], #[trigger] s[k]);
        let l = choose|l: int| 0 <= l < s.len() && within(r[j], #[trigger] s[l]);
        assert(!s[k].spec_conflicts(&s[l]));
    }
}

proof fn lemma_remnants_apart(s: Seq<FileLock>, start: u64, end: u64, owner: Pid)
    requires
        start < end,
        apart(s),
    ensures
        apart(remnants(s, start, end, owner)),
    decreases s.len(),
{
    if s.len() > 0 {
        let front = s.drop_last();
        let r0 = remnants(front, start, end, owner);
        let c = cut(s.last(), start, end, owner);
        let r = remnants(s, start, end, owner);
        assert forall|i: int, j: int|
            0 <= i < front.len() && 0 <= j < front.len() && i != j && (#[trigger] front[i]).owner
                == (#[trigger] front[j]).owner implies !front[i].spec_overlaps(
            front[j].start,
            front[j].end,
        ) by {
            assert(front[i] == s[i] && front[j] == s[j]);
        }
        lemma_remnants_apart(front, start, end, owner);
        lemma_remnants_origin(front, start, end, owner);
        assert forall|i: int, j: int|
            0 <= i < r0.len() && 0 <= j < c.len() implies !(#[trigger] r0[i]).spec_overlaps(
            (#[trigger] c[j]).start,
            c[j].end,
        ) && !c[j].spec_overlaps(r0[i].start, r0[i].end) by {
            let k = choose|k: int|
                0 <= k < front.len() && within(r0[i], #[trigger] front[k]) && front[k].owner
                    == owner && front[k].spec_overlaps(start, end);
            assert(front[k] == s[k]);
            assert(within(c[j], s[s.len() - 1]));
            assert(!s[k].spec_overlaps(s[s.len() - 1].start, s[s.len() - 1].end));
        }
        assert forall|i: int, j: int|
            0 <= i < r.len() && 0 <= j < r.len() && i != j && (#[trigger] r[i]).owner == (
            #[trigger] r[j]).owner implies !r[i].spec_overlaps(r[j].start, r[j].end) by {
            let n = r0.len() as int;
            if i < n && j < n {
                assert(r[i] == r0[i] && r[j] == r0[j]);
            } else if i < n {
                assert(r[i] == r0[i] && r[j] == c[j - n]);
            } else if j < n {
                assert(r[i] == c[i - n] && r[j] == r0[j]);
            } else {
                assert(r[i] == c[i - n] && r[j] == c[j - n]);
            }
        }
    }
}

/// Locks in order stay so when a range is given up.
proof fn lemma_released_orderly(s: Seq<FileLock>, start: u64, end: u64, owner: Pid)
    requires
        orderly(s),
        start < end,
    ensures
        orderly(released(s, start, end, owner)),
{
    reveal(orderly);
    let r = released(s, start, end, owner);
    let kept = s.filter(untouched(start, end, owner));
    let rem = remnants(s, start, end, owner);
    lemma_released_compatible(s, start, end, owner);
    lemma_remnants_origin(s, start, end, owner);
    lemma_remnants_apart(s, start, end, owner);
    let from = seqs::lemma_filter_origin(s, untouched(start, end, owner));
    let n = kept.len() as int;
    assert forall|i: int| 0 <= i < r.len() implies (#[trigger] r[i]).start < r[i].end && (r[i].kind
        == F_RDLCK || r[i].kind == F_WRLCK) by {
        if i < n {
            assert(r[i] == kept[i] && kept[i] == s[from[i]]);
        } else {
            assert(r[i] == rem[i - n]);
        }
    }
    assert forall|i: int, j: int| 0 <= i < n && 0 <= j < rem.len() implies kept[i].owner != owner
        || (!(#[trigger] kept[i]).spec_overlaps((#[trigger] rem[j]).start, rem[j].end)
        && !rem[j].spec_overlaps(kept[i].start, kept[i].end)) by {
        let k = choose|k: int|
            0 <= k < s.len() && within(rem[j], #[trigger] s[k]) && s[k].owner == owner
                && s[k].spec_overlaps(start, end);
        assert(kept[i] == s[from[i]] && untouched(start, end, owner)(s[from[i]]));
        if kept[i].owner == owner {
            assert(from[i] != k);
            assert(!s[k].spec_overlaps(s[from[i]].start, s[from[i]].end));
        }
    }
    assert forall|i: int, j: int|
        0 <= i < r.len() && 0 <= j < r.len() && i != j && (#[trigger] r[i]).owner == (
        #[trigger] r[j]).owner implies !r[i].spec_overlaps(r[j].start, r[j].end) by {
        if i < n && j < n {
            assert(r[i] == s[from[i]] && r[j] == s[from[j]]);
            assert(from[i] != from[j]) by {
                if i < j {
                    assert(from[i] < from[j]);
                } else {
                    assert(from[j] < from[i]);
                }
            }
        } else if i < n {
            assert(r[i] == kept[i] && r[j] == rem[j - n]);
        } else if j < n {
            assert(r[i] == rem[i - n] && r[j] == kept[j]);
        } else {
            assert(r[i] == rem[i - n] && r[j] == rem[j - n]);
        }
    }
}

/// The locks once `owner` has taken `lock` in place of what it held in that range.
pub open spec fn acquired(s: Seq<FileLock>, lock: FileLock) -> Seq<FileLock> {
    released(s, lock.start, lock.end, lock.owner).push(lock)
}

proof fn lemma_acquired_compatible(s: Seq<FileLock>, lock: FileLock)
    requires
        compatible(s),
        first_conflict(s, lock) is None,
    ensures
        compatible(acquired(s, lock)),
{
    let r = released(s, lock.start, lock.end, lock.owner);
    lemma_released_compatible(s, lock.start, lock.end, lock.owner);
    lemma_released_origin(s, lock.start, lock.end, lock.owner);
    lemma_first_conflict(s, lock);
    let a = acquired(s, lock);
    assert forall|i: int, j: int|
        0 <= i < a.len() && 0 <= j < a.len() implies !(#[trigger] a[i]).spec_conflicts(
        #[trigger] &a[j],
    ) by {
        if i < r.len() && j < r.len() {
            assert(!r[i].spec_conflicts(&r[j]));
        } else if i < r.len() {
            assert(a[i] == r[i]);
            let k = choose|k: int| 0 <= k < s.len() && within(r[i], #[trigger] s[k]);
            assert(!s[k].spec_conflicts(&lock));
        } else if j < r.len() {
            assert(a[j] == r[j]);
            let k = choose|k: int| 0 <= k < s.len() && within(r[j], #[trigger] s[k]);
            assert(!s[k].spec_conflicts(&lock));
        }
    }
}

proof fn lemma_acquired_orderly(s: Seq<FileLock>, lock: FileLock)
    requires
        orderly(s),
        first_conflict(s, lock) is None,
        lock.start < lock.end,
        lock.kind == F_RDLCK || lock.kind == F_WRLCK,
    ensures
        orderly(acquired(s, lock)),
{
    reveal(orderly);
    let r = released(s, lock.start, lock.end, lock.owner);
    let a = acquired(s, lock);
    lemma_acquired_compatible(s, lock);
    lemma_released_orderly(s, lock.start, lock.end, lock.owner);
    lemma_released_origin(s, lock.start, lock.end, lock.owner);
    assert forall|i: int| 0 <= i < a.len() implies (#[trigger] a[i]).start < a[i].end && (a[i].kind
        == F_RDLCK || a[i].kind == F_WRLCK) by {
        if i < r.len() {
            assert(a[i] == r[i]);
        }
    }
    assert forall|i: int, j: int|
        0 <= i < a.len() && 0 <= j < a.len() && i != j && (#[trigger] a[i]).owner == (
        #[trigger] a[j]).owner implies !a[i].spec_overlaps(a[j].start, a[j].end) by {
        if i < r.len() && j < r.len() {
            assert(a[i] == r[i] && a[j] == r[j]);
        } else if i < r.len() {
            assert(a[i] == r[i] && a[j] == lock);
        } else {
            assert(a[i] == lock && a[j] == r[j]);
        }
    }
}

/// Takes the record of a file out of the table, a fresh one where there was none.
fn take_inode(table: &mut LockTable, inode_id: u64) -> (entry: InodeLocks)
    ensures
        final(table).inodes@ == old(table).inodes@.remove(inode_id),
        entry.locks@ == old(table).locks_of(inode_id),
        entry.waiters@ == old(table).waiting_for(inode_id),
{
    match table.inodes.remove(&inode_id) {
        Some(entry) => entry,
        None => InodeLocks { locks: Vec::new(), waiters: Vec::new() },
    }
}

/// Tries to give `owner` a lock of the given kind on a range of a file.
///
/// Unlocking always succeeds and returns the processes to wake. Otherwise the first
/// lock that conflicts is returned and nothing changes, or the owner's new lock takes
/// the place of what it held in that range.
pub fn try_set_lock(
    table: &mut LockTable,
    inode_id: u64,
    kind: u16,
    start: u64,
    end: u64,
    owner: Pid,
) -> (result: Result<Vec<Pid>, FileLock>)
    ensures
        old(table).wf() && is_request(kind, start, end) ==> final(table).wf(),
        final(table).same_but(old(table), inode_id),
        ({
            let before = old(table).locks_of(inode_id);
            let lock = FileLock { kind, start, end, owner };
            match result {
                Ok(woken) => if kind == F_UNLCK {
                    &&& final(table).locks_of(inode_id) == released(before, start, end, owner)
                    &&& woken@ == old(table).waiting_for(inode_id)
                    &&& final(table).waiting_for(inode_id).len() == 0
                } else {
                    &&& first_conflict(before, lock) is None
                    &&& final(table).locks_of(inode_id) == acquired(before, lock)
                    &&& woken@.len() == 0
                    &&& final(table).waiting_for(inode_id) == old(table).waiting_for(inode_id)
                },
                Err(conflict) => {
                    &&& kind != F_UNLCK
                    &&& first_conflict(before, lock) == Some(conflict)
                    &&& final(table).locks_of(inode_id) == before
                    &&& final(table).waiting_for(inode_id) == old(table).waiting_for(inode_id)
                },
            }
        }),
{
    if kind == F_UNLCK {
        return Ok(unlock_range(table, inode_id, start, end, owner));
    }
    let probe = FileLock { kind, start, end, owner };
    let ghost before = table.locks_of(inode_id);
    let mut entry = take_inode(table, inode_id);
    let conflict = scan_conflict(&entry.locks, &probe);
    if conflict.is_none() {
        proof {
            if old(table).wf() && is_request(kind, start, end) {
                assert(orderly(before));
                lemma_acquired_orderly(before, probe);
            }
        }
        split_owner_range(&mut entry.locks, start, end, owner);
        entry.locks.push(probe);
    }
    let ghost stored = entry;
    table.inodes.insert(inode_id, entry);
    assert(table.locks_of(inode_id) == stored.locks@);
    proof {
        if old(table).wf() && is_request(kind, start, end) {
            assert forall|other: u64| orderly(#[trigger] table.locks_of(other)) by {
                assert(orderly(old(table).locks_of(other)));
                if other != inode_id {
                    assert(table.locks_of(other) == old(table).locks_of(other));
                }
            }
        }
    }
    match conflict {
        Some(lock) => Err(lock),
        None => Ok(Vec::new()),
    }
}

/// Takes away what `owner` holds in a range of a file, and returns the processes to
/// wake: all that wait for a lock on that file.
pub fn unlock_range(
    table: &mut LockTable,
    inode_id: u64,
    start: u64,
    end: u64,
    owner: Pid,
) -> (woken: Vec<Pid>)
    ensures
        old(table).wf() && start < end ==> final(table).wf(),
        final(table).same_but(old(table), inode_id),
        final(table).locks_of(inode_id) == released(
            old(table).locks_of(inode_id),
            start,
            end,
            owner,
        ),
        woken@ == old(table).waiting_for(inode_id),
        final(table).waiting_for(inode_id).len() == 0,
{
    let ghost before = table.locks_of(inode_id);
    let mut entry = take_inode(table, inode_id);
    proof {
        if old(table).wf() && start < end {
            assert(orderly(before));
            lemma_released_orderly(before, start, end, owner);
        }
    }
    split_owner_range(&mut entry.locks, start, end, owner);
    let woken = entry.waiters;
    let stored = InodeLocks { locks: entry.locks, waiters: Vec::new() };
    let ghost stored_view = stored;
    table.inodes.insert(inode_id, stored);
    assert(table.locks_of(inode_id) == stored_view.locks@);
    proof {
        if old(table).wf() && start < end {
            assert forall|other: u64| orderly(#[trigger] table.locks_of(other)) by {
                assert(orderly(old(table).locks_of(other)));
                if other != inode_id {
                    assert(table.locks_of(other) == old(table).locks_of(other));
                }
            }
        }
    }
    woken
}

/// The processes that wait for a lock on a file.
pub fn waiters_for(table: &LockTable, inode_id: u64) -> (waiters: Vec<Pid>)
    ensures
        waiters@ == table.waiting_for(inode_id),
{
    match table.inodes.get(&inode_id) {
        Some(entry) => copy_pids(&entry.waiters),
        None => Vec::new(),
    }
}

fn copy_pids(pids: &Vec<Pid>) -> (copy: Vec<Pid>)
    ensures
        copy@ == pids@,
{
    let mut copy: Vec<Pid> = Vec::new();
    let mut i: usize = 0;
    while i < pids.len()
        invariant
            i <= pids.len(),
            copy@ == pids@.take(i as int),
        decreases pids.len() - i,
    {
        copy.push(pids[i]);
        i += 1;
        assert(copy@ =~= pids@.take(i as int));
    }
    assert(copy@ =~= pids@);
    copy
}

/// Puts `pid` at the end of the processes that wait for a lock on a file.
pub fn enqueue_waiter(table: &mut LockTable, inode_id: u64, pid: Pid)
    ensures
        old(table).wf() ==> final(table).wf(),
        final(table).same_but(old(table), inode_id),
        final(table).locks_of(inode_id) == old(table).locks_of(inode_id),
        final(table).waiting_for(inode_id) == old(table).waiting_for(inode_id).push(pid),
{
    let mut entry = take_inode(table, inode_id);
    entry.waiters.push(pid);
    table.inodes.insert(inode_id, entry);
    assert(forall|other: u64| #[trigger] table.locks_of(other) == old(table).locks_of(other));
}

/// Says of a lock that it is not one of `pid`.
pub open spec fn not_owned_by(pid: Pid) -> spec_fn(FileLock) -> bool {
    |lock: FileLock| lock.owner != pid
}

/// `pid` holds a lock among these.
pub open spec fn owns_one(s: Seq<FileLock>, pid: Pid) -> bool {
    exists|i: int| 0 <= i < s.len() && (#[trigger] s[i]).owner == pid
}

/// Locks in order stay so when one owner's go.
proof fn lemma_filter_orderly(s: Seq<FileLock>, pid: Pid)
    requires
        orderly(s),
    ensures
        orderly(s.filter(not_owned_by(pid))),
{
    reveal(orderly);
    let t = s.filter(not_owned_by(pid));
    let from = seqs::lemma_filter_origin(s, not_owned_by(pid));
    assert forall|i: int, j: int|
        0 <= i < t.len() && 0 <= j < t.len() implies !(#[trigger] t[i]).spec_conflicts(
        #[trigger] &t[j],
    ) by {
        assert(t[i] == s[from[i]] && t[j] == s[from[j]]);
    }
    assert forall|i: int| 0 <= i < t.len() implies (#[trigger] t[i]).start < t[i].end && (t[i].kind
        == F_RDLCK || t[i].kind == F_WRLCK) by {
        assert(t[i] == s[from[i]]);
    }
    assert forall|i: int, j: int|
        0 <= i < t.len() && 0 <= j < t.len() && i != j && (#[trigger] t[i]).owner == (
        #[trigger] t[j]).owner implies !t[i].spec_overlaps(t[j].start, t[j].end) by {
        assert(t[i] == s[from[i]] && t[j] == s[from[j]]);
        if i < j {
            assert(from[i] < from[j]);
        } else {
            assert(from[j] < from[i]);
        }
    }
}

fn remove_owner(locks: &mut Vec<FileLock>, pid: Pid) -> (removed: bool)
    ensures
        final(locks)@ == old(locks)@.filter(not_owned_by(pid)),
        removed == owns_one(old(locks)@, pid),
{
    let before: usize = locks.len();
    let mut kept: Vec<FileLock> = Vec::new();
    let mut i: usize = 0;
    while i < locks.len()
        invariant
            i <= locks.len(),
            locks@ == old(locks)@,
            kept@ == locks@.take(i as int).filter(not_owned_by(pid)),
        decreases locks.len() - i,
    {
        proof {
            seqs::lemma_filter_step(locks@, i as int, not_owned_by(pid));
        }
        let lock = locks[i];
        if lock.owner != pid {
            kept.push(lock);
        }
        i += 1;
    }
    proof {
        assert(locks@.take(locks@.len() as int) =~= locks@);
        seqs::lemma_filter_len(locks@, not_owned_by(pid));
    }
    *locks = kept;
    locks.len() != before
}

/// Takes away every lock that `pid` holds on a file, as closing it does. Where there
/// was one, all that wait for a lock on that file are woken.
pub fn drop_owner_inode(table: &mut LockTable, pid: Pid, inode_id: u64) -> (woken: Vec<Pid>)
    ensures
        old(table).wf() ==> final(table).wf(),
        final(table).same_but(old(table), inode_id),
        final(table).locks_of(inode_id) == old(table).locks_of(inode_id).filter(not_owned_by(pid)),
        owns_one(old(table).locks_of(inode_id), pid) ==> woken@ == old(table).waiting_for(inode_id)
            && final(table).waiting_for(inode_id).len() == 0,
        !owns_one(old(table).locks_of(inode_id), pid) ==> {
            &&& woken@.len() == 0
            &&& final(table).waiting_for(inode_id) == old(table).waiting_for(inode_id)
        },
{
    let ghost before = table.locks_of(inode_id);
    if !table.inodes.contains_key(&inode_id) {
        assert(before.filter(not_owned_by(pid)) =~= before) by {
            seqs::lemma_filter_len(before, not_owned_by(pid));
        }
        return Vec::new();
    }
    proof {
        if old(table).wf() {
            assert(orderly(before));
            lemma_filter_orderly(before, pid);
        }
    }
    let mut entry = take_inode(table, inode_id);
    let removed = remove_owner(&mut entry.locks, pid);
    let mut woken: Vec<Pid> = Vec::new();
    if removed {
        woken.append(&mut entry.waiters);
    }
    let ghost stored = entry;
    table.inodes.insert(inode_id, entry);
    assert(table.locks_of(inode_id) == stored.locks@);
    proof {
        if old(table).wf() {
            assert forall|other: u64| orderly(#[trigger] table.locks_of(other)) by {
                if other != inode_id {
                    assert(table.locks_of(other) == old(table).locks_of(other));
                }
            }
        }
    }
    woken
}

/// The processes to wake when `pid` loses all its locks on the files with these ids: for each
/// file on which it held one, in the order of the ids, all that wait there.
pub open spec fn woken_by_exit(ids: Seq<u64>, files: Map<u64, InodeLocks>, pid: Pid) -> Seq<Pid>
    decreases ids.len(),
{
    if ids.len() == 0 {
        Seq::empty()
    } else {
        woken_by_exit(ids.drop_last(), files, pid) + (if owns_one(files[ids.last()].locks@, pid) {
            files[ids.last()].waiters@
        } else {
            Seq::empty()
        })
    }
}

/// Takes away every lock that `pid` holds, as its exit does. The files are gone through in
/// ascending order of their ids.
pub fn drop_owner(table: &mut LockTable, pid: Pid) -> (woken: Vec<Pid>)
    ensures
        old(table).wf() ==> final(table).wf(),
        woken@ == woken_by_exit(
            keys::in_order(old(table).inodes@.dom()),
            old(table).inodes@,
            pid,
        ),
        forall|inode_id: u64| #[trigger]
            final(table).locks_of(inode_id) == old(table).locks_of(inode_id).filter(
                not_owned_by(pid),
            ),
        forall|inode_id: u64| #[trigger]
            final(table).waiting_for(inode_id) == (if owns_one(
                old(table).locks_of(inode_id),
                pid,
            ) {
                Seq::empty()
            } else {
                old(table).waiting_for(inode_id)
            }),
{
    let ids = keys_of(&table.inodes);
    let mut woken: Vec<Pid> = Vec::new();
    let mut i: usize = 0;
    while i < ids.len()
        invariant
            i <= ids@.len(),
            keys::lists_keys(ids@, old(table).inodes@.dom()),
            old(table).wf() ==> table.wf(),
            woken@ == woken_by_exit(ids@.take(i as int), old(table).inodes@, pid),
            forall|inode_id: u64| #[trigger]
                table.locks_of(inode_id) == (if ids@.take(i as int).contains(inode_id) {
                    old(table).locks_of(inode_id).filter(not_owned_by(pid))
                } else {
                    old(table).locks_of(inode_id)
                }),
            forall|inode_id: u64| #[trigger]
                table.waiting_for(inode_id) == (if ids@.take(i as int).contains(inode_id)
                    && owns_one(old(table).locks_of(inode_id), pid) {
                    Seq::empty()
                } else {
                    old(table).waiting_for(inode_id)
                }),
        decreases ids.len() - i,
    {
        let ghost before = *table;
        let ghost done = ids@.take(i as int);
        let ghost id = ids@[i as int];
        proof {
            assert(ids@.contains(id));
            assert(ids@.take(i + 1) =~= done.push(id));
            assert(ids@.take(i + 1).drop_last() =~= done);
            assert(!done.contains(id)) by {
                if done.contains(id) {
                    let j = choose|j: int| 0 <= j < done.len() && done[j] == id;
                    assert(ids@[j] < ids@[i as int]);
                }
            }
        }
        let mut some = drop_owner_inode(table, pid, ids[i]);
        woken.append(&mut some);
        proof {
            assert(before.locks_of(id) == old(table).locks_of(id));
            assert forall|other: u64| other != id implies ids@.take(i + 1).contains(other)
                == #[trigger] done.contains(other) by {
                if done.contains(other) {
                    let j = choose|j: int| 0 <= j < done.len() && done[j] == other;
                    assert(ids@.take(i + 1)[j] == other);
                }
            }
            assert(ids@.take(i + 1)[i as int] == id);
            assert forall|other: u64| #[trigger]
                table.locks_of(other) == (if ids@.take(i + 1).contains(other) {
                    old(table).locks_of(other).filter(not_owned_by(pid))
                } else {
                    old(table).locks_of(other)
                }) by {
                if other != id {
                    assert(table.locks_of(other) == before.locks_of(other));
                    assert(ids@.take(i + 1).contains(other) == done.contains(other));
                }
            }
            assert forall|other: u64| #[trigger]
                table.waiting_for(other) == (if ids@.take(i + 1).contains(other) && owns_one(
                    old(table).locks_of(other),
                    pid,
                ) {
                    Seq::empty()
                } else {
                    old(table).waiting_for(other)
                }) by {
                if other != id {
                    assert(table.locks_of(other) == before.locks_of(other));
                    assert(table.waiting_for(other) == before.waiting_for(other));
                    assert(ids@.take(i + 1).contains(other) == done.contains(other));
                } else {
                    assert(before.waiting_for(id) == old(table).waiting_for(id));
                    assert(table.waiting_for(id) =~= table.waiting_for(id));
                }
            }
        }
        i += 1;
    }
    proof {
        assert(ids@.take(ids@.len() as int) =~= ids@);
        assert forall|other: u64| !ids@.contains(other) implies (#[trigger] old(table).locks_of(
            other,
        )).filter(not_owned_by(pid)) == old(table).locks_of(other) && !owns_one(
            old(table).locks_of(other),
            pid,
        ) by {
            assert(!old(table).inodes@.dom().contains(other));
            seqs::lemma_filter_len(Seq::<FileLock>::empty(), not_owned_by(pid));
            assert(old(table).locks_of(other).filter(not_owned_by(pid)) =~= Seq::empty());
        }
    }
    woken
}

/// Some lock of `owner` of the given kind covers the byte at `pos`.
pub open spec fn holds(s: Seq<FileLock>, owner: Pid, kind: u16, pos: u64) -> bool {
    exists|i: int|
        0 <= i < s.len() && (#[trigger] s[i]).owner == owner && s[i].kind == kind && s[i].start
            <= pos < s[i].end
}

proof fn lemma_remnants_cover(
    s: Seq<FileLock>,
    start: u64,
    end: u64,
    owner: Pid,
    k: int,
    pos: u64,
)
    requires
        0 <= k < s.len(),
        s[k].owner == owner,
        s[k].spec_overlaps(start, end),
        s[k].start <= pos < s[k].end,
        pos < start || end <= pos,
    ensures
        holds(remnants(s, start, end, owner), owner, s[k].kind, pos),
    decreases s.len(),
{
    let r = remnants(s, start, end, owner);
    let front = s.drop_last();
    let r0 = remnants(front, start, end, owner);
    if k == s.len() - 1 {
        let c = cut(s.last(), start, end, owner);
        let j = if pos < start {
            0
        } else {
            c.len() - 1
        };
        assert(c[j].start <= pos < c[j].end);
        assert(r[r0.len() + j] == c[j]);
    } else {
        lemma_remnants_cover(front, start, end, owner, k, pos);
        let j = choose|j: int|
            0 <= j < r0.len() && (#[trigger] r0[j]).owner == owner && r0[j].kind == s[k].kind
                && r0[j].start <= pos < r0[j].end;
        assert(r[j] == r0[j]);
    }
}

/// After an unlock the owner holds nothing in the range. Everywhere else it holds what
/// it held, and everybody else holds what they held.
pub proof fn law_unlock_frees_exactly_the_range(
    s: Seq<FileLock>,
    start: u64,
    end: u64,
    owner: Pid,
    who: Pid,
    kind: u16,
    pos: u64,
)
    ensures
        holds(released(s, start, end, owner), who, kind, pos) <==> (holds(s, who, kind, pos) && !(
        who == owner && start <= pos < end)),
{
    let r = released(s, start, end, owner);
    let kept = s.filter(untouched(start, end, owner));
    let rem = remnants(s, start, end, owner);
    lemma_released_origin(s, start, end, owner);
    let from = seqs::lemma_filter_origin(s, untouched(start, end, owner));
    if holds(r, who, kind, pos) {
        let i = choose|i: int|
            0 <= i < r.len() && (#[trigger] r[i]).owner == who && r[i].kind == kind && r[i].start
                <= pos < r[i].end;
        let k = choose|k: int| 0 <= k < s.len() && within(r[i], #[trigger] s[k]);
        assert(s[k].owner == who && s[k].kind == kind && s[k].start <= pos < s[k].end);
    }
    if holds(s, who, kind, pos) && !(who == owner && start <= pos < end) {
        let k = choose|k: int|
            0 <= k < s.len() && (#[trigger] s[k]).owner == who && s[k].kind == kind && s[k].start
                <= pos < s[k].end;
        if untouched(start, end, owner)(s[k]) {
            assert(from.contains(k));
            let j = choose|j: int| 0 <= j < from.len() && from[j] == k;
            assert(r[j] == kept[j] && kept[j] == s[k]);
        } else {
            lemma_remnants_cover(s, start, end, owner, k, pos);
            let j = choose|j: int|
                0 <= j < rem.len() && (#[trigger] rem[j]).owner == who && rem[j].kind == kind
                    && rem[j].start <= pos < rem[j].end;
            assert(r[kept.len() + j] == rem[j]);
        }
    }
}

/// A second unlocking of the same range changes nothing.
pub proof fn law_second_unlock_changes_nothing(
    s: Seq<FileLock>,
    start: u64,
    end: u64,
    owner: Pid,
)
    ensures
        released(released(s, start, end, owner), start, end, owner) == released(
            s,
            start,
            end,
            owner,
        ),
{
    let r = released(s, start, end, owner);
    lemma_released_origin(s, start, end, owner);
    assert forall|i: int| 0 <= i < r.len() implies untouched(start, end, owner)(#[trigger] r[i]) by {
    }
    seqs::lemma_filter_len(r, untouched(start, end, owner));
    lemma_nothing_to_cut(r, start, end, owner);
    assert(released(r, start, end, owner) =~= r);
}

proof fn lemma_nothing_to_cut(s: Seq<FileLock>, start: u64, end: u64, owner: Pid)
    requires
        forall|i: int| 0 <= i < s.len() ==> untouched(start, end, owner)(#[trigger] s[i]),
    ensures
        remnants(s, start, end, owner).len() == 0,
    decreases s.len(),
{
    if s.len() > 0 {
        let front = s.drop_last();
        assert forall|i: int| 0 <= i < front.len() implies untouched(start, end, owner)(
            #[trigger] front[i],
        ) by {
            assert(front[i] == s[i]);
        }
        lemma_nothing_to_cut(front, start, end, owner);
        assert(untouched(start, end, owner)(s[s.len() - 1]));
    }
}

/// Unlocking the middle of a lock leaves its two ends.
pub proof fn law_unlocking_the_middle_leaves_both_ends(lock: FileLock, start: u64, end: u64)
    requires
        lock.start < start < end < lock.end,
    ensures
        released(seq![lock], start, end, lock.owner) == seq![
            FileLock { end: start, ..lock },
            FileLock { start: end, ..lock },
        ],
{
    let none = Seq::<FileLock>::empty();
    let keep = untouched(start, end, lock.owner);
    seqs::lemma_filter_push(none, lock, keep);
    seqs::lemma_filter_len(none, keep);
    assert(none.push(lock) =~= seq![lock]);
    assert(seq![lock].drop_last() =~= none);
    assert(remnants(none, start, end, lock.owner) =~= none);
    assert(released(seq![lock], start, end, lock.owner) =~= seq![
        FileLock { end: start, ..lock },
        FileLock { start: end, ..lock },
    ]);
}

/// A lock where there was none is the only one.
pub proof fn law_first_lock_is_the_only_one(lock: FileLock)
    ensures
        first_conflict(Seq::empty(), lock) is None,
        acquired(Seq::empty(), lock) == seq![lock],
{
    let none = Seq::<FileLock>::empty();
    seqs::lemma_filter_len(none, untouched(lock.start, lock.end, lock.owner));
    assert(acquired(none, lock) =~= seq![lock]);
}

/// After a lock is taken its owner holds, on every byte of the range, that kind and no
/// other. Outside the range, and for everybody else, nothing has changed.
pub proof fn law_lock_covers_exactly_the_range(
    s: Seq<FileLock>,
    lock: FileLock,
    who: Pid,
    kind: u16,
    pos: u64,
)
    ensures
        holds(acquired(s, lock), who, kind, pos) <==> (if who == lock.owner && lock.start <= pos
            < lock.end {
            kind == lock.kind
        } else {
            holds(s, who, kind, pos)
        }),
{
    let r = released(s, lock.start, lock.end, lock.owner);
    let a = acquired(s, lock);
    law_unlock_frees_exactly_the_range(s, lock.start, lock.end, lock.owner, who, kind, pos);
    assert(a[r.len() as int] == lock);
    if holds(r, who, kind, pos) {
        let i = choose|i: int|
            0 <= i < r.len() && (#[trigger] r[i]).owner == who && r[i].kind == kind && r[i].start
                <= pos < r[i].end;
        assert(a[i] == r[i]);
    }
    if holds(a, who, kind, pos) {
        let i = choose|i: int|
            0 <= i < a.len() && (#[trigger] a[i]).owner == who && a[i].kind == kind && a[i].start
                <= pos < a[i].end;
        if i < r.len() {
            assert(a[i] == r[i]);
        }
    }
}

/// Two locks on a file that have a byte in common are read locks of two owners.
pub proof fn law_common_bytes_are_only_read(table: LockTable, inode_id: u64, i: int, j: int)
    requires
        table.wf(),
        0 <= i < table.locks_of(inode_id).len(),
        0 <= j < table.locks_of(inode_id).len(),
        i != j,
        ({
            let s = table.locks_of(inode_id);
            s[i].spec_overlaps(s[j].start, s[j].end)
        }),
    ensures
        ({
            let s = table.locks_of(inode_id);
            &&& s[i].owner != s[j].owner
            &&& s[i].kind == F_RDLCK
            &&& s[j].kind == F_RDLCK
        }),
{
    reveal(orderly);
    let s = table.locks_of(inode_id);
    assert(orderly(s));
    assert(!s[i].spec_conflicts(&s[j]));
}

/// Among locks that were granted, no byte that one process holds for writing is held
/// by another.
pub proof fn law_writer_is_alone(s: Seq<FileLock>, writer: Pid, other: Pid, kind: u16, pos: u64)
    requires
        compatible(s),
        holds(s, writer, F_WRLCK, pos),
        other != writer,
    ensures
        !holds(s, other, kind, pos),
{
    if holds(s, other, kind, pos) {
        let i = choose|i: int|
            0 <= i < s.len() && (#[trigger] s[i]).owner == writer && s[i].kind == F_WRLCK
                && s[i].start <= pos < s[i].end;
        let j = choose|j: int|
            0 <= j < s.len() && (#[trigger] s[j]).owner == other && s[j].kind == kind && s[j].start
                <= pos < s[j].end;
        assert(s[i].spec_conflicts(&s[j]));
    }
}

} // verus!
