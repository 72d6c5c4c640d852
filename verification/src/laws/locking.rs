//! Locks on files, and the commands on descriptors that ask for them.

use vstd::prelude::*;

use super::bits;
use super::layout;
use crate::bytes;
use crate::process_model::Pid;
use crate::syscall::fs::locks;
use crate::syscall::fs::locks::{FcntlFile, FcntlStep, LockHow};
use crate::vfs::locks::bsd;
use crate::vfs::locks::bsd::{FlockOutcome, FlockTable, Holders};
use crate::vfs::locks::posix;
use crate::vfs::locks::posix::{FileLock, InodeLocks};

verus! {

/// The commands on an open file, by their numbers.
pub proof fn law_commands_on_an_open_file(file: FcntlFile, arg: u64)
    ensures
        locks::fcntl_on(file, 3, arg) == FcntlStep::Done(file.flags.bits as i64),
        locks::fcntl_on(file, 4, arg) == FcntlStep::SetFlags((arg % 0x1_0000_0000) as u32),
        locks::fcntl_on(file, 1032, arg) == FcntlStep::Done(
            if file.pipe is Some {
                file.pipe->0 as i64
            } else {
                -22i64
            },
        ),
        locks::fcntl_on(file, 1031, arg) == (if file.pipe is Some {
            FcntlStep::ResizePipe(arg)
        } else {
            FcntlStep::Done(-22i64)
        }),
        locks::fcntl_on(file, 1034, arg) == FcntlStep::Done(
            if file.seals is Some {
                file.seals->0 as i64
            } else {
                -22i64
            },
        ),
        locks::fcntl_on(file, 1033, arg) == (FcntlStep::AddSeals {
            seals: (arg % 0x1_0000_0000) as u32,
            check_mappings: (arg / 8) % 2 == 1,
        }),
        forall|cmd: u64|
            #![trigger locks::fcntl_on(file, cmd, arg)]
            {
                let asked = locks::fcntl_on(file, cmd, arg);
                &&& cmd == 5 || cmd == 36 ==> asked == lock(file, LockHow::Ask)
                &&& cmd == 6 || cmd == 37 ==> asked == lock(file, LockHow::Try)
                &&& cmd == 7 || cmd == 38 ==> asked == lock(file, LockHow::Wait)
                &&& 8 <= cmd < 36 || 38 < cmd < 1031 || cmd > 1034 ==> asked == FcntlStep::Done(
                    -22i64,
                )
            },
        forall|cmd: u64| #[trigger]
            locks::is_command(cmd) == (cmd <= 7 || 36 <= cmd <= 38 || 1030 <= cmd <= 1034),
{
    bits::lemma_low_parts(arg);
    bits::lemma_flock_bits(arg as u32);
}

/// A lock is asked for in the file, which is this long and stands there.
pub open spec fn lock(file: FcntlFile, how: LockHow) -> FcntlStep {
    FcntlStep::Lock { how, inode: file.inode, offset: file.offset, size: file.size }
}

/// A range of a file is locked from the start of the file, from where it stands or from its end,
/// by the number that it comes with; a length of none is all that follows.
pub proof fn law_ranges_count_from_start_offset_or_end(b: Seq<u8>, offset: u64, size: u64)
    requires
        offset <= i64::MAX,
        size <= i64::MAX,
    ensures
        ({
            let whence = bytes::le16(b, 2);
            let by = bytes::le64(b, 8) as i64;
            let len = bytes::le64(b, 16) as i64;
            let from = by + (if whence == 0 {
                0
            } else if whence == 1 {
                offset as int
            } else {
                size as int
            });
            let r = locks::range_in(b, offset, size);
            &&& whence > 2 || from < 0 || len < 0 ==> r == Err::<(u16, u64, u64), i64>(-22i64)
            &&& whence <= 2 && 0 <= from <= i64::MAX && len >= 0 ==> r == Ok::<
                (u16, u64, u64),
                i64,
            >(
                (
                    bytes::le16(b, 0),
                    from as u64,
                    if len == 0 {
                        0xffff_ffff_ffff_ffff
                    } else {
                        (from + len) as u64
                    },
                ),
            )
        }),
{
}

/// The lock that is in the way is told in the place of the one asked about: its kind, its range,
/// and who holds it. Where none is, only the kind is changed, to that of no lock.
pub proof fn law_lock_in_the_way_is_told(b: Seq<u8>, other: FileLock)
    requires
        b.len() == 32,
        other.start <= other.end,
    ensures
        ({
            let s = locks::conflict_told(b, Some(other));
            &&& s.len() == 32
            &&& bytes::le16(s, 0) == other.kind
            &&& bytes::le16(s, 2) == 0
            &&& bytes::le64(s, 8) == other.start
            &&& other.end < u64::MAX ==> bytes::le64(s, 16) == other.end - other.start
            &&& other.end == u64::MAX ==> bytes::le64(s, 16) == 0
            &&& bytes::le32(s, 24) == other.owner.0
        }),
        ({
            let s = locks::conflict_told(b, None);
            &&& s.len() == 32
            &&& bytes::le16(s, 0) == 2
            &&& s.skip(2) == b.skip(2)
        }),
{
    let len = if other.end == u64::MAX {
        0u64
    } else {
        (other.end - other.start) as u64
    };
    let none = Seq::<u8>::empty();
    let s0 = bytes::put16(other.kind);
    layout::lemma_put(none, 0, 0, other.kind);
    assert(none + s0 =~= s0);
    let s1 = s0 + bytes::put16(0);
    layout::lemma_put(s0, 0, 0, 0);
    layout::lemma_behind(s0, bytes::put16(0));
    let s2 = s1 + b.subrange(4, 8);
    layout::lemma_behind(s1, b.subrange(4, 8));
    let s3 = s2 + bytes::put64(other.start);
    layout::lemma_put64(s2, other.start);
    layout::lemma_behind(s2, bytes::put64(other.start));
    let s4 = s3 + bytes::put64(len);
    layout::lemma_put64(s3, len);
    layout::lemma_behind(s3, bytes::put64(len));
    let s5 = s4 + bytes::put32(other.owner.0);
    layout::lemma_put32(s4, other.owner.0);
    layout::lemma_behind(s4, bytes::put32(other.owner.0));
    layout::lemma_behind(s5, b.skip(28));
    let t0 = bytes::put16(2);
    layout::lemma_put(none, 0, 0, 2);
    assert(none + t0 =~= t0);
    layout::lemma_behind(t0, b.skip(2));
    assert((t0 + b.skip(2)).skip(2) =~= b.skip(2));
}

/// Two locks are in each other's way where different processes hold them, some byte lies in both,
/// and one of them is for writing.
pub proof fn law_locks_in_each_others_way(a: FileLock, b: FileLock)
    requires
        a.start < a.end,
        b.start < b.end,
    ensures
        a.spec_conflicts(&b) == (a.owner != b.owner && (a.kind == 1 || b.kind == 1) && exists|
            pos: u64,
        |
            #![trigger is_covered(a, pos)]
            is_covered(a, pos) && is_covered(b, pos)),
        a.spec_conflicts(&b) == b.spec_conflicts(&a),
{
    if a.spec_conflicts(&b) {
        let pos = if a.start < b.start {
            b.start
        } else {
            a.start
        };
        assert(is_covered(a, pos) && is_covered(b, pos));
    }
}

/// A byte lies in a lock.
pub open spec fn is_covered(l: FileLock, pos: u64) -> bool {
    l.start <= pos < l.end
}

/// A lock is given where no other is in its way; the numbers are `0` for reading, `1` for writing
/// and `2` for no lock.
pub proof fn law_lock_is_tried(
    before: Seq<FileLock>,
    owner: Pid,
    b: Seq<u8>,
    offset: u64,
    size: u64,
    start: u64,
    end: u64,
)
    requires
        locks::range_in(b, offset, size) == Ok::<(u16, u64, u64), i64>(
            (bytes::le16(b, 0), start, end),
        ),
    ensures
        ({
            let kind = bytes::le16(b, 0);
            let r = locks::lock_tried(before, owner, Some(b), offset, size);
            let asked = FileLock { kind, start, end, owner };
            let in_the_way = exists|i: int|
                0 <= i < before.len() && (#[trigger] before[i]).spec_conflicts(&asked);
            &&& kind == 2 ==> r == Ok::<Option<Seq<FileLock>>, i64>(
                Some(posix::released(before, start, end, owner)),
            )
            &&& kind > 2 ==> r == Err::<Option<Seq<FileLock>>, i64>(-22i64)
            &&& kind < 2 && in_the_way ==> r == Ok::<Option<Seq<FileLock>>, i64>(None)
            &&& kind < 2 && !in_the_way ==> r == Ok::<Option<Seq<FileLock>>, i64>(
                Some(posix::acquired(before, asked)),
            )
            &&& locks::lock_tried(before, owner, None, offset, size) == Err::<
                Option<Seq<FileLock>>,
                i64,
            >(-14i64)
        }),
{
    let asked = FileLock { kind: bytes::le16(b, 0), start, end, owner };
    lemma_first_conflict(before, asked);
}

proof fn lemma_first_conflict(s: Seq<FileLock>, probe: FileLock)
    ensures
        posix::first_conflict(s, probe) is Some == (exists|i: int|
            0 <= i < s.len() && (#[trigger] s[i]).spec_conflicts(&probe)),
    decreases s.len(),
{
    if s.len() > 0 {
        lemma_first_conflict(s.skip(1), probe);
        if s[0].spec_conflicts(&probe) {
        } else if posix::first_conflict(s.skip(1), probe) is Some {
            let i = choose|i: int|
                0 <= i < s.skip(1).len() && (#[trigger] s.skip(1)[i]).spec_conflicts(&probe);
            assert(s[i + 1].spec_conflicts(&probe));
        } else if exists|i: int| 0 <= i < s.len() && (#[trigger] s[i]).spec_conflicts(&probe) {
            let i = choose|i: int| 0 <= i < s.len() && (#[trigger] s[i]).spec_conflicts(&probe);
            assert(s.skip(1)[i - 1].spec_conflicts(&probe));
        }
    }
}

/// A whole file is shared by the number `1`, taken alone by `2` and let go by `8`, with `4` added
/// or not.
pub proof fn law_numbers_of_whole_file_locks(op: u32)
    ensures
        locks::flock_asked(op) == (op == 1 || op == 2 || op == 8 || op == 5 || op == 6 || op == 12),
{
    bits::lemma_flock_bits(op);
}

/// Some other than `key` holds the file.
pub open spec fn is_held_by_another(h: Holders, key: u64) -> bool {
    exists|other: u64| other != key && #[trigger] bsd::is_held_by(h, other)
}

/// To share a file is possible unless another has it alone. Then it is shared with those who
/// shared it before.
pub proof fn law_file_is_shared(h: Holders, key: u64, op: u32, other: u64)
    requires
        op == 1 || op == 5,
        other != key,
    ensures
        ({
            let step = bsd::op_step(h, key, op);
            let taken = h is Exclusive && h != Holders::Exclusive(key);
            &&& taken ==> step.outcome == FlockOutcome::Conflict && step.holders == h
            &&& !taken ==> step.outcome == FlockOutcome::Acquired && step.holders is Shared
                && bsd::is_held_by(step.holders, key)
            &&& bsd::is_held_by(step.holders, other) == bsd::is_held_by(h, other)
        }),
{
    bits::lemma_flock_bits(op);
}

/// To have a file alone is possible where no other holds it. Who waits for that gives up a share.
pub proof fn law_file_is_taken_alone(h: Holders, key: u64, op: u32, other: u64)
    requires
        op == 2 || op == 6,
        other != key,
        h matches Holders::Shared(keys) ==> keys.finite() && keys.len() > 0,
    ensures
        ({
            let step = bsd::op_step(h, key, op);
            &&& !is_held_by_another(h, key) ==> step.outcome == FlockOutcome::Acquired
                && step.holders == Holders::Exclusive(key)
            &&& is_held_by_another(h, key) ==> step.outcome == FlockOutcome::Conflict
            &&& is_held_by_another(h, key) && op == 6 ==> step.holders == h
            &&& is_held_by_another(h, key) && op == 2 ==> !bsd::is_held_by(step.holders, key)
            &&& bsd::is_held_by(step.holders, other) == bsd::is_held_by(h, other)
        }),
{
    bits::lemma_flock_bits(op);
    match h {
        Holders::Unlocked => {
            assert(!is_held_by_another(h, key)) by {
                if is_held_by_another(h, key) {
                    let o = choose|o: u64| o != key && #[trigger] bsd::is_held_by(h, o);
                }
            }
        },
        Holders::Exclusive(k) => {
            if k != key {
                assert(bsd::is_held_by(h, k));
            } else if is_held_by_another(h, key) {
                let o = choose|o: u64| o != key && #[trigger] bsd::is_held_by(h, o);
            }
        },
        Holders::Shared(keys) => {
            if keys == set![key] {
                if is_held_by_another(h, key) {
                    let o = choose|o: u64| o != key && #[trigger] bsd::is_held_by(h, o);
                    assert(keys.contains(o));
                }
            } else {
                assert(is_held_by_another(h, key)) by {
                    if !is_held_by_another(h, key) {
                        assert forall|k: u64| keys.contains(k) implies k == key by {
                            assert(bsd::is_held_by(h, k));
                        }
                        let first = keys.choose();
                        assert(keys.contains(first)) by {
                            if keys =~= Set::empty() {
                                assert(keys.len() == 0);
                            }
                        }
                        assert(keys =~= set![key]);
                    }
                }
                if keys.contains(key) {
                    let o = choose|o: u64| o != key && #[trigger] bsd::is_held_by(h, o);
                    assert(keys.remove(key).contains(o));
                    assert(keys.remove(key) != Set::<u64>::empty());
                }
            }
        },
    }
}

/// Who lets go of a file no longer holds it, and nobody else loses it.
pub proof fn law_file_is_let_go(h: Holders, key: u64, op: u32, other: u64)
    requires
        op == 8 || op == 12,
        other != key,
    ensures
        ({
            let step = bsd::op_step(h, key, op);
            &&& step.outcome == FlockOutcome::Released
            &&& !bsd::is_held_by(step.holders, key)
            &&& bsd::is_held_by(step.holders, other) == bsd::is_held_by(h, other)
            &&& step.wake == bsd::is_held_by(h, key)
        }),
{
    bits::lemma_flock_bits(op);
    if let Holders::Shared(keys) = h {
        if keys.contains(key) && keys.contains(other) {
            assert(keys.remove(key).contains(other));
            assert(keys.remove(key) != Set::<u64>::empty());
        }
    }
}

/// Who ends loses all locks, and others keep theirs.
pub proof fn law_locks_end_with_their_owner(s: Seq<FileLock>, pid: Pid, lock: FileLock)
    ensures
        s.filter(posix::not_owned_by(pid)).contains(lock) <==> s.contains(lock) && lock.owner != pid,
        posix::owns_one(s, pid) <==> exists|l: FileLock| #[trigger] s.contains(l) && l.owner == pid,
{
    let keep = posix::not_owned_by(pid);
    let left = s.filter(keep);
    if left.contains(lock) {
        let i = choose|i: int| 0 <= i < left.len() && left[i] == lock;
        s.lemma_filter_contains_rev(keep, lock);
        s.lemma_filter_pred(keep, i);
    }
    if s.contains(lock) && lock.owner != pid {
        let i = choose|i: int| 0 <= i < s.len() && s[i] == lock;
        assert(keep(s[i]));
        s.lemma_filter_contains(keep, i);
    }
    if posix::owns_one(s, pid) {
        let i = choose|i: int| 0 <= i < s.len() && (#[trigger] s[i]).owner == pid;
        assert(s.contains(s[i]));
    }
    if exists|l: FileLock| #[trigger] s.contains(l) && l.owner == pid {
        let l = choose|l: FileLock| #[trigger] s.contains(l) && l.owner == pid;
        let i = choose|i: int| 0 <= i < s.len() && s[i] == l;
        assert(s[i].owner == pid);
    }
}

/// Those are woken by an end who wait for a file of which a lock is lost.
pub proof fn law_end_wakes_who_waits(
    ids: Seq<u64>,
    files: Map<u64, InodeLocks>,
    pid: Pid,
    waiter: Pid,
)
    ensures
        posix::woken_by_exit(ids, files, pid).contains(waiter) <==> exists|i: int|
            0 <= i < ids.len() && posix::owns_one(files[#[trigger] ids[i]].locks@, pid)
                && files[ids[i]].waiters@.contains(waiter),
    decreases ids.len(),
{
    if ids.len() > 0 {
        let front = ids.drop_last();
        law_end_wakes_who_waits(front, files, pid, waiter);
        let a = posix::woken_by_exit(front, files, pid);
        let b = if posix::owns_one(files[ids.last()].locks@, pid) {
            files[ids.last()].waiters@
        } else {
            Seq::<Pid>::empty()
        };
        let all = a + b;
        assert(posix::woken_by_exit(ids, files, pid) == all);
        if a.contains(waiter) {
            let k = choose|k: int| 0 <= k < a.len() && a[k] == waiter;
            assert(all[k] == waiter);
        }
        if b.contains(waiter) {
            let k = choose|k: int| 0 <= k < b.len() && b[k] == waiter;
            assert(all[a.len() + k] == waiter);
            assert(ids[ids.len() - 1] == ids.last());
        }
        if all.contains(waiter) {
            let k = choose|k: int| 0 <= k < all.len() && all[k] == waiter;
            if k < a.len() {
                assert(a[k] == waiter);
                let i = choose|i: int|
                    0 <= i < front.len() && posix::owns_one(files[#[trigger] front[i]].locks@, pid)
                        && files[front[i]].waiters@.contains(waiter);
                assert(ids[i] == front[i]);
            } else {
                assert(b[k - a.len()] == waiter);
                assert(ids[ids.len() - 1] == ids.last());
            }
        }
        if exists|i: int|
            0 <= i < ids.len() && posix::owns_one(files[#[trigger] ids[i]].locks@, pid)
                && files[ids[i]].waiters@.contains(waiter) {
            let i = choose|i: int|
                0 <= i < ids.len() && posix::owns_one(files[#[trigger] ids[i]].locks@, pid)
                    && files[ids[i]].waiters@.contains(waiter);
            if i < front.len() {
                assert(front[i] == ids[i]);
            }
        }
    }
}

/// It is recorded which file an opening has taken, until it lets go.
pub proof fn law_taken_file_is_recorded(owned: Map<u64, u64>, inode: u64, key: u64, other: u64)
    ensures
        bsd::recorded(owned, None, inode, key) == owned,
        bsd::recorded(owned, Some(true), inode, key).contains_key(key),
        bsd::recorded(owned, Some(true), inode, key)[key] == inode,
        !bsd::recorded(owned, Some(false), inode, key).contains_key(key),
        forall|r: Option<bool>|
            other != key ==> (#[trigger] bsd::recorded(owned, r, inode, key)).contains_key(other)
                == owned.contains_key(other) && (owned.contains_key(other) ==> bsd::recorded(
                owned,
                r,
                inode,
                key,
            )[other] == owned[other]),
{
}

/// A closed opening holds nothing any more; what others hold stays, and a file that becomes free
/// wakes who waits for it.
pub proof fn law_closed_opening_lets_go(
    before: FlockTable,
    after: FlockTable,
    key: u64,
    woken: Seq<Pid>,
    other: u64,
)
    requires
        bsd::dropped(before, after, key, woken),
        before.records_agree(),
    ensures
        after.kind_held(key) is None,
        other != key ==> after.kind_held(other) == before.kind_held(other),
        !before.owned_by_ofd@.contains_key(key) ==> woken.len() == 0,
        before.owned_by_ofd@.contains_key(key) ==> !bsd::is_held_by(
            after.holders_of(before.owned_by_ofd@[key]),
            key,
        ),
{
    if before.owned_by_ofd@.contains_key(key) {
        assert(after.records_agree());
        assert(!after.owned_by_ofd@.contains_key(key));
    }
}

/// Others are woken where a hold is given up or weakened, and it is recorded what is held.
pub proof fn law_weaker_hold_wakes(h: Holders, key: u64, op: u32)
    requires
        op == 1 || op == 5 || op == 2 || op == 6 || op == 8 || op == 12,
        h matches Holders::Shared(keys) ==> keys.finite() && keys.len() > 0,
    ensures
        ({
            let step = bsd::op_step(h, key, op);
            let held = bsd::is_held_by(h, key);
            let holds = bsd::is_held_by(step.holders, key);
            &&& op % 4 == 1 ==> step.wake == (h == Holders::Exclusive(key))
            &&& op % 4 == 2 ==> step.wake == (held && !holds)
            &&& op % 4 == 0 ==> step.wake == held
            &&& holds == (match step.record {
                Some(now) => now,
                None => held,
            })
        }),
{
    bits::lemma_flock_bits(op);
    if op == 2 || op == 6 {
        law_file_is_taken_alone(h, key, op, (if key == 0 {
            1u64
        } else {
            0u64
        }));
        if let Holders::Shared(keys) = h {
            if keys == set![key] {
                assert(keys.contains(key));
            }
        }
    }
    if op == 8 || op == 12 {
        law_file_is_let_go(h, key, op, (if key == 0 {
            1u64
        } else {
            0u64
        }));
    }
}

} // verus!
