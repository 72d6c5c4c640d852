//! Whole-file locks, owned by an open file description.

use std::collections::{BTreeMap, BTreeSet};

use vstd::prelude::*;

use crate::process_model::Pid;

verus! {

pub const LOCK_SH: u32 = 1;
pub const LOCK_EX: u32 = 2;
pub const LOCK_UN: u32 = 8;
pub const LOCK_NB: u32 = 4;

/// Who holds the lock on a file, by the keys of the open file descriptions.
pub enum FlockState {
    Unlocked,
    Shared(BTreeSet<u64>),
    Exclusive(u64),
}

/// Who holds the lock on a file.
pub enum Holders {
    Unlocked,
    Shared(Set<u64>),
    Exclusive(u64),
}

impl View for FlockState {
    type V = Holders;

    open spec fn view(&self) -> Holders {
        match self {
            FlockState::Unlocked => Holders::Unlocked,
            FlockState::Shared(keys) => Holders::Shared(keys@),
            FlockState::Exclusive(key) => Holders::Exclusive(*key),
        }
    }
}

impl FlockState {
    /// A shared lock has holders, so many that they can be counted.
    pub open spec fn wf(&self) -> bool {
        self matches FlockState::Shared(keys) ==> keys@.finite() && keys@.len() > 0
    }
}

/// The lock on one file, and the processes that wait for it.
pub struct InodeEntry {
    pub state: FlockState,
    pub waiters: Vec<Pid>,
}

/// The locks on all files, by inode id, and for each open file description with a lock
/// the file that it is on.
pub struct FlockTable {
    pub inodes: BTreeMap<u64, InodeEntry>,
    pub owned_by_ofd: BTreeMap<u64, u64>,
}

/// What became of a request.
#[derive(Clone, Copy, Debug, PartialEq, Eq, Structural)]
pub enum FlockOutcome {
    Acquired,
    Conflict,
    Released,
}

/// `key` is among the holders.
pub open spec fn is_held_by(h: Holders, key: u64) -> bool {
    match h {
        Holders::Unlocked => false,
        Holders::Shared(keys) => keys.contains(key),
        Holders::Exclusive(k) => k == key,
    }
}

/// The holders once `key` is not among them.
pub open spec fn released(h: Holders, key: u64) -> Holders {
    if !is_held_by(h, key) {
        h
    } else {
        match h {
            Holders::Shared(keys) => if keys.remove(key) == Set::<u64>::empty() {
                Holders::Unlocked
            } else {
                Holders::Shared(keys.remove(key))
            },
            _ => Holders::Unlocked,
        }
    }
}

/// What one request does: the new holders, the outcome, whether `key` is recorded as
/// the owner of a lock on this file (`None`: the record stays as it is), and whether
/// the waiting processes are woken.
pub struct Step {
    pub holders: Holders,
    pub outcome: FlockOutcome,
    pub record: Option<bool>,
    pub wake: bool,
}

/// A shared lock is granted unless another holds the file exclusively. The exclusive
/// holder's own request turns its lock into a shared one and lets others in.
pub open spec fn shared_step(h: Holders, key: u64) -> Step {
    match h {
        Holders::Unlocked => Step {
            holders: Holders::Shared(set![key]),
            outcome: FlockOutcome::Acquired,
            record: Some(true),
            wake: false,
        },
        Holders::Shared(keys) => Step {
            holders: Holders::Shared(keys.insert(key)),
            outcome: FlockOutcome::Acquired,
            record: Some(true),
            wake: false,
        },
        Holders::Exclusive(k) => if k == key {
            Step {
                holders: Holders::Shared(set![key]),
                outcome: FlockOutcome::Acquired,
                record: None,
                wake: true,
            }
        } else {
            Step { holders: h, outcome: FlockOutcome::Conflict, record: None, wake: false }
        },
    }
}

/// An exclusive lock is granted to whom nobody else stands in the way of. A shared
/// holder that is ready to wait gives its own lock up while it does.
pub open spec fn exclusive_step(h: Holders, key: u64, blocking: bool) -> Step {
    match h {
        Holders::Unlocked => Step {
            holders: Holders::Exclusive(key),
            outcome: FlockOutcome::Acquired,
            record: Some(true),
            wake: false,
        },
        Holders::Shared(keys) => if keys == set![key] {
            Step {
                holders: Holders::Exclusive(key),
                outcome: FlockOutcome::Acquired,
                record: None,
                wake: false,
            }
        } else if blocking && keys.contains(key) {
            Step {
                holders: released(h, key),
                outcome: FlockOutcome::Conflict,
                record: Some(false),
                wake: true,
            }
        } else {
            Step { holders: h, outcome: FlockOutcome::Conflict, record: None, wake: false }
        },
        Holders::Exclusive(k) => Step {
            holders: h,
            outcome: if k == key {
                FlockOutcome::Acquired
            } else {
                FlockOutcome::Conflict
            },
            record: None,
            wake: false,
        },
    }
}

/// What a request with operation `op` does. The bit `LOCK_NB` says that the caller will
/// not wait; without it the rest must be one of the three kinds.
pub open spec fn op_step(h: Holders, key: u64, op: u32) -> Step {
    let kind = op & !LOCK_NB;
    if kind == LOCK_UN {
        Step {
            holders: released(h, key),
            outcome: FlockOutcome::Released,
            record: Some(false),
            wake: is_held_by(h, key),
        }
    } else if kind == LOCK_SH {
        shared_step(h, key)
    } else if kind == LOCK_EX {
        exclusive_step(h, key, op & LOCK_NB == 0)
    } else {
        Step { holders: h, outcome: FlockOutcome::Conflict, record: None, wake: false }
    }
}

impl FlockTable {
    /// Who holds the lock on a file.
    pub open spec fn holders_of(&self, inode_id: u64) -> Holders {
        if self.inodes@.contains_key(inode_id) {
            self.inodes@[inode_id].state@
        } else {
            Holders::Unlocked
        }
    }

    /// The processes that wait for the lock on a file.
    pub open spec fn waiting_for(&self, inode_id: u64) -> Seq<Pid> {
        if self.inodes@.contains_key(inode_id) {
            self.inodes@[inode_id].waiters@
        } else {
            Seq::empty()
        }
    }

    pub open spec fn wf(&self) -> bool {
        forall|inode_id: u64| #[trigger]
            self.inodes@.contains_key(inode_id) ==> self.inodes@[inode_id].state.wf()
    }

    /// The record of who owns a lock on what says of every key exactly the one file
    /// that it holds a lock on.
    pub open spec fn records_agree(&self) -> bool {
        forall|inode_id: u64, key: u64| #[trigger]
            is_held_by(self.holders_of(inode_id), key) <==> (self.owned_by_ofd@.contains_key(key)
                && self.owned_by_ofd@[key] == inode_id)
    }

    /// `key` holds no lock on another file than this.
    pub open spec fn only_here(&self, inode_id: u64, key: u64) -> bool {
        self.owned_by_ofd@.contains_key(key) ==> self.owned_by_ofd@[key] == inode_id
    }

    /// The kind of lock that `key` holds.
    pub open spec fn kind_held(&self, key: u64) -> Option<u32> {
        if !self.owned_by_ofd@.contains_key(key) {
            None
        } else {
            match self.holders_of(self.owned_by_ofd@[key]) {
                Holders::Exclusive(k) if k == key => Some(LOCK_EX),
                Holders::Shared(keys) if keys.contains(key) => Some(LOCK_SH),
                _ => None,
            }
        }
    }

    /// All files but one are as they were.
    pub open spec fn same_but(&self, before: &FlockTable, inode_id: u64) -> bool {
        forall|other: u64|
            other != inode_id ==> #[trigger] self.holders_of(other) == before.holders_of(other)
                && self.waiting_for(other) == before.waiting_for(other)
    }

    /// A table without locks.
    pub fn new() -> (table: FlockTable)
        ensures
            table.wf(),
            table.records_agree(),
            forall|inode_id: u64| #[trigger] table.holders_of(inode_id) == Holders::Unlocked,
            forall|inode_id: u64| #[trigger] table.waiting_for(inode_id).len() == 0,
            table.inodes@ == Map::<u64, InodeEntry>::empty(),
            table.owned_by_ofd@ == Map::<u64, u64>::empty(),
    {
        FlockTable { inodes: BTreeMap::new(), owned_by_ofd: BTreeMap::new() }
    }
}

fn single(key: u64) -> (keys: BTreeSet<u64>)
    ensures
        keys@ == set![key],
{
    let mut keys: BTreeSet<u64> = BTreeSet::new();
    keys.insert(key);
    keys
}

/// Takes `key` out of the holders. Says whether it was one.
fn release_in_entry(state: FlockState, key: u64) -> (result: (FlockState, bool))
    requires
        state.wf(),
    ensures
        result.0.wf(),
        result.0@ == released(state@, key),
        result.1 == is_held_by(state@, key),
{
    match state {
        FlockState::Unlocked => (FlockState::Unlocked, false),
        FlockState::Shared(mut keys) => {
            let ghost before = keys@;
            let held = keys.remove(&key);
            assert(!before.contains(key) ==> before.remove(key) =~= before);
            if keys.is_empty() {
                (FlockState::Unlocked, held)
            } else {
                (FlockState::Shared(keys), held)
            }
        },
        FlockState::Exclusive(holder) => {
            if holder == key {
                (FlockState::Unlocked, true)
            } else {
                (FlockState::Exclusive(holder), false)
            }
        },
    }
}

/// A change of the lock on one file, before it is carried into the table.
struct Change {
    state: FlockState,
    outcome: FlockOutcome,
    record: Option<bool>,
    wake: bool,
}

impl Change {
    spec fn is(&self, step: Step) -> bool {
        &&& self.state.wf()
        &&& self.state@ == step.holders
        &&& self.outcome == step.outcome
        &&& self.record == step.record
        &&& self.wake == step.wake
    }
}

fn acquire_shared(state: FlockState, key: u64) -> (change: Change)
    requires
        state.wf(),
    ensures
        change.is(shared_step(state@, key)),
{
    match state {
        FlockState::Unlocked => Change {
            state: FlockState::Shared(single(key)),
            outcome: FlockOutcome::Acquired,
            record: Some(true),
            wake: false,
        },
        FlockState::Shared(mut keys) => {
            keys.insert(key);
            Change {
                state: FlockState::Shared(keys),
                outcome: FlockOutcome::Acquired,
                record: Some(true),
                wake: false,
            }
        },
        FlockState::Exclusive(holder) => {
            if holder == key {
                Change {
                    state: FlockState::Shared(single(key)),
                    outcome: FlockOutcome::Acquired,
                    record: None,
                    wake: true,
                }
            } else {
                Change {
                    state: FlockState::Exclusive(holder),
                    outcome: FlockOutcome::Conflict,
                    record: None,
                    wake: false,
                }
            }
        },
    }
}

fn acquire_exclusive(state: FlockState, key: u64, blocking: bool) -> (change: Change)
    requires
        state.wf(),
    ensures
        change.is(exclusive_step(state@, key, blocking)),
{
    match state {
        FlockState::Unlocked => Change {
            state: FlockState::Exclusive(key),
            outcome: FlockOutcome::Acquired,
            record: Some(true),
            wake: false,
        },
        FlockState::Shared(keys) => {
            proof {
                Set::lemma_is_singleton(keys@);
                if keys@.is_singleton() && keys@.contains(key) {
                    assert(keys@ =~= set![key]);
                }
            }
            if keys.len() == 1 && keys.contains(&key) {
                return Change {
                    state: FlockState::Exclusive(key),
                    outcome: FlockOutcome::Acquired,
                    record: None,
                    wake: false,
                };
            }
            if blocking && keys.contains(&key) {
                let (state, _held) = release_in_entry(FlockState::Shared(keys), key);
                Change { state, outcome: FlockOutcome::Conflict, record: Some(false), wake: true }
            } else {
                Change {
                    state: FlockState::Shared(keys),
                    outcome: FlockOutcome::Conflict,
                    record: None,
                    wake: false,
                }
            }
        },
        FlockState::Exclusive(holder) => Change {
            state: FlockState::Exclusive(holder),
            outcome: if holder == key {
                FlockOutcome::Acquired
            } else {
                FlockOutcome::Conflict
            },
            record: None,
            wake: false,
        },
    }
}

/// The record of owners after a step.
pub open spec fn recorded(
    owned: Map<u64, u64>,
    record: Option<bool>,
    inode_id: u64,
    key: u64,
) -> Map<u64, u64> {
    match record {
        None => owned,
        Some(true) => owned.insert(key, inode_id),
        Some(false) => owned.remove(key),
    }
}

/// A step changes the standing of no key but the one that asked, and its record says
/// truly whether that one holds the lock.
pub proof fn lemma_step_holders(h: Holders, key: u64, op: u32)
    ensures
        forall|k: u64|
            k != key ==> #[trigger] is_held_by(op_step(h, key, op).holders, k) == is_held_by(h, k),
        op_step(h, key, op).record matches Some(holds) ==> is_held_by(
            op_step(h, key, op).holders,
            key,
        ) == holds,
        op_step(h, key, op).record is None ==> is_held_by(op_step(h, key, op).holders, key)
            == is_held_by(h, key),
{
    lemma_released(h, key);
}

proof fn lemma_released(h: Holders, key: u64)
    ensures
        forall|k: u64| #[trigger]
            is_held_by(released(h, key), k) <==> (k != key && is_held_by(h, k)),
{
    if h is Shared {
        let keys = h->Shared_0;
        assert forall|k: u64| #[trigger] keys.contains(k) && k != key implies keys.remove(key)
            != Set::<u64>::empty() by {
            assert(keys.remove(key).contains(k));
        }
    }
}

/// Takes the record of a file out of the table, a fresh one where there was none.
fn take_inode(table: &mut FlockTable, inode_id: u64) -> (entry: InodeEntry)
    requires
        old(table).wf(),
    ensures
        final(table).owned_by_ofd == old(table).owned_by_ofd,
        final(table).inodes@ == old(table).inodes@.remove(inode_id),
        entry.state.wf(),
        entry.state@ == old(table).holders_of(inode_id),
        entry.waiters@ == old(table).waiting_for(inode_id),
{
    match table.inodes.remove(&inode_id) {
        Some(entry) => entry,
        None => InodeEntry { state: FlockState::Unlocked, waiters: Vec::new() },
    }
}

/// Carries out one request on the lock of a file. With the outcome come the processes
/// to wake.
pub fn try_op(
    table: &mut FlockTable,
    inode_id: u64,
    ofd_key: u64,
    op: u32,
) -> (result: (FlockOutcome, Vec<Pid>))
    requires
        old(table).wf(),
    ensures
        final(table).wf(),
        final(table).same_but(old(table), inode_id),
        ({
            let step = op_step(old(table).holders_of(inode_id), ofd_key, op);
            &&& final(table).holders_of(inode_id) == step.holders
            &&& final(table).owned_by_ofd@ == recorded(
                old(table).owned_by_ofd@,
                step.record,
                inode_id,
                ofd_key,
            )
            &&& result.0 == step.outcome
            &&& result.1@ == (if step.wake {
                old(table).waiting_for(inode_id)
            } else {
                Seq::empty()
            })
            &&& final(table).waiting_for(inode_id) == (if step.wake {
                Seq::empty()
            } else {
                old(table).waiting_for(inode_id)
            })
        }),
        forall|key: u64|
            key != ofd_key ==> #[trigger] final(table).kind_held(key) == old(table).kind_held(key),
        old(table).records_agree() && old(table).only_here(inode_id, ofd_key) ==> final(
            table).records_agree(),
{
    let kind: u32 = op & !LOCK_NB;
    let blocking = (op & LOCK_NB) == 0;
    let InodeEntry { state, waiters } = take_inode(table, inode_id);
    let change = if kind == LOCK_UN {
        let (state, held) = release_in_entry(state, ofd_key);
        Change { state, outcome: FlockOutcome::Released, record: Some(false), wake: held }
    } else if kind == LOCK_SH {
        acquire_shared(state, ofd_key)
    } else if kind == LOCK_EX {
        acquire_exclusive(state, ofd_key, blocking)
    } else {
        Change { state, outcome: FlockOutcome::Conflict, record: None, wake: false }
    };
    let ghost h = old(table).holders_of(inode_id);
    let ghost step = op_step(h, ofd_key, op);
    assert(change.is(step));
    let Change { state, outcome, record, wake } = change;
    let mut woken: Vec<Pid> = Vec::new();
    let mut waiters = waiters;
    if wake {
        woken.append(&mut waiters);
    }
    match record {
        None => {},
        Some(true) => {
            let _ = table.owned_by_ofd.insert(ofd_key, inode_id);
        },
        Some(false) => {
            let _ = table.owned_by_ofd.remove(&ofd_key);
        },
    }
    table.inodes.insert(inode_id, InodeEntry { state, waiters });
    proof {
        lemma_step_holders(h, ofd_key, op);
        assert forall|key: u64| key != ofd_key implies #[trigger] table.kind_held(key) == old(
            table).kind_held(key) by {
            assert(is_held_by(step.holders, key) == is_held_by(h, key));
            if table.owned_by_ofd@.contains_key(key) {
                let i = table.owned_by_ofd@[key];
                if i != inode_id {
                    assert(table.holders_of(i) == old(table).holders_of(i));
                }
            }
        }
        if old(table).records_agree() && old(table).only_here(inode_id, ofd_key) {
            assert forall|i: u64, key: u64| #[trigger]
                is_held_by(table.holders_of(i), key) <==> (table.owned_by_ofd@.contains_key(key)
                    && table.owned_by_ofd@[key] == i) by {
                assert(is_held_by(old(table).holders_of(i), key) <==> (
                old(table).owned_by_ofd@.contains_key(key) && old(table).owned_by_ofd@[key] == i));
                if i != inode_id {
                    assert(table.holders_of(i) == old(table).holders_of(i));
                }
            }
        }
    }
    (outcome, woken)
}

/// The table once `key` is gone, and the processes that are woken: what unlocking leaves, on the
/// file that it held a lock on. Everybody else holds what they held.
pub open spec fn dropped(before: FlockTable, after: FlockTable, key: u64, woken: Seq<Pid>) -> bool {
    &&& after.owned_by_ofd@ == before.owned_by_ofd@.remove(key)
    &&& !before.owned_by_ofd@.contains_key(key) ==> after.inodes@ == before.inodes@ && woken.len()
        == 0
    &&& before.owned_by_ofd@.contains_key(key) ==> {
        let inode_id = before.owned_by_ofd@[key];
        let step = op_step(before.holders_of(inode_id), key, LOCK_UN);
        &&& after.same_but(&before, inode_id)
        &&& after.holders_of(inode_id) == step.holders
        &&& woken == (if step.wake {
            before.waiting_for(inode_id)
        } else {
            Seq::empty()
        })
        &&& after.waiting_for(inode_id) == (if step.wake {
            Seq::empty()
        } else {
            before.waiting_for(inode_id)
        })
    }
    &&& after.kind_held(key) is None
    &&& forall|other: u64|
        other != key ==> #[trigger] after.kind_held(other) == before.kind_held(other)
    &&& before.records_agree() ==> after.records_agree()
}

/// Gives up the lock of an open file description that is going away, and returns the
/// processes to wake.
pub fn drop_ofd(table: &mut FlockTable, ofd_key: u64) -> (woken: Vec<Pid>)
    requires
        old(table).wf(),
    ensures
        final(table).wf(),
        dropped(*old(table), *final(table), ofd_key, woken@),
{
    let inode_id: u64 = match table.owned_by_ofd.remove(&ofd_key) {
        Some(id) => id,
        None => {
            proof {
                assert(table.owned_by_ofd@ =~= old(table).owned_by_ofd@);
                if old(table).records_agree() {
                    assert forall|i: u64, key: u64| #[trigger]
                        is_held_by(table.holders_of(i), key) <==> (
                        table.owned_by_ofd@.contains_key(key) && table.owned_by_ofd@[key] == i) by {
                        assert(is_held_by(old(table).holders_of(i), key) <==> (
                        old(table).owned_by_ofd@.contains_key(key) && old(table).owned_by_ofd@[key]
                            == i));
                    }
                }
            }
            return Vec::new();
        },
    };
    let InodeEntry { state, waiters } = take_inode(table, inode_id);
    let (state, held) = release_in_entry(state, ofd_key);
    let mut woken: Vec<Pid> = Vec::new();
    let mut waiters = waiters;
    if held {
        woken.append(&mut waiters);
    }
    table.inodes.insert(inode_id, InodeEntry { state, waiters });
    proof {
        assert(LOCK_UN & !LOCK_NB == LOCK_UN) by (bit_vector);
        let h = old(table).holders_of(inode_id);
        lemma_released(h, ofd_key);
        assert forall|key: u64| key != ofd_key implies #[trigger] table.kind_held(key) == old(
            table).kind_held(key) by {
            assert(is_held_by(released(h, ofd_key), key) == is_held_by(h, key));
            if table.owned_by_ofd@.contains_key(key) {
                let i = table.owned_by_ofd@[key];
                if i != inode_id {
                    assert(table.holders_of(i) == old(table).holders_of(i));
                }
            }
        }
        if old(table).records_agree() {
            assert forall|i: u64, key: u64| #[trigger]
                is_held_by(table.holders_of(i), key) <==> (table.owned_by_ofd@.contains_key(key)
                    && table.owned_by_ofd@[key] == i) by {
                assert(is_held_by(old(table).holders_of(i), key) <==> (
                old(table).owned_by_ofd@.contains_key(key) && old(table).owned_by_ofd@[key] == i));
                if i != inode_id {
                    assert(table.holders_of(i) == old(table).holders_of(i));
                }
            }
        }
    }
    woken
}

/// The processes that wait for the lock on a file.
pub fn waiters_for(table: &FlockTable, inode_id: u64) -> (waiters: Vec<Pid>)
    ensures
        waiters@ == table.waiting_for(inode_id),
{
    match table.inodes.get(&inode_id) {
        Some(entry) => {
            let waiters = entry.waiters.clone();
            assert(waiters@ =~= entry.waiters@);
            waiters
        },
        None => Vec::new(),
    }
}

/// Puts `pid` at the end of the processes that wait for the lock on a file.
pub fn enqueue_waiter(table: &mut FlockTable, inode_id: u64, pid: Pid)
    requires
        old(table).wf(),
    ensures
        final(table).wf(),
        final(table).same_but(old(table), inode_id),
        final(table).owned_by_ofd == old(table).owned_by_ofd,
        final(table).holders_of(inode_id) == old(table).holders_of(inode_id),
        final(table).waiting_for(inode_id) == old(table).waiting_for(inode_id).push(pid),
{
    let InodeEntry { state, mut waiters } = take_inode(table, inode_id);
    waiters.push(pid);
    table.inodes.insert(inode_id, InodeEntry { state, waiters });
}

/// The kind of lock that an open file description holds.
pub fn held_kind(table: &FlockTable, ofd_key: u64) -> (kind: Option<u32>)
    ensures
        kind == table.kind_held(ofd_key),
{
    let inode_id: u64 = match table.owned_by_ofd.get(&ofd_key) {
        Some(id) => *id,
        None => return None,
    };
    match table.inodes.get(&inode_id) {
        None => None,
        Some(entry) => match &entry.state {
            FlockState::Unlocked => None,
            FlockState::Exclusive(holder) => if *holder == ofd_key {
                Some(LOCK_EX)
            } else {
                None
            },
            FlockState::Shared(keys) => if keys.contains(&ofd_key) {
                Some(LOCK_SH)
            } else {
                None
            },
        },
    }
}

/// An exclusive lock shuts everybody else out.
pub proof fn law_exclusive_excludes(h: Holders, holder: u64, other: u64, op: u32)
    requires
        h == Holders::Exclusive(holder),
        other != holder,
        op & !LOCK_NB == LOCK_SH || op & !LOCK_NB == LOCK_EX,
    ensures
        op_step(h, other, op).outcome == FlockOutcome::Conflict,
        op_step(h, other, op).holders == h,
{
}

/// Who has given a lock up does not hold it, and the others hold what they held.
pub proof fn law_unlock_releases(h: Holders, key: u64, op: u32)
    requires
        op & !LOCK_NB == LOCK_UN,
    ensures
        op_step(h, key, op).outcome == FlockOutcome::Released,
        forall|k: u64| #[trigger]
            is_held_by(op_step(h, key, op).holders, k) <==> (k != key && is_held_by(h, k)),
{
    lemma_released(h, key);
}

/// Closing leaves what unlocking would leave, and wakes whom unlocking would wake.
pub proof fn law_closing_unlocks(h: Holders, key: u64, op: u32)
    requires
        op & !LOCK_NB == LOCK_UN,
    ensures
        op_step(h, key, op) == op_step(h, key, LOCK_UN),
        op_step(h, key, op).holders == released(h, key),
        op_step(h, key, op).wake == is_held_by(h, key),
        op_step(h, key, op).record == Some(false),
{
    assert(LOCK_UN & !LOCK_NB == LOCK_UN) by (bit_vector);
}

/// Where one open file holds a file exclusively, no other holds any lock on it.
pub proof fn law_exclusive_holder_is_alone(table: FlockTable, key: u64, other: u64)
    requires
        table.kind_held(key) == Some(LOCK_EX),
        other != key,
        table.owned_by_ofd@.contains_key(other),
        table.owned_by_ofd@[other] == table.owned_by_ofd@[key],
    ensures
        table.kind_held(other) is None,
        !is_held_by(table.holders_of(table.owned_by_ofd@[key]), other),
{
}

/// A request of no known kind is refused and changes nothing.
pub proof fn law_unknown_request_changes_nothing(h: Holders, key: u64, op: u32)
    requires
        op & !LOCK_NB != LOCK_SH,
        op & !LOCK_NB != LOCK_EX,
        op & !LOCK_NB != LOCK_UN,
    ensures
        op_step(h, key, op) == (Step {
            holders: h,
            outcome: FlockOutcome::Conflict,
            record: None,
            wake: false,
        }),
{
}

/// A granted request is held.
pub proof fn law_acquired_is_held(h: Holders, key: u64, op: u32)
    ensures
        op_step(h, key, op).outcome == FlockOutcome::Acquired ==> is_held_by(
            op_step(h, key, op).holders,
            key,
        ),
{
}

} // verus!
