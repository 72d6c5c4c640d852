//! The deadline queues: when to wake a sleeping process, and when to run a callback.

use vstd::prelude::*;

use crate::process_model::Pid;
use crate::seqs;

verus! {

/// The deadlines of sleeping processes, earliest first.
pub struct Deadlines {
    pub entries: Vec<(u64, Pid)>,
}

/// No entry is due before the one in front of it.
pub open spec fn ascending(s: Seq<(u64, Pid)>) -> bool {
    forall|i: int, j: int| 0 <= i <= j < s.len() ==> (#[trigger] s[i]).0 <= (#[trigger] s[j]).0
}

/// No process has two entries.
pub open spec fn one_per_pid(s: Seq<(u64, Pid)>) -> bool {
    forall|i: int, j: int|
        0 <= i < j < s.len() ==> (#[trigger] s[i]).1 != (#[trigger] s[j]).1
}

/// Says of an entry that it is not one of `pid`.
pub open spec fn other_than(pid: Pid) -> spec_fn((u64, Pid)) -> bool {
    |e: (u64, Pid)| e.1 != pid
}

/// The queue without the entries of `pid`.
pub open spec fn without_pid(s: Seq<(u64, Pid)>, pid: Pid) -> Seq<(u64, Pid)> {
    s.filter(other_than(pid))
}

/// `after` is `before` with `entry` put in where the order allows it. Between entries
/// with an equal deadline the place is left open.
pub open spec fn put_in_order(
    before: Seq<(u64, Pid)>,
    after: Seq<(u64, Pid)>,
    entry: (u64, Pid),
) -> bool {
    exists|pos: int|
        0 <= pos <= before.len() && after == #[trigger] before.insert(pos, entry) && (forall|i: int|
            0 <= i < pos ==> (#[trigger] before[i]).0 <= entry.0) && (forall|i: int|
            pos <= i < before.len() ==> entry.0 <= (#[trigger] before[i]).0)
}

/// The number of leading entries that are due at `now`.
pub open spec fn due_count(s: Seq<(u64, Pid)>, now: u64) -> nat
    decreases s.len(),
{
    if s.len() == 0 || s[0].0 > now {
        0
    } else {
        1 + due_count(s.skip(1), now)
    }
}

impl View for Deadlines {
    type V = Seq<(u64, Pid)>;

    open spec fn view(&self) -> Seq<(u64, Pid)> {
        self.entries@
    }
}

impl Deadlines {
    /// Earliest first, one entry for each process.
    pub open spec fn wf(&self) -> bool {
        ascending(self@) && one_per_pid(self@)
    }

    /// An empty queue.
    pub fn new() -> (queue: Deadlines)
        ensures
            queue.wf(),
            queue@ == Seq::<(u64, Pid)>::empty(),
    {
        Deadlines { entries: Vec::new() }
    }
}

proof fn lemma_without_pid_wf(s: Seq<(u64, Pid)>, pid: Pid)
    requires
        ascending(s),
        one_per_pid(s),
    ensures
        ascending(without_pid(s, pid)),
        one_per_pid(without_pid(s, pid)),
        forall|i: int|
            0 <= i < without_pid(s, pid).len() ==> (#[trigger] without_pid(s, pid)[i]).1 != pid,
{
    let keep = other_than(pid);
    let t = without_pid(s, pid);
    let from = seqs::lemma_filter_origin(s, keep);
    assert forall|i: int, j: int| 0 <= i <= j < t.len() implies (#[trigger] t[i]).0 <= (
    #[trigger] t[j]).0 by {
        assert(t[i] == s[from[i]]);
        assert(t[j] == s[from[j]]);
    }
    assert forall|i: int, j: int| 0 <= i < j < t.len() implies (#[trigger] t[i]).1 != (
    #[trigger] t[j]).1 by {
        assert(t[i] == s[from[i]]);
        assert(t[j] == s[from[j]]);
        assert(from[i] < from[j]);
    }
    assert forall|i: int| 0 <= i < t.len() implies (#[trigger] t[i]).1 != pid by {
        assert(t[i] == s[from[i]]);
    }
}

/// Takes the entries of `pid` out of the queue.
fn remove_pid(entries: &mut Vec<(u64, Pid)>, pid: Pid)
    ensures
        final(entries)@ == without_pid(old(entries)@, pid),
{
    let mut kept: Vec<(u64, Pid)> = Vec::new();
    let mut i: usize = 0;
    while i < entries.len()
        invariant
            i <= entries.len(),
            kept@ == without_pid(entries@.take(i as int), pid),
            entries@ == old(entries)@,
        decreases entries.len() - i,
    {
        proof {
            seqs::lemma_filter_step(entries@, i as int, other_than(pid));
        }
        let e = entries[i];
        if e.1 != pid {
            kept.push(e);
        }
        i += 1;
    }
    assert(entries@.take(entries@.len() as int) =~= entries@);
    *entries = kept;
}

/// The first place whose entry is not due before `deadline_nanos`.
fn insert_position(entries: &Vec<(u64, Pid)>, deadline_nanos: u64) -> (pos: usize)
    requires
        ascending(entries@),
    ensures
        pos <= entries.len(),
        forall|i: int| 0 <= i < pos ==> (#[trigger] entries@[i]).0 < deadline_nanos,
        forall|i: int| pos <= i < entries.len() ==> deadline_nanos <= (#[trigger] entries@[i]).0,
{
    let mut low: usize = 0;
    let mut high: usize = entries.len();
    while low < high
        invariant
            low <= high <= entries.len(),
            ascending(entries@),
            forall|i: int| 0 <= i < low ==> (#[trigger] entries@[i]).0 < deadline_nanos,
            forall|i: int|
                high <= i < entries.len() ==> deadline_nanos <= (#[trigger] entries@[i]).0,
        decreases high - low,
    {
        let mid: usize = low + (high - low) / 2;
        if entries[mid].0 < deadline_nanos {
            low = mid + 1;
        } else {
            high = mid;
        }
    }
    low
}

/// Sets the deadline of `pid`, in place of any that it had.
pub fn register(deadlines: &mut Deadlines, deadline_nanos: u64, pid: Pid)
    requires
        old(deadlines).wf(),
    ensures
        final(deadlines).wf(),
        put_in_order(
            without_pid(old(deadlines)@, pid),
            final(deadlines)@,
            (deadline_nanos, pid),
        ),
{
    proof {
        lemma_without_pid_wf(deadlines@, pid);
        seqs::lemma_filter_len(deadlines@, other_than(pid));
    }
    remove_pid(&mut deadlines.entries, pid);
    let pos: usize = insert_position(&deadlines.entries, deadline_nanos);
    let ghost before = deadlines@;
    deadlines.entries.insert(pos, (deadline_nanos, pid));
    assert(deadlines@ == before.insert(pos as int, (deadline_nanos, pid)));
}

/// Takes the deadline of `pid` out of the queue, and says whether it had one.
pub fn unregister(deadlines: &mut Deadlines, pid: Pid) -> (present: bool)
    requires
        old(deadlines).wf(),
    ensures
        final(deadlines).wf(),
        final(deadlines)@ == without_pid(old(deadlines)@, pid),
        present <==> exists|i: int|
            0 <= i < old(deadlines)@.len() && (#[trigger] old(deadlines)@[i]).1 == pid,
{
    proof {
        lemma_without_pid_wf(deadlines@, pid);
        seqs::lemma_filter_len(deadlines@, other_than(pid));
    }
    let before: usize = deadlines.entries.len();
    remove_pid(&mut deadlines.entries, pid);
    deadlines.entries.len() != before
}

/// The earliest deadline of all.
pub fn next_deadline_ns(deadlines: &Deadlines) -> (deadline: Option<u64>)
    requires
        deadlines.wf(),
    ensures
        deadline == (if deadlines@.len() == 0 {
            None
        } else {
            Some(deadlines@[0].0)
        }),
        deadline matches Some(d) ==> forall|i: int|
            0 <= i < deadlines@.len() ==> d <= (#[trigger] deadlines@[i]).0,
{
    if deadlines.entries.len() == 0 {
        None
    } else {
        Some(deadlines.entries[0].0)
    }
}

/// In an ascending queue the leading due entries are all the due entries.
pub proof fn lemma_due_count(s: Seq<(u64, Pid)>, now: u64)
    requires
        ascending(s),
    ensures
        due_count(s, now) <= s.len(),
        forall|i: int| 0 <= i < s.len() ==> ((#[trigger] s[i]).0 <= now <==> i < due_count(s, now)),
    decreases s.len(),
{
    if s.len() > 0 && s[0].0 <= now {
        let rest = s.skip(1);
        assert(ascending(rest)) by {
            assert forall|i: int, j: int| 0 <= i <= j < rest.len() implies (#[trigger] rest[i]).0
                <= (#[trigger] rest[j]).0 by {
                assert(rest[i] == s[i + 1] && rest[j] == s[j + 1]);
            }
        }
        lemma_due_count(rest, now);
        assert forall|i: int| 0 <= i < s.len() implies ((#[trigger] s[i]).0 <= now <==> i
            < due_count(s, now)) by {
            if i > 0 {
                assert(rest[i - 1] == s[i]);
            }
        }
    }
}

/// Takes every due entry out of the queue and returns the processes to wake, in the
/// order of their deadlines.
pub fn wake_expired(deadlines: &mut Deadlines, now_nanos: u64) -> (woken: Vec<Pid>)
    requires
        old(deadlines).wf(),
    ensures
        final(deadlines).wf(),
        ({
            let n = due_count(old(deadlines)@, now_nanos) as int;
            &&& 0 <= n <= old(deadlines)@.len()
            &&& final(deadlines)@ == old(deadlines)@.skip(n)
            &&& woken@ == Seq::new(n as nat, |i: int| old(deadlines)@[i].1)
        }),
{
    let ghost all = deadlines@;
    let ghost n = due_count(all, now_nanos) as int;
    proof {
        lemma_due_count(all, now_nanos);
    }
    let mut woken: Vec<Pid> = Vec::new();
    while deadlines.entries.len() > 0 && deadlines.entries[0].0 <= now_nanos
        invariant
            ascending(all),
            0 <= woken@.len() <= n <= all.len(),
            deadlines@ == all.skip(woken@.len() as int),
            woken@ == Seq::new(woken@.len(), |i: int| all[i].1),
            forall|i: int| 0 <= i < all.len() ==> ((#[trigger] all[i]).0 <= now_nanos <==> i < n),
        decreases deadlines@.len(),
    {
        let ghost k = woken@.len() as int;
        assert(deadlines@[0] == all[k]);
        let e = deadlines.entries.remove(0);
        woken.push(e.1);
        assert(deadlines@ =~= all.skip(k + 1));
    }
    proof {
        if woken@.len() < n {
            assert(deadlines@[0] == all[woken@.len() as int]);
        }
        let rest = deadlines@;
        assert forall|i: int, j: int| 0 <= i <= j < rest.len() implies (#[trigger] rest[i]).0 <= (
        #[trigger] rest[j]).0 by {
            assert(rest[i] == all[i + n] && rest[j] == all[j + n]);
        }
        assert forall|i: int, j: int| 0 <= i < j < rest.len() implies (#[trigger] rest[i]).1 != (
        #[trigger] rest[j]).1 by {
            assert(rest[i] == all[i + n] && rest[j] == all[j + n]);
        }
    }
    woken
}

/// Forgets a process that is gone.
pub fn drop_pid(deadlines: &mut Deadlines, pid: Pid)
    requires
        old(deadlines).wf(),
    ensures
        final(deadlines).wf(),
        final(deadlines)@ == without_pid(old(deadlines)@, pid),
{
    proof {
        lemma_without_pid_wf(deadlines@, pid);
    }
    remove_pid(&mut deadlines.entries, pid);
}

/// What a registered process does not outlive: once its deadline has come, it is among
/// those that the next sweep wakes.
pub proof fn law_registered_is_woken(
    before: Seq<(u64, Pid)>,
    after: Seq<(u64, Pid)>,
    deadline: u64,
    pid: Pid,
    now: u64,
)
    requires
        ascending(after),
        put_in_order(before, after, (deadline, pid)),
        deadline <= now,
    ensures
        exists|i: int| 0 <= i < due_count(after, now) && (#[trigger] after[i]).1 == pid,
{
    lemma_due_count(after, now);
    let pos = choose|pos: int|
        0 <= pos <= before.len() && after == #[trigger] before.insert(pos, (deadline, pid)) && (
        forall|i: int| 0 <= i < pos ==> (#[trigger] before[i]).0 <= deadline) && (forall|i: int|
            pos <= i < before.len() ==> deadline <= (#[trigger] before[i]).0);
    assert(after[pos] == (deadline, pid));
}

/// A sweep before the earliest deadline wakes nobody.
pub proof fn law_early_sweep_is_noop(s: Seq<(u64, Pid)>, now: u64)
    requires
        s.len() > 0 ==> now < s[0].0,
    ensures
        due_count(s, now) == 0,
        s.skip(0) == s,
{
    assert(s.skip(0) =~= s);
}

/// Unregistering takes back what registering put in, and nothing else.
pub proof fn law_unregister_undoes_register(
    orig: Seq<(u64, Pid)>,
    after: Seq<(u64, Pid)>,
    deadline: u64,
    pid: Pid,
)
    requires
        put_in_order(without_pid(orig, pid), after, (deadline, pid)),
    ensures
        without_pid(after, pid) == without_pid(orig, pid),
{
    let before = without_pid(orig, pid);
    let from = seqs::lemma_filter_origin(orig, other_than(pid));
    assert forall|i: int| 0 <= i < before.len() implies other_than(pid)(#[trigger] before[i]) by {
        assert(before[i] == orig[from[i]]);
    }
    let pos = choose|pos: int|
        0 <= pos <= before.len() && after == #[trigger] before.insert(pos, (deadline, pid)) && (
        forall|i: int| 0 <= i < pos ==> (#[trigger] before[i]).0 <= deadline) && (forall|i: int|
            pos <= i < before.len() ==> deadline <= (#[trigger] before[i]).0);
    let head = before.take(pos);
    let tail = before.skip(pos);
    assert(after =~= head.push((deadline, pid)) + tail);
    Seq::filter_distributes_over_add(head.push((deadline, pid)), tail, other_than(pid));
    seqs::lemma_filter_push(head, (deadline, pid), other_than(pid));
    seqs::lemma_filter_len(head, other_than(pid));
    seqs::lemma_filter_len(tail, other_than(pid));
    assert(head + tail =~= before);
}

/// After registering, the process has the one deadline given, and everybody else has theirs.
pub proof fn law_registering_sets_one_deadline(
    orig: Seq<(u64, Pid)>,
    after: Seq<(u64, Pid)>,
    deadline: u64,
    pid: Pid,
    entry: (u64, Pid),
)
    requires
        put_in_order(without_pid(orig, pid), after, (deadline, pid)),
    ensures
        after.contains(entry) <==> (if entry.1 == pid {
            entry.0 == deadline
        } else {
            orig.contains(entry)
        }),
{
    let before = without_pid(orig, pid);
    let pos = choose|pos: int|
        0 <= pos <= before.len() && after == #[trigger] before.insert(pos, (deadline, pid)) && (
        forall|i: int| 0 <= i < pos ==> (#[trigger] before[i]).0 <= deadline) && (forall|i: int|
            pos <= i < before.len() ==> deadline <= (#[trigger] before[i]).0);
    seqs::lemma_insert_members(before, pos, (deadline, pid), entry);
    seqs::lemma_filter_members(orig, other_than(pid), entry);
}

/// A callback that is to run once its deadline has come.
///
/// `C` names the callback; the kernel uses a function pointer.
pub struct CallbackEntry<C> {
    pub deadline: u64,
    pub key: u64,
    pub callback: C,
}

impl<C: Copy> Clone for CallbackEntry<C> {
    fn clone(&self) -> (copy: Self)
        ensures
            copy == *self,
    {
        CallbackEntry { deadline: self.deadline, key: self.key, callback: self.callback }
    }
}

impl<C: Copy> Copy for CallbackEntry<C> {

}

/// The pending callbacks, earliest first.
pub struct CallbackDeadlines<C> {
    pub entries: Vec<CallbackEntry<C>>,
}

/// Says of a callback that it is registered under another key.
pub open spec fn other_key<C>(key: u64) -> spec_fn(CallbackEntry<C>) -> bool {
    |e: CallbackEntry<C>| e.key != key
}

/// The callbacks without those under `key`.
pub open spec fn without_key<C>(s: Seq<CallbackEntry<C>>, key: u64) -> Seq<CallbackEntry<C>> {
    s.filter(other_key(key))
}

/// No callback is due before the one in front of it.
pub open spec fn callbacks_ascending<C>(s: Seq<CallbackEntry<C>>) -> bool {
    forall|i: int, j: int|
        0 <= i <= j < s.len() ==> (#[trigger] s[i]).deadline <= (#[trigger] s[j]).deadline
}

/// No key has two callbacks.
pub open spec fn one_per_key<C>(s: Seq<CallbackEntry<C>>) -> bool {
    forall|i: int, j: int|
        0 <= i < j < s.len() ==> (#[trigger] s[i]).key != (#[trigger] s[j]).key
}

/// `after` is `before` with `entry` put in where the order allows it. Between entries
/// with an equal deadline the place is left open.
pub open spec fn callback_put_in_order<C>(
    before: Seq<CallbackEntry<C>>,
    after: Seq<CallbackEntry<C>>,
    entry: CallbackEntry<C>,
) -> bool {
    exists|pos: int|
        0 <= pos <= before.len() && after == #[trigger] before.insert(pos, entry) && (forall|i: int|
            0 <= i < pos ==> (#[trigger] before[i]).deadline <= entry.deadline) && (forall|i: int|
            pos <= i < before.len() ==> entry.deadline <= (#[trigger] before[i]).deadline)
}

/// The number of leading callbacks that are due at `now`.
pub open spec fn callbacks_due<C>(s: Seq<CallbackEntry<C>>, now: u64) -> nat
    decreases s.len(),
{
    if s.len() == 0 || s[0].deadline > now {
        0
    } else {
        1 + callbacks_due(s.skip(1), now)
    }
}

impl<C> View for CallbackDeadlines<C> {
    type V = Seq<CallbackEntry<C>>;

    open spec fn view(&self) -> Seq<CallbackEntry<C>> {
        self.entries@
    }
}

impl<C> CallbackDeadlines<C> {
    /// Earliest first, one entry for each key.
    pub open spec fn wf(&self) -> bool {
        callbacks_ascending(self@) && one_per_key(self@)
    }

    /// An empty queue.
    pub fn new() -> (queue: Self)
        ensures
            queue.wf(),
            queue@ == Seq::<CallbackEntry<C>>::empty(),
    {
        CallbackDeadlines { entries: Vec::new() }
    }
}

proof fn lemma_without_key_wf<C>(s: Seq<CallbackEntry<C>>, key: u64)
    requires
        callbacks_ascending(s),
        one_per_key(s),
    ensures
        callbacks_ascending(without_key(s, key)),
        one_per_key(without_key(s, key)),
        forall|i: int|
            0 <= i < without_key(s, key).len() ==> (#[trigger] without_key(s, key)[i]).key != key,
{
    let t = without_key(s, key);
    let from = seqs::lemma_filter_origin(s, other_key(key));
    assert forall|i: int, j: int| 0 <= i <= j < t.len() implies (#[trigger] t[i]).deadline <= (
    #[trigger] t[j]).deadline by {
        assert(t[i] == s[from[i]]);
        assert(t[j] == s[from[j]]);
    }
    assert forall|i: int, j: int| 0 <= i < j < t.len() implies (#[trigger] t[i]).key != (
    #[trigger] t[j]).key by {
        assert(t[i] == s[from[i]]);
        assert(t[j] == s[from[j]]);
        assert(from[i] < from[j]);
    }
    assert forall|i: int| 0 <= i < t.len() implies (#[trigger] t[i]).key != key by {
        assert(t[i] == s[from[i]]);
    }
}

/// Takes the callbacks under `key` out of the queue.
fn remove_key<C: Copy>(entries: &mut Vec<CallbackEntry<C>>, key: u64)
    ensures
        final(entries)@ == without_key(old(entries)@, key),
{
    let mut kept: Vec<CallbackEntry<C>> = Vec::new();
    let mut i: usize = 0;
    while i < entries.len()
        invariant
            i <= entries.len(),
            kept@ == without_key(entries@.take(i as int), key),
            entries@ == old(entries)@,
        decreases entries.len() - i,
    {
        proof {
            seqs::lemma_filter_step(entries@, i as int, other_key(key));
        }
        let e = entries[i];
        if e.key != key {
            kept.push(e);
        }
        i += 1;
    }
    assert(entries@.take(entries@.len() as int) =~= entries@);
    *entries = kept;
}

/// The first place whose callback is not due before `deadline_nanos`.
fn callback_position<C>(entries: &Vec<CallbackEntry<C>>, deadline_nanos: u64) -> (pos: usize)
    requires
        callbacks_ascending(entries@),
    ensures
        pos <= entries.len(),
        forall|i: int| 0 <= i < pos ==> (#[trigger] entries@[i]).deadline < deadline_nanos,
        forall|i: int|
            pos <= i < entries.len() ==> deadline_nanos <= (#[trigger] entries@[i]).deadline,
{
    let mut low: usize = 0;
    let mut high: usize = entries.len();
    while low < high
        invariant
            low <= high <= entries.len(),
            callbacks_ascending(entries@),
            forall|i: int| 0 <= i < low ==> (#[trigger] entries@[i]).deadline < deadline_nanos,
            forall|i: int|
                high <= i < entries.len() ==> deadline_nanos <= (#[trigger] entries@[i]).deadline,
        decreases high - low,
    {
        let mid: usize = low + (high - low) / 2;
        if entries[mid].deadline < deadline_nanos {
            low = mid + 1;
        } else {
            high = mid;
        }
    }
    low
}

/// Sets the callback under `key`, in place of any that it had.
pub fn register_callback<C: Copy>(
    callbacks: &mut CallbackDeadlines<C>,
    deadline_nanos: u64,
    key: u64,
    callback: C,
)
    requires
        old(callbacks).wf(),
    ensures
        final(callbacks).wf(),
        callback_put_in_order(
            without_key(old(callbacks)@, key),
            final(callbacks)@,
            (CallbackEntry { deadline: deadline_nanos, key, callback }),
        ),
{
    proof {
        lemma_without_key_wf(callbacks@, key);
        seqs::lemma_filter_len(callbacks@, other_key(key));
    }
    remove_key(&mut callbacks.entries, key);
    let pos: usize = callback_position(&callbacks.entries, deadline_nanos);
    let ghost before = callbacks@;
    let entry = CallbackEntry { deadline: deadline_nanos, key, callback };
    callbacks.entries.insert(pos, entry);
    assert(callbacks@ == before.insert(pos as int, entry));
}

/// Takes back the callback under `key`.
pub fn cancel_callback<C: Copy>(callbacks: &mut CallbackDeadlines<C>, key: u64)
    requires
        old(callbacks).wf(),
    ensures
        final(callbacks).wf(),
        final(callbacks)@ == without_key(old(callbacks)@, key),
{
    proof {
        lemma_without_key_wf(callbacks@, key);
    }
    remove_key(&mut callbacks.entries, key);
}

/// In an ascending queue the leading due callbacks are all the due callbacks.
pub proof fn lemma_callbacks_due<C>(s: Seq<CallbackEntry<C>>, now: u64)
    requires
        callbacks_ascending(s),
    ensures
        callbacks_due(s, now) <= s.len(),
        forall|i: int|
            0 <= i < s.len() ==> ((#[trigger] s[i]).deadline <= now <==> i < callbacks_due(s, now)),
    decreases s.len(),
{
    if s.len() > 0 && s[0].deadline <= now {
        let rest = s.skip(1);
        assert(callbacks_ascending(rest)) by {
            assert forall|i: int, j: int| 0 <= i <= j < rest.len() implies (
            #[trigger] rest[i]).deadline <= (#[trigger] rest[j]).deadline by {
                assert(rest[i] == s[i + 1] && rest[j] == s[j + 1]);
            }
        }
        lemma_callbacks_due(rest, now);
        assert forall|i: int| 0 <= i < s.len() implies ((#[trigger] s[i]).deadline <= now <==> i
            < callbacks_due(s, now)) by {
            if i > 0 {
                assert(rest[i - 1] == s[i]);
            }
        }
    }
}

/// Takes every due callback out of the queue and returns them in the order of their
/// deadlines. The caller runs each on its key.
pub fn wake_expired_callbacks<C: Copy>(
    callbacks: &mut CallbackDeadlines<C>,
    now_nanos: u64,
) -> (due: Vec<CallbackEntry<C>>)
    requires
        old(callbacks).wf(),
    ensures
        final(callbacks).wf(),
        ({
            let n = callbacks_due(old(callbacks)@, now_nanos) as int;
            &&& 0 <= n <= old(callbacks)@.len()
            &&& final(callbacks)@ == old(callbacks)@.skip(n)
            &&& due@ == old(callbacks)@.take(n)
        }),
{
    let ghost all = callbacks@;
    let ghost n = callbacks_due(all, now_nanos) as int;
    proof {
        lemma_callbacks_due(all, now_nanos);
    }
    let mut due: Vec<CallbackEntry<C>> = Vec::new();
    while callbacks.entries.len() > 0 && callbacks.entries[0].deadline <= now_nanos
        invariant
            callbacks_ascending(all),
            0 <= due@.len() <= n <= all.len(),
            callbacks@ == all.skip(due@.len() as int),
            due@ == all.take(due@.len() as int),
            forall|i: int|
                0 <= i < all.len() ==> ((#[trigger] all[i]).deadline <= now_nanos <==> i < n),
        decreases callbacks@.len(),
    {
        let ghost k = due@.len() as int;
        assert(callbacks@[0] == all[k]);
        let e = callbacks.entries.remove(0);
        due.push(e);
        assert(callbacks@ =~= all.skip(k + 1));
        assert(due@ =~= all.take(k + 1));
    }
    proof {
        if due@.len() < n {
            assert(callbacks@[0] == all[due@.len() as int]);
        }
        let rest = callbacks@;
        assert forall|i: int, j: int| 0 <= i <= j < rest.len() implies (#[trigger] rest[i]).deadline
            <= (#[trigger] rest[j]).deadline by {
            assert(rest[i] == all[i + n] && rest[j] == all[j + n]);
        }
        assert forall|i: int, j: int| 0 <= i < j < rest.len() implies (#[trigger] rest[i]).key != (
        #[trigger] rest[j]).key by {
            assert(rest[i] == all[i + n] && rest[j] == all[j + n]);
        }
    }
    due
}

/// After registering, the key has the one callback given, and every other key has its own.
pub proof fn law_registering_sets_one_callback<C>(
    orig: Seq<CallbackEntry<C>>,
    after: Seq<CallbackEntry<C>>,
    new: CallbackEntry<C>,
    entry: CallbackEntry<C>,
)
    requires
        callback_put_in_order(without_key(orig, new.key), after, new),
    ensures
        after.contains(entry) <==> (if entry.key == new.key {
            entry == new
        } else {
            orig.contains(entry)
        }),
{
    let before = without_key(orig, new.key);
    let pos = choose|pos: int|
        0 <= pos <= before.len() && after == #[trigger] before.insert(pos, new) && (forall|i: int|
            0 <= i < pos ==> (#[trigger] before[i]).deadline <= new.deadline) && (forall|i: int|
            pos <= i < before.len() ==> new.deadline <= (#[trigger] before[i]).deadline);
    seqs::lemma_insert_members(before, pos, new, entry);
    seqs::lemma_filter_members(orig, other_key(new.key), entry);
}

} // verus!
