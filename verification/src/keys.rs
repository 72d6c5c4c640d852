//! The keys of a map, in ascending order.

use std::collections::BTreeMap;

use vstd::prelude::*;
use vstd::std_specs::btree::increasing_seq;
use vstd::std_specs::cmp::OrdSpec;
use vstd::std_specs::iter::IteratorSpec;

verus! {

/// The numbers ascend, so none occurs twice.
pub open spec fn ascending(s: Seq<u64>) -> bool {
    forall|i: int, j: int| 0 <= i < j < s.len() ==> s[i] < s[j]
}

/// The list holds the keys, all of them, in ascending order.
pub open spec fn lists_keys(s: Seq<u64>, keys: Set<u64>) -> bool {
    &&& ascending(s)
    &&& forall|k: u64| #[trigger] s.contains(k) <==> keys.contains(k)
}

/// The keys in ascending order.
pub open spec fn in_order(keys: Set<u64>) -> Seq<u64> {
    choose|s: Seq<u64>| lists_keys(s, keys)
}

proof fn lemma_increasing(s: Seq<u64>)
    requires
        increasing_seq(s),
    ensures
        ascending(s),
{
    assert(vstd::laws_cmp::obeys_cmp::<u64>());
    assert forall|i: int, j: int| 0 <= i < j < s.len() implies s[i] < s[j] by {
        assert(s[i].cmp_spec(&s[j]) is Less);
    }
}

proof fn lemma_same_front(a: Seq<u64>, b: Seq<u64>, n: int)
    requires
        ascending(a),
        ascending(b),
        forall|k: u64| #[trigger] a.contains(k) <==> b.contains(k),
        0 <= n <= a.len(),
    ensures
        n <= b.len(),
        a.take(n) == b.take(n),
    decreases n,
{
    if n > 0 {
        lemma_same_front(a, b, n - 1);
        let x = a[n - 1];
        assert(a.contains(x));
        assert(b.contains(x));
        let j = choose|j: int| 0 <= j < b.len() && b[j] == x;
        if j < n - 1 {
            assert(a.take(n - 1)[j] == b.take(n - 1)[j]);
            assert(a[j] < a[n - 1]);
        }
        let y = b[n - 1];
        assert(b.contains(y));
        assert(a.contains(y));
        let i = choose|i: int| 0 <= i < a.len() && a[i] == y;
        if i < n - 1 {
            assert(a.take(n - 1)[i] == b.take(n - 1)[i]);
            assert(b[i] < b[n - 1]);
        }
        assert(a[n - 1] == b[n - 1]) by {
            if j > n - 1 {
                assert(b[n - 1] < b[j]);
                if i > n - 1 {
                    assert(a[n - 1] < a[i]);
                }
            }
        }
        assert(a.take(n) =~= a.take(n - 1).push(a[n - 1]));
        assert(b.take(n) =~= b.take(n - 1).push(b[n - 1]));
    }
}

/// There is one list of the keys in ascending order.
pub proof fn lemma_in_order(s: Seq<u64>, keys: Set<u64>)
    requires
        lists_keys(s, keys),
    ensures
        in_order(keys) == s,
{
    let t = in_order(keys);
    assert(lists_keys(t, keys));
    assert forall|k: u64| #[trigger] s.contains(k) <==> t.contains(k) by {
        assert(keys.contains(k) <==> t.contains(k));
    }
    lemma_same_front(s, t, s.len() as int);
    assert forall|k: u64| #[trigger] t.contains(k) <==> s.contains(k) by {
        assert(keys.contains(k) <==> s.contains(k));
    }
    lemma_same_front(t, s, t.len() as int);
    assert(s.take(s.len() as int) =~= s);
    assert(t.take(t.len() as int) =~= t);
}

/// The keys of a map in ascending order.
pub fn keys_of<V>(map: &BTreeMap<u64, V>) -> (keys: Vec<u64>)
    ensures
        keys@ == in_order(map@.dom()),
        lists_keys(keys@, map@.dom()),
{
    let mut keys: Vec<u64> = Vec::new();
    let entries = map.iter();
    let ghost all = entries.remaining();
    let ghost want = all.map_values(|kv: (&u64, &V)| *kv.0);
    for entry in iter: entries
        invariant
            iter.seq() == all,
            keys@ == all.take(iter.index()).map_values(|kv: (&u64, &V)| *kv.0),
    {
        keys.push(*entry.0);
        assert(all.take(iter.index() + 1) =~= all.take(iter.index()).push(all[iter.index()]));
    }
    proof {
        assert(increasing_seq(want));
        lemma_increasing(want);
        assert(all.take(all.len() as int) =~= all);
        assert(keys@ =~= want);
        assert forall|k: u64| #[trigger] keys@.contains(k) <==> map@.dom().contains(k) by {
            if keys@.contains(k) {
                let i = choose|i: int| 0 <= i < keys@.len() && keys@[i] == k;
                assert(map@.contains_key(*all[i].0));
            }
            if map@.dom().contains(k) {
                assert(map@.contains_key(k));
                assert(all.contains((&k, &map@[k])));
                let i = choose|i: int| 0 <= i < all.len() && all[i] == (&k, &map@[k]);
                assert(keys@[i] == k);
            }
        }
        lemma_in_order(keys@, map@.dom());
    }
    keys
}

} // verus!
