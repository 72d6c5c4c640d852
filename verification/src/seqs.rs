//! Facts about sequences that several modules use.

use vstd::prelude::*;

verus! {

/// What a filter does to a sequence that has grown by one element.
pub proof fn lemma_filter_push<A>(s: Seq<A>, a: A, keep: spec_fn(A) -> bool)
    ensures
        s.push(a).filter(keep) == (if keep(a) {
            s.filter(keep).push(a)
        } else {
            s.filter(keep)
        }),
{
    reveal(Seq::filter);
    assert(s.push(a).drop_last() =~= s);
}

/// One step of a loop that filters a sequence from the front.
pub proof fn lemma_filter_step<A>(s: Seq<A>, i: int, keep: spec_fn(A) -> bool)
    requires
        0 <= i < s.len(),
    ensures
        s.take(i + 1).filter(keep) == (if keep(s[i]) {
            s.take(i).filter(keep).push(s[i])
        } else {
            s.take(i).filter(keep)
        }),
{
    assert(s.take(i + 1) =~= s.take(i).push(s[i]));
    lemma_filter_push(s.take(i), s[i], keep);
}

/// Every element of a filtered sequence satisfies the predicate and stood in the
/// sequence, in the same order: there is a strictly increasing choice of indices.
pub proof fn lemma_filter_origin<A>(s: Seq<A>, keep: spec_fn(A) -> bool) -> (from: Seq<int>)
    ensures
        from.len() == s.filter(keep).len(),
        forall|i: int|
            0 <= i < from.len() ==> 0 <= #[trigger] from[i] < s.len() && s.filter(keep)[i]
                == s[from[i]] && keep(s[from[i]]),
        forall|i: int, j: int|
            0 <= i < j < from.len() ==> #[trigger] from[i] < #[trigger] from[j],
        forall|k: int| 0 <= k < s.len() && keep(#[trigger] s[k]) ==> from.contains(k),
    decreases s.len(),
{
    reveal(Seq::filter);
    if s.len() == 0 {
        Seq::empty()
    } else {
        let prev = lemma_filter_origin(s.drop_last(), keep);
        let last = s.len() - 1;
        if keep(s[last]) {
            let from = prev.push(last);
            assert forall|k: int| 0 <= k < s.len() && keep(#[trigger] s[k]) implies from.contains(
                k,
            ) by {
                if k < last {
                    assert(s.drop_last()[k] == s[k]);
                    let w = choose|w: int| 0 <= w < prev.len() && prev[w] == k;
                    assert(from[w] == k);
                } else {
                    assert(from[prev.len() as int] == k);
                }
            }
            from
        } else {
            assert forall|k: int| 0 <= k < s.len() && keep(#[trigger] s[k]) implies prev.contains(
                k,
            ) by {
                assert(s.drop_last()[k] == s[k]);
            }
            prev
        }
    }
}

/// Filtering keeps a sequence unchanged exactly when nothing is dropped.
pub proof fn lemma_filter_len<A>(s: Seq<A>, keep: spec_fn(A) -> bool)
    ensures
        s.filter(keep).len() <= s.len(),
        s.filter(keep).len() == s.len() <==> forall|i: int|
            0 <= i < s.len() ==> keep(#[trigger] s[i]),
        s.filter(keep).len() == s.len() ==> s.filter(keep) == s,
    decreases s.len(),
{
    reveal(Seq::filter);
    if s.len() > 0 {
        let front = s.drop_last();
        lemma_filter_len(front, keep);
        assert(forall|i: int| 0 <= i < front.len() ==> front[i] == s[i]);
        if s.filter(keep).len() == s.len() {
            assert forall|i: int| 0 <= i < s.len() implies keep(#[trigger] s[i]) by {
                if i < front.len() {
                    assert(keep(front[i]));
                }
            }
            assert(s.filter(keep) =~= s);
        }
        if forall|i: int| 0 <= i < s.len() ==> keep(#[trigger] s[i]) {
            assert(forall|i: int| 0 <= i < front.len() ==> keep(#[trigger] front[i]));
        }
    } else {
        assert(s.filter(keep) =~= s);
    }
}

/// What stands in a sequence with one element more.
pub proof fn lemma_insert_members<A>(s: Seq<A>, pos: int, a: A, x: A)
    requires
        0 <= pos <= s.len(),
    ensures
        s.insert(pos, a).contains(x) <==> x == a || s.contains(x),
{
    let t = s.insert(pos, a);
    assert(t[pos] == a);
    if t.contains(x) {
        let i = choose|i: int| 0 <= i < t.len() && t[i] == x;
        if i < pos {
            assert(s[i] == x);
        } else if i > pos {
            assert(s[i - 1] == x);
        }
    }
    if s.contains(x) {
        let i = choose|i: int| 0 <= i < s.len() && s[i] == x;
        if i < pos {
            assert(t[i] == x);
        } else {
            assert(t[i + 1] == x);
        }
    }
}

/// What stands in a filtered sequence.
pub proof fn lemma_filter_members<A>(s: Seq<A>, keep: spec_fn(A) -> bool, x: A)
    ensures
        s.filter(keep).contains(x) <==> s.contains(x) && keep(x),
{
    let t = s.filter(keep);
    let from = lemma_filter_origin(s, keep);
    if t.contains(x) {
        let i = choose|i: int| 0 <= i < t.len() && t[i] == x;
        assert(s[from[i]] == x);
    }
    if s.contains(x) && keep(x) {
        let k = choose|k: int| 0 <= k < s.len() && s[k] == x;
        assert(from.contains(k));
        let i = choose|i: int| 0 <= i < from.len() && from[i] == k;
        assert(t[i] == x);
    }
}

} // verus!
