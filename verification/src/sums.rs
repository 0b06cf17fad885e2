//! Sums and selections over sequences of natural numbers.

use vstd::prelude::*;
use vstd::seq_lib::{to_multiset_contains, to_multiset_len, to_multiset_remove};

verus! {

/// The sum of all entries.
pub open spec fn total(s: Seq<nat>) -> nat
    decreases s.len(),
{
    if s.len() == 0 {
        0
    } else {
        total(s.drop_last()) + s.last()
    }
}

/// The index of the first smallest entry of a sequence that is not empty.
pub open spec fn min_index(s: Seq<nat>) -> int
    decreases s.len(),
{
    if s.len() <= 1 {
        0
    } else {
        let before = min_index(s.drop_last());
        if s.last() < s[before] {
            s.len() - 1
        } else {
            before
        }
    }
}

/// The sum of the `k` smallest entries: the smallest entry is taken out and
/// counted, `k` times over.
pub open spec fn least_sum(s: Seq<nat>, k: nat) -> nat
    decreases k,
{
    if k == 0 || s.len() == 0 {
        0
    } else {
        s[min_index(s)] + least_sum(s.remove(min_index(s)), (k - 1) as nat)
    }
}

/// The entries that are present, in their order.
pub open spec fn present(s: Seq<Option<nat>>) -> Seq<nat>
    decreases s.len(),
{
    if s.len() == 0 {
        Seq::empty()
    } else if s.last() is Some {
        present(s.drop_last()).push(s.last()->0)
    } else {
        present(s.drop_last())
    }
}

/// The entries without repetition: each value stands where it first occurs.
pub open spec fn first_seen(s: Seq<u32>) -> Seq<u32>
    decreases s.len(),
{
    if s.len() == 0 {
        Seq::empty()
    } else if first_seen(s.drop_last()).contains(s.last()) {
        first_seen(s.drop_last())
    } else {
        first_seen(s.drop_last()).push(s.last())
    }
}

/// What is left when repetitions are taken out holds every value once,
/// and the values that the sequence holds.
pub proof fn lemma_first_seen(s: Seq<u32>)
    ensures
        first_seen(s).no_duplicates(),
        forall|x: u32| first_seen(s).contains(x) <==> s.contains(x),
    decreases s.len(),
{
    if s.len() > 0 {
        let front = s.drop_last();
        let kept = first_seen(front);
        lemma_first_seen(front);
        assert forall|x: u32| first_seen(s).contains(x) <==> s.contains(x) by {
            if s.contains(x) {
                let at = choose|at: int| 0 <= at < s.len() && s[at] == x;
                if at < front.len() {
                    assert(front[at] == x);
                    assert(front.contains(x));
                    assert(kept.contains(x));
                }
            }
            if kept.contains(x) {
                let at = choose|at: int| 0 <= at < kept.len() && kept[at] == x;
                assert(front.contains(x));
                let found = choose|found: int| 0 <= found < front.len() && front[found] == x;
                assert(s[found] == x);
                if !kept.contains(s.last()) {
                    assert(kept.push(s.last())[at] == x);
                }
            }
            if !kept.contains(s.last()) {
                assert(kept.push(s.last())[kept.len() as int] == s.last());
                if first_seen(s).contains(x) && x != s.last() {
                    let all = first_seen(s);
                    let at = choose|at: int| 0 <= at < all.len() && all[at] == x;
                    assert(kept[at] == x);
                }
            }
            assert(s[s.len() - 1] == s.last());
        }
    }
}

/// The sum of a prefix grows with the prefix, by the entry that is added.
pub proof fn lemma_total_take(s: Seq<nat>, i: int)
    requires
        0 <= i < s.len(),
    ensures
        total(s.take(i + 1)) == total(s.take(i)) + s[i],
        total(s.take(0)) == 0,
        total(s.take(s.len() as int)) == total(s),
{
    assert(s.take(i + 1).drop_last() == s.take(i));
    assert(s.take(s.len() as int) == s);
}

/// No prefix sums to more than the whole, and no entry is more than the sum.
pub proof fn lemma_total_bounds(s: Seq<nat>, i: int)
    requires
        0 <= i <= s.len(),
    ensures
        total(s.take(i)) <= total(s),
        i < s.len() ==> total(s.take(i)) + s[i] <= total(s),
    decreases s.len() - i,
{
    if i == s.len() {
        assert(s.take(i) == s);
    } else {
        lemma_total_take(s, i);
        lemma_total_bounds(s, i + 1);
    }
}

/// The smallest entry is a valid index and no entry is below it.
pub proof fn lemma_min_index(s: Seq<nat>)
    requires
        s.len() > 0,
    ensures
        0 <= min_index(s) < s.len(),
        forall|i: int| 0 <= i < s.len() ==> s[min_index(s)] <= #[trigger] s[i],
    decreases s.len(),
{
    if s.len() > 1 {
        let front = s.drop_last();
        lemma_min_index(front);
        assert forall|i: int| 0 <= i < s.len() implies s[min_index(s)] <= #[trigger] s[i] by {
            if i < front.len() {
                assert(front[i] == s[i]);
                assert(front[min_index(front)] <= front[i]);
            }
        }
    }
}

/// Taking one entry out lowers the sum by that entry.
pub proof fn lemma_total_remove(s: Seq<nat>, i: int)
    requires
        0 <= i < s.len(),
    ensures
        total(s.remove(i)) + s[i] == total(s),
    decreases s.len(),
{
    if i == s.len() - 1 {
        assert(s.remove(i) == s.drop_last());
    } else {
        lemma_total_remove(s.drop_last(), i);
        assert(s.remove(i).drop_last() == s.drop_last().remove(i));
        assert(s.remove(i).last() == s.last());
    }
}

/// The sum of the smallest entries is never above the sum of all.
pub proof fn lemma_least_sum_le_total(s: Seq<nat>, k: nat)
    ensures
        least_sum(s, k) <= total(s),
    decreases k,
{
    if k > 0 && s.len() > 0 {
        lemma_min_index(s);
        lemma_total_remove(s, min_index(s));
        lemma_least_sum_le_total(s.remove(min_index(s)), (k - 1) as nat);
    }
}

/// Whether the entries stand in ascending order.
pub open spec fn ascending(s: Seq<nat>) -> bool {
    forall|i: int, j: int| 0 <= i <= j < s.len() ==> s[i] <= s[j]
}

/// An entry put in front adds itself to the sum.
pub proof fn lemma_total_prepend(x: nat, s: Seq<nat>)
    ensures
        total(seq![x] + s) == x + total(s),
    decreases s.len(),
{
    if s.len() == 0 {
        assert(seq![x] + s == seq![x]);
        assert(seq![x].drop_last() == Seq::<nat>::empty());
        assert(total(Seq::<nat>::empty()) == 0);
        assert(total(seq![x]) == x);
    } else {
        lemma_total_prepend(x, s.drop_last());
        assert((seq![x] + s).drop_last() == seq![x] + s.drop_last());
    }
}

/// The sum of the `k` smallest entries is the sum of the first `k` entries
/// once the entries stand in ascending order.
pub proof fn lemma_least_sum_sorted(s: Seq<nat>, t: Seq<nat>, k: nat)
    requires
        ascending(t),
        t.to_multiset() == s.to_multiset(),
        k <= s.len(),
    ensures
        least_sum(s, k) == total(t.take(k as int)),
    decreases k,
{
    to_multiset_len(s);
    to_multiset_len(t);
    if k > 0 {
        let at = min_index(s);
        lemma_min_index(s);
        assert(t[0] == s[at]) by {
            assert(t.contains(t[0]));
            to_multiset_contains(t, t[0]);
            to_multiset_contains(s, t[0]);
            assert(s.contains(s[at]));
            to_multiset_contains(s, s[at]);
            to_multiset_contains(t, s[at]);
        }
        let rest = t.remove(0);
        to_multiset_remove(t, 0);
        to_multiset_remove(s, at);
        assert(ascending(rest));
        lemma_least_sum_sorted(s.remove(at), rest, (k - 1) as nat);
        assert(t.take(k as int) == seq![t[0]] + rest.take(k - 1));
        lemma_total_prepend(t[0], rest.take(k - 1));
    }
}

} // verus!
