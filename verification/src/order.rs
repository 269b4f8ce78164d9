//! Stable ordering by priority.
use vstd::prelude::*;

verus! {

/// Position `a` comes before position `b` when ordering by priority, ties
/// keeping their original order.
pub open spec fn prio_before(prios: Seq<i32>, a: int, b: int) -> bool {
    prios[a] < prios[b] || (prios[a] == prios[b] && a < b)
}

/// `p` lists the positions of `prios` in the order of a stable sort by
/// priority: each position once, lower priorities first, equal priorities in
/// their original order.
pub open spec fn stable_priority_order(prios: Seq<i32>, p: Seq<usize>) -> bool {
    &&& p.len() == prios.len()
    &&& forall|i: int| 0 <= i < p.len() ==> #[trigger] p[i] < prios.len()
    &&& forall|i: int, j: int| 0 <= i < j < p.len() ==> prio_before(prios, p[i] as int, p[j] as int)
}

/// A stable order lists every position exactly once.
pub proof fn law_stable_order_lists_each_once(prios: Seq<i32>, p: Seq<usize>)
    requires
        stable_priority_order(prios, p),
    ensures
        forall|i: int, j: int| 0 <= i < p.len() && 0 <= j < p.len() && i != j ==> p[i] != p[j],
{
    assert forall|i: int, j: int| 0 <= i < p.len() && 0 <= j < p.len() && i != j implies p[i] != p[j] by {
        if i < j {
            assert(prio_before(prios, p[i] as int, p[j] as int));
        } else {
            assert(prio_before(prios, p[j] as int, p[i] as int));
        }
    }
}

/// The numbers below `n`.
pub open spec fn below(n: nat) -> Set<usize> {
    Set::new(|x: usize| x < n)
}

/// There are `n` numbers below `n` (for `n` that fits in a `usize`).
proof fn lemma_below(n: nat)
    requires
        n <= usize::MAX + 1,
    ensures
        below(n).finite(),
        below(n).len() == n,
    decreases n,
{
    if n == 0 {
        assert(below(n) =~= Set::<usize>::empty());
    } else {
        lemma_below((n - 1) as nat);
        assert(below((n - 1) as nat).insert((n - 1) as usize) =~= below(n));
    }
}

/// A stable order lists every position.
proof fn lemma_stable_order_covers(prios: Seq<i32>, p: Seq<usize>)
    requires
        stable_priority_order(prios, p),
    ensures
        forall|x: usize| x < prios.len() ==> p.contains(x),
{
    law_stable_order_lists_each_once(prios, p);
    assert(p.no_duplicates());
    p.unique_seq_to_set();
    if p.len() <= usize::MAX + 1 {
        lemma_below(p.len());
        assert(p.to_set().subset_of(below(p.len()))) by {
            assert forall|x: usize| p.to_set().contains(x) implies below(p.len()).contains(x) by {
                let i = choose|i: int| 0 <= i < p.len() && p[i] == x;
                assert(p[i] < prios.len());
            }
        }
        vstd::set_lib::lemma_subset_equality(p.to_set(), below(p.len()));
        assert forall|x: usize| x < prios.len() implies p.contains(x) by {
            assert(below(p.len()).contains(x));
            assert(p.to_set().contains(x));
        }
    } else {
        assert forall|x: usize| x < prios.len() implies p.contains(x) by {
            assert(false) by {
                let s = p.to_set();
                vstd::seq_lib::seq_to_set_is_finite(p);
                assert(s.subset_of(below((usize::MAX + 1) as nat))) by {
                    assert forall|y: usize| s.contains(y) implies below((usize::MAX + 1) as nat).contains(y) by {}
                }
                lemma_below((usize::MAX + 1) as nat);
                vstd::set_lib::lemma_len_subset(s, below((usize::MAX + 1) as nat));
            }
        }
    }
}

/// The stable order by priority is unique: any two orders that both sort
/// `prios` stably by priority are the same.
pub proof fn law_stable_order_unique(prios: Seq<i32>, p: Seq<usize>, q: Seq<usize>)
    requires
        stable_priority_order(prios, p),
        stable_priority_order(prios, q),
    ensures
        p == q,
{
    broadcast use vstd::seq_lib::group_to_multiset_ensures;
    law_stable_order_lists_each_once(prios, p);
    law_stable_order_lists_each_once(prios, q);
    lemma_stable_order_covers(prios, p);
    lemma_stable_order_covers(prios, q);
    p.lemma_multiset_has_no_duplicates();
    q.lemma_multiset_has_no_duplicates();
    assert forall|x: usize| #[trigger] p.to_multiset().count(x) == q.to_multiset().count(x) by {
        if x < prios.len() {
            assert(p.contains(x) && q.contains(x));
            assert(p.to_multiset().contains(x));
            assert(q.to_multiset().contains(x));
        } else {
            if p.contains(x) {
                let i = choose|i: int| 0 <= i < p.len() && p[i] == x;
                assert(p[i] < prios.len());
            }
            if q.contains(x) {
                let i = choose|i: int| 0 <= i < q.len() && q[i] == x;
                assert(q[i] < prios.len());
            }
        }
    }
    assert(p.to_multiset() =~= q.to_multiset());
    let leq = |a: usize, b: usize| prio_before(prios, a as int, b as int) || a == b;
    assert(vstd::relations::total_ordering(leq));
    assert(vstd::relations::sorted_by(p, leq));
    assert(vstd::relations::sorted_by(q, leq));
    vstd::seq_lib::lemma_sorted_unique(p, q, leq);
}

/// The positions of `prios` in the order of a stable sort by priority.
pub fn stable_order(prios: &Vec<i32>) -> (p: Vec<usize>)
    ensures
        stable_priority_order(prios@, p@),
{
    let mut r: Vec<usize> = Vec::new();
    let mut k: usize = 0;
    while k < prios.len()
        invariant
            k <= prios@.len(),
            r@.len() == k,
            forall|i: int| 0 <= i < r@.len() ==> #[trigger] r@[i] < k,
            forall|i: int, j: int| 0 <= i < j < r@.len() ==> prio_before(prios@, r@[i] as int, r@[j] as int),
        decreases prios@.len() - k,
    {
        let x = prios[k];
        let mut pos: usize = 0;
        while pos < r.len() && prios[r[pos]] <= x
            invariant
                pos <= r@.len(),
                k < prios@.len(),
                x == prios@[k as int],
                forall|i: int| 0 <= i < r@.len() ==> #[trigger] r@[i] < k,
                forall|i: int| 0 <= i < pos ==> prios@[#[trigger] r@[i] as int] <= x,
            decreases r@.len() - pos,
        {
            pos = pos + 1;
        }
        let ghost r0 = r@;
        r.insert(pos, k);
        assert forall|i: int, j: int| 0 <= i < j < r@.len() implies prio_before(prios@, r@[i] as int, r@[j] as int) by {
            if j < pos {
                assert(r@[i] == r0[i] && r@[j] == r0[j]);
            } else if j == pos {
                assert(r@[i] == r0[i]);
            } else if i == pos {
                assert(r@[j] == r0[j - 1]);
                if j - 1 > pos {
                    assert(prio_before(prios@, r0[pos as int] as int, r0[j - 1] as int));
                }
            } else if i < pos {
                assert(r@[i] == r0[i] && r@[j] == r0[j - 1]);
            } else {
                assert(r@[i] == r0[i - 1] && r@[j] == r0[j - 1]);
            }
        }
        assert forall|i: int| 0 <= i < r@.len() implies #[trigger] r@[i] < k + 1 by {
            if i < pos {
                assert(r@[i] == r0[i]);
            } else if i > pos {
                assert(r@[i] == r0[i - 1]);
            }
        }
        k = k + 1;
    }
    r
}

} // verus!
