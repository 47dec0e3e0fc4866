//! Orders of positions by a key.
use vstd::prelude::*;

verus! {

/// Position `a` comes before position `b`: its key is larger, or the keys are
/// equal and it is the earlier one.
pub open spec fn precedes(keys: Seq<u64>, a: usize, b: usize) -> bool {
    keys[a as int] > keys[b as int] || (keys[a as int] == keys[b as int] && a < b)
}

/// `order` lists every position once, by descending key; among equal keys the
/// earlier position comes first.
pub open spec fn is_descending(order: Seq<usize>, keys: Seq<u64>) -> bool {
    &&& order.len() == keys.len()
    &&& forall|i: int| 0 <= i < order.len() ==> #[trigger] order[i] < keys.len()
    &&& forall|i: int| 0 <= i < keys.len() ==> order.contains(#[trigger] (i as usize))
    &&& forall|i: int, j: int|
        0 <= i < j < order.len() ==> precedes(keys, #[trigger] order[i], #[trigger] order[j])
}

/// The positions by descending key.
pub fn descending_order(keys: &Vec<u64>) -> (r: Vec<usize>)
    ensures
        is_descending(r@, keys@),
{
    let mut order: Vec<usize> = Vec::new();
    let mut i: usize = 0;
    while i < keys.len()
        invariant
            i <= keys.len(),
            order@.len() == i,
            forall|j: int| 0 <= j < i ==> #[trigger] order@[j] < i,
            forall|j: int| 0 <= j < i ==> order@.contains(#[trigger] (j as usize)),
            forall|j: int, k: int|
                0 <= j < k < i ==> precedes(keys@, #[trigger] order@[j], #[trigger] order@[k]),
        decreases keys.len() - i,
    {
        let ghost before: Seq<usize> = order@;
        let mut p: usize = 0;
        while p < order.len() && keys[order[p]] >= keys[i]
            invariant
                i < keys.len(),
                order@ == before,
                before.len() == i,
                p <= before.len(),
                forall|j: int| 0 <= j < i ==> #[trigger] before[j] < i,
                forall|j: int| 0 <= j < p ==> keys@[#[trigger] before[j] as int] >= keys@[i as int],
            decreases before.len() - p,
        {
            p = p + 1;
        }
        order.insert(p, i);
        proof {
            let after: Seq<usize> = order@;
            assert(after == before.insert(p as int, i));
            assert forall|j: int| 0 <= j < i + 1 implies #[trigger] after[j] < i + 1 by {
                if j < p {
                    assert(after[j] == before[j]);
                } else if j > p {
                    assert(after[j] == before[j - 1]);
                }
            }
            assert forall|j: int| 0 <= j < i + 1 implies after.contains(
                #[trigger] (j as usize),
            ) by {
                if j == i {
                    assert(after[p as int] == i);
                } else {
                    assert(before.contains(j as usize));
                    let q: int = choose|q: int| 0 <= q < before.len() && before[q] == j as usize;
                    if q < p {
                        assert(after[q] == j as usize);
                    } else {
                        assert(after[q + 1] == j as usize);
                    }
                }
            }
            assert forall|j: int, k: int| 0 <= j < k < i + 1 implies precedes(
                keys@,
                #[trigger] after[j],
                #[trigger] after[k],
            ) by {
                if k < p {
                    assert(after[j] == before[j] && after[k] == before[k]);
                } else if k == p {
                    assert(after[j] == before[j]);
                } else if j < p {
                    assert(after[j] == before[j] && after[k] == before[k - 1]);
                } else if j == p {
                    assert(after[k] == before[k - 1]);
                    assert(keys@[before[p as int] as int] < keys@[i as int]);
                    if k - 1 > p {
                        assert(precedes(keys@, before[p as int], before[k - 1]));
                    }
                } else {
                    assert(after[j] == before[j - 1] && after[k] == before[k - 1]);
                }
            }
        }
        i = i + 1;
    }
    order
}

/// An order by descending key is the only one: two of them are equal.
pub proof fn law_descending_order_is_unique(a: Seq<usize>, b: Seq<usize>, keys: Seq<u64>)
    requires
        is_descending(a, keys),
        is_descending(b, keys),
        keys.len() <= usize::MAX,
    ensures
        a == b,
{
    assert forall|n: int| 0 <= n <= a.len() implies a.take(n) == b.take(n) by {
        lemma_same_prefix(a, b, keys, n);
    }
    assert(a.take(a.len() as int) =~= a);
    assert(b.take(b.len() as int) =~= b);
}

proof fn lemma_same_prefix(a: Seq<usize>, b: Seq<usize>, keys: Seq<u64>, n: int)
    requires
        is_descending(a, keys),
        is_descending(b, keys),
        keys.len() <= usize::MAX,
        0 <= n <= a.len(),
    ensures
        a.take(n) == b.take(n),
    decreases n,
{
    if n > 0 {
        let m: int = n - 1;
        lemma_same_prefix(a, b, keys, m);
        lemma_not_later(a, b, keys, m);
        lemma_not_later(b, a, keys, m);
        assert(a.take(n) =~= a.take(m).push(a[m]));
        assert(b.take(n) =~= b.take(m).push(b[m]));
    }
}

proof fn lemma_not_later(a: Seq<usize>, b: Seq<usize>, keys: Seq<u64>, m: int)
    requires
        is_descending(a, keys),
        is_descending(b, keys),
        keys.len() <= usize::MAX,
        0 <= m < a.len(),
        a.take(m) == b.take(m),
    ensures
        a[m] == b[m] || precedes(keys, b[m], a[m]),
{
    let i: int = a[m] as int;
    assert(b.contains(i as usize));
    let q: int = choose|q: int| 0 <= q < b.len() && b[q] == i as usize;
    if q < m {
        assert(b.take(m)[q] == b[q]);
        assert(a.take(m)[q] == a[q]);
        assert(precedes(keys, a[q], a[m]));
    }
    if q > m {
        assert(precedes(keys, b[m], b[q]));
    }
}

/// An order by descending key holds every position once, and nothing else; of
/// two positions the one with the larger key stands first, and of two with the
/// same key the earlier one.
pub proof fn law_order_is_descending(order: Seq<usize>, keys: Seq<u64>, i: int, j: int)
    requires
        is_descending(order, keys),
        keys.len() <= usize::MAX,
        0 <= i < j < order.len(),
    ensures
        order.len() == keys.len(),
        order[i] < keys.len() && order[j] < keys.len(),
        order[i] != order[j],
        keys[order[i] as int] >= keys[order[j] as int],
        keys[order[i] as int] == keys[order[j] as int] ==> order[i] < order[j],
{
    assert(precedes(keys, order[i], order[j]));
}

/// Every position has its place in the order.
pub proof fn law_order_holds_every_position(order: Seq<usize>, keys: Seq<u64>, p: int) -> (k: int)
    requires
        is_descending(order, keys),
        keys.len() <= usize::MAX,
        0 <= p < keys.len(),
    ensures
        0 <= k < order.len(),
        order[k] == p,
{
    assert(order.contains(p as usize));
    choose|k: int| 0 <= k < order.len() && order[k] == p as usize
}

/// A position comes before another one exactly where its key is larger, or the
/// keys are the same and it is the smaller one.
pub proof fn law_larger_keys_precede(keys: Seq<u64>, a: usize, b: usize)
    requires
        a < keys.len(),
        b < keys.len(),
    ensures
        keys[a as int] > keys[b as int] ==> precedes(keys, a, b) && !precedes(keys, b, a),
        keys[a as int] == keys[b as int] && a < b ==> precedes(keys, a, b) && !precedes(keys, b, a),
        !precedes(keys, a, a),
{
}

} // verus!
