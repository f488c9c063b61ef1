//! Stable ordering of entries by decreasing magnitude, as the terminal
//! summary lists the largest changes first.

use vstd::prelude::*;

verus! {

/// Inserts index `i` into `order` after every index whose key is at least `keys[i]`.
pub open spec fn insert_desc(order: Seq<int>, i: int, keys: Seq<u64>) -> Seq<int>
    decreases order.len(),
{
    if order.len() == 0 {
        seq![i]
    } else if keys[order[0]] < keys[i] {
        seq![i] + order
    } else {
        seq![order[0]] + insert_desc(order.drop_first(), i, keys)
    }
}

/// Indices `0..n` ordered by decreasing key; equal keys keep their order.
pub open spec fn magnitude_order(keys: Seq<u64>, n: nat) -> Seq<int>
    decreases n,
{
    if n == 0 {
        seq![]
    } else {
        insert_desc(magnitude_order(keys, (n - 1) as nat), n - 1, keys)
    }
}

/// Keys along `order` never increase.
pub open spec fn sorted_desc(order: Seq<int>, keys: Seq<u64>) -> bool {
    forall|a: int, b: int| 0 <= a < b < order.len() ==> keys[order[a]] >= keys[order[b]]
}

/// `order` lists each index of `0..n` exactly once.
pub open spec fn is_permutation(order: Seq<int>, n: nat) -> bool {
    &&& order.len() == n
    &&& forall|a: int| 0 <= a < order.len() ==> 0 <= #[trigger] order[a] < n
    &&& forall|a: int, b: int| 0 <= a < b < order.len() ==> order[a] != order[b]
}

/// Among equal keys, smaller indices come first.
pub open spec fn is_stable(order: Seq<int>, keys: Seq<u64>) -> bool {
    forall|a: int, b: int|
        0 <= a < b < order.len() && keys[order[a]] == keys[order[b]] ==> order[a] < order[b]
}

/// Inserting at the first position whose key is smaller is `insert_desc`.
proof fn lemma_insert_at(order: Seq<int>, i: int, keys: Seq<u64>, p: int)
    requires
        0 <= p <= order.len(),
        forall|j: int| 0 <= j < p ==> keys[#[trigger] order[j]] >= keys[i],
        p < order.len() ==> keys[order[p]] < keys[i],
    ensures
        insert_desc(order, i, keys) == order.insert(p, i),
    decreases order.len(),
{
    if order.len() == 0 {
        assert(order.insert(p, i) =~= seq![i]);
    } else if p == 0 {
        assert(order.insert(p, i) =~= seq![i] + order);
    } else {
        let rest = order.drop_first();
        assert forall|j: int| 0 <= j < p - 1 implies keys[#[trigger] rest[j]] >= keys[i] by {
            assert(rest[j] == order[j + 1]);
        }
        lemma_insert_at(rest, i, keys, p - 1);
        assert(order.insert(p, i) =~= seq![order[0]] + rest.insert(p - 1, i));
    }
}

/// Indices of `0..n` ordered by decreasing key, stable among equal keys.
pub fn order_by_magnitude(keys: &Vec<u64>) -> (order: Vec<usize>)
    ensures
        order@.map_values(|x: usize| x as int) == magnitude_order(keys@, keys@.len()),
{
    let n = keys.len();
    let mut order: Vec<usize> = Vec::new();
    let mut i: usize = 0;
    while i < n
        invariant
            n == keys@.len(),
            i <= n,
            order@.map_values(|x: usize| x as int) == magnitude_order(keys@, i as nat),
            forall|a: int| 0 <= a < order@.len() ==> #[trigger] order@[a] < i,
        decreases n - i,
    {
        let ghost os = order@.map_values(|x: usize| x as int);
        let mut p: usize = 0;
        while p < order.len() && keys[order[p]] >= keys[i]
            invariant
                n == keys@.len(),
                i < n,
                p <= order@.len(),
                os == order@.map_values(|x: usize| x as int),
                forall|a: int| 0 <= a < order@.len() ==> #[trigger] order@[a] < i,
                forall|j: int| 0 <= j < p ==> keys@[#[trigger] os[j]] >= keys@[i as int],
            decreases order@.len() - p,
        {
            p = p + 1;
        }
        proof {
            lemma_insert_at(os, i as int, keys@, p as int);
        }
        order.insert(p, i);
        assert(order@.map_values(|x: usize| x as int) =~= os.insert(p as int, i as int));
        i = i + 1;
    }
    order
}

/// The magnitude order lists every index exactly once.
pub proof fn lemma_magnitude_order_permutation(keys: Seq<u64>, n: nat)
    ensures
        is_permutation(magnitude_order(keys, n), n),
    decreases n,
{
    if n > 0 {
        let prev = magnitude_order(keys, (n - 1) as nat);
        lemma_magnitude_order_permutation(keys, (n - 1) as nat);
        lemma_insert_desc_contents(prev, n - 1, keys);
        let cur = magnitude_order(keys, n);
        assert forall|a: int, b: int| 0 <= a < b < cur.len() implies cur[a] != cur[b] by {
            lemma_insert_desc_contents(prev, n - 1, keys);
        }
    }
}

/// `insert_desc` adds exactly the new index: every element of the result is
/// the new index or an element of `order`, with its relative order kept.
proof fn lemma_insert_desc_contents(order: Seq<int>, i: int, keys: Seq<u64>)
    ensures
        exists|p: int| 0 <= p <= order.len() && insert_desc(order, i, keys) == order.insert(p, i),
    decreases order.len(),
{
    if order.len() == 0 {
        assert(insert_desc(order, i, keys) == order.insert(0, i));
    } else if keys[order[0]] < keys[i] {
        assert(insert_desc(order, i, keys) =~= order.insert(0, i));
    } else {
        let rest = order.drop_first();
        lemma_insert_desc_contents(rest, i, keys);
        let p = choose|p: int| 0 <= p <= rest.len() && insert_desc(rest, i, keys) == rest.insert(p, i);
        assert(insert_desc(order, i, keys) =~= order.insert(p + 1, i));
    }
}

/// Where `insert_desc` puts the new index: after the leading indices whose
/// key is at least its own, before the first one whose key is smaller.
proof fn lemma_insert_desc_position(order: Seq<int>, i: int, keys: Seq<u64>) -> (p: int)
    ensures
        0 <= p <= order.len(),
        insert_desc(order, i, keys) == order.insert(p, i),
        forall|j: int| 0 <= j < p ==> keys[#[trigger] order[j]] >= keys[i],
        p < order.len() ==> keys[order[p]] < keys[i],
    decreases order.len(),
{
    if order.len() == 0 {
        assert(insert_desc(order, i, keys) =~= order.insert(0, i));
        0
    } else if keys[order[0]] < keys[i] {
        assert(insert_desc(order, i, keys) =~= order.insert(0, i));
        0
    } else {
        let rest = order.drop_first();
        let q = lemma_insert_desc_position(rest, i, keys);
        assert(insert_desc(order, i, keys) =~= order.insert(q + 1, i));
        assert forall|j: int| 0 <= j < q + 1 implies keys[#[trigger] order[j]] >= keys[i] by {
            if j > 0 {
                assert(order[j] == rest[j - 1]);
            }
        }
        if q + 1 < order.len() {
            assert(order[q + 1] == rest[q]);
        }
        q + 1
    }
}

/// The magnitude order lists keys from largest to smallest, and among equal
/// keys the smaller index first, as a stable sort by decreasing key does.
pub proof fn lemma_magnitude_order_sorted(keys: Seq<u64>, n: nat)
    requires
        n <= keys.len(),
    ensures
        sorted_desc(magnitude_order(keys, n), keys),
        is_stable(magnitude_order(keys, n), keys),
    decreases n,
{
    if n > 0 {
        let prev = magnitude_order(keys, (n - 1) as nat);
        let i = n - 1;
        lemma_magnitude_order_sorted(keys, (n - 1) as nat);
        lemma_magnitude_order_permutation(keys, (n - 1) as nat);
        let p = lemma_insert_desc_position(prev, i, keys);
        let cur = magnitude_order(keys, n);
        assert(cur == prev.insert(p, i));
        assert forall|a: int, b: int| 0 <= a < b < cur.len() implies keys[cur[a]] >= keys[cur[b]] by {
            if a < p && b < p {
            } else if a < p && b == p {
            } else if a < p {
                assert(cur[b] == prev[b - 1]);
            } else if a == p {
                assert(cur[b] == prev[b - 1]);
                if b - 1 > p {
                    assert(keys[prev[p]] >= keys[prev[b - 1]]);
                }
            } else {
                assert(cur[a] == prev[a - 1]);
                assert(cur[b] == prev[b - 1]);
            }
        }
        assert forall|a: int, b: int|
            0 <= a < b < cur.len() && keys[cur[a]] == keys[cur[b]] implies cur[a] < cur[b] by {
            if a < p && b < p {
            } else if a < p && b == p {
                assert(prev[a] < i);
            } else if a < p {
                assert(cur[b] == prev[b - 1]);
            } else if a == p {
                assert(cur[b] == prev[b - 1]);
                if b - 1 > p {
                    assert(keys[prev[p]] >= keys[prev[b - 1]]);
                }
            } else {
                assert(cur[a] == prev[a - 1]);
                assert(cur[b] == prev[b - 1]);
            }
        }
    }
}

} // verus!
