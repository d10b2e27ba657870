//! Stable ordering by an integer key.

use vstd::prelude::*;

verus! {

/// Position `a` comes before position `b`: by key, and by position where the keys are equal.
pub open spec fn before(keys: Seq<u64>, a: int, b: int) -> bool {
    keys[a] < keys[b] || (keys[a] == keys[b] && a < b)
}

/// `p` lists the first `n` positions of `keys` in ascending order of their keys, equal keys in
/// the order in which they stood.
pub open spec fn orders(keys: Seq<u64>, n: int, p: Seq<usize>) -> bool {
    &&& p.len() == n
    &&& forall|i: int| 0 <= i < n ==> 0 <= #[trigger] p[i] < n
    &&& forall|i: int, j: int| 0 <= i < j < n ==> before(keys, #[trigger] p[i] as int, #[trigger] p[j] as int)
    &&& forall|k: int| 0 <= k < n ==> #[trigger] listed(p, k)
}

/// The position occurs in the list.
pub open spec fn listed(p: Seq<usize>, k: int) -> bool {
    exists|i: int| 0 <= i < p.len() && #[trigger] p[i] == k
}

/// `p` lists all positions of `keys` in stable ascending order.
pub open spec fn is_stable_order(keys: Seq<u64>, p: Seq<usize>) -> bool {
    orders(keys, keys.len() as int, p)
}

/// The elements of `s` in the order in which `p` lists their positions.
pub open spec fn pick<T>(s: Seq<T>, p: Seq<usize>) -> Seq<T> {
    Seq::new(p.len(), |i: int| s[p[i] as int])
}

proof fn lemma_insert(keys: Seq<u64>, n: int, p: Seq<usize>, at: int)
    requires
        0 <= n < keys.len(),
        n <= usize::MAX,
        orders(keys, n, p),
        0 <= at <= n,
        at > 0 ==> keys[p[at - 1] as int] <= keys[n],
        at < n ==> keys[p[at] as int] > keys[n],
    ensures
        orders(keys, n + 1, p.insert(at, n as usize)),
{
    let q = p.insert(at, n as usize);
    assert forall|i: int| 0 <= i < n + 1 implies 0 <= #[trigger] q[i] < n + 1 by {
        if i > at {
            assert(q[i] == p[i - 1]);
        }
    }
    assert forall|i: int, j: int| 0 <= i < j < n + 1 implies before(
        keys,
        #[trigger] q[i] as int,
        #[trigger] q[j] as int,
    ) by {
        if j < at {
            assert(q[i] == p[i] && q[j] == p[j]);
        } else if i > at {
            assert(q[i] == p[i - 1] && q[j] == p[j - 1]);
        } else if i == at {
            assert(q[j] == p[j - 1]);
            if j - 1 > at {
                assert(before(keys, p[at] as int, p[j - 1] as int));
            }
        } else if j == at {
            assert(q[i] == p[i]);
            if i < at - 1 {
                assert(before(keys, p[i] as int, p[at - 1] as int));
            }
        } else {
            assert(q[i] == p[i] && q[j] == p[j - 1]);
        }
    }
    assert forall|k: int| 0 <= k < n + 1 implies #[trigger] listed(q, k) by {
        if k == n {
            assert(q[at] == k);
        } else {
            assert(listed(p, k));
            let i = choose|i: int| 0 <= i < p.len() && #[trigger] p[i] == k;
            if i < at {
                assert(q[i] == k);
            } else {
                assert(q[i + 1] == k);
            }
        }
    }
}

/// The positions of `keys` in stable ascending order.
pub fn stable_order(keys: &Vec<u64>) -> (p: Vec<usize>)
    ensures
        is_stable_order(keys@, p@),
{
    let mut p: Vec<usize> = Vec::new();
    let mut n: usize = 0;
    while n < keys.len()
        invariant
            n <= keys@.len(),
            orders(keys@, n as int, p@),
        decreases keys@.len() - n,
    {
        let key: u64 = keys[n];
        let mut at: usize = n;
        while at > 0 && keys[p[at - 1]] > key
            invariant
                at <= n < keys@.len(),
                orders(keys@, n as int, p@),
                key == keys@[n as int],
                at < n ==> keys@[p@[at as int] as int] > key,
            decreases at,
        {
            at = at - 1;
        }
        proof {
            lemma_insert(keys@, n as int, p@, at as int);
        }
        p.insert(at, n);
        n = n + 1;
    }
    p
}

/// A list in stable order is the only one.
pub proof fn stable_order_is_unique(keys: Seq<u64>, p: Seq<usize>, q: Seq<usize>)
    requires
        is_stable_order(keys, p),
        is_stable_order(keys, q),
    ensures
        p == q,
{
    lemma_prefix_equal(keys, p, q, keys.len() as int);
    assert(p =~= q);
}

proof fn lemma_prefix_equal(keys: Seq<u64>, p: Seq<usize>, q: Seq<usize>, m: int)
    requires
        is_stable_order(keys, p),
        is_stable_order(keys, q),
        0 <= m <= keys.len(),
    ensures
        forall|i: int| 0 <= i < m ==> p[i] == q[i],
    decreases m,
{
    if m > 0 {
        lemma_prefix_equal(keys, p, q, m - 1);
        let a = p[m - 1] as int;
        let b = q[m - 1] as int;
        if a != b {
            assert(listed(q, a));
            let j = choose|j: int| 0 <= j < q.len() && #[trigger] q[j] == a;
            assert(listed(p, b));
            let i = choose|i: int| 0 <= i < p.len() && #[trigger] p[i] == b;
            if j < m - 1 {
                assert(p[j] == q[j]);
                assert(before(keys, p[j] as int, p[m - 1] as int));
            } else if i < m - 1 {
                assert(p[i] == q[i]);
                assert(before(keys, q[i] as int, q[m - 1] as int));
            } else {
                assert(before(keys, q[m - 1] as int, q[j] as int));
                assert(before(keys, p[m - 1] as int, p[i] as int));
            }
            assert(false);
        }
    }
}

/// Behind a stable order the keys ascend.
pub proof fn picked_keys_ascend(keys: Seq<u64>, p: Seq<usize>)
    requires
        is_stable_order(keys, p),
    ensures
        forall|i: int, j: int| 0 <= i <= j < p.len() ==> pick(keys, p)[i] <= pick(keys, p)[j],
{
    assert forall|i: int, j: int| 0 <= i <= j < p.len() implies pick(keys, p)[i] <= pick(
        keys,
        p,
    )[j] by {
        if i < j {
            assert(before(keys, p[i] as int, p[j] as int));
        }
    }
}

/// An order lists every place once, by ascending keys; places with equal keys keep their order.
pub proof fn equal_keys_keep_their_order(keys: Seq<u64>, p: Seq<usize>, i: int, j: int, k: int)
    requires
        is_stable_order(keys, p),
        0 <= i < j < p.len(),
        0 <= k < keys.len(),
    ensures
        p.len() == keys.len(),
        p[i] != p[j],
        keys[p[i] as int] <= keys[p[j] as int],
        keys[p[i] as int] == keys[p[j] as int] ==> p[i] < p[j],
        exists|m: int| 0 <= m < p.len() && #[trigger] p[m] == k,
{
    assert(before(keys, p[i] as int, p[j] as int));
    assert(listed(p, k));
}

} // verus!
