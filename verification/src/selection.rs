//! Selection rules over ordered keys.
//!
//! Every key is an `i64`; callers choose keys that order as the quantities they
//! stand for. A missing key (`None`) marks a position that takes no part in the
//! comparison.

use vstd::prelude::*;

verus! {

/// Position `i` holds a key, and that key lies strictly below `bound`.
pub open spec fn is_candidate(keys: Seq<Option<i64>>, bound: i64, i: int) -> bool {
    &&& 0 <= i < keys.len()
    &&& keys[i] is Some
    &&& keys[i]->0 < bound
}

/// Position `r` is the first position that holds the least key among all
/// candidates below `bound`.
pub open spec fn is_first_min_below(keys: Seq<Option<i64>>, bound: i64, r: int) -> bool {
    &&& is_candidate(keys, bound, r)
    &&& forall|i: int|
        #![trigger is_candidate(keys, bound, i)]
        is_candidate(keys, bound, i) ==> {
            &&& keys[r]->0 <= keys[i]->0
            &&& (keys[i]->0 == keys[r]->0 ==> r <= i)
        }
}

/// The rule picks `r` from `keys` with an optional bound: `None` when there is no
/// bound (an unordered threshold admits nothing) or no key below it, and
/// otherwise the first position of the least key below the bound.
pub open spec fn picks(keys: Seq<Option<i64>>, bound: Option<i64>, r: Option<usize>) -> bool {
    &&& r is None <==> (bound is None || forall|i: int| !#[trigger] is_candidate(keys, bound->0, i))
    &&& r matches Some(p) ==> bound is Some && is_first_min_below(keys, bound->0, p as int)
}

/// Scans the keys in order and keeps the position of every key that is strictly
/// smaller than the best one seen so far, starting from `bound`.
///
/// This is the entering-column rule and the ratio test of the simplex method, and
/// the blocking-constraint and release rules of the active-set method: the result
/// is the first position of the least key below `bound`, or `None` when no key
/// lies below `bound`.
pub fn first_min_below(keys: &Vec<Option<i64>>, bound: i64) -> (r: Option<usize>)
    ensures
        r is None <==> (forall|i: int| !#[trigger] is_candidate(keys@, bound, i)),
        r matches Some(p) ==> is_first_min_below(keys@, bound, p as int),
{
    let mut best: Option<usize> = None;
    let mut best_key: i64 = bound;
    let mut i: usize = 0;
    while i < keys.len()
        invariant
            i <= keys.len(),
            best is None ==> best_key == bound,
            best is None ==> forall|j: int| 0 <= j < i ==> !#[trigger] is_candidate(keys@, bound, j),
            best matches Some(b) ==> {
                &&& b < i
                &&& is_candidate(keys@, bound, b as int)
                &&& keys@[b as int]->0 == best_key
            },
            forall|j: int|
                0 <= j < i && #[trigger] is_candidate(keys@, bound, j) ==> {
                    &&& best is Some
                    &&& best_key <= keys@[j]->0
                    &&& (keys@[j]->0 == best_key ==> best->0 <= j)
                },
        decreases keys.len() - i,
    {
        let entry: Option<i64> = keys[i];
        if let Some(k) = entry {
            if k < best_key {
                best = Some(i);
                best_key = k;
            }
        }
        i = i + 1;
    }
    best
}

/// Returns the last position whose flag is set, or `0` when none is set.
///
/// The simplex projection uses it to find the last sorted coordinate that stays
/// positive after the shift.
pub fn last_flagged_or_zero(flags: &Vec<bool>) -> (r: usize)
    ensures
        (exists|i: int| 0 <= i < flags@.len() && flags@[i]) ==> {
            &&& r < flags@.len()
            &&& flags@[r as int]
            &&& forall|j: int| r < j < flags@.len() ==> !flags@[j]
        },
        !(exists|i: int| 0 <= i < flags@.len() && flags@[i]) ==> r == 0,
{
    let mut i: usize = flags.len();
    while i > 0
        invariant
            i <= flags@.len(),
            forall|j: int| i <= j < flags@.len() ==> !flags@[j],
        decreases i,
    {
        if flags[i - 1] {
            return i - 1;
        }
        i = i - 1;
    }
    0
}

/// `keys[a]` comes before `keys[b]` in the stable descending order: a larger key
/// first, and among equal keys the smaller position first.
pub open spec fn precedes(keys: Seq<i64>, a: usize, b: usize) -> bool {
    ||| keys[a as int] > keys[b as int]
    ||| (keys[a as int] == keys[b as int] && a < b)
}

/// `order` lists the positions `0..n` each exactly once.
pub open spec fn is_index_permutation(order: Seq<usize>, n: int) -> bool {
    &&& order.len() == n
    &&& order.no_duplicates()
    &&& forall|i: int| 0 <= i < order.len() ==> #[trigger] order[i] < n
    &&& forall|j: int| 0 <= j < n ==> #[trigger] order.contains(j as usize)
}

/// Every earlier entry of `order` precedes every later one.
pub open spec fn is_stable_descending(order: Seq<usize>, keys: Seq<i64>) -> bool {
    forall|i: int, j: int|
        0 <= i < j < order.len() ==> #[trigger] precedes(keys, order[i], order[j])
}

/// What a pick means. With a bound, a picked position holds a key strictly
/// below the bound, no other key below the bound is smaller, and every earlier
/// position with the same key is not below the bound; no position is picked
/// exactly when no key lies below the bound. Without a bound nothing is picked.
pub proof fn lemma_pick_is_first_least_below(keys: Seq<Option<i64>>, bound: Option<i64>, r: Option<usize>)
    requires
        picks(keys, bound, r),
    ensures
        bound is None ==> r is None,
        r is None ==> forall|i: int|
            0 <= i < keys.len() && bound is Some ==> (#[trigger] keys[i] is None || keys[i]->0 >= bound->0),
        r matches Some(p) ==> {
            &&& bound is Some
            &&& p < keys.len()
            &&& keys[p as int] is Some
            &&& keys[p as int]->0 < bound->0
            &&& forall|i: int|
                0 <= i < keys.len() && #[trigger] keys[i] is Some && keys[i]->0 < bound->0 ==> keys[p as int]->0
                    <= keys[i]->0
            &&& forall|i: int|
                0 <= i < p && #[trigger] keys[i] is Some && keys[i]->0 < bound->0 ==> keys[i]->0
                    > keys[p as int]->0
        },
        bound is Some && (exists|i: int| 0 <= i < keys.len() && #[trigger] keys[i] is Some && keys[i]->0 < bound->0)
            ==> r is Some,
{
    if let Some(b) = bound {
        if r is None {
            assert forall|i: int| 0 <= i < keys.len() implies (#[trigger] keys[i] is None || keys[i]->0 >= b) by {
                assert(!is_candidate(keys, b, i));
            }
        }
        if let Some(p) = r {
            assert forall|i: int|
                0 <= i < keys.len() && #[trigger] keys[i] is Some && keys[i]->0 < b implies keys[p as int]->0
                    <= keys[i]->0 by {
                assert(is_candidate(keys, b, i));
            }
            assert forall|i: int|
                0 <= i < p && #[trigger] keys[i] is Some && keys[i]->0 < b implies keys[i]->0 > keys[p as int]->0 by {
                assert(is_candidate(keys, b, i));
            }
        }
        if exists|i: int| 0 <= i < keys.len() && #[trigger] keys[i] is Some && keys[i]->0 < b {
            let i = choose|i: int| 0 <= i < keys.len() && #[trigger] keys[i] is Some && keys[i]->0 < b;
            assert(is_candidate(keys, b, i));
        }
    }
}

/// What `first_min_below` returns, in terms of the keys alone: the position of
/// a key below the bound that no other key below the bound undercuts, earlier
/// than every other position of that least key; `None` exactly when every key is
/// missing or at least the bound.
pub proof fn lemma_first_min_below_meaning(keys: Seq<Option<i64>>, bound: i64, r: Option<usize>)
    requires
        r is None <==> (forall|i: int| !#[trigger] is_candidate(keys, bound, i)),
        r matches Some(p) ==> is_first_min_below(keys, bound, p as int),
    ensures
        picks(keys, Some(bound), r),
        r is None <==> forall|i: int| 0 <= i < keys.len() ==> (#[trigger] keys[i] is None || keys[i]->0 >= bound),
{
    let b = Some(bound);
    assert(b->0 == bound);
    if r is None {
        assert forall|i: int| 0 <= i < keys.len() implies (#[trigger] keys[i] is None || keys[i]->0 >= bound) by {
            assert(!is_candidate(keys, bound, i));
        }
        assert forall|i: int| !#[trigger] is_candidate(keys, b->0, i) by {
            assert(!is_candidate(keys, bound, i));
        }
    } else {
        let p = r->0;
        assert(is_candidate(keys, bound, p as int));
        assert(!(keys[p as int] is None || keys[p as int]->0 >= bound));
        assert(!(forall|i: int| !#[trigger] is_candidate(keys, b->0, i)));
        assert(is_first_min_below(keys, b->0, p as int));
    }
}

/// What the stable descending order is, in terms of the keys alone: every
/// position `0..n` appears exactly once, keys never increase along the order,
/// and positions with equal keys appear in increasing order.
pub proof fn lemma_stable_descending_meaning(order: Seq<usize>, keys: Seq<i64>)
    requires
        is_index_permutation(order, keys.len() as int),
        is_stable_descending(order, keys),
    ensures
        order.len() == keys.len(),
        forall|i: int| 0 <= i < order.len() ==> #[trigger] order[i] < keys.len(),
        forall|j: int| 0 <= j < keys.len() ==> #[trigger] order.contains(j as usize),
        forall|i: int, j: int| 0 <= i < order.len() && 0 <= j < order.len() && i != j ==> #[trigger] order[i] != #[trigger] order[j],
        forall|i: int, j: int|
            0 <= i < j < order.len() ==> keys[#[trigger] order[i] as int] >= keys[#[trigger] order[j] as int],
        forall|i: int, j: int|
            0 <= i < j < order.len() && keys[#[trigger] order[i] as int] == keys[#[trigger] order[j] as int]
                ==> order[i] < order[j],
{
    assert forall|i: int, j: int| 0 <= i < j < order.len() implies keys[#[trigger] order[i] as int] >= keys[#[trigger] order[j] as int]
        && (keys[order[i] as int] == keys[order[j] as int] ==> order[i] < order[j]) by {
        assert(precedes(keys, order[i], order[j]));
    }
}

/// Lists the positions of `keys` from the largest key to the smallest; equal keys
/// keep their original order. This is the order in which a stable sort by
/// decreasing value visits the coordinates of a vector.
pub fn stable_descending_order(keys: &Vec<i64>) -> (order: Vec<usize>)
    ensures
        is_index_permutation(order@, keys@.len() as int),
        is_stable_descending(order@, keys@),
{
    let n = keys.len();
    let mut order: Vec<usize> = Vec::new();
    let mut t: usize = 0;
    while t < n
        invariant
            n == keys@.len(),
            t <= n,
            is_index_permutation(order@, t as int),
            is_stable_descending(order@, keys@),
        decreases n - t,
    {
        let kt = keys[t];
        let mut p: usize = 0;
        while p < order.len() && keys[order[p]] >= kt
            invariant
                n == keys@.len(),
                t < n,
                kt == keys@[t as int],
                p <= order@.len(),
                is_index_permutation(order@, t as int),
                forall|q: int| 0 <= q < p ==> keys@[#[trigger] order@[q] as int] >= kt,
            decreases order@.len() - p,
        {
            p = p + 1;
        }
        proof {
            assert forall|q: int| p <= q < order@.len() implies keys@[#[trigger] order@[q] as int] < kt by {
                if q > p {
                    assert(precedes(keys@, order@[p as int], order@[q]));
                }
            }
        }
        let ghost old_order = order@;
        order.insert(p, t);
        proof {
            let s = order@;
            assert(s =~= old_order.take(p as int).push(t).add(old_order.skip(p as int)));
            assert forall|i: int| 0 <= i < s.len() implies #[trigger] s[i] < t + 1 by {
                if i < p {
                    assert(s[i] == old_order[i]);
                } else if i > p {
                    assert(s[i] == old_order[i - 1]);
                }
            }
            assert forall|j: int| 0 <= j < t + 1 implies #[trigger] s.contains(j as usize) by {
                if j == t as int {
                    assert(s[p as int] == t);
                } else {
                    assert(old_order.contains(j as usize));
                    let q = choose|q: int| 0 <= q < old_order.len() && old_order[q] == j as usize;
                    if q < p {
                        assert(s[q] == old_order[q]);
                    } else {
                        assert(s[q + 1] == old_order[q]);
                    }
                }
            }
            assert forall|i: int, j: int| 0 <= i < s.len() && 0 <= j < s.len() && i != j implies s[i] != s[j] by {
                if i != p as int && j != p as int {
                    let oi = if i < p { i } else { i - 1 };
                    let oj = if j < p { j } else { j - 1 };
                    assert(s[i] == old_order[oi]);
                    assert(s[j] == old_order[oj]);
                } else if i == p as int {
                    let oj = if j < p { j } else { j - 1 };
                    assert(s[j] == old_order[oj]);
                } else {
                    let oi = if i < p { i } else { i - 1 };
                    assert(s[i] == old_order[oi]);
                }
            }
            assert forall|i: int, j: int| 0 <= i < j < s.len() implies #[trigger] precedes(keys@, s[i], s[j]) by {
                if j < p {
                    assert(precedes(keys@, old_order[i], old_order[j]));
                } else if j == p {
                    assert(s[i] == old_order[i]);
                    assert(keys@[old_order[i] as int] >= kt);
                } else if i == p {
                    assert(s[j] == old_order[j - 1]);
                } else if i < p {
                    assert(s[j] == old_order[j - 1]);
                    assert(precedes(keys@, old_order[i], old_order[j - 1]));
                } else {
                    assert(precedes(keys@, old_order[i - 1], old_order[j - 1]));
                }
            }
        }
        t = t + 1;
    }
    order
}

/// The stable descending order of a list of keys is unique: two index
/// permutations that both list the positions from the largest key to the
/// smallest, ties by position, are equal.
pub proof fn lemma_stable_descending_unique(a: Seq<usize>, b: Seq<usize>, keys: Seq<i64>)
    requires
        is_index_permutation(a, keys.len() as int),
        is_index_permutation(b, keys.len() as int),
        is_stable_descending(a, keys),
        is_stable_descending(b, keys),
    ensures
        a == b,
{
    assert forall|i: int| 0 <= i < a.len() implies a[i] == b[i] by {
        lemma_stable_descending_agree_upto(a, b, keys, i + 1);
    }
    assert(a =~= b);
}

proof fn lemma_stable_descending_agree_upto(a: Seq<usize>, b: Seq<usize>, keys: Seq<i64>, n: int)
    requires
        is_index_permutation(a, keys.len() as int),
        is_index_permutation(b, keys.len() as int),
        is_stable_descending(a, keys),
        is_stable_descending(b, keys),
        0 <= n <= a.len(),
    ensures
        forall|i: int| 0 <= i < n ==> a[i] == b[i],
    decreases n,
{
    if n > 0 {
        let i = n - 1;
        lemma_stable_descending_agree_upto(a, b, keys, i);
        if a[i] != b[i] {
            let x = b[i];
            let y = a[i];
            assert(a.contains(x)) by {
                assert(b[i] < keys.len());
                assert(a.contains(b[i] as int as usize));
            }
            assert(b.contains(y)) by {
                assert(a[i] < keys.len());
                assert(b.contains(a[i] as int as usize));
            }
            let j = choose|j: int| 0 <= j < a.len() && a[j] == x;
            let k = choose|k: int| 0 <= k < b.len() && b[k] == y;
            if j < i {
                assert(b[j] == x);
            }
            if k < i {
                assert(a[k] == y);
            }
            assert(j > i);
            assert(k > i);
            assert(precedes(keys, a[i], a[j]));
            assert(precedes(keys, b[i], b[k]));
        }
    }
}

} // verus!
