//! The order in which `sort-by` and `list` print colors.
use vstd::prelude::*;

use crate::distinct::{is_permutation, lemma_permutation_onto};

verus! {

/// `order` arranges positions by nondecreasing key, positions with equal
/// keys keeping their relative order: what a stable sort by these keys does.
pub open spec fn is_stable_order(order: Seq<usize>, keys: Seq<i64>) -> bool {
    &&& is_permutation(order, keys.len() as int)
    &&& forall|i: int, j: int| 0 <= i < j < order.len() ==> keys[order[i] as int] <= keys[order[j] as int]
    &&& forall|i: int, j: int|
        0 <= i < j < order.len() && keys[order[i] as int] == keys[order[j] as int] ==> order[i]
            < order[j]
}

/// The stable order of positions by these keys (there is exactly one, see
/// `law_stable_order_is_unique`).
pub open spec fn stable_order(keys: Seq<i64>) -> Seq<usize> {
    choose|o: Seq<usize>| is_stable_order(o, keys)
}

/// The positions of the given order that start a run of equal keys: what
/// `dedup_by_key` keeps of a sequence arranged in this order.
pub open spec fn dedup_runs(order: Seq<usize>, keys: Seq<i64>) -> Seq<usize>
    decreases order.len(),
{
    if order.len() == 0 {
        Seq::empty()
    } else {
        let rest = dedup_runs(order.drop_last(), keys);
        if order.len() >= 2 && keys[order.last() as int] == keys[order[order.len() - 2] as int] {
            rest
        } else {
            rest.push(order.last())
        }
    }
}

/// The positions `0..keys.len()` sorted stably by their keys.
pub fn sorted_order(keys: &Vec<i64>) -> (order: Vec<usize>)
    ensures
        is_stable_order(order@, keys@),
        order@ == stable_order(keys@),
{
    let n = keys.len();
    let mut order: Vec<usize> = Vec::new();
    let mut idx: usize = 0;
    while idx < n
        invariant
            n == keys@.len(),
            idx <= n,
            order@.len() == idx,
            forall|k: int| 0 <= k < idx ==> #[trigger] order@[k] < idx,
            forall|k: int, m: int| 0 <= k < m < idx ==> order@[k] != order@[m],
            forall|i: int, j: int|
                0 <= i < j < idx ==> keys@[order@[i] as int] <= keys@[order@[j] as int],
            forall|i: int, j: int|
                0 <= i < j < idx && keys@[order@[i] as int] == keys@[order@[j] as int] ==> order@[i]
                    < order@[j],
        decreases n - idx,
    {
        let key = keys[idx];
        let mut p: usize = idx;
        while p > 0 && keys[order[p - 1]] > key
            invariant
                n == keys@.len(),
                idx < n,
                p <= idx,
                order@.len() == idx,
                forall|k: int| 0 <= k < idx ==> #[trigger] order@[k] < idx,
                forall|k: int| p <= k < idx ==> keys@[order@[k] as int] > key,
            decreases p,
        {
            p = p - 1;
        }
        let ghost before = order@;
        order.insert(p, idx);
        proof {
            assert(order@ == before.insert(p as int, idx));
            assert forall|k: int| 0 <= k < idx + 1 implies #[trigger] order@[k] < idx + 1 by {
                if k < p {
                    assert(order@[k] == before[k]);
                } else if k > p {
                    assert(order@[k] == before[k - 1]);
                }
            }
            assert forall|k: int, m: int| 0 <= k < m < idx + 1 implies order@[k] != order@[m] by {
                if k < p && m < p {
                    assert(order@[k] == before[k] && order@[m] == before[m]);
                } else if k < p && m == p {
                    assert(order@[k] == before[k]);
                } else if k < p && m > p {
                    assert(order@[k] == before[k] && order@[m] == before[m - 1]);
                } else if k == p {
                    assert(order@[m] == before[m - 1]);
                } else {
                    assert(order@[k] == before[k - 1] && order@[m] == before[m - 1]);
                }
            }
            assert forall|i: int, j: int| 0 <= i < j < idx + 1 implies keys@[order@[i] as int]
                <= keys@[order@[j] as int] by {
                if i < p && j < p {
                    assert(order@[i] == before[i] && order@[j] == before[j]);
                } else if i < p && j == p {
                    assert(order@[i] == before[i]);
                    if p > 0 {
                        assert(before[i] == before[i]);
                        assert(keys@[before[p - 1] as int] <= key);
                        assert(keys@[before[i] as int] <= keys@[before[p - 1] as int] || i == p - 1);
                    }
                } else if i < p && j > p {
                    assert(order@[i] == before[i] && order@[j] == before[j - 1]);
                } else if i == p {
                    assert(order@[j] == before[j - 1]);
                } else {
                    assert(order@[i] == before[i - 1] && order@[j] == before[j - 1]);
                }
            }
            assert forall|i: int, j: int|
                0 <= i < j < idx + 1 && keys@[order@[i] as int] == keys@[order@[j] as int] implies order@[i]
                < order@[j] by {
                if i < p && j < p {
                    assert(order@[i] == before[i] && order@[j] == before[j]);
                } else if i < p && j == p {
                    assert(order@[i] == before[i]);
                } else if i < p && j > p {
                    assert(order@[i] == before[i] && order@[j] == before[j - 1]);
                } else if i == p {
                    assert(order@[j] == before[j - 1]);
                } else {
                    assert(order@[i] == before[i - 1] && order@[j] == before[j - 1]);
                }
            }
        }
        idx = idx + 1;
    }
    proof {
        assert(is_stable_order(order@, keys@));
        let o = stable_order(keys@);
        assert(is_stable_order(o, keys@));
        law_stable_order_is_unique(order@, o, keys@);
    }
    order
}

/// The entries of `order` that start a run of equal keys.
pub fn dedup_order(order: &Vec<usize>, keys: &Vec<i64>) -> (kept: Vec<usize>)
    requires
        forall|k: int| 0 <= k < order@.len() ==> #[trigger] order@[k] < keys@.len(),
    ensures
        kept@ == dedup_runs(order@, keys@),
{
    let mut kept: Vec<usize> = Vec::new();
    let mut i: usize = 0;
    assert(order@.subrange(0, 0) =~= Seq::<usize>::empty());
    while i < order.len()
        invariant
            i <= order@.len(),
            forall|k: int| 0 <= k < order@.len() ==> #[trigger] order@[k] < keys@.len(),
            kept@ == dedup_runs(order@.subrange(0, i as int), keys@),
        decreases order.len() - i,
    {
        let ghost next = order@.subrange(0, i + 1);
        assert(next.drop_last() =~= order@.subrange(0, i as int));
        if i == 0 || keys[order[i]] != keys[order[i - 1]] {
            kept.push(order[i]);
        }
        i = i + 1;
    }
    assert(order@.subrange(0, order@.len() as int) =~= order@);
    kept
}

/// Whether `i` is the first position that holds its value.
pub open spec fn first_with_value(vals: Seq<i64>, i: int) -> bool {
    0 <= i < vals.len() && forall|j: int| 0 <= j < i ==> vals[j] != vals[i]
}

/// Deduplicating a stable order keeps, in increasing order of value, the
/// first position of each value (shown for the first `m` entries).
proof fn lemma_dedup_firsts(o: Seq<usize>, vals: Seq<i64>, m: int)
    requires
        is_stable_order(o, vals),
        0 <= m <= o.len(),
    ensures
        ({
            let d = dedup_runs(o.take(m), vals);
            &&& forall|a: int, b: int|
                0 <= a < b < d.len() ==> vals[d[a] as int] < vals[d[b] as int]
            &&& forall|k: int| 0 <= k < d.len() ==> first_with_value(vals, #[trigger] d[k] as int)
            &&& forall|p: int|
                0 <= p < m && first_with_value(vals, #[trigger] o[p] as int) ==> exists|k: int|
                    0 <= k < d.len() && d[k] == o[p]
            &&& m > 0 ==> d.len() > 0 && vals[d.last() as int] == vals[o[m - 1] as int]
        }),
    decreases m,
{
    if m > 0 {
        lemma_dedup_firsts(o, vals, m - 1);
        let prefix = o.take(m);
        assert(prefix.drop_last() =~= o.take(m - 1));
        assert(prefix.last() == o[m - 1]);
        let x = o[m - 1];
        let dp = dedup_runs(o.take(m - 1), vals);
        let d = dedup_runs(prefix, vals);
        if m >= 2 && vals[x as int] == vals[o[m - 2] as int] {
            assert(prefix[prefix.len() - 2] == o[m - 2]);
            assert(d == dp);
            assert(o[m - 2] < x);
            assert(!first_with_value(vals, x as int));
        } else {
            if m >= 2 {
                assert(prefix[prefix.len() - 2] == o[m - 2]);
            }
            assert(d == dp.push(x));
            assert forall|a: int, b: int| 0 <= a < b < d.len() implies vals[d[a] as int]
                < vals[d[b] as int] by {
                if b == d.len() - 1 {
                    assert(m >= 2);
                    assert(vals[dp.last() as int] == vals[o[m - 2] as int]);
                    assert(vals[o[m - 2] as int] <= vals[x as int]);
                    if a < dp.len() - 1 {
                        assert(vals[dp[a] as int] < vals[dp.last() as int]);
                    }
                } else {
                    assert(d[a] == dp[a] && d[b] == dp[b]);
                }
            }
            assert(first_with_value(vals, x as int)) by {
                assert forall|j: int| 0 <= j < x implies vals[j] != vals[x as int] by {
                    if vals[j] == vals[x as int] {
                        lemma_permutation_onto(o, vals.len() as int, j);
                        let q = choose|q: int| 0 <= q < vals.len() && o[q] == j;
                        if q < m - 1 {
                            assert(vals[o[q] as int] <= vals[o[m - 2] as int]);
                            assert(vals[o[m - 2] as int] <= vals[x as int]);
                        } else if q > m - 1 {
                            assert(o[m - 1] < o[q]);
                        }
                    }
                }
            }
            assert forall|k: int| 0 <= k < d.len() implies first_with_value(
                vals,
                #[trigger] d[k] as int,
            ) by {
                if k < dp.len() {
                    assert(d[k] == dp[k]);
                }
            }
            assert forall|p: int|
                0 <= p < m && first_with_value(vals, #[trigger] o[p] as int) implies exists|k: int|
                0 <= k < d.len() && d[k] == o[p] by {
                if p == m - 1 {
                    assert(d[d.len() - 1] == o[p]);
                } else {
                    let k = choose|k: int| 0 <= k < dp.len() && dp[k] == o[p];
                    assert(d[k] == o[p]);
                }
            }
        }
    }
}

/// Whether `sort-by` prints the color at position `a` before the one at `b`:
/// by increasing key (decreasing with `reverse`), equal keys in the order of
/// their RGB values with `unique` and of their positions without.
pub open spec fn printed_before(
    keys: Seq<i64>,
    rgb: Seq<i64>,
    unique: bool,
    reverse: bool,
    a: int,
    b: int,
) -> bool {
    let (x, y) = if reverse {
        (b, a)
    } else {
        (a, b)
    };
    keys[x] < keys[y] || (keys[x] == keys[y] && if unique {
        rgb[x] < rgb[y]
    } else {
        x < y
    })
}

/// Whether `sort-by` prints the color at position `i`: every color, or with
/// `unique` the first of the colors with each RGB value.
pub open spec fn printed(rgb: Seq<i64>, unique: bool, i: int) -> bool {
    0 <= i < rgb.len() && (!unique || first_with_value(rgb, i))
}

/// The `sort-by` command.
pub struct SortCommand;

impl SortCommand {
    /// The positions of the colors in the order in which `sort-by` prints
    /// them, given each color's sort key and its RGB value (`0xRRGGBB`):
    /// with `unique`, one color per RGB value; sorted stably by key, after
    /// sorting by RGB value where `unique` is set; reversed with `reverse`.
    pub fn order(keys: &Vec<i64>, rgb: &Vec<i64>, unique: bool, reverse: bool) -> (r: Vec<usize>)
        requires
            keys.len() == rgb.len(),
        ensures
            forall|k: int| 0 <= k < r@.len() ==> printed(rgb@, unique, #[trigger] r@[k] as int),
            forall|i: int| printed(rgb@, unique, i) ==> exists|k: int| 0 <= k < r@.len() && r@[k] == i,
            forall|a: int, b: int|
                0 <= a < b < r@.len() ==> printed_before(
                    keys@,
                    rgb@,
                    unique,
                    reverse,
                    #[trigger] r@[a] as int,
                    #[trigger] r@[b] as int,
                ),
    {
        let n = keys.len();
        // the positions that are printed, with the tie-breaking order
        let base: Vec<usize> = if unique {
            let by_rgb = sorted_order(rgb);
            proof {
                lemma_dedup_firsts(by_rgb@, rgb@, n as int);
                assert(by_rgb@.take(n as int) =~= by_rgb@);
                assert forall|i: int| printed(rgb@, unique, i) implies exists|k: int|
                    0 <= k < by_rgb@.len() && by_rgb@[k] == i by {
                    lemma_permutation_onto(by_rgb@, n as int, i);
                }
            }
            dedup_order(&by_rgb, rgb)
        } else {
            let mut all: Vec<usize> = Vec::new();
            let mut i: usize = 0;
            while i < n
                invariant
                    i <= n,
                    all@.len() == i,
                    forall|k: int| 0 <= k < i ==> #[trigger] all@[k] == k,
                decreases n - i,
            {
                all.push(i);
                i = i + 1;
            }
            proof {
                assert forall|i: int| printed(rgb@, unique, i) implies exists|k: int|
                    0 <= k < all@.len() && all@[k] == i by {
                    assert(all@[i] == i);
                }
            }
            all
        };
        assert(forall|k: int| 0 <= k < base@.len() ==> printed(rgb@, unique, #[trigger] base@[k] as int));
        assert(forall|i: int| printed(rgb@, unique, i) ==> exists|k: int|
            0 <= k < base@.len() && base@[k] == i);
        assert(forall|a: int, b: int| 0 <= a < b < base@.len() ==> if unique {
            rgb@[#[trigger] base@[a] as int] < rgb@[#[trigger] base@[b] as int]
        } else {
            base@[a] < base@[b]
        });
        // their keys, sorted stably
        let mut sub_keys: Vec<i64> = Vec::new();
        let mut j: usize = 0;
        while j < base.len()
            invariant
                j <= base@.len(),
                sub_keys@.len() == j,
                keys@.len() == rgb@.len(),
                forall|k: int| 0 <= k < base@.len() ==> printed(rgb@, unique, #[trigger] base@[k] as int),
                forall|k: int| 0 <= k < j ==> #[trigger] sub_keys@[k] == keys@[base@[k] as int],
            decreases base.len() - j,
        {
            sub_keys.push(keys[base[j]]);
            j = j + 1;
        }
        let o = sorted_order(&sub_keys);
        let m = o.len();
        let mut r: Vec<usize> = Vec::new();
        let mut q: usize = 0;
        while q < m
            invariant
                m == o@.len(),
                m == base@.len(),
                q <= m,
                r@.len() == q,
                is_stable_order(o@, sub_keys@),
                forall|k: int| 0 <= k < q ==> #[trigger] r@[k] == if reverse {
                    base@[o@[m - 1 - k] as int]
                } else {
                    base@[o@[k] as int]
                },
            decreases m - q,
        {
            let idx = if reverse {
                o[m - 1 - q]
            } else {
                o[q]
            };
            r.push(base[idx]);
            q = q + 1;
        }
        proof {
            let pos = |k: int| if reverse {
                m - 1 - k
            } else {
                k
            };
            assert forall|k: int| 0 <= k < r@.len() implies printed(
                rgb@,
                unique,
                #[trigger] r@[k] as int,
            ) by {
                assert(o@[pos(k)] < m);
            }
            assert forall|i: int| printed(rgb@, unique, i) implies exists|k: int|
                0 <= k < r@.len() && r@[k] == i by {
                let kb = choose|kb: int| 0 <= kb < base@.len() && base@[kb] == i;
                lemma_permutation_onto(o@, m as int, kb);
                let p = choose|p: int| 0 <= p < m && o@[p] == kb;
                assert(r@[pos(p)] == i);
            }
            assert forall|a: int, b: int| 0 <= a < b < r@.len() implies printed_before(
                keys@,
                rgb@,
                unique,
                reverse,
                #[trigger] r@[a] as int,
                #[trigger] r@[b] as int,
            ) by {
                let (pa, pb) = if reverse {
                    (pos(b), pos(a))
                } else {
                    (a, b)
                };
                assert(0 <= pa < pb < m);
                assert(sub_keys@[o@[pa] as int] <= sub_keys@[o@[pb] as int]);
                if sub_keys@[o@[pa] as int] == sub_keys@[o@[pb] as int] {
                    assert(o@[pa] < o@[pb]);
                }
            }
        }
        r
    }
}

/// The `list` command.
pub struct ListCommand;

impl ListCommand {
    /// The positions of the named colors in the order in which `list`
    /// prints them, given each color's sort key and its RGB value: sorted
    /// stably by key, a color left out when it equals the one printed just
    /// before it.
    pub fn order(keys: &Vec<i64>, rgb: &Vec<i64>) -> (r: Vec<usize>)
        requires
            keys.len() == rgb.len(),
        ensures
            r@ == dedup_runs(stable_order(keys@), rgb@),
    {
        let o = sorted_order(keys);
        dedup_order(&o, rgb)
    }
}

/// There is only one stable order of given keys: the order of `sort-by`
/// and `list` is determined by the keys.
pub proof fn law_stable_order_is_unique(o1: Seq<usize>, o2: Seq<usize>, keys: Seq<i64>)
    requires
        is_stable_order(o1, keys),
        is_stable_order(o2, keys),
    ensures
        o1 == o2,
{
    let n = keys.len() as int;
    assert forall|k: int| 0 <= k < n implies o1[k] == o2[k] by {
        lemma_stable_orders_agree(o1, o2, keys, k);
    }
    assert(o1 =~= o2);
}

proof fn lemma_stable_orders_agree(o1: Seq<usize>, o2: Seq<usize>, keys: Seq<i64>, k: int)
    requires
        is_stable_order(o1, keys),
        is_stable_order(o2, keys),
        0 <= k < keys.len(),
    ensures
        o1[k] == o2[k],
    decreases k,
{
    let n = keys.len() as int;
    assert forall|j: int| 0 <= j < k implies o1[j] == o2[j] by {
        lemma_stable_orders_agree(o1, o2, keys, j);
    }
    // o2[k] stands in o1 at or after k, and o1[k] in o2 at or after k
    lemma_permutation_onto(o1, n, o2[k] as int);
    let q1 = choose|q: int| 0 <= q < n && o1[q] == o2[k];
    if q1 < k {
        assert(o2[q1] == o2[k]);
    }
    lemma_permutation_onto(o2, n, o1[k] as int);
    let q2 = choose|q: int| 0 <= q < n && o2[q] == o1[k];
    if q2 < k {
        assert(o1[q2] == o1[k]);
    }
    if q1 > k {
        assert(keys[o1[k] as int] <= keys[o2[k] as int]);
    }
    if q2 > k {
        assert(keys[o2[k] as int] <= keys[o1[k] as int]);
    }
    if q1 > k && q2 > k {
        assert(keys[o1[k] as int] == keys[o2[k] as int]);
        assert(o1[k] < o1[q1]);
        assert(o2[k] < o2[q2]);
    }
}

} // verus!
