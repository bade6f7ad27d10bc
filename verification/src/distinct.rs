//! Ordering a set of colors so that each one differs as much as possible
//! from the ones before it.
use vstd::prelude::*;

verus! {

/// The color difference formula used to compare two colors.
#[derive(Debug, Clone, Copy, PartialEq, Eq, Structural)]
pub enum DistanceMetric {
    CIE76,
    CIEDE2000,
}

/// The smallest distance from `x` to any element of `prefix` (`i32::MAX` if
/// there is none), where `dist[x][p]` is the distance from `x` to `p`.
pub open spec fn min_distance(dist: Seq<Seq<i32>>, x: int, prefix: Seq<usize>) -> int
    decreases prefix.len(),
{
    if prefix.len() == 0 {
        i32::MAX as int
    } else {
        let rest = min_distance(dist, x, prefix.drop_last());
        let d = dist[x][prefix.last() as int] as int;
        if d < rest {
            d
        } else {
            rest
        }
    }
}

/// A square matrix of distances between `n` colors, no entry `i32::MIN`.
pub open spec fn is_distance_matrix(dist: Seq<Seq<i32>>) -> bool {
    forall|a: int|
        0 <= a < dist.len() ==> #[trigger] dist[a].len() == dist.len() && forall|b: int|
            0 <= b < dist.len() ==> #[trigger] dist[a][b] > i32::MIN
}

/// `order` lists each of `0..n` exactly once.
pub open spec fn is_permutation(order: Seq<usize>, n: int) -> bool {
    &&& order.len() == n
    &&& forall|k: int| 0 <= k < n ==> #[trigger] order[k] < n
    &&& forall|k: int, m: int| 0 <= k < m < n ==> order[k] != order[m]
}

/// Among positions `i..j` of `order` (for `j > i`), the first one whose color
/// is farthest from the colors at positions `0..i`.
pub open spec fn farthest_index(dist: Seq<Seq<i32>>, order: Seq<usize>, i: int, j: int) -> int
    decreases j - i,
{
    if j <= i + 1 {
        i
    } else {
        let k = farthest_index(dist, order, i, j - 1);
        if min_distance(dist, order[j - 1] as int, order.subrange(0, i)) > min_distance(
            dist,
            order[k] as int,
            order.subrange(0, i),
        ) {
            j - 1
        } else {
            k
        }
    }
}

/// What `farthest_index` picks, stated directly: among positions `i..j`,
/// a color whose smallest distance to the colors at `0..i` is largest, and
/// of several such the one at the earliest position.
pub proof fn lemma_farthest_index_is_earliest_farthest(
    dist: Seq<Seq<i32>>,
    order: Seq<usize>,
    i: int,
    j: int,
)
    requires
        0 <= i < j,
    ensures
        i <= farthest_index(dist, order, i, j) < j,
        forall|m: int|
            i <= m < j ==> #[trigger] min_distance(dist, order[m] as int, order.subrange(0, i))
                <= min_distance(
                dist,
                order[farthest_index(dist, order, i, j) as int] as int,
                order.subrange(0, i),
            ),
        forall|m: int|
            i <= m < farthest_index(dist, order, i, j) ==> #[trigger] min_distance(
                dist,
                order[m] as int,
                order.subrange(0, i),
            ) < min_distance(
                dist,
                order[farthest_index(dist, order, i, j) as int] as int,
                order.subrange(0, i),
            ),
    decreases j - i,
{
    if j > i + 1 {
        lemma_farthest_index_is_earliest_farthest(dist, order, i, j - 1);
    }
}

/// `order` with the entries at `a` and `b` exchanged (unchanged where either
/// is out of range).
pub open spec fn swap_entries(order: Seq<usize>, a: int, b: int) -> Seq<usize> {
    if 0 <= a < order.len() && 0 <= b < order.len() {
        order.update(a, order[b]).update(b, order[a])
    } else {
        order
    }
}

/// The farthest-first arrangement from position `i` on: the farthest of the
/// remaining colors (the first such, see `farthest_index`) is exchanged into
/// position `i`, then the same from `i + 1`.
pub open spec fn farthest_first(dist: Seq<Seq<i32>>, order: Seq<usize>, i: int) -> Seq<usize>
    decreases order.len() - i,
{
    if i >= order.len() || i < 0 {
        order
    } else {
        let k = farthest_index(dist, order, i, order.len() as int);
        farthest_first(dist, swap_entries(order, i, k), i + 1)
    }
}

/// `0, 1, ..., n - 1`.
pub open spec fn identity_order(n: nat) -> Seq<usize> {
    Seq::new(n, |k: int| k as usize)
}

/// A permutation of `0..n` takes every value in `0..n`.
pub proof fn lemma_permutation_onto(order: Seq<usize>, n: int, i: int)
    requires
        is_permutation(order, n),
        0 <= i < n,
    ensures
        exists|k: int| 0 <= k < n && order[k] == i,
{
    broadcast use vstd::seq_lib::seq_to_set_is_finite;

    let s = order.map_values(|v: usize| v as int);
    assert forall|a: int, b: int| 0 <= a < s.len() && 0 <= b < s.len() && a != b implies s[a]
        != s[b] by {
        if a < b {
            assert(order[a] != order[b]);
        } else {
            assert(order[b] != order[a]);
        }
    }
    assert(s.no_duplicates());
    s.unique_seq_to_set();
    let t = s.to_set();
    let range = vstd::set_lib::set_int_range(0, n);
    vstd::set_lib::lemma_int_range(0, n);
    assert forall|v: int| t.contains(v) implies range.contains(v) by {
        let k = choose|k: int| 0 <= k < s.len() && s[k] == v;
        assert(order[k] < n);
    }
    vstd::set_lib::lemma_subset_equality(t, range);
    assert(range.contains(i));
    assert(t.contains(i));
    let k = choose|k: int| 0 <= k < s.len() && s[k] == i;
    assert(order[k] == i);
}

proof fn lemma_min_distance_bounds(dist: Seq<Seq<i32>>, x: int, prefix: Seq<usize>)
    requires
        is_distance_matrix(dist),
        0 <= x < dist.len(),
        forall|k: int| 0 <= k < prefix.len() ==> #[trigger] prefix[k] < dist.len(),
    ensures
        i32::MIN < min_distance(dist, x, prefix) <= i32::MAX,
    decreases prefix.len(),
{
    if prefix.len() > 0 {
        lemma_min_distance_bounds(dist, x, prefix.drop_last());
        assert(dist[x].len() == dist.len());
        assert(dist[x][prefix.last() as int] > i32::MIN);
    }
}

/// The farthest-first order of colors `0..n`: color 0 first, then each time
/// the color whose smallest distance to the colors already placed is
/// largest; the chosen color is exchanged with the one at its place, and of
/// equally far colors the one standing first is taken (`farthest_first`;
/// `lemma_farthest_index_is_earliest_farthest` states each choice directly).
/// Entries of `dist` are distances scaled to integers.
pub fn rearrange_order(dist: &Vec<Vec<i32>>) -> (order: Vec<usize>)
    requires
        is_distance_matrix(dist@.map_values(|row: Vec<i32>| row@)),
    ensures
        is_permutation(order@, dist@.len() as int),
        order@ == farthest_first(
            dist@.map_values(|row: Vec<i32>| row@),
            identity_order(dist@.len()),
            1,
        ),
        dist@.len() > 0 ==> order@[0] == 0,
        forall|i: int, j: int|
            1 <= i < j < dist@.len() ==> min_distance(
                dist@.map_values(|row: Vec<i32>| row@),
                order@[i] as int,
                order@.subrange(0, i),
            ) >= min_distance(
                dist@.map_values(|row: Vec<i32>| row@),
                order@[j] as int,
                order@.subrange(0, i),
            ),
{
    let ghost d = dist@.map_values(|row: Vec<i32>| row@);
    let n = dist.len();
    let mut order: Vec<usize> = Vec::new();
    let mut min_distances: Vec<i32> = Vec::new();
    let mut k: usize = 0;
    while k < n
        invariant
            k <= n == dist@.len(),
            order@.len() == k,
            min_distances@.len() == k,
            forall|m: int| 0 <= m < k ==> order@[m] == m,
            forall|m: int| 0 <= m < k ==> min_distances@[m] == i32::MAX,
        decreases n - k,
    {
        order.push(k);
        min_distances.push(i32::MAX);
        k = k + 1;
    }
    assert(order@.subrange(0, 0) =~= Seq::<usize>::empty());
    assert(order@ =~= identity_order(n as nat));
    let mut i: usize = 1;
    while i < n
        invariant
            d == dist@.map_values(|row: Vec<i32>| row@),
            is_distance_matrix(d),
            n == dist@.len(),
            1 <= i || n == 0,
            i <= n || n == 0,
            is_permutation(order@, n as int),
            n > 0 ==> order@[0] == 0,
            farthest_first(d, order@, i as int) == farthest_first(d, identity_order(n as nat), 1),
            min_distances@.len() == n,
            forall|j: int|
                i <= j < n ==> #[trigger] min_distances@[j] == min_distance(
                    d,
                    order@[j] as int,
                    order@.subrange(0, i - 1),
                ),
            forall|a: int, m: int|
                1 <= a < i && a < m < n ==> min_distance(d, order@[a] as int, order@.subrange(0, a))
                    >= min_distance(d, order@[m] as int, order@.subrange(0, a)),
        decreases n - i,
    {
        let ghost before = order@;
        let mut max_i: usize = n;
        let mut max_d: i32 = i32::MIN;
        let mut j: usize = i;
        while j < n
            invariant
                d == dist@.map_values(|row: Vec<i32>| row@),
                is_distance_matrix(d),
                n == dist@.len(),
                1 <= i <= j <= n,
                order@ == before,
                is_permutation(order@, n as int),
                min_distances@.len() == n,
                forall|m: int|
                    j <= m < n ==> #[trigger] min_distances@[m] == min_distance(
                        d,
                        order@[m] as int,
                        order@.subrange(0, i - 1),
                    ),
                forall|m: int|
                    i <= m < j ==> #[trigger] min_distances@[m] == min_distance(
                        d,
                        order@[m] as int,
                        order@.subrange(0, i as int),
                    ),
                j == i ==> max_i == n && max_d == i32::MIN,
                j > i ==> i <= max_i < j && max_d == min_distances@[max_i as int],
                j > i ==> max_i == farthest_index(d, before, i as int, j as int),
                forall|m: int| i <= m < j ==> #[trigger] min_distances@[m] <= max_d,
            decreases n - j,
        {
            let a = order[j];
            let b = order[i - 1];
            proof {
                assert(d[a as int] == dist@[a as int]@);
                assert(order@.subrange(0, i as int).drop_last() =~= order@.subrange(0, i - 1));
                lemma_min_distance_bounds(d, a as int, order@.subrange(0, i as int));
            }
            let dab = dist[a][b];
            if dab < min_distances[j] {
                min_distances.set(j, dab);
            }
            if min_distances[j] > max_d {
                max_i = j;
                max_d = min_distances[j];
            }
            j = j + 1;
        }
        assert(max_i < n);
        let ghost chosen = order@[max_i as int];
        let ghost md = min_distances@;
        let oi = order[i];
        let om = order[max_i];
        order.set(i, om);
        order.set(max_i, oi);
        let di = min_distances[i];
        let dm = min_distances[max_i];
        min_distances.set(i, dm);
        min_distances.set(max_i, di);
        proof {
            assert(order@ =~= swap_entries(before, i as int, max_i as int));
            assert(order@.subrange(0, i as int) =~= before.subrange(0, i as int));
            assert(order@.subrange(0, i + 1) =~= before.subrange(0, i as int).push(chosen));
            assert forall|k: int, m: int| 0 <= k < m < n implies order@[k] != order@[m] by {
                let bk = if k == i { max_i as int } else if k == max_i { i as int } else { k };
                let bm = if m == i { max_i as int } else if m == max_i { i as int } else { m };
                assert(order@[k] == before[bk]);
                assert(order@[m] == before[bm]);
                assert(bk != bm);
                if bk < bm {
                    assert(before[bk] != before[bm]);
                } else {
                    assert(before[bm] != before[bk]);
                }
            }
            assert forall|a: int, m: int|
                1 <= a < i + 1 && a < m < n implies min_distance(d, order@[a] as int, order@.subrange(0, a))
                    >= min_distance(d, order@[m] as int, order@.subrange(0, a)) by {
                let bm = if m == i { max_i as int } else if m == max_i { i as int } else { m };
                assert(order@[m] == before[bm]);
                if a < i {
                    assert(order@.subrange(0, a) =~= before.subrange(0, a));
                    assert(order@[a] == before[a]);
                    assert(a < bm < n);
                    assert(min_distance(d, before[a] as int, before.subrange(0, a)) >= min_distance(
                        d,
                        before[bm] as int,
                        before.subrange(0, a),
                    ));
                } else {
                    assert(order@.subrange(0, a) =~= before.subrange(0, i as int));
                    assert(order@[a] == before[max_i as int]);
                    assert(md[max_i as int] == max_d);
                    assert(md[max_i as int] == min_distance(d, before[max_i as int] as int, before.subrange(0, i as int)));
                    assert(i <= bm < n);
                    assert(md[bm] <= max_d);
                    assert(md[bm] == min_distance(d, before[bm] as int, before.subrange(0, i as int)));
                }
            }
            assert forall|m: int| i + 1 <= m < n implies #[trigger] min_distances@[m]
                == min_distance(d, order@[m] as int, order@.subrange(0, i as int)) by {
                if m == max_i {
                    assert(order@[m] == before[i as int]);
                }
            }
        }
        i = i + 1;
    }
    order
}

/// A channel moved up (or down) by `amount % 10`, stopping at 255 (or 0):
/// the step that local optimisation takes on each channel of a color, with
/// the direction and the amount drawn at random by the caller.
pub fn shift_channel(c: u8, up: bool, amount: u8) -> (r: u8)
    ensures
        r == if up {
            if c + amount % 10 > 255 { 255 } else { c + amount % 10 }
        } else {
            if c - amount % 10 < 0 { 0 } else { c - amount % 10 }
        },
{
    let d = amount % 10;
    if up {
        c.saturating_add(d)
    } else {
        c.saturating_sub(d)
    }
}

/// What an annealing run maximises: the mean or the minimum of the distances
/// between each color and its nearest neighbor.
#[derive(Debug, Clone, Copy, PartialEq, Eq, Structural)]
pub enum OptimizationTarget {
    Mean,
    Min,
}

/// The color that the next annealing step changes. For `Mean` it is `drawn`,
/// an index drawn at random from the colors that are not fixed; for `Min` it
/// is the member of the closest pair that is not fixed, the first when
/// neither is fixed and `coin` came up, else the second.
pub open spec fn modified_color(
    target: OptimizationTarget,
    drawn: usize,
    closest_pair: (usize, usize),
    num_fixed_colors: usize,
    coin: bool,
) -> usize {
    match target {
        OptimizationTarget::Mean => drawn,
        OptimizationTarget::Min => if closest_pair.0 < num_fixed_colors {
            closest_pair.1
        } else if closest_pair.1 < num_fixed_colors {
            closest_pair.0
        } else if coin {
            closest_pair.0
        } else {
            closest_pair.1
        },
    }
}

/// An annealing step never changes a fixed color: the drawn index is one of
/// the colors that are not fixed, and the closest pair is never a pair of
/// fixed colors.
pub proof fn law_fixed_colors_stay(
    target: OptimizationTarget,
    drawn: usize,
    closest_pair: (usize, usize),
    num_fixed_colors: usize,
    coin: bool,
)
    requires
        target == OptimizationTarget::Mean ==> drawn >= num_fixed_colors,
        target == OptimizationTarget::Min ==> closest_pair.0 >= num_fixed_colors
            || closest_pair.1 >= num_fixed_colors,
    ensures
        modified_color(target, drawn, closest_pair, num_fixed_colors, coin) >= num_fixed_colors,
{
}

/// The color that the next annealing step changes (see `modified_color`).
pub fn color_to_modify(
    target: OptimizationTarget,
    drawn: usize,
    closest_pair: (usize, usize),
    num_fixed_colors: usize,
    coin: bool,
) -> (i: usize)
    ensures
        i == modified_color(target, drawn, closest_pair, num_fixed_colors, coin),
{
    match target {
        OptimizationTarget::Mean => drawn,
        OptimizationTarget::Min => {
            if closest_pair.0 < num_fixed_colors {
                closest_pair.1
            } else if closest_pair.1 < num_fixed_colors {
                closest_pair.0
            } else if coin {
                closest_pair.0
            } else {
                closest_pair.1
            }
        },
    }
}

} // verus!
