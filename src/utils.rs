use crate::dec::{abs_int, clamp, max_int, tdiv, Dec, SCALE};
use std::collections::HashMap;
use vstd::prelude::*;

verus! {

broadcast use {crate::dec::lemma_dec_bounded, vstd::std_specs::hash::group_hash_axioms};

/// The values of a sequence of amounts.
pub open spec fn vals(s: Seq<Dec>) -> Seq<int> {
    s.map_values(|d: Dec| d@)
}

/// Sum, added from the front with saturation at each step.
pub open spec fn total(s: Seq<int>) -> int
    decreases s.len(),
{
    if s.len() == 0 {
        0int
    } else {
        clamp(total(s.drop_last()) + s.last())
    }
}

/// Mean of the `n` most recent prices (recent first); `None` for fewer samples or `n == 0`.
pub open spec fn sma_spec(p: Seq<int>, n: int) -> Option<int> {
    if n > 0 && p.len() >= n {
        Some(tdiv(total(p.subrange(0, n)), n))
    } else {
        None
    }
}

/// One smoothing step: `v + (p - v) / n`.
pub open spec fn wilder_step(v: int, p: int, n: int) -> int {
    clamp(v + tdiv(clamp(p - v), n))
}

/// Smoothed value seeded with the oldest sample of the window `p[n - 1]`, then stepped
/// with `p[n - 1]`, `p[n - 2]`, down to `p[j]`.
pub open spec fn wilder(p: Seq<int>, n: int, j: int) -> int
    decreases n - j,
{
    if j >= n {
        p[n - 1]
    } else {
        wilder_step(wilder(p, n, j + 1), p[j], n)
    }
}

/// Wilder smoothing over the `n` most recent prices; `None` for fewer samples or `n == 0`.
pub open spec fn wsma_spec(p: Seq<int>, n: int) -> Option<int> {
    if n > 0 && p.len() >= n {
        Some(wilder(p, n, 0))
    } else {
        None
    }
}

/// True range of a candle: the largest of `high - low`, `|high - prev_close|` and
/// `|low - prev_close|`.
pub open spec fn true_range(h: int, l: int, pc: int) -> int {
    max_int(max_int(clamp(h - l), abs_int(clamp(h - pc))), abs_int(clamp(l - pc)))
}

pub open spec fn true_ranges(c: Seq<(Dec, Dec, Dec)>) -> Seq<int> {
    c.map_values(|t: (Dec, Dec, Dec)| true_range(t.0@, t.1@, t.2@))
}

/// Mean true range of the `n` most recent candles.
pub open spec fn atr_spec(c: Seq<(Dec, Dec, Dec)>, n: int) -> Option<int> {
    if c.len() < n || n == 0 {
        None
    } else {
        Some(tdiv(total(true_ranges(c.subrange(0, n))), n))
    }
}

pub fn sma(prices: &[Dec], period: usize) -> (r: Option<Dec>)
    ensures
        match sma_spec(vals(prices@), period as int) {
            Some(v) => r is Some && r->Some_0@ == v,
            None => r is None,
        },
{
    if period == 0 || prices.len() < period {
        return None;
    }
    let s = sum_prefix(prices, period);
    Some(s.div_int(period as u64))
}

fn sum_prefix(prices: &[Dec], n: usize) -> (r: Dec)
    requires
        n <= prices@.len(),
    ensures
        r@ == total(vals(prices@).subrange(0, n as int)),
{
    let mut acc = Dec::zero();
    let mut i: usize = 0;
    while i < n
        invariant
            i <= n <= prices@.len(),
            acc@ == total(vals(prices@).subrange(0, i as int)),
        decreases n - i,
    {
        proof {
            let q = vals(prices@).subrange(0, i + 1);
            assert(q.drop_last() =~= vals(prices@).subrange(0, i as int));
        }
        acc = acc.add(prices[i]);
        i = i + 1;
    }
    acc
}

pub fn wsma(prices: &[Dec], period: usize) -> (r: Option<Dec>)
    ensures
        match wsma_spec(vals(prices@), period as int) {
            Some(v) => r is Some && r->Some_0@ == v,
            None => r is None,
        },
{
    if period == 0 || prices.len() < period {
        return None;
    }
    let mut w = prices[period - 1];
    let mut j = period;
    while j > 0
        invariant
            0 <= j <= period <= prices@.len(),
            w@ == wilder(vals(prices@), period as int, j as int),
        decreases j,
    {
        j = j - 1;
        let p = prices[j];
        w = w.add(p.sub(w).div_int(period as u64));
    }
    Some(w)
}

pub fn atr(prices: &[(Dec, Dec, Dec)], n: usize) -> (r: Option<Dec>)
    ensures
        match atr_spec(prices@, n as int) {
            Some(v) => r is Some && r->Some_0@ == v,
            None => r is None,
        },
{
    if prices.len() < n || n == 0 {
        return None;
    }
    let mut acc = Dec::zero();
    let mut i: usize = 0;
    while i < n
        invariant
            i <= n <= prices@.len(),
            acc@ == total(true_ranges(prices@.subrange(0, i as int))),
        decreases n - i,
    {
        proof {
            let q = true_ranges(prices@.subrange(0, i + 1));
            assert(q.drop_last() =~= true_ranges(prices@.subrange(0, i as int)));
        }
        let (high, low, prev_close) = prices[i];
        let tr = high.sub(low).max(high.sub(prev_close).abs()).max(low.sub(prev_close).abs());
        acc = acc.add(tr);
        i = i + 1;
    }
    Some(acc.div_int(n as u64))
}

/// Mean of all prices; `None` when there are none.
pub fn avg(prices: &[Dec]) -> (r: Option<Dec>)
    ensures
        prices@.len() == 0 ==> r is None,
        prices@.len() > 0 ==> r is Some && r->Some_0@ == tdiv(total(vals(prices@)), prices@.len() as int),
{
    if prices.len() == 0 {
        return None;
    }
    let s = sum_prefix(prices, prices.len());
    proof {
        assert(vals(prices@).subrange(0, prices@.len() as int) =~= vals(prices@));
    }
    Some(s.div_int(prices.len() as u64))
}

/// Inserts `x` into the ordered `s` after every entry that may stay ahead of it.
pub open spec fn insert_val(s: Seq<int>, x: int, asc: bool) -> Seq<int>
    decreases s.len(),
{
    if s.len() == 0 {
        seq![x]
    } else if (asc && s.last() <= x) || (!asc && s.last() >= x) {
        s.push(x)
    } else {
        insert_val(s.drop_last(), x, asc).push(s.last())
    }
}

/// Insertion sort, ascending or descending.
pub open spec fn sort_vals(s: Seq<int>, asc: bool) -> Seq<int>
    decreases s.len(),
{
    if s.len() == 0 {
        Seq::empty()
    } else {
        insert_val(sort_vals(s.drop_last(), asc), s.last(), asc)
    }
}

proof fn lemma_insert_val(s: Seq<int>, x: int, asc: bool, j: int)
    requires
        0 <= j <= s.len(),
        j == 0 || (asc && s[j - 1] <= x) || (!asc && s[j - 1] >= x),
        forall|k: int| j <= k < s.len() ==> !((asc && #[trigger] s[k] <= x) || (!asc && s[k] >= x)),
    ensures
        insert_val(s, x, asc) == s.subrange(0, j).push(x) + s.subrange(j, s.len() as int),
    decreases s.len(),
{
    if s.len() == 0 {
        assert(s.subrange(0, j).push(x) + s.subrange(j, s.len() as int) =~= seq![x]);
    } else if (asc && s.last() <= x) || (!asc && s.last() >= x) {
        assert(j == s.len());
        assert(s.subrange(0, j).push(x) + s.subrange(j, s.len() as int) =~= s.push(x));
    } else {
        let d = s.drop_last();
        assert forall|k: int| j <= k < d.len() implies !((asc && #[trigger] d[k] <= x) || (!asc
            && d[k] >= x)) by {
            assert(d[k] == s[k]);
        }
        lemma_insert_val(d, x, asc, j);
        assert(d.subrange(0, j).push(x) + d.subrange(j, d.len() as int) + seq![s.last()]
            =~= s.subrange(0, j).push(x) + s.subrange(j, s.len() as int));
        assert(insert_val(d, x, asc).push(s.last()) =~= insert_val(d, x, asc) + seq![s.last()]);
    }
}

/// Sorts amounts by value, ascending or descending, keeping equal values in order.
pub fn sort_decs(v: &Vec<Dec>, asc: bool) -> (r: Vec<Dec>)
    ensures
        vals(r@) == sort_vals(vals(v@), asc),
{
    let mut s: Vec<Dec> = Vec::new();
    let mut i: usize = 0;
    while i < v.len()
        invariant
            i <= v@.len(),
            vals(s@) == sort_vals(vals(v@).subrange(0, i as int), asc),
        decreases v@.len() - i,
    {
        let x = v[i];
        let mut j = s.len();
        while j > 0
            invariant
                j <= s@.len(),
                forall|k: int|
                    j <= k < s@.len() ==> !((asc && #[trigger] vals(s@)[k] <= x@) || (!asc
                        && vals(s@)[k] >= x@)),
            ensures
                j == 0 || (asc && vals(s@)[j - 1] <= x@) || (!asc && vals(s@)[j - 1] >= x@),
            decreases j,
        {
            let y = s[j - 1];
            let ahead = if asc {
                y.le(&x)
            } else {
                y.ge(&x)
            };
            if ahead {
                break;
            }
            j = j - 1;
        }
        proof {
            lemma_insert_val(vals(s@), x@, asc, j as int);
            let p = vals(v@).subrange(0, i + 1);
            assert(p.drop_last() =~= vals(v@).subrange(0, i as int));
        }
        let ghost before = vals(s@);
        s.insert(j, x);
        proof {
            assert(vals(s@) =~= before.subrange(0, j as int).push(x@) + before.subrange(
                j as int,
                before.len() as int,
            ));
        }
        i = i + 1;
    }
    proof {
        assert(vals(v@).subrange(0, i as int) =~= vals(v@));
    }
    s
}

/// Index of the `p`-th percentile among `n` sorted samples: `n * p / 100` rounded half
/// up, at most `n - 1`.
pub open spec fn percentile_index(n: int, p: int) -> int {
    let k = (n * p + 50) / 100;
    if k <= n - 1 {
        k
    } else {
        n - 1
    }
}

/// The 10th, 20th, ..., 90th percentiles of the prices.
pub fn percentiles(prices: &[Dec]) -> (r: HashMap<u8, Dec>)
    requires
        prices@.len() > 0,
    ensures
        r@.dom() == Set::new(|k: u8| 10 <= k <= 90 && k % 10 == 0),
        forall|k: u8|
            #[trigger] r@.contains_key(k) ==> r@[k]@ == sort_vals(vals(prices@), true)[percentile_index(
                prices@.len() as int,
                k as int,
            )],
{
    let mut v: Vec<Dec> = Vec::new();
    let mut i: usize = 0;
    while i < prices.len()
        invariant
            i <= prices@.len(),
            v@ == prices@.subrange(0, i as int),
        decreases prices@.len() - i,
    {
        v.push(prices[i]);
        i = i + 1;
        proof {
            assert(v@ =~= prices@.subrange(0, i as int));
        }
    }
    proof {
        assert(v@ =~= prices@);
    }
    let sorted = sort_decs(&v, true);
    let n = sorted.len();
    proof {
        assert(vals(sorted@).len() == sort_vals(vals(v@), true).len());
        lemma_sort_vals_len(vals(v@), true);
    }
    let mut m: HashMap<u8, Dec> = HashMap::new();
    let mut p: u8 = 10;
    while p <= 90
        invariant
            10 <= p <= 100,
            p % 10 == 0,
            n == prices@.len() > 0,
            vals(sorted@) == sort_vals(vals(prices@), true),
            sorted@.len() == n,
            m@.dom() == Set::new(|k: u8| 10 <= k < p && k % 10 == 0),
            forall|k: u8|
                #[trigger] m@.contains_key(k) ==> m@[k]@ == sort_vals(vals(prices@), true)[percentile_index(
                    n as int,
                    k as int,
                )],
        decreases 100 - p,
    {
        proof {
            assert(n as u128 * p as u128 <= 0x1_0000_0000_0000_0000u128 * 100) by (nonlinear_arith)
                requires
                    n <= 0x1_0000_0000_0000_0000u128,
                    p <= 100,
            ;
        }
        let k = (n as u128 * p as u128 + 50) / 100;
        let idx: usize = if k <= (n - 1) as u128 {
            k as usize
        } else {
            n - 1
        };
        m.insert(p, sorted[idx]);
        proof {
            assert(vals(sorted@)[idx as int] == sorted@[idx as int]@);
            assert(m@.dom() =~= Set::new(|k: u8| 10 <= k < p + 10 && k % 10 == 0));
        }
        p = p + 10;
    }
    proof {
        assert(m@.dom() =~= Set::new(|k: u8| 10 <= k <= 90 && k % 10 == 0));
    }
    m
}

proof fn lemma_insert_val_len(s: Seq<int>, x: int, asc: bool)
    ensures
        insert_val(s, x, asc).len() == s.len() + 1,
    decreases s.len(),
{
    if s.len() > 0 {
        lemma_insert_val_len(s.drop_last(), x, asc);
    }
}

proof fn lemma_sort_vals_len(s: Seq<int>, asc: bool)
    ensures
        sort_vals(s, asc).len() == s.len(),
    decreases s.len(),
{
    if s.len() > 0 {
        lemma_sort_vals_len(s.drop_last(), asc);
        lemma_insert_val_len(sort_vals(s.drop_last(), asc), s.last(), asc);
    }
}

/// Which extremes to look for: troughs (support) or peaks (resistance).
#[derive(Debug, Clone, Copy, PartialEq, Eq, Structural)]
pub enum PriceClusterSide {
    Support,
    Resistance,
}

/// Whether `p[i]` is a trough (support) or a peak (resistance) between its neighbours.
pub open spec fn is_extreme(p: Seq<int>, i: int, side: PriceClusterSide) -> bool {
    1 <= i && i + 1 < p.len() && match side {
        PriceClusterSide::Support => p[i] < p[i - 1] && p[i] < p[i + 1],
        PriceClusterSide::Resistance => p[i] > p[i - 1] && p[i] > p[i + 1],
    }
}

/// The extremes among `p[0..k)`, in order.
pub open spec fn raw_levels(p: Seq<int>, side: PriceClusterSide, k: int) -> Seq<int>
    decreases k,
{
    if k <= 0 {
        Seq::empty()
    } else if is_extreme(p, k - 1, side) {
        raw_levels(p, side, k - 1).push(p[k - 1])
    } else {
        raw_levels(p, side, k - 1)
    }
}

/// Index of the first cluster within `tol` of `level`, or `c.len()` if none is.
pub open spec fn near_cluster(c: Seq<int>, level: int, tol: int) -> int
    decreases c.len(),
{
    if c.len() == 0 {
        0int
    } else {
        let j = near_cluster(c.drop_last(), level, tol);
        if j < c.len() - 1 {
            j
        } else if abs_int(clamp(level - c.last())) <= tol {
            c.len() - 1
        } else {
            c.len() as int
        }
    }
}

/// Merges a level into the clusters: averaged into the first one within `tol`,
/// otherwise added as a cluster of its own.
pub open spec fn merge_level(c: Seq<int>, level: int, tol: int) -> Seq<int> {
    let j = near_cluster(c, level, tol);
    if j < c.len() {
        c.update(j, tdiv(clamp(c[j] + level), 2))
    } else {
        c.push(level)
    }
}

pub open spec fn merge_all(levels: Seq<int>, tol: int) -> Seq<int>
    decreases levels.len(),
{
    if levels.len() == 0 {
        Seq::empty()
    } else {
        merge_level(merge_all(levels.drop_last(), tol), levels.last(), tol)
    }
}

/// Support levels nearest-first from above (descending); resistance levels ascending.
pub open spec fn price_clusters(p: Seq<int>, tol: int, side: PriceClusterSide) -> Seq<int> {
    sort_vals(
        merge_all(raw_levels(p, side, p.len() as int), tol),
        side == PriceClusterSide::Resistance,
    )
}

/// Finds troughs or peaks over a three-point window, merges levels within `tolerance`
/// of each other by averaging, and orders them from the price outward.
pub fn find_price_clusters(prices: &[Dec], tolerance: Dec, side: PriceClusterSide) -> (r: Vec<Dec>)
    ensures
        vals(r@) == price_clusters(vals(prices@), tolerance@, side),
{
    let ghost p = vals(prices@);
    let mut raw: Vec<Dec> = Vec::new();
    let mut i: usize = 0;
    while i < prices.len()
        invariant
            i <= prices@.len(),
            p == vals(prices@),
            vals(raw@) == raw_levels(p, side, i as int),
        decreases prices@.len() - i,
    {
        if i >= 1 && i + 1 < prices.len() {
            let prev = prices[i - 1];
            let curr = prices[i];
            let next = prices[i + 1];
            let hit = match side {
                PriceClusterSide::Support => curr.lt(&prev) && curr.lt(&next),
                PriceClusterSide::Resistance => curr.gt(&prev) && curr.gt(&next),
            };
            if hit {
                raw.push(curr);
                proof {
                    assert(vals(raw@) =~= raw_levels(p, side, i as int).push(curr@));
                }
            }
        }
        i = i + 1;
    }
    let mut clusters: Vec<Dec> = Vec::new();
    let mut k: usize = 0;
    while k < raw.len()
        invariant
            k <= raw@.len(),
            vals(clusters@) == merge_all(vals(raw@).subrange(0, k as int), tolerance@),
        decreases raw@.len() - k,
    {
        let level = raw[k];
        let ghost c0 = vals(clusters@);
        let mut q: usize = 0;
        let mut j: usize = 0;
        while j < clusters.len()
            invariant
                j <= clusters@.len(),
                c0 == vals(clusters@),
                q <= j,
                near_cluster(c0.subrange(0, j as int), level@, tolerance@) == q,
            decreases clusters@.len() - j,
        {
            proof {
                let sub = c0.subrange(0, j + 1);
                assert(sub.drop_last() =~= c0.subrange(0, j as int));
            }
            if q == j {
                let c = clusters[j];
                if level.sub(c).abs().le(&tolerance) {
                    q = j;
                } else {
                    q = j + 1;
                }
            }
            j = j + 1;
        }
        proof {
            assert(c0.subrange(0, j as int) =~= c0);
        }
        if q < clusters.len() {
            let c = clusters[q];
            clusters.set(q, c.add(level).div_int(2));
        } else {
            clusters.push(level);
        }
        proof {
            let q = vals(raw@).subrange(0, k + 1);
            assert(q.drop_last() =~= vals(raw@).subrange(0, k as int));
            assert(vals(clusters@) =~= merge_level(c0, level@, tolerance@));
        }
        k = k + 1;
    }
    proof {
        assert(vals(raw@).subrange(0, k as int) =~= vals(raw@));
    }
    let asc = match side {
        PriceClusterSide::Support => false,
        PriceClusterSide::Resistance => true,
    };
    sort_decs(&clusters, asc)
}

/// The nearest multiple of `step` at or above `value` (lot-size rounding).
pub fn ceil_to_step(value: Dec, step: Dec) -> (r: Dec)
    requires
        step@ != 0,
    ensures
        step@ > 0 ==> r@ == clamp(crate::dec::ceil_div(value@, step@) * step@),
{
    value.ceil_to_step(step)
}

} // verus!
