//! The liquidity heatmap: a sparse price-bucket x time-bucket store of
//! signed resting-order size, fed by a queue of normalized depth events.
//!
//! Binning folds each event into the time series of its price bucket with
//! a run-length style rule: a restatement of the latest non-zero size is
//! discarded, a non-zero write into the latest time bucket overwrites in
//! place, and anything else (including an explicit zero, which records
//! liquidity vanishing at the level) is upserted at its time position.
//! When the store grows past its soft bucket ceiling, an eviction pass
//! drops every bucket whose price is a robust outlier.

use vstd::prelude::*;
use vstd::seq_lib::*;
use vstd::arithmetic::div_mod::lemma_fundamental_div_mod;
use vstd::arithmetic::div_mod::lemma_mod_pos_bound;
use vstd::arithmetic::div_mod::lemma_fundamental_div_mod_converse;
use crate::MAX_UNIT;
use crate::in_unit_range;
use crate::in_sample_range;
use crate::stats::as_ints;
use crate::stats::median_twice_spec;
use crate::stats::mad_quad_spec;
use crate::stats::lemma_median_twice_bounds;
use crate::stats::median;
use crate::stats::median_absolute_deviation;

verus! {

/// Soft ceiling on the number of distinct price buckets; eviction runs
/// only once the store holds more than this many.
pub const MAX_PRICE_BUCKETS: usize = 200;

/// A bucket is evicted when its price deviates from the robust center by
/// more than this multiple of the robust spread.
pub const EVICT_MULTIPLIER: i64 = 2;

/// A normalized order-book depth update. `px` is the quoted price and
/// `sz` the signed resting size at that level: positive for bid liquidity,
/// negative for ask liquidity, zero when the level empties.
#[derive(Clone, Copy, Debug)]
pub struct OrderBookUpdate {
    pub ts: u64,
    pub sq: u64,
    pub px: i64,
    pub sz: i64,
}

impl OrderBookUpdate {
    /// Price and size lie in the accepted fixed-point range.
    pub open spec fn wf(self) -> bool {
        &&& in_unit_range(self.px as int)
        &&& in_unit_range(self.sz as int)
    }
}

/// One cell of a bucket's time series: the signed size observed in a time
/// bucket.
#[derive(Clone, Copy, Debug, PartialEq, Eq, Structural)]
pub struct TimeEntry {
    pub time: u64,
    pub size: i64,
}

/// One price bucket: its quantized price and the time series of observed
/// sizes, ascending and unique in time.
#[derive(Debug)]
pub struct PriceLevel {
    pub price: i64,
    pub series: Vec<TimeEntry>,
}

/// Strictly ascending, hence duplicate-free, time buckets.
pub open spec fn series_sorted(s: Seq<TimeEntry>) -> bool {
    forall|i: int, j: int| 0 <= i < j < s.len() ==> s[i].time < s[j].time
}

/// Every recorded size lies in the accepted fixed-point range.
pub open spec fn series_sizes_ok(s: Seq<TimeEntry>) -> bool {
    forall|i: int| 0 <= i < s.len() ==> in_unit_range(#[trigger] s[i].size as int)
}

/// The mathematical content of one price level.
pub type LevelModel = (i64, Seq<TimeEntry>);

/// The mathematical content of the store: price levels in their held
/// order, each with its time series.
pub open spec fn store_model(levels: Seq<PriceLevel>) -> Seq<LevelModel> {
    levels.map_values(|l: PriceLevel| (l.price, l.series@))
}

/// A level is well formed when its price is a possible bucket price and
/// its series is sorted with in-range sizes.
pub open spec fn level_wf(l: LevelModel) -> bool {
    &&& in_sample_range(l.0 as int)
    &&& series_sorted(l.1)
    &&& series_sizes_ok(l.1)
}

/// The time bucket of a timestamp: the timestamp rounded down to a
/// multiple of the step.
pub open spec fn time_bucket_of(ts: u64, time_step: u64) -> int
    recommends
        time_step >= 1,
{
    ((ts as int) / (time_step as int)) * (time_step as int)
}

/// The price bucket of a price: the price rounded down (toward minus
/// infinity) to a multiple of the step.
pub open spec fn price_bucket_of(px: int, step: int) -> int
    recommends
        step >= 1,
{
    (px / step) * step
}

/// Division facts needed to round down to a bucket boundary.
proof fn lemma_floor_mul_bounds(x: int, d: int)
    requires
        x >= 0,
        d >= 1,
    ensures
        0 <= x / d <= x,
        x - d < (x / d) * d <= x,
{
    lemma_fundamental_div_mod(x, d);
    lemma_mod_pos_bound(x, d);
    let q = x / d;
    let m = x % d;
    assert(0 <= q && q <= x && q * d <= x && x - d < q * d) by (nonlinear_arith)
        requires
            x == d * q + m,
            0 <= m < d,
            d >= 1,
            x >= 0,
    ;
}

/// Rounds a timestamp down to its time bucket.
pub fn time_bucket(ts: u64, time_step: u64) -> (r: u64)
    requires
        time_step >= 1,
    ensures
        r as int == time_bucket_of(ts, time_step),
        r <= ts,
{
    proof {
        lemma_floor_mul_bounds(ts as int, time_step as int);
    }
    (ts / time_step) * time_step
}

/// Rounds a price down to its bucket boundary. The result can undershoot
/// the unit range by at most one step, hence the sample-range bound.
pub fn price_bucket(px: i64, step: i64) -> (r: i64)
    requires
        in_unit_range(px as int),
        1 <= step <= MAX_UNIT,
    ensures
        r as int == price_bucket_of(px as int, step as int),
        px - step < r <= px,
        in_sample_range(r as int),
{
    if px >= 0 {
        let q = (px as u64) / (step as u64);
        proof {
            lemma_floor_mul_bounds(px as int, step as int);
        }
        (q as i64) * step
    } else {
        let n = (-px) as u64;
        let q = (n + (step as u64) - 1) / (step as u64);
        proof {
            let ni = n as int;
            let si = step as int;
            lemma_floor_mul_bounds(ni + si - 1, si);
            let qi = q as int;
            assert(qi == (ni + si - 1) / si);
            assert(ni <= qi * si <= ni + si - 1);
            assert((-qi) * si == -(qi * si)) by (nonlinear_arith);
            assert(px as int == (-qi) * si + (qi * si - ni));
            lemma_fundamental_div_mod_converse(px as int, si, -qi, qi * si - ni);
            assert((px as int) / si == -qi);
            assert(price_bucket_of(px as int, si) == (-qi) * si);
        }
        -((q as i64) * step)
    }
}

/// Number of entries of `s` strictly before time bucket `tb`; for a sorted
/// series this is the upsert position of `tb`.
pub open spec fn entry_lower_bound(s: Seq<TimeEntry>, tb: u64) -> int
    decreases s.len(),
{
    if s.len() == 0 {
        0
    } else if s[0].time < tb {
        1 + entry_lower_bound(s.drop_first(), tb)
    } else {
        0
    }
}

proof fn lemma_entry_lower_bound_char(s: Seq<TimeEntry>, tb: u64, p: int)
    requires
        series_sorted(s),
        0 <= p <= s.len(),
        forall|i: int| 0 <= i < p ==> s[i].time < tb,
        p == s.len() || s[p].time >= tb,
    ensures
        entry_lower_bound(s, tb) == p,
    decreases s.len(),
{
    if s.len() == 0 {
    } else if s[0].time < tb {
        assert(p >= 1);
        lemma_entry_lower_bound_char(s.drop_first(), tb, p - 1);
    } else {
        assert(p == 0);
    }
}

/// The series after writing size `sz` at time bucket `tb`, ignoring the
/// latest-entry rules: replace the entry at `tb` or insert one at its
/// sorted position.
pub open spec fn series_upsert_spec(s: Seq<TimeEntry>, tb: u64, sz: i64) -> Seq<TimeEntry> {
    let p = entry_lower_bound(s, tb);
    let e = TimeEntry { time: tb, size: sz };
    if p < s.len() && s[p].time == tb {
        s.update(p, e)
    } else {
        s.insert(p, e)
    }
}

/// The series after one depth event lands in it, per the binning rule:
/// a restatement of the latest non-zero size is a no-op; a non-zero size
/// for the latest time bucket overwrites in place; everything else
/// (including an explicit zero) is upserted at its time position.
pub open spec fn series_apply_spec(s: Seq<TimeEntry>, tb: u64, sz: i64) -> Seq<TimeEntry> {
    if s.len() == 0 {
        seq![TimeEntry { time: tb, size: sz }]
    } else {
        let last = s.last();
        if last.size == sz && sz != 0 {
            s
        } else if last.time == tb && sz != 0 {
            s.update(s.len() - 1, TimeEntry { time: tb, size: sz })
        } else {
            series_upsert_spec(s, tb, sz)
        }
    }
}

/// Restating the latest non-zero liquidity is suppressed: after a depth
/// event with non-zero size `sz` lands at the tail of a series, a second
/// event with the same size is discarded whole, whatever its time bucket,
/// so consecutive identical non-zero sizes collapse to one entry.
pub proof fn lemma_noop_suppression(s: Seq<TimeEntry>, tb1: u64, tb2: u64, sz: i64)
    requires
        sz != 0,
        series_sorted(s),
        s.len() == 0 || s.last().time <= tb1,
    ensures
        series_apply_spec(series_apply_spec(s, tb1, sz), tb2, sz) == series_apply_spec(
            s,
            tb1,
            sz,
        ),
{
    let e = TimeEntry { time: tb1, size: sz };
    let s1 = series_apply_spec(s, tb1, sz);
    if s.len() == 0 {
        assert(s1 == seq![e]);
        assert(s1.last() == e);
    } else {
        let last = s.last();
        if last.size == sz {
            assert(s1 == s);
        } else if last.time == tb1 {
            assert(s1 == s.update(s.len() - 1, e));
            assert(s1.last() == e);
        } else {
            assert(last.time < tb1);
            assert forall|i: int| 0 <= i < s.len() implies s[i].time < tb1 by {
                if i < s.len() - 1 {
                    assert(s[i].time < last.time);
                }
            }
            lemma_entry_lower_bound_char(s, tb1, s.len() as int);
            assert(s1 == s.insert(s.len() as int, e));
            assert(s1.last() == e);
        }
    }
    assert(s1.len() > 0 && s1.last().size == sz);
}

/// An explicit zero is never suppressed: after a non-zero entry lands at
/// the tail of a series, a zero-size event at a strictly later time
/// bucket is always appended as one more entry, recording the liquidity
/// going to zero at that level.
pub proof fn lemma_zero_termination(s: Seq<TimeEntry>, tb1: u64, tb2: u64, sz: i64)
    requires
        sz != 0,
        tb1 < tb2,
        series_sorted(s),
        s.len() == 0 || s.last().time <= tb1,
    ensures
        series_apply_spec(series_apply_spec(s, tb1, sz), tb2, 0) == series_apply_spec(
            s,
            tb1,
            sz,
        ).push(TimeEntry { time: tb2, size: 0 }),
{
    let e = TimeEntry { time: tb1, size: sz };
    let z = TimeEntry { time: tb2, size: 0 };
    let s1 = series_apply_spec(s, tb1, sz);
    if s.len() == 0 {
        assert(s1 == seq![e]);
        assert(s1.last() == e);
        assert(series_sorted(s1));
    } else {
        let last = s.last();
        if last.size == sz {
            assert(s1 == s);
        } else if last.time == tb1 {
            assert(s1 == s.update(s.len() - 1, e));
            assert forall|i: int, j: int| 0 <= i < j < s1.len() implies s1[i].time
                < s1[j].time by {
                assert(s1[i].time == s[i].time && s1[j].time == if j == s.len() - 1 {
                    tb1 as u64
                } else {
                    s[j].time
                });
            }
        } else {
            assert(last.time < tb1);
            assert forall|i: int| 0 <= i < s.len() implies s[i].time < tb1 by {
                if i < s.len() - 1 {
                    assert(s[i].time < last.time);
                }
            }
            lemma_entry_lower_bound_char(s, tb1, s.len() as int);
            assert(s1 == s.insert(s.len() as int, e));
            assert(s1.last() == e);
            assert forall|i: int, j: int| 0 <= i < j < s1.len() implies s1[i].time
                < s1[j].time by {
                if j < s1.len() - 1 {
                    assert(s1[i] == s[i] && s1[j] == s[j]);
                } else {
                    if i < s1.len() - 1 {
                        assert(s1[i] == s[i]);
                    }
                }
            }
        }
    }
    assert(s1.len() > 0 && s1.last().time <= tb1);
    assert(series_sorted(s1));
    assert forall|i: int| 0 <= i < s1.len() implies s1[i].time < tb2 by {
        if i < s1.len() - 1 {
            assert(s1[i].time < s1.last().time);
        }
    }
    lemma_entry_lower_bound_char(s1, tb2, s1.len() as int);
    assert(series_apply_spec(s1, tb2, 0) == s1.insert(s1.len() as int, z));
    assert(s1.insert(s1.len() as int, z) =~= s1.push(z));
}

/// Index of the level holding `price`, or `-1` when no level does.
pub open spec fn find_level_spec(m: Seq<LevelModel>, price: i64) -> int
    decreases m.len(),
{
    if m.len() == 0 {
        -1
    } else if m[0].0 == price {
        0
    } else if find_level_spec(m.drop_first(), price) < 0 {
        -1
    } else {
        1 + find_level_spec(m.drop_first(), price)
    }
}

proof fn lemma_find_level_char(m: Seq<LevelModel>, price: i64, j: int)
    requires
        0 <= j <= m.len(),
        forall|k: int| 0 <= k < j ==> m[k].0 != price,
        j == m.len() || m[j].0 == price,
    ensures
        j < m.len() ==> find_level_spec(m, price) == j,
        j == m.len() ==> find_level_spec(m, price) == -1,
    decreases m.len(),
{
    if m.len() == 0 {
    } else if m[0].0 == price {
        assert(j == 0);
    } else {
        assert(j >= 1);
        lemma_find_level_char(m.drop_first(), price, j - 1);
    }
}

/// The store model after one depth event: the event's size lands in the
/// series of its price bucket, which is created at the back when new.
pub open spec fn apply_update_spec(
    m: Seq<LevelModel>,
    ts: u64,
    px: i64,
    sz: i64,
    price_step: i64,
    time_step: u64,
) -> Seq<LevelModel>
    recommends
        price_step >= 1,
        time_step >= 1,
{
    let pb = price_bucket_of(px as int, price_step as int) as i64;
    let tb = time_bucket_of(ts, time_step) as u64;
    let j = find_level_spec(m, pb);
    if j < 0 {
        m.push((pb, seq![TimeEntry { time: tb, size: sz }]))
    } else {
        m.update(j, (pb, series_apply_spec(m[j].1, tb, sz)))
    }
}

/// The store model after draining a whole queue of pending events in
/// arrival order.
pub open spec fn apply_all_spec(
    m: Seq<LevelModel>,
    q: Seq<(u64, OrderBookUpdate)>,
    price_step: i64,
    time_step: u64,
) -> Seq<LevelModel>
    decreases q.len(),
{
    if q.len() == 0 {
        m
    } else {
        apply_all_spec(
            apply_update_spec(m, q[0].0, q[0].1.px, q[0].1.sz, price_step, time_step),
            q.drop_first(),
            price_step,
            time_step,
        )
    }
}

/// A bucket survives an eviction pass when its price deviation from the
/// robust center, relative to the robust spread, stays within the
/// multiplier. Stated over the doubled center `c2` and quadrupled spread
/// `mad4`, the exact comparison is `2*|2*p - c2| <= EVICT_MULTIPLIER * mad4`.
pub open spec fn level_keep(price: int, c2: int, mad4: int) -> bool {
    2 * vstd::math::abs(2 * price - c2) <= (EVICT_MULTIPLIER as int) * mad4
}

/// The doubled median of the store's bucket prices.
pub open spec fn prices_center2(m: Seq<LevelModel>) -> int {
    median_twice_spec(as_ints(m.map_values(|l: LevelModel| l.0)))
}

/// The quadrupled median absolute deviation of the store's bucket prices.
pub open spec fn prices_spread4(m: Seq<LevelModel>) -> int {
    mad_quad_spec(as_ints(m.map_values(|l: LevelModel| l.0)), prices_center2(m))
}

/// The store model after an eviction pass: every outlier bucket is
/// dropped whole. A degenerate spread (all prices identical) evicts
/// nothing.
pub open spec fn evict_spec(m: Seq<LevelModel>) -> Seq<LevelModel> {
    if m.len() == 0 {
        m
    } else if prices_spread4(m) == 0 {
        m
    } else {
        m.filter(|l: LevelModel| level_keep(l.0 as int, prices_center2(m), prices_spread4(m)))
    }
}

/// The bounded sparse heatmap store: price buckets in creation order,
/// each holding its time series.
#[derive(Debug)]
pub struct HeatmapStore {
    pub levels: Vec<PriceLevel>,
}

impl HeatmapStore {
    /// The mathematical content of the store.
    pub open spec fn model(self) -> Seq<LevelModel> {
        store_model(self.levels@)
    }

    /// Prices are pairwise distinct and every level is well formed.
    pub open spec fn wf(self) -> bool {
        &&& forall|i: int, j: int|
            0 <= i < j < self.model().len() ==> self.model()[i].0 != self.model()[j].0
        &&& forall|i: int| 0 <= i < self.model().len() ==> level_wf(#[trigger] self.model()[i])
    }

    pub fn new() -> (r: HeatmapStore)
        ensures
            r.wf(),
            r.model().len() == 0,
    {
        HeatmapStore { levels: Vec::new() }
    }

    /// Number of distinct price buckets currently held.
    pub fn bucket_count(&self) -> (r: usize)
        ensures
            r == self.model().len(),
    {
        self.levels.len()
    }

    /// Removes every bucket.
    pub fn clear(&mut self)
        ensures
            final(self).wf(),
            final(self).model().len() == 0,
    {
        self.levels.clear();
    }

    /// Folds one depth event into the store: the event's size lands in
    /// the time series of its price bucket under the binning rule, the
    /// bucket being created lazily on first touch.
    #[verifier::loop_isolation(false)]
    pub fn apply_update(&mut self, ts: u64, px: i64, sz: i64, price_step: i64, time_step: u64)
        requires
            old(self).wf(),
            in_unit_range(px as int),
            in_unit_range(sz as int),
            1 <= price_step <= MAX_UNIT,
            time_step >= 1,
        ensures
            final(self).wf(),
            final(self).model() == apply_update_spec(
                old(self).model(),
                ts,
                px,
                sz,
                price_step,
                time_step,
            ),
    {
        let ghost m = self.model();
        let pb = price_bucket(px, price_step);
        let tb = time_bucket(ts, time_step);
        let mut j: usize = 0;
        while j < self.levels.len() && self.levels[j].price != pb
            invariant
                j <= m.len(),
                self.model() == m,
                forall|k: int| 0 <= k < j ==> m[k].0 != pb,
            decreases m.len() - j,
        {
            assert(m[j as int].0 == self.levels@[j as int].price);
            j = j + 1;
        }
        proof {
            lemma_find_level_char(m, pb, j as int);
        }
        if j < self.levels.len() {
            assert(m[j as int].0 == pb);
            let mut lvl = self.levels.remove(j);
            series_apply(&mut lvl.series, tb, sz);
            self.levels.insert(j, lvl);
            assert(self.model() =~= m.update(
                j as int,
                (pb, series_apply_spec(m[j as int].1, tb, sz)),
            ));
        } else {
            let mut series: Vec<TimeEntry> = Vec::new();
            series.push(TimeEntry { time: tb, size: sz });
            self.levels.push(PriceLevel { price: pb, series });
            assert(self.model() =~= m.push((pb, seq![TimeEntry { time: tb, size: sz }])));
        }
    }

    /// Drops every bucket whose price deviates from the median price by
    /// more than [`EVICT_MULTIPLIER`] times the median absolute deviation
    /// of the prices. With a zero spread (all prices identical) nothing
    /// is evicted.
    #[verifier::loop_isolation(false)]
    pub fn evict_outliers(&mut self)
        requires
            old(self).wf(),
        ensures
            final(self).wf(),
            final(self).model() == evict_spec(old(self).model()),
    {
        let ghost m = self.model();
        if self.levels.len() == 0 {
            return;
        }
        let mut prices: Vec<i64> = Vec::new();
        let mut i: usize = 0;
        while i < self.levels.len()
            invariant
                i <= m.len(),
                self.model() == m,
                old(self).wf(),
                self.levels@.len() == m.len(),
                prices@.len() == i,
                forall|k: int| 0 <= k < i ==> prices@[k] == m[k].0,
            decreases m.len() - i,
        {
            prices.push(self.levels[i].price);
            i = i + 1;
        }
        assert(prices@ =~= m.map_values(|l: LevelModel| l.0));
        assert forall|k: int| 0 <= k < prices@.len()
            implies in_sample_range(#[trigger] prices@[k] as int) by {
            assert(level_wf(m[k]));
        }
        let center = median(&prices);
        let spread = median_absolute_deviation(&prices, center);
        let ghost c2 = center.num as int;
        let ghost mad4 = spread.num as int;
        assert(c2 == prices_center2(m));
        assert(mad4 == prices_spread4(m));
        if spread.num == 0 {
            return;
        }
        let mut kept: Vec<PriceLevel> = Vec::new();
        let ghost pred = |l: LevelModel| level_keep(l.0 as int, prices_center2(m), prices_spread4(m));
        let ghost mut done: int = 0;
        let mut remaining = self.levels.len();
        while remaining > 0
            invariant
                0 <= done <= m.len(),
                remaining == m.len() - done,
                self.levels@.len() == remaining,
                store_model(self.levels@) =~= m.skip(done),
                store_model(kept@) =~= m.take(done).filter(pred),
                forall|i: int, j: int| 0 <= i < j < m.len() ==> m[i].0 != m[j].0,
                forall|i: int| 0 <= i < m.len() ==> level_wf(#[trigger] m[i]),
            decreases remaining,
        {
            let ghost rem = store_model(self.levels@);
            let lvl = self.levels.remove(0);
            assert(rem[0] == (lvl.price, lvl.series@));
            assert(m.skip(done)[0] == m[done]);
            assert(m[done] == (lvl.price, lvl.series@));
            assert(level_wf(m[done]));
            assert(store_model(self.levels@) =~= rem.drop_first());
            assert(rem.drop_first() =~= m.skip(done + 1));
            let d0 = 2 * lvl.price - center.num;
            let d = if d0 < 0 { -d0 } else { d0 };
            proof {
                reveal(Seq::filter);
                assert(m.take(done + 1).drop_last() =~= m.take(done));
                assert(m.take(done + 1).last() == m[done]);
            }
            if 2 * d <= EVICT_MULTIPLIER * spread.num {
                assert(pred(m[done]));
                kept.push(lvl);
                assert(store_model(kept@) =~= m.take(done + 1).filter(pred));
            } else {
                assert(!pred(m[done]));
                assert(store_model(kept@) =~= m.take(done + 1).filter(pred));
            }
            proof {
                done = done + 1;
            }
            remaining = remaining - 1;
        }
        assert(m.take(m.len() as int) =~= m);
        self.levels = kept;
        proof {
            lemma_filter_keeps_wf(m, pred);
        }
        assert(self.model() == evict_spec(m));
    }
}

/// Filtering a well-formed store model keeps it well formed.
proof fn lemma_filter_keeps_wf(m: Seq<LevelModel>, pred: spec_fn(LevelModel) -> bool)
    requires
        forall|i: int, j: int| 0 <= i < j < m.len() ==> m[i].0 != m[j].0,
        forall|i: int| 0 <= i < m.len() ==> level_wf(#[trigger] m[i]),
    ensures
        forall|i: int, j: int|
            0 <= i < j < m.filter(pred).len() ==> m.filter(pred)[i].0 != m.filter(pred)[j].0,
        forall|i: int| 0 <= i < m.filter(pred).len() ==> level_wf(#[trigger] m.filter(pred)[i]),
    decreases m.len(),
{
    reveal(Seq::filter);
    if m.len() > 0 {
        let head = m.drop_last();
        lemma_filter_keeps_wf(head, pred);
        let f = m.filter(pred);
        let fh = head.filter(pred);
        if pred(m.last()) {
            assert(f == fh.push(m.last()));
            assert forall|i: int, j: int| 0 <= i < j < f.len() implies f[i].0 != f[j].0 by {
                if j < fh.len() {
                } else {
                    lemma_filter_element_source(head, pred, i);
                    let k = choose|k: int| 0 <= k < head.len() && fh[i] == head[k];
                    assert(f[i] == m[k] && f[j] == m[m.len() - 1]);
                }
            }
            assert forall|i: int| 0 <= i < f.len() implies level_wf(#[trigger] f[i]) by {
                if i < fh.len() {
                } else {
                    assert(f[i] == m[m.len() - 1]);
                }
            }
        } else {
            assert(f == fh);
        }
    }
}

/// Every element of a filtered sequence is an element of the sequence
/// it was filtered from.
proof fn lemma_filter_element_source<A>(s: Seq<A>, pred: spec_fn(A) -> bool, i: int)
    requires
        0 <= i < s.filter(pred).len(),
    ensures
        exists|k: int| 0 <= k < s.len() && s.filter(pred)[i] == s[k],
    decreases s.len(),
{
    reveal(Seq::filter);
    if s.len() > 0 {
        let head = s.drop_last();
        let f = s.filter(pred);
        let fh = head.filter(pred);
        if pred(s.last()) && i == f.len() - 1 {
            assert(f[i] == s[s.len() - 1]);
        } else {
            lemma_filter_element_source(head, pred, i);
            let k = choose|k: int| 0 <= k < head.len() && fh[i] == head[k];
            assert(f[i] == s[k]);
        }
    }
}

/// Applies one depth event to a bucket's time series under the binning
/// rule: no-op on a repeated non-zero size, in-place overwrite of the
/// latest time bucket for a non-zero size, otherwise a sorted upsert
/// (explicit zeroes are always recorded).
#[verifier::loop_isolation(false)]
pub fn series_apply(series: &mut Vec<TimeEntry>, tb: u64, sz: i64)
    requires
        series_sorted(old(series)@),
        series_sizes_ok(old(series)@),
        in_unit_range(sz as int),
    ensures
        series_sorted(final(series)@),
        series_sizes_ok(final(series)@),
        final(series)@ == series_apply_spec(old(series)@, tb, sz),
{
    let ghost s = series@;
    if series.len() == 0 {
        series.push(TimeEntry { time: tb, size: sz });
        assert(series@ =~= series_apply_spec(s, tb, sz));
        return;
    }
    let n = series.len();
    let last = series[n - 1];
    assert(last == s.last());
    if last.size == sz && sz != 0 {
        return;
    }
    if last.time == tb && sz != 0 {
        series.set(n - 1, TimeEntry { time: tb, size: sz });
        return;
    }
    let mut p: usize = 0;
    while p < series.len() && series[p].time < tb
        invariant
            series@ == s,
            p <= s.len(),
            forall|i: int| 0 <= i < p ==> s[i].time < tb,
        decreases s.len() - p,
    {
        p = p + 1;
    }
    proof {
        lemma_entry_lower_bound_char(s, tb, p as int);
    }
    let e = TimeEntry { time: tb, size: sz };
    if p < series.len() && series[p].time == tb {
        series.set(p, e);
        assert(series@ =~= series_upsert_spec(s, tb, sz));
    } else {
        series.insert(p, e);
        assert(series@ =~= series_upsert_spec(s, tb, sz));
        assert forall|i: int, j: int| 0 <= i < j < series@.len()
            implies series@[i].time < series@[j].time by {
            if i < p && j > p {
                assert(series@[i] == s[i] && series@[j] == s[j - 1]);
            } else if j == p as int {
                assert(series@[i] == s[i]);
            } else if i == p as int && j > p {
                assert(series@[j] == s[j - 1]);
                assert(s[p as int].time >= tb);
                if j - 1 > p {
                    assert(s[p as int].time < s[j - 1].time);
                }
            }
        }
    }
}

/// Drains the whole pending queue into the store in arrival order,
/// folding each event in with [`HeatmapStore::apply_update`].
#[verifier::loop_isolation(false)]
pub fn flush(
    store: &mut HeatmapStore,
    queue: &mut Vec<(u64, OrderBookUpdate)>,
    price_step: i64,
    time_step: u64,
)
    requires
        old(store).wf(),
        forall|i: int| 0 <= i < old(queue)@.len() ==> (#[trigger] old(queue)@[i].1).wf(),
        1 <= price_step <= MAX_UNIT,
        time_step >= 1,
    ensures
        final(store).wf(),
        final(store).model() == apply_all_spec(
            old(store).model(),
            old(queue)@,
            price_step,
            time_step,
        ),
        final(queue)@.len() == 0,
{
    let ghost m0 = store.model();
    let ghost q = queue@;
    assert(q.skip(0) =~= q);
    let mut i: usize = 0;
    while i < queue.len()
        invariant
            queue@ == q,
            i <= q.len(),
            store.wf(),
            forall|k: int| 0 <= k < q.len() ==> (#[trigger] q[k].1).wf(),
            1 <= price_step <= MAX_UNIT,
            time_step >= 1,
            apply_all_spec(store.model(), q.skip(i as int), price_step, time_step)
                == apply_all_spec(m0, q, price_step, time_step),
        decreases q.len() - i,
    {
        let entry = queue[i];
        let ghost before = store.model();
        store.apply_update(entry.0, entry.1.px, entry.1.sz, price_step, time_step);
        proof {
            let rest = q.skip(i as int);
            assert(rest[0] == q[i as int]);
            assert(rest.drop_first() =~= q.skip(i + 1));
            assert(apply_all_spec(before, rest, price_step, time_step) == apply_all_spec(
                store.model(),
                q.skip(i + 1),
                price_step,
                time_step,
            ));
        }
        i = i + 1;
    }
    assert(q.skip(q.len() as int) =~= Seq::<(u64, OrderBookUpdate)>::empty());
    queue.clear();
}

} // verus!
