//! Ordered candle series keyed by open time.
//!
//! Candles arrive as normalized events; a later event for the same open
//! time fully replaces the stored candle (upsert), and iteration order is
//! ascending open time.

use vstd::prelude::*;
use crate::in_unit_range;

verus! {

/// A normalized candle event as delivered by the transport collaborator.
/// Volumes are the buy volume and the total traded volume.
#[derive(Clone, Copy, Debug)]
pub struct NormalizedCandleEvent {
    pub open_time: u64,
    pub open: i64,
    pub high: i64,
    pub low: i64,
    pub close: i64,
    pub buy_volume: i64,
    pub total_volume: i64,
    pub close_time: u64,
}

impl NormalizedCandleEvent {
    /// Every price and volume field lies in the accepted fixed-point range.
    pub open spec fn wf(self) -> bool {
        &&& in_unit_range(self.open as int)
        &&& in_unit_range(self.high as int)
        &&& in_unit_range(self.low as int)
        &&& in_unit_range(self.close as int)
        &&& in_unit_range(self.buy_volume as int)
        &&& in_unit_range(self.total_volume as int)
    }
}

/// A stored candle: open time, prices, buy and sell volume, close time.
/// The sell volume is the total volume of its event less the buy volume.
#[derive(Clone, Copy, Debug)]
pub struct Kline {
    pub ts: u64,
    pub op: i64,
    pub hi: i64,
    pub lo: i64,
    pub cl: i64,
    pub vb: i64,
    pub vs: i64,
    pub tc: u64,
}

impl Kline {
    /// Every price and volume field lies in the accepted fixed-point
    /// range (the sell volume, a difference of two such fields, in twice
    /// that range).
    pub open spec fn wf(self) -> bool {
        &&& in_unit_range(self.op as int)
        &&& in_unit_range(self.hi as int)
        &&& in_unit_range(self.lo as int)
        &&& in_unit_range(self.cl as int)
        &&& in_unit_range(self.vb as int)
        &&& -2 * (crate::MAX_UNIT as int) <= self.vs as int <= 2 * (crate::MAX_UNIT as int)
    }

    /// The candle a normalized event denotes.
    pub open spec fn of_event_spec(ev: NormalizedCandleEvent) -> Kline {
        Kline {
            ts: ev.open_time,
            op: ev.open,
            hi: ev.high,
            lo: ev.low,
            cl: ev.close,
            vb: ev.buy_volume,
            vs: (ev.total_volume - ev.buy_volume) as i64,
            tc: ev.close_time,
        }
    }

    /// Builds the stored candle for a normalized event, deriving the sell
    /// volume as total volume minus buy volume.
    pub fn of_event(ev: NormalizedCandleEvent) -> (r: Kline)
        requires
            ev.wf(),
        ensures
            r == Kline::of_event_spec(ev),
            r.wf(),
    {
        Kline {
            ts: ev.open_time,
            op: ev.open,
            hi: ev.high,
            lo: ev.low,
            cl: ev.close,
            vb: ev.buy_volume,
            vs: ev.total_volume - ev.buy_volume,
            tc: ev.close_time,
        }
    }
}

/// Number of entries of `s` whose open time is strictly before `ts`; for a
/// series sorted by open time this is the insertion point of `ts`.
pub open spec fn kline_lower_bound(s: Seq<Kline>, ts: u64) -> int
    decreases s.len(),
{
    if s.len() == 0 {
        0
    } else if s[0].ts < ts {
        1 + kline_lower_bound(s.drop_first(), ts)
    } else {
        0
    }
}

/// The series after an upsert of `k`: the candle at the same open time is
/// replaced in place, or `k` is inserted at its sorted position.
pub open spec fn kline_upsert_spec(s: Seq<Kline>, k: Kline) -> Seq<Kline> {
    let p = kline_lower_bound(s, k.ts);
    if p < s.len() && s[p].ts == k.ts {
        s.update(p, k)
    } else {
        s.insert(p, k)
    }
}

/// Ascending, duplicate-free open times.
pub open spec fn klines_sorted(s: Seq<Kline>) -> bool {
    forall|i: int, j: int| 0 <= i < j < s.len() ==> s[i].ts < s[j].ts
}

proof fn lemma_kline_lower_bound_char(s: Seq<Kline>, ts: u64, p: int)
    requires
        klines_sorted(s),
        0 <= p <= s.len(),
        forall|i: int| 0 <= i < p ==> s[i].ts < ts,
        p == s.len() || s[p].ts >= ts,
    ensures
        kline_lower_bound(s, ts) == p,
    decreases s.len(),
{
    if s.len() == 0 {
    } else if s[0].ts < ts {
        assert(p >= 1);
        lemma_kline_lower_bound_char(s.drop_first(), ts, p - 1);
    } else {
        assert(p == 0);
    }
}

/// The ordered candle series. Iteration index order is open-time order.
#[derive(Debug)]
pub struct KlineStore {
    pub entries: Vec<Kline>,
}

impl KlineStore {
    /// Sorted by open time, every candle within range.
    pub open spec fn wf(self) -> bool {
        &&& klines_sorted(self.entries@)
        &&& forall|i: int| 0 <= i < self.entries@.len() ==> (#[trigger] self.entries@[i]).wf()
    }

    pub fn new() -> (r: KlineStore)
        ensures
            r.wf(),
            r.entries@.len() == 0,
    {
        KlineStore { entries: Vec::new() }
    }

    pub fn len(&self) -> (r: usize)
        ensures
            r == self.entries@.len(),
    {
        self.entries.len()
    }

    /// Removes every candle.
    pub fn clear(&mut self)
        ensures
            final(self).wf(),
            final(self).entries@.len() == 0,
    {
        self.entries.clear();
    }

    /// Insert-or-replace by open time: a candle with the event's open time
    /// is fully replaced by the event's candle, otherwise the new candle is
    /// inserted at its sorted position. No merging of fields takes place.
    pub fn upsert(&mut self, ev: NormalizedCandleEvent)
        requires
            old(self).wf(),
            ev.wf(),
        ensures
            final(self).wf(),
            final(self).entries@ == kline_upsert_spec(
                old(self).entries@,
                Kline::of_event_spec(ev),
            ),
    {
        let k = Kline::of_event(ev);
        let ghost s = self.entries@;
        let mut p: usize = 0;
        while p < self.entries.len() && self.entries[p].ts < k.ts
            invariant
                self.entries@ == s,
                p <= s.len(),
                forall|i: int| 0 <= i < p ==> s[i].ts < k.ts,
            decreases s.len() - p,
        {
            p = p + 1;
        }
        proof {
            lemma_kline_lower_bound_char(s, k.ts, p as int);
        }
        if p < self.entries.len() && self.entries[p].ts == k.ts {
            self.entries.set(p, k);
            assert(self.entries@ =~= kline_upsert_spec(s, k));
        } else {
            self.entries.insert(p, k);
            assert(self.entries@ =~= kline_upsert_spec(s, k));
            assert forall|i: int, j: int| 0 <= i < j < self.entries@.len()
                implies self.entries@[i].ts < self.entries@[j].ts by {
                if i < p && j > p {
                    assert(self.entries@[i] == s[i] && self.entries@[j] == s[j - 1]);
                } else if j == p as int {
                    assert(self.entries@[i] == s[i]);
                } else if i == p as int && j > p {
                    assert(self.entries@[j] == s[j - 1]);
                    assert(s[p as int].ts >= k.ts);
                    if j - 1 > p {
                        assert(s[p as int].ts < s[j - 1].ts);
                    }
                }
            }
        }
    }
}

} // verus!
