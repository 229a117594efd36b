//! The owned engine state for one tracked instrument: the candle store,
//! the pending depth-event queue, and the heatmap, together with the
//! ingestion entry points and the periodic processing pass.
//!
//! Depth events are queued and folded into the heatmap in FIFO order by
//! [`Data::process_updates`]; candle events bypass the queue and upsert
//! the candle store directly. Switching instrument clears all three
//! structures before any new event is accepted, so no stale data leaks
//! into the new session.

use vstd::prelude::*;
use crate::MAX_UNIT;
use crate::heatmap;
use crate::heatmap::HeatmapStore;
use crate::heatmap::OrderBookUpdate;
use crate::heatmap::LevelModel;
use crate::heatmap::apply_all_spec;
use crate::heatmap::evict_spec;
use crate::heatmap::MAX_PRICE_BUCKETS;
use crate::klines::KlineStore;
use crate::klines::NormalizedCandleEvent;
use crate::klines::Kline;
use crate::klines::kline_upsert_spec;
use crate::composer;
use crate::composer::DrawPlan;
use crate::composer::axis_spec_of;
use crate::composer::candle_of;
use crate::composer::seg_models;
use crate::composer::plan_segments_spec;
use crate::composer::heat_color_spec;
use crate::composer::up_color_spec;
use crate::composer::down_color_spec;

verus! {

/// Relies on chrono::Utc::now (which supports system clocks at or after
/// the Unix epoch) for the current wall-clock time, reduced to whole
/// milliseconds since the epoch via DateTime::timestamp_millis; a
/// non-representable reading falls back to zero. Nothing is promised of
/// the value: callers must hold for every outcome.
#[verifier::external_body]
fn now_millis() -> (r: u64) {
    let ms = chrono::Utc::now().timestamp_millis();
    ms.try_into().unwrap_or(0)
}

/// Capacity bound on the pending depth-event queue. Ingestion outpacing
/// the flush cadence cannot grow memory without limit: once the queue is
/// full, new events are dropped (drop-new policy) until a processing
/// pass drains it.
pub const MAX_PENDING_UPDATES: usize = 1 << 16;

/// The heatmap model after one processing pass over a queue: the queue is
/// drained into the store, then outliers are evicted if the store has
/// outgrown its bucket ceiling.
pub open spec fn processed_model(
    m: Seq<LevelModel>,
    q: Seq<(u64, OrderBookUpdate)>,
    price_step: i64,
    time_step: u64,
) -> Seq<LevelModel> {
    let flushed = apply_all_spec(m, q, price_step, time_step);
    if flushed.len() > MAX_PRICE_BUCKETS as int {
        evict_spec(flushed)
    } else {
        flushed
    }
}

/// The engine state for one tracked instrument.
pub struct Data {
    /// The tracked instrument, if any.
    pub symbol: Option<String>,
    /// The candle series, ascending by open time.
    pub klines: KlineStore,
    /// Pending depth events awaiting a processing pass, in arrival order.
    pub updates: Vec<(u64, OrderBookUpdate)>,
    /// The liquidity heatmap.
    pub heatmap: HeatmapStore,
    /// Price quantization step, in the caller's fixed-point scale.
    pub price_step: i64,
    /// Time quantization step, in milliseconds.
    pub time_step: u64,
}

impl Data {
    /// Stores well formed, queued events in range, steps positive.
    pub open spec fn wf(self) -> bool {
        &&& self.klines.wf()
        &&& self.heatmap.wf()
        &&& forall|i: int| 0 <= i < self.updates@.len() ==> (#[trigger] self.updates@[i].1).wf()
        &&& 1 <= self.price_step <= MAX_UNIT
        &&& self.time_step >= 1
    }

    /// All three event structures hold nothing.
    pub open spec fn is_cleared(self) -> bool {
        &&& self.klines.entries@.len() == 0
        &&& self.updates@.len() == 0
        &&& self.heatmap.model().len() == 0
    }

    /// A fresh engine with the given quantization steps and no
    /// instrument.
    pub fn new(price_step: i64, time_step: u64) -> (r: Data)
        requires
            1 <= price_step <= MAX_UNIT,
            time_step >= 1,
        ensures
            r.wf(),
            r.is_cleared(),
            r.symbol is None,
            r.price_step == price_step,
            r.time_step == time_step,
    {
        Data {
            symbol: None,
            klines: KlineStore::new(),
            updates: Vec::new(),
            heatmap: HeatmapStore::new(),
            price_step,
            time_step,
        }
    }

    /// The stock configuration: a price bucket one raw unit wide and a
    /// one-second time bucket.
    pub fn default_steps() -> (r: Data)
        ensures
            r.wf(),
            r.is_cleared(),
            r.symbol is None,
            r.price_step == 1,
            r.time_step == 1000,
    {
        Data::new(1, 1000)
    }

    /// Empties the candle store, the pending queue and the heatmap; the
    /// tracked instrument and the steps stay.
    pub fn clear(&mut self)
        requires
            old(self).wf(),
        ensures
            final(self).wf(),
            final(self).is_cleared(),
            final(self).symbol == old(self).symbol,
            final(self).price_step == old(self).price_step,
            final(self).time_step == old(self).time_step,
    {
        self.klines.clear();
        self.updates.clear();
        self.heatmap.clear();
    }

    /// Switches the tracked instrument. A repeated symbol is a no-op;
    /// a new one is stored and every event structure is cleared before
    /// any new event can be accepted, so no stale data survives the
    /// switch. Returns whether the instrument changed (the caller then
    /// re-establishes its feed).
    pub fn set_symbol(&mut self, symbol: String) -> (changed: bool)
        requires
            old(self).wf(),
        ensures
            final(self).wf(),
            changed == !(old(self).symbol matches Some(s) && s@ == symbol@),
            !changed ==> *final(self) == *old(self),
            changed ==> (final(self).symbol matches Some(s) && s@ == symbol@),
            changed ==> final(self).is_cleared(),
            final(self).price_step == old(self).price_step,
            final(self).time_step == old(self).time_step,
    {
        match &self.symbol {
            Some(sym) => {
                if *sym == symbol {
                    return false;
                }
            },
            None => {},
        }
        self.symbol = Some(symbol);
        self.clear();
        true
    }

    /// Accepts one depth event into the pending queue; nothing else
    /// moves until the next processing pass. A full queue drops the new
    /// event ([`MAX_PENDING_UPDATES`], drop-new) and reports it, so a
    /// stalled flush cadence cannot grow memory without limit.
    pub fn submit_depth_event(&mut self, ev: OrderBookUpdate) -> (accepted: bool)
        requires
            old(self).wf(),
            ev.wf(),
        ensures
            final(self).wf(),
            accepted == (old(self).updates@.len() < MAX_PENDING_UPDATES),
            accepted ==> final(self).updates@ == old(self).updates@.push((ev.ts, ev)),
            !accepted ==> final(self).updates == old(self).updates,
            final(self).klines == old(self).klines,
            final(self).heatmap == old(self).heatmap,
            final(self).symbol == old(self).symbol,
            final(self).price_step == old(self).price_step,
            final(self).time_step == old(self).time_step,
    {
        if self.updates.len() < MAX_PENDING_UPDATES {
            self.updates.push((ev.ts, ev));
            true
        } else {
            false
        }
    }

    /// Accepts one candle event: candles bypass the queue and upsert the
    /// candle store by open time directly.
    pub fn submit_candle_event(&mut self, ev: NormalizedCandleEvent)
        requires
            old(self).wf(),
            ev.wf(),
        ensures
            final(self).wf(),
            final(self).klines.entries@ == kline_upsert_spec(
                old(self).klines.entries@,
                Kline::of_event_spec(ev),
            ),
            final(self).updates == old(self).updates,
            final(self).heatmap == old(self).heatmap,
            final(self).symbol == old(self).symbol,
            final(self).price_step == old(self).price_step,
            final(self).time_step == old(self).time_step,
    {
        self.klines.upsert(ev);
    }

    /// One processing pass: drains the whole pending queue into the
    /// heatmap in arrival order, then evicts outlier buckets if the
    /// store has outgrown its soft ceiling.
    pub fn process_updates(&mut self)
        requires
            old(self).wf(),
        ensures
            final(self).wf(),
            final(self).heatmap.model() == processed_model(
                old(self).heatmap.model(),
                old(self).updates@,
                old(self).price_step,
                old(self).time_step,
            ),
            final(self).updates@.len() == 0,
            final(self).klines == old(self).klines,
            final(self).symbol == old(self).symbol,
            final(self).price_step == old(self).price_step,
            final(self).time_step == old(self).time_step,
    {
        heatmap::flush(&mut self.heatmap, &mut self.updates, self.price_step, self.time_step);
        if self.heatmap.bucket_count() > MAX_PRICE_BUCKETS {
            self.heatmap.evict_outliers();
        }
    }

    /// Composes one draw pass from the current snapshots at the given
    /// wall-clock time. Pure in its inputs; see [`composer::compose`].
    pub fn compose(&self, width: u32, height: u32, dark: bool, now: u64) -> (r: DrawPlan)
        requires
            self.wf(),
        ensures
            r.width == width,
            r.height == height,
            r.dark == dark,
            r.heat_color == heat_color_spec(dark),
            r.up_color == up_color_spec(),
            r.down_color == down_color_spec(),
            self.klines.entries@.len() == 0 ==> r.is_empty(),
            self.klines.entries@.len() > 0 ==> r.axes == Some(
                axis_spec_of(self.klines.entries@, dark),
            ),
            self.klines.entries@.len() > 0 ==> r.candles@ == self.klines.entries@.map_values(
                |k: Kline| candle_of(k),
            ),
            self.klines.entries@.len() > 0 ==> seg_models(r.segments@) == plan_segments_spec(
                self.heatmap.model(),
                self.klines.entries@,
                now,
                self.time_step,
            ),
    {
        composer::compose(&self.heatmap, &self.klines, width, height, dark, now, self.time_step)
    }

    /// Composes one draw pass at the wall clock's current time: the time
    /// only closes a trailing segment, so every other part of the plan is
    /// as [`Data::compose`] states for some time.
    pub fn compose_now(&self, width: u32, height: u32, dark: bool) -> (r: DrawPlan)
        requires
            self.wf(),
        ensures
            r.width == width,
            r.height == height,
            r.dark == dark,
            r.heat_color == heat_color_spec(dark),
            r.up_color == up_color_spec(),
            r.down_color == down_color_spec(),
            self.klines.entries@.len() == 0 ==> r.is_empty(),
            self.klines.entries@.len() > 0 ==> r.axes == Some(
                axis_spec_of(self.klines.entries@, dark),
            ),
            self.klines.entries@.len() > 0 ==> r.candles@ == self.klines.entries@.map_values(
                |k: Kline| candle_of(k),
            ),
            self.klines.entries@.len() > 0 ==> exists|t: u64|
                seg_models(r.segments@) == plan_segments_spec(
                    self.heatmap.model(),
                    self.klines.entries@,
                    t,
                    self.time_step,
                ),
    {
        let now = now_millis();
        self.compose(width, height, dark, now)
    }
}

} // verus!
