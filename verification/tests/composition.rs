use orderflow_chart::composer::compose;
use orderflow_chart::heatmap::HeatmapStore;
use orderflow_chart::klines::KlineStore;
use orderflow_chart::klines::NormalizedCandleEvent;

fn candle(open_time: u64, low: i64, high: i64, close: i64) -> NormalizedCandleEvent {
    NormalizedCandleEvent {
        open_time,
        open: low,
        high,
        low,
        close,
        buy_volume: 10,
        total_volume: 25,
        close_time: open_time + 999,
    }
}

#[test]
fn empty_klines_yield_an_empty_plan() {
    let heatmap = HeatmapStore::new();
    let klines = KlineStore::new();
    let plan = compose(&heatmap, &klines, 800, 600, true, 9999, 1000);
    assert!(plan.axes.is_none());
    assert_eq!(plan.segments.len(), 0);
    assert_eq!(plan.candles.len(), 0);
    assert_eq!(plan.width, 800);
    assert_eq!(plan.height, 600);
    assert!(plan.dark);
}

#[test]
fn single_kline_axis_expands_half_the_span_each_side() {
    let heatmap = HeatmapStore::new();
    let mut klines = KlineStore::new();
    klines.upsert(candle(1000, 100, 300, 250));
    let plan = compose(&heatmap, &klines, 800, 600, false, 9999, 1000);
    let axes = plan.axes.expect("one candle draws axes");
    assert_eq!(axes.time_min, 1000);
    assert_eq!(axes.time_max, 1000);
    // span = 300 - 100 = 200; range [100 - 100, 300 + 100] = [0, 400],
    // carried doubled.
    assert_eq!(axes.price_lo2, 0);
    assert_eq!(axes.price_hi2, 800);
    assert_eq!(plan.candles.len(), 1);
    assert!(plan.candles[0].rising);
}

#[test]
fn candles_keep_time_order_and_up_down_split() {
    let heatmap = HeatmapStore::new();
    let mut klines = KlineStore::new();
    klines.upsert(candle(2000, 10, 20, 9));
    klines.upsert(candle(1000, 10, 20, 15));
    let plan = compose(&heatmap, &klines, 400, 300, true, 9999, 1000);
    assert_eq!(plan.candles.len(), 2);
    assert_eq!(plan.candles[0].time, 1000);
    assert_eq!(plan.candles[1].time, 2000);
    assert!(plan.candles[0].rising);
    assert!(!plan.candles[1].rising);
}

/// Builds the store whose global intensity sample is
/// {8, 10, 10, 10, 12, m, m}: median 10, median absolute deviation 2.
/// The bucket at price 100 holds the pair of magnitude `m`, so its
/// interior segment has deviation (m - 10) / 2.
fn store_with_pair(m: i64) -> HeatmapStore {
    let mut store = HeatmapStore::new();
    // Bucket price 100: sizes m then -m (same magnitude, different sign,
    // so the no-op rule does not collapse them).
    store.apply_update(1000, 100, m, 1, 1000);
    store.apply_update(2000, 100, -m, 1, 1000);
    // Bucket price 200: magnitudes 10, 10.
    store.apply_update(1000, 200, 10, 1, 1000);
    store.apply_update(2000, 200, -10, 1, 1000);
    // Bucket price 300: magnitudes 8, 12.
    store.apply_update(1000, 300, 8, 1, 1000);
    store.apply_update(2000, 300, 12, 1, 1000);
    // Bucket price 400: magnitude 10.
    store.apply_update(1000, 400, 10, 1, 1000);
    store
}

fn two_wide_candles() -> KlineStore {
    let mut klines = KlineStore::new();
    klines.upsert(candle(0, 0, 1000, 500));
    klines.upsert(candle(100_000, 0, 1000, 500));
    klines
}

#[test]
fn deviation_of_exactly_nine_is_baseline_not_wall() {
    // Sample {8,10,10,10,12,28,28}: center 10, spread 2. The pair of 28s
    // gives deviation (28 - 10) / 2 == 9 exactly: strictly-greater means
    // no wall.
    let store = store_with_pair(28);
    let klines = two_wide_candles();
    let plan = compose(&store, &klines, 800, 600, true, 50_000, 1000);
    assert!(plan.segments.len() > 0);
    // The first segment drawn is the interior segment of the first
    // bucket (price 100), the one of magnitude 28.
    assert_eq!(plan.segments[0].width, 4);
    // Its opacity clamps to 0.3.
    assert_eq!(plan.segments[0].alpha.num, 3);
    assert_eq!(plan.segments[0].alpha.den, 10);
}

#[test]
fn deviation_above_nine_is_a_wall() {
    // Sample {8,10,10,10,12,30,30}: center 10, spread 2. The pair of 30s
    // gives deviation 10 > 9: full width, full opacity.
    let store = store_with_pair(30);
    let klines = two_wide_candles();
    let plan = compose(&store, &klines, 800, 600, true, 50_000, 1000);
    assert!(plan.segments.len() > 0);
    assert_eq!(plan.segments[0].width, 8);
    assert_eq!(plan.segments[0].alpha.num, 1);
    assert_eq!(plan.segments[0].alpha.den, 1);
}

#[test]
fn interior_segment_vertices_and_reseed() {
    let store = store_with_pair(28);
    let klines = two_wide_candles();
    let plan = compose(&store, &klines, 800, 600, true, 50_000, 1000);
    // Interior segment of bucket 100: its two recorded entries.
    let seg = &plan.segments[0];
    assert_eq!(seg.points.len(), 2);
    assert_eq!((seg.points[0].time, seg.points[0].price), (1000, 100));
    assert_eq!((seg.points[1].time, seg.points[1].price), (2000, 100));
    // The trailing segment reconnects one time step before the last
    // entry and closes at the wall-clock time passed in.
    let trail = &plan.segments[1];
    assert_eq!(trail.points.len(), 2);
    assert_eq!((trail.points[0].time, trail.points[0].price), (1000, 100));
    assert_eq!((trail.points[1].time, trail.points[1].price), (50_000, 100));
    // The trailing formula is the damping one, 0.3 / max(t, 1), not the
    // interior clamp: with deviation 9 it gives 0.3/9 = 24/720.
    assert_eq!(trail.width, 4);
    assert_eq!(trail.alpha.num, 24);
    assert_eq!(trail.alpha.den, 720);
}

#[test]
fn interior_opacity_scales_with_deviation_inside_the_clamp() {
    // Sample {10, 8, 9, 12}: center 9.5, spread 1. The first bucket's
    // interior segment has magnitude 10, deviation 0.5, so its opacity
    // is 0.3 * 0.5 = 6/40.
    let mut store = HeatmapStore::new();
    store.apply_update(1000, 100, 10, 1, 1000);
    store.apply_update(2000, 100, -8, 1, 1000);
    store.apply_update(1000, 200, 9, 1, 1000);
    store.apply_update(2000, 200, -12, 1, 1000);
    let klines = two_wide_candles();
    let plan = compose(&store, &klines, 800, 600, true, 50_000, 1000);
    assert_eq!(plan.segments[0].width, 4);
    assert_eq!(plan.segments[0].alpha.num, 6);
    assert_eq!(plan.segments[0].alpha.den, 40);
}

#[test]
fn low_deviation_clamps_to_the_opacity_floor() {
    // Sample {10, 8, 9, 9, 12}: center 9, spread 1. The first bucket's
    // second interior segment has magnitude 9, deviation 0, and the
    // clamp floor applies: 0.3 * 0.1 = 3/100.
    let mut store = HeatmapStore::new();
    store.apply_update(1000, 100, 10, 1, 1000);
    store.apply_update(2000, 100, -8, 1, 1000);
    store.apply_update(3000, 100, 9, 1, 1000);
    store.apply_update(1000, 200, 9, 1, 1000);
    store.apply_update(2000, 200, -12, 1, 1000);
    let klines = two_wide_candles();
    let plan = compose(&store, &klines, 800, 600, true, 50_000, 1000);
    // Bucket 100 yields an interior segment per consecutive pair: the
    // second one spans the reseed vertex and the third entry.
    let seg = &plan.segments[1];
    assert_eq!(seg.width, 4);
    assert_eq!(seg.alpha.num, 3);
    assert_eq!(seg.alpha.den, 100);
}

#[test]
fn buckets_outside_the_price_axis_draw_nothing() {
    let mut store = HeatmapStore::new();
    // Price 5000 sits far outside the price axis of candles spanning
    // lows 0 and highs 1000 (expanded range (-500, 1500)).
    store.apply_update(1000, 5000, 10, 1, 1000);
    store.apply_update(2000, 5000, -10, 1, 1000);
    let klines = two_wide_candles();
    let plan = compose(&store, &klines, 800, 600, true, 50_000, 1000);
    assert_eq!(plan.segments.len(), 0);
}

#[test]
fn entries_outside_the_time_axis_are_skipped() {
    let mut store = HeatmapStore::new();
    // Entries after the last candle's open time never become vertices.
    store.apply_update(200_000, 100, 10, 1, 1000);
    store.apply_update(300_000, 100, -10, 1, 1000);
    let klines = two_wide_candles();
    let plan = compose(&store, &klines, 800, 600, true, 400_000, 1000);
    assert_eq!(plan.segments.len(), 0);
}

#[test]
fn dark_and_light_styling_differ_only_in_colors() {
    let store = store_with_pair(28);
    let klines = two_wide_candles();
    let dark = compose(&store, &klines, 800, 600, true, 50_000, 1000);
    let light = compose(&store, &klines, 800, 600, false, 50_000, 1000);
    assert_ne!(dark.heat_color, light.heat_color);
    let da = dark.axes.unwrap();
    let la = light.axes.unwrap();
    assert_ne!(da.axis_color, la.axis_color);
    assert_eq!(da.price_lo2, la.price_lo2);
    assert_eq!(dark.segments.len(), light.segments.len());
}
