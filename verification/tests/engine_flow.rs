use orderflow_chart::engine::Data;
use orderflow_chart::heatmap::OrderBookUpdate;
use orderflow_chart::klines::NormalizedCandleEvent;
use orderflow_chart::scheduler::RedrawScheduler;

fn depth(ts: u64, px: i64, sz: i64) -> OrderBookUpdate {
    OrderBookUpdate { ts, sq: ts, px, sz }
}

fn candle(open_time: u64, close: i64) -> NormalizedCandleEvent {
    NormalizedCandleEvent {
        open_time,
        open: 100,
        high: 120,
        low: 90,
        close,
        buy_volume: 10,
        total_volume: 25,
        close_time: open_time + 999,
    }
}

#[test]
fn upsert_with_same_open_time_keeps_the_second_event() {
    let mut data = Data::new(1, 1000);
    data.submit_candle_event(candle(1000, 110));
    data.submit_candle_event(candle(1000, 95));
    assert_eq!(data.klines.len(), 1);
    assert_eq!(data.klines.entries[0].ts, 1000);
    assert_eq!(data.klines.entries[0].cl, 95);
    // sell volume is total volume minus buy volume
    assert_eq!(data.klines.entries[0].vb, 10);
    assert_eq!(data.klines.entries[0].vs, 15);
}

#[test]
fn upsert_keeps_open_time_order() {
    let mut data = Data::new(1, 1000);
    data.submit_candle_event(candle(3000, 1));
    data.submit_candle_event(candle(1000, 2));
    data.submit_candle_event(candle(2000, 3));
    assert_eq!(data.klines.len(), 3);
    assert_eq!(data.klines.entries[0].ts, 1000);
    assert_eq!(data.klines.entries[1].ts, 2000);
    assert_eq!(data.klines.entries[2].ts, 3000);
}

#[test]
fn depth_events_queue_until_processed() {
    let mut data = Data::new(1, 1000);
    data.submit_depth_event(depth(1000, 50, 7));
    data.submit_depth_event(depth(5000, 50, 7));
    assert_eq!(data.updates.len(), 2);
    assert_eq!(data.heatmap.bucket_count(), 0);
    data.process_updates();
    assert_eq!(data.updates.len(), 0);
    assert_eq!(data.heatmap.bucket_count(), 1);
    // no-op suppression across the flush
    assert_eq!(data.heatmap.levels[0].series.len(), 1);
}

#[test]
fn processing_past_the_ceiling_evicts_the_outlier() {
    let mut data = Data::new(1, 1000);
    for p in 100..300 {
        data.submit_depth_event(depth(1000, p, 5));
    }
    data.submit_depth_event(depth(1000, 20000, 5));
    data.process_updates();
    assert_eq!(data.updates.len(), 0);
    assert_eq!(data.heatmap.bucket_count(), 200);
    for lvl in &data.heatmap.levels {
        assert!(lvl.price != 20000);
    }
}

#[test]
fn instrument_switch_clears_everything_queued() {
    let mut data = Data::new(1, 1000);
    assert!(data.set_symbol("BTCUSDT".to_string()));
    data.submit_depth_event(depth(1000, 50, 7));
    data.submit_candle_event(candle(1000, 110));
    data.process_updates();
    data.submit_depth_event(depth(2000, 51, 3));
    assert!(data.updates.len() > 0);
    assert!(data.klines.len() > 0);
    assert!(data.heatmap.bucket_count() > 0);

    // Same instrument: nothing moves.
    assert!(!data.set_symbol("BTCUSDT".to_string()));
    assert!(data.updates.len() > 0);
    assert!(data.klines.len() > 0);

    // New instrument: stores and queue are all empty before any new
    // event is accepted.
    assert!(data.set_symbol("ETHUSDT".to_string()));
    assert_eq!(data.updates.len(), 0);
    assert_eq!(data.klines.len(), 0);
    assert_eq!(data.heatmap.bucket_count(), 0);
}

#[test]
fn full_pending_queue_drops_new_events() {
    let mut data = Data::new(1, 1000);
    for i in 0..65536u64 {
        assert!(data.submit_depth_event(depth(i, 50, 7)));
    }
    // drop-new: the overflowing event is rejected, the queue unchanged
    assert!(!data.submit_depth_event(depth(99999, 50, 7)));
    assert_eq!(data.updates.len(), 65536);
    data.process_updates();
    assert_eq!(data.updates.len(), 0);
    assert!(data.submit_depth_event(depth(99999, 50, 7)));
}

#[test]
fn stock_configuration_starts_clean() {
    let data = Data::default_steps();
    assert!(data.symbol.is_none());
    assert_eq!(data.price_step, 1);
    assert_eq!(data.time_step, 1000);
    assert_eq!(data.klines.len(), 0);
    assert_eq!(data.updates.len(), 0);
    assert_eq!(data.heatmap.bucket_count(), 0);
}

#[test]
fn negative_prices_bucket_toward_minus_infinity() {
    let mut data = Data::new(2, 1000);
    data.submit_depth_event(depth(1000, -5, 3));
    data.submit_depth_event(depth(1000, 5, 3));
    data.process_updates();
    assert_eq!(data.heatmap.bucket_count(), 2);
    assert_eq!(data.heatmap.levels[0].price, -6);
    assert_eq!(data.heatmap.levels[1].price, 4);
}

#[test]
fn compose_now_matches_requested_surface() {
    let mut data = Data::new(1, 1000);
    data.submit_candle_event(candle(1000, 110));
    let plan = data.compose_now(640, 480, false);
    assert_eq!(plan.width, 640);
    assert_eq!(plan.height, 480);
    assert!(!plan.dark);
    assert_eq!(plan.candles.len(), 1);
    assert!(plan.axes.is_some());
}

#[test]
fn scheduler_draws_once_per_turn_with_latest_size() {
    let mut sched = RedrawScheduler::new(800, 600);
    // The initial draw is owed.
    assert_eq!(sched.take_redraw(), Some((800, 600)));
    assert_eq!(sched.take_redraw(), None);

    sched.on_tick();
    assert_eq!(sched.take_redraw(), Some((800, 600)));

    // Near-simultaneous triggers: one draw, last size wins.
    sched.on_tick();
    sched.on_resize(1024, 768);
    sched.on_resize(1280, 720);
    assert_eq!(sched.take_redraw(), Some((1280, 720)));
    assert_eq!(sched.take_redraw(), None);
}
