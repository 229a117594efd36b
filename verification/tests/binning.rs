use orderflow_chart::heatmap::HeatmapStore;
use orderflow_chart::heatmap::price_bucket;
use orderflow_chart::heatmap::time_bucket;

#[test]
fn identical_nonzero_sizes_collapse_to_one_entry() {
    let mut store = HeatmapStore::new();
    store.apply_update(1000, 50, 7, 1, 1000);
    store.apply_update(5000, 50, 7, 1, 1000);
    assert_eq!(store.levels.len(), 1);
    assert_eq!(store.levels[0].price, 50);
    assert_eq!(store.levels[0].series.len(), 1);
    assert_eq!(store.levels[0].series[0].time, 1000);
    assert_eq!(store.levels[0].series[0].size, 7);
}

#[test]
fn zero_size_is_never_suppressed() {
    let mut store = HeatmapStore::new();
    store.apply_update(1000, 50, 7, 1, 1000);
    store.apply_update(5000, 50, 0, 1, 1000);
    assert_eq!(store.levels.len(), 1);
    assert_eq!(store.levels[0].series.len(), 2);
    assert_eq!(store.levels[0].series[0].time, 1000);
    assert_eq!(store.levels[0].series[0].size, 7);
    assert_eq!(store.levels[0].series[1].time, 5000);
    assert_eq!(store.levels[0].series[1].size, 0);
}

#[test]
fn nonzero_write_into_latest_time_bucket_overwrites_in_place() {
    let mut store = HeatmapStore::new();
    store.apply_update(1000, 50, 7, 1, 1000);
    store.apply_update(1500, 50, 9, 1, 1000);
    assert_eq!(store.levels[0].series.len(), 1);
    assert_eq!(store.levels[0].series[0].time, 1000);
    assert_eq!(store.levels[0].series[0].size, 9);
}

#[test]
fn zero_write_into_latest_time_bucket_overwrites_too() {
    let mut store = HeatmapStore::new();
    store.apply_update(1000, 50, 7, 1, 1000);
    store.apply_update(1800, 50, 0, 1, 1000);
    assert_eq!(store.levels[0].series.len(), 1);
    assert_eq!(store.levels[0].series[0].time, 1000);
    assert_eq!(store.levels[0].series[0].size, 0);
}

#[test]
fn distinct_price_buckets_get_distinct_levels() {
    let mut store = HeatmapStore::new();
    store.apply_update(1000, 50, 7, 1, 1000);
    store.apply_update(1000, 51, 3, 1, 1000);
    assert_eq!(store.levels.len(), 2);
    assert_eq!(store.levels[0].price, 50);
    assert_eq!(store.levels[1].price, 51);
}

#[test]
fn price_buckets_round_toward_minus_infinity() {
    assert_eq!(price_bucket(5, 2), 4);
    assert_eq!(price_bucket(4, 2), 4);
    assert_eq!(price_bucket(-5, 2), -6);
    assert_eq!(price_bucket(-4, 2), -4);
    assert_eq!(price_bucket(0, 2), 0);
    assert_eq!(price_bucket(7, 1), 7);
}

#[test]
fn time_buckets_round_down_to_step_multiples() {
    assert_eq!(time_bucket(1999, 1000), 1000);
    assert_eq!(time_bucket(2000, 1000), 2000);
    assert_eq!(time_bucket(999, 1000), 0);
}

#[test]
fn out_of_order_time_buckets_insert_sorted() {
    let mut store = HeatmapStore::new();
    store.apply_update(2000, 50, 7, 1, 1000);
    store.apply_update(500, 50, 9, 1, 1000);
    // The late event lands in its own (earlier) time bucket, keeping
    // the series ascending in time.
    assert_eq!(store.levels[0].series.len(), 2);
    assert_eq!(store.levels[0].series[0].time, 0);
    assert_eq!(store.levels[0].series[0].size, 9);
    assert_eq!(store.levels[0].series[1].time, 2000);
    assert_eq!(store.levels[0].series[1].size, 7);
}

#[test]
fn eviction_drops_only_the_gross_outlier() {
    let mut store = HeatmapStore::new();
    // 200 inlier buckets at prices 100..=299, one gross outlier at
    // 100x the median price.
    for p in 100..300 {
        store.apply_update(1000, p, 5, 1, 1000);
    }
    store.apply_update(1000, 20000, 5, 1, 1000);
    assert_eq!(store.levels.len(), 201);
    store.evict_outliers();
    assert_eq!(store.levels.len(), 200);
    for lvl in &store.levels {
        assert!(lvl.price != 20000);
        assert!(100 <= lvl.price && lvl.price <= 299);
    }
}

#[test]
fn eviction_with_zero_spread_removes_nothing() {
    let mut store = HeatmapStore::new();
    // A single bucket has zero price spread: the pass is degenerate, so
    // nothing may be dropped (and no division blows up).
    store.apply_update(1000, 42, 5, 1, 1000);
    assert_eq!(store.levels.len(), 1);
    store.evict_outliers();
    assert_eq!(store.levels.len(), 1);
}
