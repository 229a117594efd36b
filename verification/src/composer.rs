//! The chart composer: one pure draw pass.
//!
//! Given snapshots of the heatmap and the candle series, a canvas size, a
//! dark-mode flag and the current wall-clock time, `compose` computes the
//! axis ranges, walks every in-range price bucket into styled heatmap line
//! segments, and emits one candlestick glyph per candle. The output is a
//! renderer-agnostic [`DrawPlan`]; executing it in order (axes, then
//! segments, then candles) yields the intended layering.
//!
//! Styling is exact: a segment whose intensity deviation strictly exceeds
//! the wall threshold is drawn at full weight; any other segment is drawn
//! at baseline width with an opacity carried as an exact rational.

use vstd::prelude::*;
use crate::MAX_UNIT;
use crate::in_unit_range;
use crate::ratio::Ratio;
use crate::klines::Kline;
use crate::klines::KlineStore;
use crate::heatmap::HeatmapStore;
use crate::heatmap::TimeEntry;
use crate::heatmap::LevelModel;
use crate::heatmap::series_sizes_ok;
use crate::stats::as_ints;
use crate::stats::median_twice_spec;
use crate::stats::mad_quad_spec;
use crate::stats::lemma_median_twice_bounds;
use crate::stats::median;
use crate::stats::median_absolute_deviation;

verus! {

/// A segment whose intensity deviation strictly exceeds this many spreads
/// above the center is drawn as a "wall": full width, full opacity.
pub const WALL_THRESHOLD: i64 = 9;

/// Line width of a wall segment.
pub const WALL_WIDTH: u32 = 8;

/// Line width of a baseline segment.
pub const BASE_WIDTH: u32 = 4;

/// An sRGB color.
#[derive(Clone, Copy, Debug, PartialEq, Eq, Structural)]
pub struct Color {
    pub r: u8,
    pub g: u8,
    pub b: u8,
}

/// One vertex of a heatmap polyline: a wall-clock time and a price.
#[derive(Clone, Copy, Debug, PartialEq, Eq, Structural)]
pub struct SegPoint {
    pub time: u64,
    pub price: i64,
}

/// One styled heatmap line segment.
#[derive(Debug)]
pub struct HeatSegment {
    pub points: Vec<SegPoint>,
    pub width: u32,
    pub alpha: Ratio,
}

/// The mathematical content of a segment: its vertices, width and exact
/// opacity.
pub type SegModel = (Seq<SegPoint>, u32, Ratio);

impl HeatSegment {
    pub open spec fn model(self) -> SegModel {
        (self.points@, self.width, self.alpha)
    }
}

/// The models of a segment list, in order.
pub open spec fn seg_models(v: Seq<HeatSegment>) -> Seq<SegModel> {
    v.map_values(|s: HeatSegment| s.model())
}

/// One candlestick glyph. `rising` selects the up color (close at or
/// above open) over the down color.
#[derive(Clone, Copy, Debug, PartialEq, Eq, Structural)]
pub struct CandleGlyph {
    pub time: u64,
    pub open: i64,
    pub high: i64,
    pub low: i64,
    pub close: i64,
    pub rising: bool,
}

/// Axis and grid description. Price bounds are exact half-integers,
/// carried doubled: the drawn range is `[price_lo2 / 2, price_hi2 / 2]`.
#[derive(Clone, Copy, Debug, PartialEq, Eq, Structural)]
pub struct AxisSpec {
    pub time_min: u64,
    pub time_max: u64,
    pub price_lo2: i64,
    pub price_hi2: i64,
    pub axis_color: Color,
    pub x_labels: u32,
    pub y_labels: u32,
}

/// One composition pass's output: draw the axes first, the heatmap
/// segments next, and the candles last (on top).
#[derive(Debug)]
pub struct DrawPlan {
    pub width: u32,
    pub height: u32,
    pub dark: bool,
    pub axes: Option<AxisSpec>,
    pub segments: Vec<HeatSegment>,
    pub candles: Vec<CandleGlyph>,
    pub heat_color: Color,
    pub up_color: Color,
    pub down_color: Color,
}

impl DrawPlan {
    /// A plan that draws nothing.
    pub open spec fn is_empty(self) -> bool {
        &&& self.axes is None
        &&& self.segments@.len() == 0
        &&& self.candles@.len() == 0
    }
}

/// Absolute value.
pub open spec fn abs_i(x: int) -> int {
    if x < 0 {
        -x
    } else {
        x
    }
}

/// Maximum.
pub open spec fn max_i(a: int, b: int) -> int {
    if a >= b {
        a
    } else {
        b
    }
}

/// Axis color: grey on dark, black on light.
pub open spec fn axis_color_spec(dark: bool) -> Color {
    if dark {
        Color { r: 158, g: 158, b: 158 }
    } else {
        Color { r: 0, g: 0, b: 0 }
    }
}

/// Heatmap line color: a deeper cyan on dark, a lighter one on light.
pub open spec fn heat_color_spec(dark: bool) -> Color {
    if dark {
        Color { r: 0, g: 172, b: 193 }
    } else {
        Color { r: 77, g: 208, b: 225 }
    }
}

/// Candle up color.
pub open spec fn up_color_spec() -> Color {
    Color { r: 81, g: 205, b: 160 }
}

/// Candle down color.
pub open spec fn down_color_spec() -> Color {
    Color { r: 192, g: 80, b: 77 }
}

/// Least low across the candles.
pub open spec fn min_lo_spec(s: Seq<Kline>) -> int
    recommends
        s.len() > 0,
    decreases s.len(),
{
    if s.len() <= 1 {
        s[0].lo as int
    } else if (s.last().lo as int) < min_lo_spec(s.drop_last()) {
        s.last().lo as int
    } else {
        min_lo_spec(s.drop_last())
    }
}

/// Greatest high across the candles.
pub open spec fn max_hi_spec(s: Seq<Kline>) -> int
    recommends
        s.len() > 0,
    decreases s.len(),
{
    if s.len() <= 1 {
        s[0].hi as int
    } else if (s.last().hi as int) > max_hi_spec(s.drop_last()) {
        s.last().hi as int
    } else {
        max_hi_spec(s.drop_last())
    }
}

/// The axes drawn for a non-empty candle series: the time axis spans the
/// open times, and the price axis spans the candle lows and highs expanded
/// symmetrically by half its own span on each side.
pub open spec fn axis_spec_of(ks: Seq<Kline>, dark: bool) -> AxisSpec
    recommends
        ks.len() > 0,
{
    let minlo = min_lo_spec(ks);
    let maxhi = max_hi_spec(ks);
    let span = maxhi - minlo;
    AxisSpec {
        time_min: ks[0].ts,
        time_max: ks[ks.len() - 1].ts,
        price_lo2: (2 * minlo - span) as i64,
        price_hi2: (2 * maxhi + span) as i64,
        axis_color: axis_color_spec(dark),
        x_labels: 8,
        y_labels: 10,
    }
}

/// The glyph drawn for one candle.
pub open spec fn candle_of(k: Kline) -> CandleGlyph {
    CandleGlyph {
        time: k.ts,
        open: k.op,
        high: k.hi,
        low: k.lo,
        close: k.cl,
        rising: k.cl >= k.op,
    }
}

/// The absolute values of the non-zero intensities of one time series,
/// in series order.
pub open spec fn sizes_of_series(s: Seq<TimeEntry>) -> Seq<i64>
    decreases s.len(),
{
    if s.len() == 0 {
        Seq::empty()
    } else if s.last().size != 0 {
        sizes_of_series(s.drop_last()).push(abs_i(s.last().size as int) as i64)
    } else {
        sizes_of_series(s.drop_last())
    }
}

/// The absolute values of all non-zero intensities across the store, in
/// store order: the global sample that drives intensity styling.
pub open spec fn sizes_of(m: Seq<LevelModel>) -> Seq<i64>
    decreases m.len(),
{
    if m.len() == 0 {
        Seq::empty()
    } else {
        sizes_of(m.drop_last()) + sizes_of_series(m.last().1)
    }
}

/// Width and opacity of an interior segment with peak magnitude `mag`,
/// against the doubled center `c2` and quadrupled spread `mad4` of the
/// global intensity sample. The deviation is `t = (4*mag - 2*c2) / mad4`;
/// strictly above the wall threshold the segment is a wall, otherwise the
/// opacity is `0.3 * clamp(t, 0.1, 1)`, exact. A degenerate spread
/// (`mad4 == 0`) admits no extreme scaling: the opacity floor applies.
pub open spec fn interior_style_spec(mag: int, c2: int, mad4: int) -> (u32, Ratio) {
    if mad4 > 0 && 4 * mag - 2 * c2 > (WALL_THRESHOLD as int) * mad4 {
        (WALL_WIDTH, Ratio { num: 1, den: 1 })
    } else if mad4 <= 0 {
        (BASE_WIDTH, Ratio { num: 3, den: 100 })
    } else {
        let tn = 4 * mag - 2 * c2;
        if 10 * tn <= mad4 {
            (BASE_WIDTH, Ratio { num: 3, den: 100 })
        } else if tn >= mad4 {
            (BASE_WIDTH, Ratio { num: 3, den: 10 })
        } else {
            (BASE_WIDTH, Ratio { num: (3 * tn) as i64, den: (10 * mad4) as i64 })
        }
    }
}

/// Width and opacity of a trailing (still open) segment: the same wall
/// rule, but below it the opacity is `0.3 / max(t, 1)`, damping very
/// large trailing deviations instead of clamping them.
pub open spec fn trailing_style_spec(mag: int, c2: int, mad4: int) -> (u32, Ratio) {
    if mad4 > 0 && 4 * mag - 2 * c2 > (WALL_THRESHOLD as int) * mad4 {
        (WALL_WIDTH, Ratio { num: 1, den: 1 })
    } else if mad4 <= 0 {
        (BASE_WIDTH, Ratio { num: 3, den: 10 })
    } else {
        let tn = 4 * mag - 2 * c2;
        if tn <= mad4 {
            (BASE_WIDTH, Ratio { num: 3, den: 10 })
        } else {
            (BASE_WIDTH, Ratio { num: (3 * mad4) as i64, den: (10 * tn) as i64 })
        }
    }
}

/// The reseed vertex after a finalized segment sits one time step before
/// the current vertex (clamped at zero), so consecutive non-zero runs
/// reconnect without a gap.
pub open spec fn step_back(t: u64, step: u64) -> u64 {
    if t >= step {
        (t - step) as u64
    } else {
        0
    }
}

/// The segments drawn for one bucket's series from index `i` on, with the
/// open vertex list `pts` and the previous intensity `last_sz` carried as
/// state. Entries outside the time axis are skipped whole. Each vertex
/// extends the open segment; once it holds two vertices it is finalized
/// with the interior style over the larger of the adjacent magnitudes,
/// and reseeded one step back when the current intensity is non-zero. A
/// leftover open segment is closed at the current wall-clock time with
/// the trailing style over the last magnitude alone.
pub open spec fn walk_segments(
    series: Seq<TimeEntry>,
    i: int,
    pts: Seq<SegPoint>,
    last_sz: i64,
    price: i64,
    t_min: u64,
    t_max: u64,
    c2: int,
    mad4: int,
    now: u64,
    time_step: u64,
) -> Seq<SegModel>
    recommends
        0 <= i <= series.len(),
    decreases series.len() - i,
{
    if i < 0 || i >= series.len() {
        if pts.len() > 0 {
            let fin = pts.push(SegPoint { time: now, price });
            let style = trailing_style_spec(abs_i(last_sz as int), c2, mad4);
            seq![(fin, style.0, style.1)]
        } else {
            Seq::empty()
        }
    } else {
        let e = series[i];
        if e.time < t_min || e.time > t_max {
            walk_segments(series, i + 1, pts, last_sz, price, t_min, t_max, c2, mad4, now,
                time_step)
        } else {
            let pts1 = pts.push(SegPoint { time: e.time, price });
            if pts1.len() >= 2 {
                let mag = max_i(abs_i(last_sz as int), abs_i(e.size as int));
                let style = interior_style_spec(mag, c2, mad4);
                let seg = (pts1, style.0, style.1);
                let pts2 = if e.size != 0 {
                    seq![SegPoint { time: step_back(e.time, time_step), price }]
                } else {
                    Seq::<SegPoint>::empty()
                };
                seq![seg] + walk_segments(series, i + 1, pts2, e.size, price, t_min, t_max, c2,
                    mad4, now, time_step)
            } else {
                walk_segments(series, i + 1, pts1, e.size, price, t_min, t_max, c2, mad4, now,
                    time_step)
            }
        }
    }
}

/// The segments drawn for one bucket: none when its price sits at or
/// beyond the price axis bounds, else the walk of its whole series.
pub open spec fn level_segments(
    l: LevelModel,
    t_min: u64,
    t_max: u64,
    lo2: int,
    hi2: int,
    c2: int,
    mad4: int,
    now: u64,
    time_step: u64,
) -> Seq<SegModel> {
    if lo2 < 2 * (l.0 as int) && 2 * (l.0 as int) < hi2 {
        walk_segments(l.1, 0, Seq::empty(), 0i64, l.0, t_min, t_max, c2, mad4, now, time_step)
    } else {
        Seq::empty()
    }
}

/// All heatmap segments of a pass, per bucket in store order.
pub open spec fn segments_of(
    m: Seq<LevelModel>,
    t_min: u64,
    t_max: u64,
    lo2: int,
    hi2: int,
    c2: int,
    mad4: int,
    now: u64,
    time_step: u64,
) -> Seq<SegModel>
    decreases m.len(),
{
    if m.len() == 0 {
        Seq::empty()
    } else {
        level_segments(m[0], t_min, t_max, lo2, hi2, c2, mad4, now, time_step) + segments_of(
            m.drop_first(),
            t_min,
            t_max,
            lo2,
            hi2,
            c2,
            mad4,
            now,
            time_step,
        )
    }
}

/// The heatmap segments of a whole pass over non-empty candles: none when
/// no non-zero intensity exists anywhere (the styling sample would be
/// empty), else the per-bucket walks against the sample's robust center
/// and spread.
pub open spec fn plan_segments_spec(
    m: Seq<LevelModel>,
    ks: Seq<Kline>,
    now: u64,
    time_step: u64,
) -> Seq<SegModel>
    recommends
        ks.len() > 0,
{
    let sizes = sizes_of(m);
    if sizes.len() == 0 {
        Seq::empty()
    } else {
        let c2 = median_twice_spec(as_ints(sizes));
        let mad4 = mad_quad_spec(as_ints(sizes), c2);
        let ax = axis_spec_of(ks, false);
        segments_of(
            m,
            ks[0].ts,
            ks[ks.len() - 1].ts,
            ax.price_lo2 as int,
            ax.price_hi2 as int,
            c2,
            mad4,
            now,
            time_step,
        )
    }
}

/// The wall rule is strict: a segment whose deviation equals the wall
/// threshold exactly is styled at baseline width, not as a wall; only a
/// strictly greater deviation fires the wall style.
pub proof fn lemma_wall_threshold_strict(mag: int, c2: int, mad4: int)
    requires
        mad4 > 0,
        4 * mag - 2 * c2 == (WALL_THRESHOLD as int) * mad4,
    ensures
        interior_style_spec(mag, c2, mad4).0 == BASE_WIDTH,
        trailing_style_spec(mag, c2, mad4).0 == BASE_WIDTH,
{
}

/// Interior segment styling, executable.
fn interior_style(mag: i64, c2: i64, mad4: i64) -> (r: (u32, Ratio))
    requires
        0 <= mag <= MAX_UNIT,
        0 <= c2 <= 2 * MAX_UNIT,
        0 <= mad4 <= 8 * MAX_UNIT,
    ensures
        r == interior_style_spec(mag as int, c2 as int, mad4 as int),
        r.1.wf(),
{
    let tn = 4 * mag - 2 * c2;
    if mad4 > 0 && tn > WALL_THRESHOLD * mad4 {
        (WALL_WIDTH, Ratio { num: 1, den: 1 })
    } else if mad4 <= 0 {
        (BASE_WIDTH, Ratio { num: 3, den: 100 })
    } else if 10 * tn <= mad4 {
        (BASE_WIDTH, Ratio { num: 3, den: 100 })
    } else if tn >= mad4 {
        (BASE_WIDTH, Ratio { num: 3, den: 10 })
    } else {
        (BASE_WIDTH, Ratio { num: 3 * tn, den: 10 * mad4 })
    }
}

/// Trailing segment styling, executable.
fn trailing_style(mag: i64, c2: i64, mad4: i64) -> (r: (u32, Ratio))
    requires
        0 <= mag <= MAX_UNIT,
        0 <= c2 <= 2 * MAX_UNIT,
        0 <= mad4 <= 8 * MAX_UNIT,
    ensures
        r == trailing_style_spec(mag as int, c2 as int, mad4 as int),
        r.1.wf(),
{
    let tn = 4 * mag - 2 * c2;
    if mad4 > 0 && tn > WALL_THRESHOLD * mad4 {
        (WALL_WIDTH, Ratio { num: 1, den: 1 })
    } else if mad4 <= 0 {
        (BASE_WIDTH, Ratio { num: 3, den: 10 })
    } else if tn <= mad4 {
        (BASE_WIDTH, Ratio { num: 3, den: 10 })
    } else {
        (BASE_WIDTH, Ratio { num: 3 * mad4, den: 10 * tn })
    }
}

/// Walks one bucket's series into its styled segments.
#[verifier::loop_isolation(false)]
#[verifier::rlimit(60)]
fn level_walk(
    series: &Vec<TimeEntry>,
    price: i64,
    t_min: u64,
    t_max: u64,
    c2: i64,
    mad4: i64,
    now: u64,
    time_step: u64,
) -> (r: Vec<HeatSegment>)
    requires
        series_sizes_ok(series@),
        0 <= c2 <= 2 * MAX_UNIT,
        0 <= mad4 <= 8 * MAX_UNIT,
        time_step >= 1,
    ensures
        seg_models(r@) == walk_segments(
            series@,
            0,
            Seq::empty(),
            0i64,
            price,
            t_min,
            t_max,
            c2 as int,
            mad4 as int,
            now,
            time_step,
        ),
{
    let ghost total = walk_segments(series@, 0, Seq::empty(), 0i64, price, t_min, t_max,
        c2 as int, mad4 as int, now, time_step);
    let mut out: Vec<HeatSegment> = Vec::new();
    let mut pts: Vec<SegPoint> = Vec::new();
    let mut last_sz: i64 = 0;
    let mut i: usize = 0;
    while i < series.len()
        invariant
            i <= series@.len(),
            in_unit_range(last_sz as int),
            seg_models(out@) + walk_segments(series@, i as int, pts@, last_sz, price, t_min,
                t_max, c2 as int, mad4 as int, now, time_step) == total,
        decreases series@.len() - i,
    {
        let e = series[i];
        assert(in_unit_range(e.size as int));
        if e.time < t_min || e.time > t_max {
            i = i + 1;
            continue;
        }
        pts.push(SegPoint { time: e.time, price });
        if pts.len() >= 2 {
            let la = if last_sz < 0 { -last_sz } else { last_sz };
            let ca = if e.size < 0 { -e.size } else { e.size };
            let mag = if la >= ca { la } else { ca };
            assert(mag as int == max_i(abs_i(last_sz as int), abs_i(e.size as int)));
            let style = interior_style(mag, c2, mad4);
            let ghost pts1 = pts@;
            let seg = HeatSegment { points: pts, width: style.0, alpha: style.1 };
            pts = Vec::new();
            assert(seg.model() == (pts1, style.0, style.1));
            out.push(seg);
            assert(seg_models(out@) =~= seg_models(out@.drop_last()).push((pts1, style.0,
                style.1)));
            if e.size != 0 {
                let t0 = if e.time >= time_step {
                    e.time - time_step
                } else {
                    0
                };
                assert(t0 == step_back(e.time, time_step));
                pts.push(SegPoint { time: t0, price });
                assert(pts@ =~= seq![SegPoint { time: step_back(e.time, time_step), price }]);
            } else {
                assert(pts@ =~= Seq::<SegPoint>::empty());
            }
        }
        last_sz = e.size;
        i = i + 1;
    }
    if pts.len() > 0 {
        let la = if last_sz < 0 { -last_sz } else { last_sz };
        assert(la as int == abs_i(last_sz as int));
        let style = trailing_style(la, c2, mad4);
        pts.push(SegPoint { time: now, price });
        let ghost fin = pts@;
        let seg = HeatSegment { points: pts, width: style.0, alpha: style.1 };
        out.push(seg);
        assert(seg_models(out@) =~= seg_models(out@.drop_last()).push((fin, style.0, style.1)));
    }
    assert(seg_models(out@) =~= total);
    out
}

/// Composes one draw pass from store snapshots, pure in its inputs.
///
/// An empty candle series yields an empty plan (nothing to draw, not an
/// error). Otherwise the axes span the candle times and the expanded
/// candle price range, every candle becomes one glyph in time order, and
/// every price bucket strictly inside the price range contributes its
/// walked segments, styled against the global robust center and spread of
/// all non-zero intensities. `now` closes any still-open trailing
/// segment; `time_step` is the bucket width used to reseed contiguous
/// runs.
#[verifier::loop_isolation(false)]
#[verifier::rlimit(100)]
pub fn compose(
    heatmap: &HeatmapStore,
    klines: &KlineStore,
    width: u32,
    height: u32,
    dark: bool,
    now: u64,
    time_step: u64,
) -> (r: DrawPlan)
    requires
        heatmap.wf(),
        klines.wf(),
        time_step >= 1,
    ensures
        r.width == width,
        r.height == height,
        r.dark == dark,
        r.heat_color == heat_color_spec(dark),
        r.up_color == up_color_spec(),
        r.down_color == down_color_spec(),
        klines.entries@.len() == 0 ==> r.is_empty(),
        klines.entries@.len() > 0 ==> r.axes == Some(axis_spec_of(klines.entries@, dark)),
        klines.entries@.len() > 0 ==> r.candles@ == klines.entries@.map_values(
            |k: Kline| candle_of(k),
        ),
        klines.entries@.len() > 0 ==> seg_models(r.segments@) == plan_segments_spec(
            heatmap.model(),
            klines.entries@,
            now,
            time_step,
        ),
{
    let heat_color = if dark {
        Color { r: 0, g: 172, b: 193 }
    } else {
        Color { r: 77, g: 208, b: 225 }
    };
    let up_color = Color { r: 81, g: 205, b: 160 };
    let down_color = Color { r: 192, g: 80, b: 77 };
    let n = klines.entries.len();
    if n == 0 {
        return DrawPlan {
            width,
            height,
            dark,
            axes: None,
            segments: Vec::new(),
            candles: Vec::new(),
            heat_color,
            up_color,
            down_color,
        };
    }
    let ghost ks = klines.entries@;

    // Axis ranges.
    let t_min = klines.entries[0].ts;
    let t_max = klines.entries[n - 1].ts;
    let mut minlo = klines.entries[0].lo;
    let mut maxhi = klines.entries[0].hi;
    let mut i: usize = 1;
    assert(ks.take(1).drop_last() =~= ks.take(0));
    assert(minlo as int == min_lo_spec(ks.take(1)));
    assert(maxhi as int == max_hi_spec(ks.take(1)));
    while i < n
        invariant
            1 <= i <= ks.len(),
            minlo as int == min_lo_spec(ks.take(i as int)),
            maxhi as int == max_hi_spec(ks.take(i as int)),
            in_unit_range(minlo as int),
            in_unit_range(maxhi as int),
        decreases ks.len() - i,
    {
        let k = klines.entries[i];
        assert(klines.entries@[i as int].wf());
        proof {
            assert(ks.take(i + 1).drop_last() =~= ks.take(i as int));
            assert(ks.take(i + 1).last() == ks[i as int]);
        }
        if k.lo < minlo {
            minlo = k.lo;
        }
        if k.hi > maxhi {
            maxhi = k.hi;
        }
        i = i + 1;
    }
    assert(ks.take(n as int) =~= ks);
    let span = maxhi - minlo;
    let lo2 = 2 * minlo - span;
    let hi2 = 2 * maxhi + span;
    let axes = AxisSpec {
        time_min: t_min,
        time_max: t_max,
        price_lo2: lo2,
        price_hi2: hi2,
        axis_color: if dark {
            Color { r: 158, g: 158, b: 158 }
        } else {
            Color { r: 0, g: 0, b: 0 }
        },
        x_labels: 8,
        y_labels: 10,
    };
    assert(axes == axis_spec_of(ks, dark));

    // Candle glyphs, one per candle in time order.
    let mut candles: Vec<CandleGlyph> = Vec::new();
    let mut ci: usize = 0;
    while ci < n
        invariant
            ci <= ks.len(),
            candles@ =~= ks.take(ci as int).map_values(|k: Kline| candle_of(k)),
        decreases ks.len() - ci,
    {
        let k = klines.entries[ci];
        candles.push(CandleGlyph {
            time: k.ts,
            open: k.op,
            high: k.hi,
            low: k.lo,
            close: k.cl,
            rising: k.cl >= k.op,
        });
        assert(candles@ =~= ks.take(ci + 1).map_values(|k: Kline| candle_of(k)));
        ci = ci + 1;
    }
    assert(candles@ =~= ks.map_values(|k: Kline| candle_of(k)));

    // The global intensity sample: every non-zero size, absolute.
    let ghost m = heatmap.model();
    let mut sizes: Vec<i64> = Vec::new();
    let mut li: usize = 0;
    while li < heatmap.levels.len()
        invariant
            li <= m.len(),
            sizes@ =~= sizes_of(m.take(li as int)),
            forall|k: int| 0 <= k < sizes@.len() ==> 0 <= #[trigger] sizes@[k] <= MAX_UNIT,
        decreases m.len() - li,
    {
        let sn = heatmap.levels[li].series.len();
        let ghost series = m[li as int].1;
        assert(series == heatmap.levels@[li as int].series@);
        assert(crate::heatmap::level_wf(m[li as int]));
        let mut ei: usize = 0;
        while ei < sn
            invariant
                ei <= sn,
                sn == series.len(),
                sizes@ =~= sizes_of(m.take(li as int)) + sizes_of_series(series.take(ei as int)),
                forall|k: int| 0 <= k < sizes@.len() ==> 0 <= #[trigger] sizes@[k] <= MAX_UNIT,
            decreases sn - ei,
        {
            let e = heatmap.levels[li].series[ei];
            assert(e == series[ei as int]);
            assert(in_unit_range(e.size as int));
            proof {
                assert(series.take(ei + 1).drop_last() =~= series.take(ei as int));
                assert(series.take(ei + 1).last() == series[ei as int]);
            }
            if e.size != 0 {
                let a = if e.size < 0 { -e.size } else { e.size };
                assert(a as int == abs_i(e.size as int));
                sizes.push(a);
            }
            assert(sizes@ =~= sizes_of(m.take(li as int)) + sizes_of_series(series.take(ei + 1)));
            ei = ei + 1;
        }
        proof {
            assert(series.take(sn as int) =~= series);
            assert(m.take(li + 1).drop_last() =~= m.take(li as int));
            assert(m.take(li + 1).last() == m[li as int]);
        }
        assert(sizes@ =~= sizes_of(m.take(li + 1)));
        li = li + 1;
    }
    assert(m.take(m.len() as int) =~= m);
    assert(sizes@ =~= sizes_of(m));

    // Heatmap segments for every bucket strictly inside the price axis.
    let mut segments: Vec<HeatSegment> = Vec::new();
    if sizes.len() > 0 {
        let center = median(&sizes);
        let spread = median_absolute_deviation(&sizes, center);
        proof {
            lemma_median_twice_bounds(as_ints(sizes@), 0, MAX_UNIT as int);
            lemma_median_twice_bounds(
                crate::stats::deviations_twice(as_ints(sizes@), center.num as int),
                0,
                4 * MAX_UNIT as int,
            );
        }
        let c2 = center.num;
        let mad4 = spread.num;
        let ghost c2s = c2 as int;
        let ghost mad4s = mad4 as int;
        let mut li2: usize = 0;
        while li2 < heatmap.levels.len()
            invariant
                li2 <= m.len(),
                0 <= c2 <= 2 * MAX_UNIT,
                0 <= mad4 <= 8 * MAX_UNIT,
                seg_models(segments@) + segments_of(m.skip(li2 as int), t_min, t_max, lo2 as int,
                    hi2 as int, c2s, mad4s, now, time_step) == segments_of(m, t_min, t_max,
                    lo2 as int, hi2 as int, c2s, mad4s, now, time_step),
            decreases m.len() - li2,
        {
            let price = heatmap.levels[li2].price;
            let ghost rest = m.skip(li2 as int);
            proof {
                assert(rest[0] == m[li2 as int]);
                assert(rest.drop_first() =~= m.skip(li2 + 1));
                assert(crate::heatmap::level_wf(m[li2 as int]));
            }
            if lo2 < 2 * price && 2 * price < hi2 {
                let mut lw = level_walk(&heatmap.levels[li2].series, price, t_min, t_max, c2,
                    mad4, now, time_step);
                proof {
                    assert(heatmap.levels@[li2 as int].series@ == m[li2 as int].1);
                }
                let ghost pre = segments@;
                let ghost lwm = lw@;
                segments.append(&mut lw);
                assert(seg_models(segments@) =~= seg_models(pre) + seg_models(lwm)) by {
                    assert(segments@ == pre + lwm);
                    assert forall|j: int| 0 <= j < segments@.len()
                        implies seg_models(segments@)[j] == (seg_models(pre) + seg_models(
                        lwm))[j] by {
                        if j < pre.len() {
                            assert(segments@[j] == pre[j]);
                        } else {
                            assert(segments@[j] == lwm[j - pre.len()]);
                        }
                    }
                }
            } else {
                assert(level_segments(m[li2 as int], t_min, t_max, lo2 as int, hi2 as int, c2s,
                    mad4s, now, time_step) =~= Seq::<SegModel>::empty());
            }
            li2 = li2 + 1;
        }
        assert(m.skip(m.len() as int) =~= Seq::<LevelModel>::empty());
        assert(seg_models(segments@) == plan_segments_spec(m, ks, now, time_step));
    } else {
        assert(seg_models(segments@) =~= plan_segments_spec(m, ks, now, time_step));
    }

    DrawPlan {
        width,
        height,
        dark,
        axes: Some(axes),
        segments,
        candles,
        heat_color,
        up_color,
        down_color,
    }
}

} // verus!
