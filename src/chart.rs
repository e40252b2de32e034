//! One frame of the chart: the price range of the candles, both axes, and
//! the candles placed between them.
use vstd::prelude::*;
use crate::axis::{AxisRender, YAxisRenderer};
use crate::candle::Candle;
use crate::fixed::{floor_div_i128, FixedPrice};
use crate::geometry::Primitive;
use crate::layout::{compute_layout, layout_plan};
use crate::render::{candle_drawable, PlotArea};
use crate::ticks::{tick_set, MAX_PRICE_SCALE, PRICE_UNITS_LIMIT};
use crate::xaxis::XAxisRenderer;

verus! {

/// Rows of the plot are moved down by this many pixels.
pub const FRAME_OFFSET: u32 = 30;

/// Pixels of the frame's height kept below the plot for the time axis.
pub const FRAME_BOTTOM_MARGIN: u32 = 140;

/// Pixels kept free between the last candle and the price axis.
pub const CANDLE_AXIS_GAP: u32 = 10;

/// The higher of a candle's high and low.
pub open spec fn top_of(c: Candle) -> FixedPrice {
    if c.high.units >= c.low.units {
        c.high
    } else {
        c.low
    }
}

/// The lower of a candle's high and low.
pub open spec fn bottom_of(c: Candle) -> FixedPrice {
    if c.high.units <= c.low.units {
        c.high
    } else {
        c.low
    }
}

/// The highest high (or low) of the candles; the first of equal ones.
pub open spec fn series_high(cs: Seq<Candle>) -> FixedPrice
    decreases cs.len(),
{
    if cs.len() <= 1 {
        top_of(cs[0])
    } else {
        let m = series_high(cs.drop_last());
        let t = top_of(cs.last());
        if t.units > m.units {
            t
        } else {
            m
        }
    }
}

/// The lowest low (or high) of the candles; the first of equal ones.
pub open spec fn series_low(cs: Seq<Candle>) -> FixedPrice
    decreases cs.len(),
{
    if cs.len() <= 1 {
        bottom_of(cs[0])
    } else {
        let m = series_low(cs.drop_last());
        let b = bottom_of(cs.last());
        if b.units < m.units {
            b
        } else {
            m
        }
    }
}

/// Candles of one precision `decimals`, prices and times within the
/// engine's limits.
pub open spec fn series_valid(cs: Seq<Candle>, decimals: nat) -> bool {
    &&& decimals <= MAX_PRICE_SCALE
    &&& forall|k: int| 0 <= k < cs.len() ==> #[trigger] candle_in_limits(cs[k], decimals)
}

pub open spec fn price_in_limits(p: FixedPrice, decimals: nat) -> bool {
    p.scale == decimals && -PRICE_UNITS_LIMIT <= p.units <= PRICE_UNITS_LIMIT
}

pub open spec fn candle_in_limits(c: Candle, decimals: nat) -> bool {
    &&& price_in_limits(c.open, decimals)
    &&& price_in_limits(c.high, decimals)
    &&& price_in_limits(c.low, decimals)
    &&& price_in_limits(c.close, decimals)
    &&& c.open_time <= i64::MAX - 86_400_000
    &&& c.close_time <= i64::MAX - 86_400_000
}

/// The lowest and highest price the candles reach; `None` for no candles.
pub fn price_bounds(candles: &Vec<Candle>) -> (r: Option<(FixedPrice, FixedPrice)>)
    ensures
        candles@.len() == 0 ==> r.is_none(),
        candles@.len() > 0 ==> r == Some((series_low(candles@), series_high(candles@))),
{
    if candles.len() == 0 {
        return None;
    }
    let c0 = candles[0];
    let mut lo = if c0.high.units <= c0.low.units {
        c0.high
    } else {
        c0.low
    };
    let mut hi = if c0.high.units >= c0.low.units {
        c0.high
    } else {
        c0.low
    };
    let mut i: usize = 1;
    proof {
        assert(candles@.take(1).len() == 1);
        assert(candles@.take(1)[0] == candles@[0]);
    }
    while i < candles.len()
        invariant
            1 <= i <= candles@.len(),
            lo == series_low(candles@.take(i as int)),
            hi == series_high(candles@.take(i as int)),
        decreases candles@.len() - i,
    {
        let c = candles[i];
        let b = if c.high.units <= c.low.units {
            c.high
        } else {
            c.low
        };
        let t = if c.high.units >= c.low.units {
            c.high
        } else {
            c.low
        };
        proof {
            let next = candles@.take(i + 1);
            assert(next.drop_last() == candles@.take(i as int));
            assert(next.last() == candles@[i as int]);
        }
        if b.units < lo.units {
            lo = b;
        }
        if t.units > hi.units {
            hi = t;
        }
        i = i + 1;
    }
    proof {
        assert(candles@.take(candles@.len() as int) == candles@);
    }
    Some((lo, hi))
}

proof fn lemma_bounds_in_limits(cs: Seq<Candle>, decimals: nat)
    requires
        cs.len() >= 1,
        series_valid(cs, decimals),
    ensures
        price_in_limits(series_low(cs), decimals),
        price_in_limits(series_high(cs), decimals),
        series_low(cs).units <= series_high(cs).units,
        forall|k: int| 0 <= k < cs.len() ==> series_low(cs).units <= (#[trigger] cs[k]).low.units
            && series_low(cs).units <= cs[k].high.units,
        forall|k: int| 0 <= k < cs.len() ==> series_high(cs).units >= (#[trigger] cs[k]).low.units
            && series_high(cs).units >= cs[k].high.units,
    decreases cs.len(),
{
    assert(candle_in_limits(cs[0], decimals));
    if cs.len() > 1 {
        let rest = cs.drop_last();
        assert(series_valid(rest, decimals)) by {
            assert forall|k: int| 0 <= k < rest.len() implies #[trigger] candle_in_limits(rest[k], decimals) by {
                assert(candle_in_limits(cs[k], decimals));
            }
        }
        lemma_bounds_in_limits(rest, decimals);
        assert(candle_in_limits(cs[cs.len() - 1], decimals));
        assert forall|k: int| 0 <= k < cs.len() implies series_low(cs).units <= (#[trigger] cs[k]).low.units
            && series_low(cs).units <= cs[k].high.units && series_high(cs).units >= cs[k].low.units
            && series_high(cs).units >= cs[k].high.units by {
            if k < cs.len() - 1 {
                assert(cs[k] == rest[k]);
            }
        }
    }
}

/// A frame of the chart: the price axis, the time axis and the candles.
#[derive(Clone, Debug)]
pub struct Frame {
    pub price_axis: AxisRender,
    pub time_axis: Vec<Primitive>,
    pub candles: Vec<Primitive>,
}

/// The price axis of a frame `width` by `height` pixels over the candles'
/// price range.
pub open spec fn frame_price_axis(cs: Seq<Candle>, decimals: nat, width: nat, height: nat) -> YAxisRenderer {
    YAxisRenderer {
        screen_width: width as u32,
        screen_height: plot_height(height) as u32,
        display_min: series_low(cs),
        display_max: series_high(cs),
        offset: FRAME_OFFSET as i32,
        decimal_places: decimals as u32,
    }
}

pub open spec fn plot_height(height: nat) -> nat {
    if height < FRAME_BOTTOM_MARGIN {
        0
    } else {
        (height - FRAME_BOTTOM_MARGIN) as nat
    }
}

/// Whole pixels left of the price axis, less the gap before it.
pub open spec fn candle_width_left(width: nat, axis: AxisRender) -> nat {
    let left = (5 * width - axis.axis_width.num) / 5 - CANDLE_AXIS_GAP;
    if left < 0 {
        0
    } else if left > u32::MAX {
        u32::MAX as nat
    } else {
        left as nat
    }
}

/// What `render_frame` yields for a series: the price axis over the
/// candles' range, the time axis left of it, and the candles placed in the
/// room left of the price axis, over the tick-aligned display range.
pub open spec fn frame_matches(cs: Seq<Candle>, decimals: nat, width: nat, height: nat, timeframe: String, f: Frame) -> bool {
    let y = frame_price_axis(cs, decimals, width, height);
    let room = candle_width_left(width, f.price_axis);
    let x = XAxisRenderer {
        screen_width: room as u32,
        screen_height: plot_height(height) as u32,
        start_time: cs[0].open_time,
        end_time: cs.last().close_time,
        timeframe,
    };
    let area = PlotArea {
        left: 0,
        top: FRAME_OFFSET,
        height: plot_height(height) as u32,
        display_min: f.price_axis.display_min,
        display_max: f.price_axis.display_max,
    };
    &&& y.rendered(f.price_axis)
    &&& x.rendered(f.time_axis@)
    &&& f.candles@ == area.chart_primitives(layout_plan(cs.len(), room), cs)
}

/// Lays out one frame `width` by `height` pixels for a series of candles at
/// `decimals` decimals under `timeframe`: the price axis over the candles'
/// range (its ticks set the display range), the time axis from the first
/// open to the last close left of the price axis, and the candles placed by
/// `compute_layout` in the room left of the price axis. `None` for no
/// candles.
pub fn render_frame(candles: &Vec<Candle>, decimals: u32, width: u32, height: u32, timeframe: &String) -> (r: Option<Frame>)
    requires
        series_valid(candles@, decimals as nat),
    ensures
        candles@.len() == 0 ==> r.is_none(),
        candles@.len() > 0 ==> r.is_some(),
        r.is_some() ==> frame_matches(candles@, decimals as nat, width as nat, height as nat, *timeframe, r.unwrap()),
{
    let n = candles.len();
    if n == 0 {
        return None;
    }
    let (lo, hi) = match price_bounds(candles) {
        Some(b) => b,
        None => {
            return None;
        },
    };
    proof {
        lemma_bounds_in_limits(candles@, decimals as nat);
    }
    let ph: u32 = if height < FRAME_BOTTOM_MARGIN {
        0
    } else {
        height - FRAME_BOTTOM_MARGIN
    };
    let y = YAxisRenderer {
        screen_width: width,
        screen_height: ph,
        display_min: lo,
        display_max: hi,
        offset: FRAME_OFFSET as i32,
        decimal_places: decimals,
    };
    let axis = y.render_axis();
    let left_px: i128 = floor_div_i128(5 * (width as i128) - axis.axis_width.num, 5) - CANDLE_AXIS_GAP as i128;
    let room: u32 = if left_px < 0 {
        0
    } else if left_px > u32::MAX as i128 {
        u32::MAX
    } else {
        left_px as u32
    };
    let x = XAxisRenderer {
        screen_width: room,
        screen_height: ph,
        start_time: candles[0].open_time,
        end_time: candles[n - 1].close_time,
        timeframe: timeframe.clone(),
    };
    proof {
        assert(candle_in_limits(candles@[0], decimals as nat));
        assert(candle_in_limits(candles@[n - 1], decimals as nat));
    }
    let time_axis = x.render_axis();
    let plan = compute_layout(n, room);
    let area = PlotArea { left: 0, top: FRAME_OFFSET, height: ph, display_min: axis.display_min, display_max: axis.display_max };
    proof {
        let t = tick_set(lo, hi);
        assert(t.units_of(t.count - 1) > t.start.units) by (nonlinear_arith)
            requires
                t.count >= 2,
                t.step.units > 0,
        ;
        assert(axis.display_min.units < axis.display_max.units);
        assert forall|k: int| 0 <= k < candles@.len() implies candle_drawable(#[trigger] candles@[k], axis.display_min, axis.display_max) by {
            assert(candle_in_limits(candles@[k], decimals as nat));
        }
    }
    let drawn = area.draw_chart(&plan, candles);
    Some(Frame { price_axis: axis, time_axis, candles: drawn })
}

} // verus!
