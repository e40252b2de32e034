//! Candle geometry: wicks and bodies placed by the layout plan and the
//! price axis.
use vstd::prelude::*;
use crate::axis::{price_to_pixel, row_den, row_num};
use crate::candle::Candle;
use crate::fixed::{pow10, FixedPrice};
use crate::geometry::{Point, Primitive, Px, Role};
use crate::layout::{compute_layout, layout_plan, LayoutPlan};

verus! {

/// A price of a candle against a display range one to four decimals finer
/// or as fine, and a range that is not empty.
pub open spec fn price_drawable(p: FixedPrice, lo: FixedPrice, hi: FixedPrice) -> bool {
    &&& lo.scale == hi.scale
    &&& p.scale <= lo.scale <= p.scale + 3
    &&& lo.units < hi.units
}

pub open spec fn candle_drawable(c: Candle, lo: FixedPrice, hi: FixedPrice) -> bool {
    &&& c.wf()
    &&& price_drawable(c.open, lo, hi)
    &&& price_drawable(c.high, lo, hi)
    &&& price_drawable(c.low, lo, hi)
    &&& price_drawable(c.close, lo, hi)
}

/// The plotting area: its top-left corner and its height, in whole pixels,
/// and the price range it shows.
#[derive(Clone, Copy, Debug, PartialEq, Eq, Structural)]
pub struct PlotArea {
    pub left: u32,
    pub top: u32,
    pub height: u32,
    pub display_min: FixedPrice,
    pub display_max: FixedPrice,
}

/// Whether candles are drawn as single lines: in ultra-compact mode, or
/// where a candle would be under half a pixel wide.
pub open spec fn line_mode(plan: LayoutPlan) -> bool {
    plan.ultra_compact || 2 * plan.candle_width.num < plan.candle_width.den
}

impl PlotArea {
    /// The row of a price, in the area.
    pub open spec fn row(self, p: FixedPrice) -> Px {
        let den = row_den(p, self.display_min, self.display_max);
        Px {
            num: (row_num(p, self.display_min, self.display_max, self.height as int) + self.top * den) as i128,
            den: den as i128,
        }
    }

    /// The left edge of candle `i`: one gap, then `i` candles and gaps.
    pub open spec fn candle_x(self, plan: LayoutPlan, i: int) -> Px {
        let t = plan.candle_width.den;
        Px {
            num: (self.left * t + plan.candle_spacing.num + i * (plan.candle_width.num
                + plan.candle_spacing.num)) as i128,
            den: t,
        }
    }

    /// The primitives of candle `c` at position `i`: a single line in line
    /// mode; otherwise a wick through the candle's middle from high to low,
    /// and a body from open to close at least a pixel tall.
    pub open spec fn candle_primitives(self, plan: LayoutPlan, c: Candle, i: int) -> Seq<Primitive> {
        let x = self.candle_x(plan, i);
        let high = self.row(c.high);
        let low = self.row(c.low);
        let role = c.role();
        if line_mode(plan) {
            seq![Primitive::Line { from: Point { x, y: high }, to: Point { x, y: low }, role: Role::CandleWick(role) }]
        } else {
            let mid = Px { num: (2 * x.num + plan.candle_width.num) as i128, den: (2 * x.den) as i128 };
            let open = self.row(c.open);
            let close = self.row(c.close);
            let top = if c.open.units > c.close.units {
                open
            } else {
                close
            };
            let bottom = if c.open.units > c.close.units {
                close
            } else {
                open
            };
            let span = bottom.num - top.num;
            let height = Px {
                num: (if span < top.den {
                    top.den as int
                } else {
                    span
                }) as i128,
                den: top.den,
            };
            seq![
                Primitive::Line { from: Point { x: mid, y: high }, to: Point { x: mid, y: low }, role: Role::CandleWick(role) },
                Primitive::Rectangle { origin: Point { x, y: top }, width: plan.candle_width, height, role: Role::CandleBody(role) },
            ]
        }
    }

    /// The primitives of all candles, in order.
    pub open spec fn chart_primitives(self, plan: LayoutPlan, cs: Seq<Candle>) -> Seq<Primitive>
        decreases cs.len(),
    {
        if cs.len() == 0 {
            Seq::empty()
        } else {
            self.chart_primitives(plan, cs.drop_last()) + self.candle_primitives(plan, cs.last(), cs.len() - 1)
        }
    }

    /// The wick and body of candle `c` at position `i` (a single line in line
    /// mode), placed by `plan`.
    pub fn draw_candle(&self, plan: &LayoutPlan, c: &Candle, i: usize) -> (r: Vec<Primitive>)
        requires
            plan.wf(),
            candle_drawable(*c, self.display_min, self.display_max),
        ensures
            r@ == self.candle_primitives(*plan, *c, i as int),
    {
        let t = plan.candle_width.den;
        let w = plan.candle_width.num;
        let sp = plan.candle_spacing.num;
        proof {
            assert(0 <= (self.left as int) * t <= 4_294_967_295 * 100_000_000_000_000_000_000_000_000) by (nonlinear_arith)
                requires
                    0 <= self.left <= 4_294_967_295,
                    1 <= t <= 100_000_000_000_000_000_000_000_000,
            ;
            assert(0 <= (i as int) * (w + sp) <= 18_446_744_073_709_551_615 * (2 * 4_294_967_295 * 1_000_000)) by (nonlinear_arith)
                requires
                    0 <= i <= 18_446_744_073_709_551_615,
                    0 <= w + sp <= 2 * 4_294_967_295 * 1_000_000,
            ;
        }
        let x = Px { num: (self.left as i128) * t + sp + (i as i128) * (w + sp), den: t };
        let high = self.row_exec(c.high);
        let low = self.row_exec(c.low);
        let role = c.get_color();
        let mut out: Vec<Primitive> = Vec::new();
        if plan.ultra_compact || 2 * w < t {
            out.push(Primitive::Line { from: Point { x, y: high }, to: Point { x, y: low }, role: Role::CandleWick(role) });
            proof {
                assert(out@ =~= self.candle_primitives(*plan, *c, i as int));
            }
            return out;
        }
        let mid = Px { num: 2 * x.num + w, den: 2 * t };
        let open = self.row_exec(c.open);
        let close = self.row_exec(c.close);
        let (top, bottom) = if c.open.units > c.close.units {
            (open, close)
        } else {
            (close, open)
        };
        let span = bottom.num - top.num;
        let height = Px {
            num: if span < top.den {
                top.den
            } else {
                span
            },
            den: top.den,
        };
        out.push(Primitive::Line { from: Point { x: mid, y: high }, to: Point { x: mid, y: low }, role: Role::CandleWick(role) });
        out.push(Primitive::Rectangle { origin: Point { x, y: top }, width: plan.candle_width, height, role: Role::CandleBody(role) });
        proof {
            assert(out@ =~= self.candle_primitives(*plan, *c, i as int));
        }
        out
    }

    /// The primitives of all candles, left to right.
    pub fn draw_chart(&self, plan: &LayoutPlan, candles: &Vec<Candle>) -> (r: Vec<Primitive>)
        requires
            plan.wf(),
            forall|k: int| 0 <= k < candles@.len() ==> candle_drawable(#[trigger] candles@[k], self.display_min, self.display_max),
        ensures
            r@ == self.chart_primitives(*plan, candles@),
    {
        let mut out: Vec<Primitive> = Vec::new();
        let mut i: usize = 0;
        while i < candles.len()
            invariant
                plan.wf(),
                forall|k: int| 0 <= k < candles@.len() ==> candle_drawable(#[trigger] candles@[k], self.display_min, self.display_max),
                i <= candles@.len(),
                out@ == self.chart_primitives(*plan, candles@.take(i as int)),
            decreases candles@.len() - i,
        {
            let mut more = self.draw_candle(plan, &candles[i], i);
            proof {
                let next = candles@.take(i + 1);
                assert(next.drop_last() == candles@.take(i as int));
                assert(next.last() == candles@[i as int]);
            }
            out.append(&mut more);
            i = i + 1;
        }
        proof {
            assert(candles@.take(candles@.len() as int) == candles@);
        }
        out
    }

    fn row_exec(&self, p: FixedPrice) -> (y: Px)
        requires
            price_drawable(p, self.display_min, self.display_max),
        ensures
            y == self.row(p),
            y.den == self.display_max.units - self.display_min.units,
            -10_000_000_000_000_000_000_000_000_000_000_000 <= y.num <= 10_000_000_000_000_000_000_000_000_000_000_000,
    {
        proof {
            assert(pow10(0) == 1);
            let s = self.display_min.scale as nat;
            assert(self.display_min.at(s) == self.display_min.units);
            assert(self.display_max.at(s) == self.display_max.units);
            crate::fixed::lemma_pow10_monotone((s - p.scale) as nat, 3);
            crate::fixed::lemma_pow10_positive((s - p.scale) as nat);
            crate::fixed::lemma_pow10_30();
            let q = pow10((s - p.scale) as nat);
            assert(-9_223_372_036_854_775_808 * 1000 <= p.units * q <= 9_223_372_036_854_775_807 * 1000)
                by (nonlinear_arith)
                requires
                    -9_223_372_036_854_775_808 <= p.units <= 9_223_372_036_854_775_807,
                    1 <= q <= 1000,
            ;
        }
        let y = price_to_pixel(p, self.display_min, self.display_max, self.height);
        proof {
            let d = self.display_max.units - p.at(self.display_min.scale as nat);
            assert(-100_000_000_000_000_000_000_000_000_000_000 <= y.num <= 100_000_000_000_000_000_000_000_000_000_000)
                by (nonlinear_arith)
                requires
                    y.num == self.height * d,
                    -10_000_000_000_000_000_000_000 <= d <= 10_000_000_000_000_000_000_000,
                    0 <= self.height <= 4_294_967_295,
            ;
            assert(0 <= self.top * y.den <= 4_294_967_295 * 18_446_744_073_709_551_615) by (nonlinear_arith)
                requires
                    0 <= self.top <= 4_294_967_295,
                    0 < y.den <= 18_446_744_073_709_551_615,
            ;
        }
        Px { num: y.num + (self.top as i128) * y.den, den: y.den }
    }
}


/// Width, in pixels, kept left of the candles for the axis edge.
pub const Y_AXIS_WIDTH: u32 = 2;

/// Pixels kept free above the candles.
pub const MARGIN_TOP: u32 = 0;

/// Places a series' candles in a plot, given the room kept beside it.
#[derive(Clone, Copy, Debug, PartialEq, Eq, Structural)]
pub struct ChartRenderer {
    pub sidebar_width: u32,
    pub padding_left: u32,
    pub padding_right: u32,
}

impl ChartRenderer {
    /// A renderer that keeps no room beside the plot.
    pub fn new() -> (r: ChartRenderer)
        ensures
            r.sidebar_width == 0,
            r.padding_left == 0,
            r.padding_right == 0,
    {
        ChartRenderer { sidebar_width: 0, padding_left: 0, padding_right: 0 }
    }

    /// The width left for candles out of `width`: less the axis edge, the
    /// sidebar and the paddings, and never below zero.
    pub open spec fn candle_room(self, width: int) -> nat {
        let w = width - Y_AXIS_WIDTH - self.sidebar_width - self.padding_left - self.padding_right;
        if w < 0 {
            0
        } else {
            w as nat
        }
    }

    /// The plotting area for a frame `height` pixels tall over `[lo, hi]`.
    pub open spec fn area(self, height: nat, lo: FixedPrice, hi: FixedPrice) -> PlotArea {
        PlotArea {
            left: (Y_AXIS_WIDTH + self.padding_left) as u32,
            top: MARGIN_TOP,
            height: height as u32,
            display_min: lo,
            display_max: hi,
        }
    }

    /// The candles of a frame `width` by `height` pixels over the display
    /// range `[lo, hi]`, laid out by `compute_layout` in the room left for
    /// them. No candles, no primitives.
    pub fn draw(&self, candles: &Vec<Candle>, width: u32, height: u32, lo: FixedPrice, hi: FixedPrice) -> (r: Vec<Primitive>)
        requires
            self.padding_left <= u32::MAX - Y_AXIS_WIDTH,
            forall|k: int| 0 <= k < candles@.len() ==> candle_drawable(#[trigger] candles@[k], lo, hi),
        ensures
            candles@.len() == 0 ==> r@.len() == 0,
            candles@.len() > 0 ==> r@ == self.area(height as nat, lo, hi).chart_primitives(
                layout_plan(candles@.len(), self.candle_room(width as int)),
                candles@,
            ),
    {
        if candles.len() == 0 {
            return Vec::new();
        }
        let taken: u64 = Y_AXIS_WIDTH as u64 + self.sidebar_width as u64 + self.padding_left as u64
            + self.padding_right as u64;
        let room: u32 = if (width as u64) < taken {
            0
        } else {
            (width as u64 - taken) as u32
        };
        let plan = compute_layout(candles.len(), room);
        let area = PlotArea {
            left: Y_AXIS_WIDTH + self.padding_left,
            top: MARGIN_TOP,
            height,
            display_min: lo,
            display_max: hi,
        };
        area.draw_chart(&plan, candles)
    }
}

} // verus!
