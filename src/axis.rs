//! The price axis: price <-> pixel mapping, label widths and the axis'
//! draw primitives.
use vstd::prelude::*;
use vstd::string::StrSliceExecFns;
use vstd::arithmetic::div_mod::lemma_fundamental_div_mod_converse;
use crate::decimal::{decimal_text, price_text, MAX_DECIMAL_SCALE};
use crate::fixed::{
    floor_div_i128, lemma_pow10_30, lemma_pow10_monotone, lemma_pow10_positive, pow10, truncated,
    FixedPrice,
};
use crate::geometry::{Alignment, Point, Primitive, Px, Role};
use crate::ticks::{compute_ticks, tick_set, valid_bounds, TickSet};

verus! {

/// The scale at which a price and a display range are compared.
pub open spec fn axis_scale(price: FixedPrice, lo: FixedPrice) -> nat {
    if price.scale <= lo.scale {
        lo.scale as nat
    } else {
        price.scale as nat
    }
}

/// A display range `[lo, hi]` of one precision, not empty, and a price
/// within nine decimals of it.
pub open spec fn mappable(price: FixedPrice, lo: FixedPrice, hi: FixedPrice) -> bool {
    &&& lo.scale == hi.scale
    &&& price.scale <= lo.scale + 9
    &&& lo.scale <= price.scale + 9
    &&& lo.at(axis_scale(price, lo)) < hi.at(axis_scale(price, lo))
}

/// Numerator of the pixel row of `price`: `height * (hi - price)`, over the
/// denominator `hi - lo`. This is `height * (1 - (price - lo) / (hi - lo))`:
/// higher prices stand higher on the screen, at smaller rows.
pub open spec fn row_num(price: FixedPrice, lo: FixedPrice, hi: FixedPrice, height: int) -> int {
    let s = axis_scale(price, lo);
    height * (hi.at(s) - price.at(s))
}

pub open spec fn row_den(price: FixedPrice, lo: FixedPrice, hi: FixedPrice) -> int {
    let s = axis_scale(price, lo);
    hi.at(s) - lo.at(s)
}

proof fn lemma_at_bounds(p: FixedPrice, s: nat)
    requires
        p.scale <= s <= p.scale + 9,
    ensures
        -9_223_372_036_854_775_808_000_000_000 <= p.at(s) <= 9_223_372_036_854_775_807_000_000_000,
{
    let k = (s - p.scale) as nat;
    lemma_pow10_monotone(k, 9);
    lemma_pow10_positive(k);
    lemma_pow10_30();
    let u = p.units as int;
    let q = pow10(k);
    assert(-9_223_372_036_854_775_808_000_000_000 <= u * q <= 9_223_372_036_854_775_807_000_000_000)
        by (nonlinear_arith)
        requires
            -9_223_372_036_854_775_808 <= u <= 9_223_372_036_854_775_807,
            1 <= q <= 1_000_000_000,
    ;
}

/// The pixel row of `price` on an axis `height` pixels tall that shows
/// `[lo, hi]`: `height * (1 - (price - lo) / (hi - lo))`, exactly.
pub fn price_to_pixel(price: FixedPrice, lo: FixedPrice, hi: FixedPrice, height: u32) -> (y: Px)
    requires
        mappable(price, lo, hi),
    ensures
        y.num == row_num(price, lo, hi, height as int),
        y.den == row_den(price, lo, hi),
        y.wf(),
{
    let s = if price.scale <= lo.scale {
        lo.scale
    } else {
        price.scale
    };
    proof {
        lemma_at_bounds(price, s as nat);
        lemma_at_bounds(lo, s as nat);
        lemma_at_bounds(hi, s as nat);
    }
    let p = price.units_at(s);
    let l = lo.units_at(s);
    let h = hi.units_at(s);
    proof {
        let d = h - p;
        assert(-20_000_000_000_000_000_000_000_000_000 <= d <= 20_000_000_000_000_000_000_000_000_000);
        assert(-100_000_000_000_000_000_000_000_000_000_000_000_000 <= height * d
            <= 100_000_000_000_000_000_000_000_000_000_000_000_000) by (nonlinear_arith)
            requires
                -20_000_000_000_000_000_000_000_000_000 <= d <= 20_000_000_000_000_000_000_000_000_000,
                0 <= height <= 4_294_967_295,
        ;
    }
    Px { num: (height as i128) * (h - p), den: h - l }
}

/// The price at a pixel row, rounded down to the display range's precision:
/// `hi - y * (hi - lo) / height`, the inverse of `price_to_pixel`.
pub open spec fn price_at_row(y_num: int, y_den: int, lo: FixedPrice, hi: FixedPrice, height: int) -> int {
    (hi.units * y_den * height - y_num * (hi.units - lo.units)) / (y_den * height)
}

/// Products of a general row that stay within `i128`.
pub open spec fn row_fits(num: int, den: int, lo: FixedPrice, hi: FixedPrice, height: int) -> bool {
    &&& -10_000_000_000_000_000_000_000_000_000_000_000_000 <= hi.units * den * height
        <= 10_000_000_000_000_000_000_000_000_000_000_000_000
    &&& -10_000_000_000_000_000_000_000_000_000_000_000_000 <= num * (hi.units - lo.units)
        <= 10_000_000_000_000_000_000_000_000_000_000_000_000
    &&& den * height <= 10_000_000_000_000_000_000_000_000_000_000_000_000
}

/// Rows that `pixel_to_price` maps back: on the axis of a non-empty range
/// of one precision, and either over the range's own denominator (as
/// `price_to_pixel` gives every price no finer than the range) or with
/// products that fit `i128`.
pub open spec fn row_invertible(num: int, den: int, lo: FixedPrice, hi: FixedPrice, height: int) -> bool {
    &&& lo.scale == hi.scale
    &&& lo.units < hi.units
    &&& height >= 1
    &&& den >= 1
    &&& 0 <= num <= den * height
    &&& (den == hi.units - lo.units || row_fits(num, den, lo, hi, height))
}

/// The price shown at pixel row `y` of an axis `height` pixels tall over
/// `[lo, hi]`, rounded down to the range's precision. Rows run from `0`
/// (at `hi`) to `height` (at `lo`).
pub fn pixel_to_price(y: Px, lo: FixedPrice, hi: FixedPrice, height: u32) -> (p: FixedPrice)
    requires
        row_invertible(y.num as int, y.den as int, lo, hi, height as int),
    ensures
        p.scale == lo.scale,
        p.units == price_at_row(y.num as int, y.den as int, lo, hi, height as int),
        lo.units <= p.units <= hi.units,
{
    let d: i128 = (hi.units as i128) - (lo.units as i128);
    if y.den == d {
        // The range's own denominator cancels.
        let h: i128 = height as i128;
        proof {
            assert(0 <= y.num <= d * h);
            assert(y.num <= 18_446_744_073_709_551_615 * 4_294_967_295) by (nonlinear_arith)
                requires
                    y.num <= d * h,
                    0 < d <= 18_446_744_073_709_551_615,
                    0 < h <= 4_294_967_295,
            ;
            assert(-9_223_372_036_854_775_808 * 4_294_967_295 <= hi.units * h <= 9_223_372_036_854_775_807
                * 4_294_967_295) by (nonlinear_arith)
                requires
                    -9_223_372_036_854_775_808 <= hi.units <= 9_223_372_036_854_775_807,
                    0 < h <= 4_294_967_295,
            ;
        }
        let n: i128 = (hi.units as i128) * h - y.num;
        let q = floor_div_i128(n, h);
        proof {
            assert(lo.units * h <= n <= hi.units * h) by (nonlinear_arith)
                requires
                    n == hi.units * h - y.num,
                    0 <= y.num <= d * h,
                    d == hi.units - lo.units,
            ;
            lemma_quotient_between(n as int, h as int, lo.units as int, hi.units as int);
            assert(hi.units * d * h - y.num * d == d * n) by (nonlinear_arith)
                requires
                    n == hi.units * h - y.num,
            ;
            assert(y.den * h == d * h);
            lemma_div_factor(n as int, h as int, d as int);
        }
        return FixedPrice { units: q as i64, scale: lo.scale };
    }
    proof {
        let a = hi.units * y.den;
        assert(-10_000_000_000_000_000_000_000_000_000_000_000_000 <= a
            <= 10_000_000_000_000_000_000_000_000_000_000_000_000) by (nonlinear_arith)
            requires
                a == hi.units * y.den,
                -10_000_000_000_000_000_000_000_000_000_000_000_000 <= a * height
                    <= 10_000_000_000_000_000_000_000_000_000_000_000_000,
                height >= 1,
        ;
    }
    let den: i128 = y.den * (height as i128);
    let num: i128 = (hi.units as i128) * y.den * (height as i128) - y.num * d;
    proof {
        assert(den >= 1) by (nonlinear_arith)
            requires
                den == y.den * height,
                y.den >= 1,
                height >= 1,
        ;
        // lo * den <= num <= hi * den
        assert(lo.units * den <= num <= hi.units * den) by (nonlinear_arith)
            requires
                num == hi.units * y.den * height - y.num * d,
                den == y.den * height,
                d == hi.units - lo.units,
                d > 0,
                0 <= y.num <= y.den * height,
        ;
    }
    let q = floor_div_i128(num, den);
    proof {
        lemma_quotient_between(num as int, den as int, lo.units as int, hi.units as int);
    }
    FixedPrice { units: q as i64, scale: lo.scale }
}

/// A quotient is unchanged when both sides gain a positive factor.
proof fn lemma_div_factor(n: int, m: int, c: int)
    requires
        m >= 1,
        c >= 1,
    ensures
        (c * n) / (c * m) == n / m,
{
    vstd::arithmetic::div_mod::lemma_fundamental_div_mod(n, m);
    vstd::arithmetic::div_mod::lemma_mod_bound(n, m);
    let q = n / m;
    let r = n % m;
    assert(c * n == q * (c * m) + c * r && 0 <= c * r < c * m) by (nonlinear_arith)
        requires
            n == m * q + r,
            0 <= r < m,
            c >= 1,
    ;
    lemma_fundamental_div_mod_converse(c * n, c * m, q, c * r);
}

proof fn lemma_quotient_between(num: int, den: int, a: int, b: int)
    requires
        den >= 1,
        a * den <= num <= b * den,
    ensures
        a <= num / den <= b,
{
    let q = num / den;
    vstd::arithmetic::div_mod::lemma_fundamental_div_mod(num, den);
    vstd::arithmetic::div_mod::lemma_mod_bound(num, den);
    assert(q * den <= num < q * den + den) by (nonlinear_arith)
        requires
            num == den * q + num % den,
            0 <= num % den < den,
    ;
    if q < a {
        assert(q * den + den <= a * den) by (nonlinear_arith)
            requires
                q + 1 <= a,
                den >= 1,
        ;
    }
    if q > b {
        assert(q * den >= b * den + den) by (nonlinear_arith)
            requires
                q >= b + 1,
                den >= 1,
        ;
    }
}

/// A price inside the display range comes back from its pixel row
/// unchanged, at the range's precision.
pub proof fn lemma_pixel_round_trip(price: FixedPrice, lo: FixedPrice, hi: FixedPrice, height: int)
    requires
        lo.scale == hi.scale,
        price.scale <= lo.scale,
        lo.units <= price.at(lo.scale as nat) <= hi.units,
        lo.units < hi.units,
        height >= 1,
    ensures
        row_invertible(row_num(price, lo, hi, height), row_den(price, lo, hi), lo, hi, height),
        price_at_row(
            row_num(price, lo, hi, height),
            row_den(price, lo, hi),
            lo,
            hi,
            height,
        ) == price.at(lo.scale as nat),
{
    let s = axis_scale(price, lo);
    assert(s == lo.scale);
    assert(pow10(0) == 1);
    assert(lo.at(s) == lo.units);
    assert(hi.at(s) == hi.units);
    let p = price.at(s);
    let d = hi.units - lo.units;
    let n = height * (hi.units - p);
    assert(hi.units * d * height - n * d == p * (d * height)) by (nonlinear_arith)
        requires
            n == height * (hi.units - p),
    ;
    assert(d * height >= 1) by (nonlinear_arith)
        requires
            d >= 1,
            height >= 1,
    ;
    lemma_fundamental_div_mod_converse(p * (d * height), d * height, p, 0);
    assert(0 <= n <= d * height) by (nonlinear_arith)
        requires
            n == height * (hi.units - p),
            lo.units <= p <= hi.units,
            d == hi.units - lo.units,
            height >= 1,
    ;
}

/// Font size, in pixels, of the axis labels.
pub const LABEL_FONT_SIZE: u32 = 12;

/// Gap, in pixels, between the axis line and its labels, and after the
/// longest label.
pub const AXIS_PADDING: i64 = 10;

/// How far, in pixels, the axis line runs below the plot, down to the time
/// axis.
pub const AXIS_LINE_OVERHANG: i64 = 100;

/// The length, in characters, of the longest label.
pub open spec fn max_label_len(labels: Seq<String>) -> nat
    decreases labels.len(),
{
    if labels.len() == 0 {
        0
    } else {
        let m = max_label_len(labels.drop_last());
        let l = labels.last()@.len();
        if l > m {
            l
        } else {
            m
        }
    }
}

/// Width of an axis whose longest label has `len` characters: a character
/// takes three fifths of the font size, and the padding comes on top.
pub open spec fn axis_width(len: nat, font_size: nat) -> Px {
    Px { num: (3 * len * font_size + 5 * AXIS_PADDING) as i128, den: 5 }
}

/// The axis' width: the longest label's length times the average character
/// width (`0.6 * font_size`), plus padding.
pub fn estimate_y_axis_width(labels: &Vec<String>, font_size: u32) -> (w: Px)
    ensures
        w == axis_width(max_label_len(labels@), font_size as nat),
        50 <= w.num <= 1_000_000_000_000_000_000_000_000_000_000,
{
    let mut longest: usize = 0;
    let mut i: usize = 0;
    while i < labels.len()
        invariant
            i <= labels@.len(),
            longest == max_label_len(labels@.take(i as int)),
        decreases labels@.len() - i,
    {
        let len = labels[i].as_str().unicode_len();
        proof {
            let next = labels@.take(i + 1);
            assert(next.drop_last() == labels@.take(i as int));
            assert(next.last() == labels@[i as int]);
        }
        if len > longest {
            longest = len;
        }
        i = i + 1;
    }
    proof {
        assert(labels@.take(labels@.len() as int) == labels@);
        assert(longest * font_size <= 18_446_744_073_709_551_615 * 4_294_967_295) by (nonlinear_arith)
            requires
                longest <= 18_446_744_073_709_551_615,
                font_size <= 4_294_967_295,
        ;
    }
    let lf: i128 = (longest as i128) * (font_size as i128);
    proof {
        assert(3 * longest * font_size == 3 * lf) by (nonlinear_arith)
            requires
                lf == longest * font_size,
        ;
    }
    Px { num: 3 * lf + 5 * (AXIS_PADDING as i128), den: 5 }
}

/// The price axis of a plot `screen_width` by `screen_height` pixels over the
/// data range `[display_min, display_max]`; rows are moved down by `offset`
/// pixels and labels show `decimal_places` decimals.
#[derive(Clone, Copy, Debug)]
pub struct YAxisRenderer {
    pub screen_width: u32,
    pub screen_height: u32,
    pub display_min: FixedPrice,
    pub display_max: FixedPrice,
    pub offset: i32,
    pub decimal_places: u32,
}

/// What drawing the price axis yields: the primitives, the label texts, the
/// tick-aligned display range and the axis' width.
#[derive(Clone, Debug)]
pub struct AxisRender {
    pub primitives: Vec<Primitive>,
    pub labels: Vec<String>,
    pub display_min: FixedPrice,
    pub display_max: FixedPrice,
    pub axis_width: Px,
}

/// The text of a label: the price rounded down to `decimals` decimals, as
/// the decimal library prints it. Prices are never rounded up for display.
pub open spec fn label_text(p: FixedPrice, decimals: nat) -> Seq<char> {
    let shown = truncated(p, decimals);
    decimal_text(shown.units as int, shown.scale as nat)
}

/// The magnitudes of a row's numerator and denominator.
proof fn lemma_row_bounds(v: FixedPrice, lo: FixedPrice, hi: FixedPrice, height: int)
    requires
        v.scale == lo.scale,
        lo.scale == hi.scale,
        0 <= height <= 4_294_967_295,
    ensures
        -100_000_000_000_000_000_000_000_000_000 <= row_num(v, lo, hi, height)
            <= 100_000_000_000_000_000_000_000_000_000,
        row_den(v, lo, hi) <= 20_000_000_000_000_000_000,
{
    assert(pow10(0) == 1);
    let d = hi.units - v.units;
    assert(-100_000_000_000_000_000_000_000_000_000 <= height * d
        <= 100_000_000_000_000_000_000_000_000_000) by (nonlinear_arith)
        requires
            -20_000_000_000_000_000_000 <= d <= 20_000_000_000_000_000_000,
            0 <= height <= 4_294_967_295,
    ;
}

/// Tick `i` of `t` as a price.
pub open spec fn tick_value(t: TickSet, i: int) -> FixedPrice {
    FixedPrice { units: t.units_of(i) as i64, scale: t.start.scale }
}

pub open spec fn whole(v: int) -> Px {
    Px { num: v as i128, den: 1 }
}

impl YAxisRenderer {
    pub open spec fn valid(self) -> bool {
        &&& valid_bounds(self.display_min, self.display_max)
        &&& self.decimal_places <= MAX_DECIMAL_SCALE
    }

    /// The column of the axis line, left of the labels.
    pub open spec fn axis_x(self, width: Px) -> Px {
        Px { num: (5 * self.screen_width - width.num) as i128, den: 5 }
    }

    /// The row of tick `i`, moved by the offset.
    pub open spec fn tick_row(self, t: TickSet, i: int) -> Px {
        let v = tick_value(t, i);
        let top = tick_value(t, t.count - 1);
        let den = row_den(v, t.start, top);
        Px {
            num: (row_num(v, t.start, top, self.screen_height as int) + self.offset * den) as i128,
            den: den as i128,
        }
    }

    pub open spec fn axis_line(self, width: Px) -> Primitive {
        let x = self.axis_x(width);
        Primitive::Line {
            from: Point { x, y: whole(0) },
            to: Point { x, y: whole(self.screen_height + AXIS_LINE_OVERHANG) },
            role: Role::AxisLine,
        }
    }

    pub open spec fn grid_line(self, t: TickSet, i: int, width: Px) -> Primitive {
        let y = self.tick_row(t, i);
        Primitive::Line {
            from: Point { x: whole(0), y },
            to: Point { x: self.axis_x(width), y },
            role: Role::GridLine,
        }
    }

    pub open spec fn tick_label(self, t: TickSet, i: int, width: Px, text: String) -> Primitive {
        let x = self.axis_x(width);
        Primitive::Text {
            content: text,
            position: Point { x: Px { num: (x.num + 5 * AXIS_PADDING) as i128, den: 5 }, y: self.tick_row(t, i) },
            alignment: Alignment::Left,
            role: Role::TickLabel,
        }
    }

    /// The label text of every tick: its value rounded down to the axis'
    /// decimals, as the decimal library prints it.
    pub fn render_labels(&self, t: &TickSet) -> (labels: Vec<String>)
        requires
            t.wf(),
            t.start.scale <= MAX_DECIMAL_SCALE,
            self.decimal_places <= MAX_DECIMAL_SCALE,
        ensures
            labels@.len() == t.count,
            forall|i: int|
                0 <= i < t.count ==> (#[trigger] labels@[i])@ == label_text(
                    tick_value(*t, i),
                    self.decimal_places as nat,
                ),
    {
        let mut labels: Vec<String> = Vec::new();
        let mut i: usize = 0;
        while i < t.count
            invariant
                t.wf(),
                t.start.scale <= MAX_DECIMAL_SCALE,
                self.decimal_places <= MAX_DECIMAL_SCALE,
                i <= t.count,
                labels@.len() == i,
                forall|j: int|
                    0 <= j < i ==> (#[trigger] labels@[j])@ == label_text(
                        tick_value(*t, j),
                        self.decimal_places as nat,
                    ),
            decreases t.count - i,
        {
            let v = t.value(i);
            let shown = v.truncate_to_decimals(self.decimal_places);
            labels.push(price_text(shown));
            i = i + 1;
        }
        labels
    }

    /// Lays out the axis for ticks `t` with the given label texts: the axis
    /// line right of the plot, and for each tick a grid line across the plot
    /// and its label right of the axis line. The display range runs from the
    /// first tick to the last.
    pub fn layout_axis(&self, t: &TickSet, labels: Vec<String>) -> (r: AxisRender)
        requires
            t.wf(),
            labels@.len() == t.count,
        ensures
            r.labels@ == labels@,
            r.display_min == t.start,
            r.display_max == tick_value(*t, t.count - 1),
            r.axis_width == axis_width(max_label_len(labels@), LABEL_FONT_SIZE as nat),
            50 <= r.axis_width.num <= 1_000_000_000_000_000_000_000_000_000_000,
            self.primitives_of(*t, labels@, r.axis_width, r.primitives@),
    {
        let width = estimate_y_axis_width(&labels, LABEL_FONT_SIZE);
        let top = t.last();
        let x = Px { num: 5 * (self.screen_width as i128) - width.num, den: 5 };
        let mut prims: Vec<Primitive> = Vec::new();
        prims.push(
            Primitive::Line {
                from: Point { x, y: Px { num: 0, den: 1 } },
                to: Point { x, y: Px { num: self.screen_height as i128 + AXIS_LINE_OVERHANG as i128, den: 1 } },
                role: Role::AxisLine,
            },
        );
        let mut i: usize = 0;
        while i < t.count
            invariant
                t.wf(),
                labels@.len() == t.count,
                top == tick_value(*t, t.count - 1),
                50 <= width.num <= 1_000_000_000_000_000_000_000_000_000_000,
                width == axis_width(max_label_len(labels@), LABEL_FONT_SIZE as nat),
                x == self.axis_x(width),
                i <= t.count,
                prims@.len() == 1 + 2 * i,
                prims@[0] == self.axis_line(width),
                forall|j: int|
                    0 <= j < i ==> #[trigger] prims@[1 + 2 * j] == self.grid_line(*t, j, width)
                        && prims@[2 + 2 * j] == self.tick_label(*t, j, width, labels@[j]),
            decreases t.count - i,
        {
            let v = t.value(i);
            proof {
                assert(pow10(0) == 1);
                assert(top.scale == t.start.scale);
                assert(t.start.at(t.start.scale as nat) == t.start.units);
                assert(top.at(t.start.scale as nat) == top.units);
                assert(t.units_of(t.count - 1) > t.start.units) by (nonlinear_arith)
                    requires
                        t.count >= 2,
                        t.step.units > 0,
                ;
            }
            let y = price_to_pixel(v, t.start, top, self.screen_height);
            proof {
                lemma_row_bounds(v, t.start, top, self.screen_height as int);
                assert(-2_147_483_648 * y.den <= self.offset * y.den <= 2_147_483_647 * y.den)
                    by (nonlinear_arith)
                    requires
                        -2_147_483_648 <= self.offset <= 2_147_483_647,
                        y.den > 0,
                ;
            }
            let row = Px { num: y.num + (self.offset as i128) * y.den, den: y.den };
            let ghost before = prims@;
            prims.push(Primitive::Line { from: Point { x: Px { num: 0, den: 1 }, y: row }, to: Point { x, y: row }, role: Role::GridLine });
            prims.push(
                Primitive::Text {
                    content: labels[i].clone(),
                    position: Point { x: Px { num: x.num + 5 * (AXIS_PADDING as i128), den: 5 }, y: row },
                    alignment: Alignment::Left,
                    role: Role::TickLabel,
                },
            );
            proof {
                assert forall|j: int| 0 <= j < i + 1 implies #[trigger] prims@[1 + 2 * j] == self.grid_line(*t, j, width)
                    && prims@[2 + 2 * j] == self.tick_label(*t, j, width, labels@[j]) by {
                    if j < i {
                        assert(prims@[1 + 2 * j] == before[1 + 2 * j]);
                        assert(prims@[2 + 2 * j] == before[2 + 2 * j]);
                    }
                }
            }
            i = i + 1;
        }
        AxisRender { primitives: prims, labels, display_min: t.start, display_max: top, axis_width: width }
    }

    /// Draws the price axis: ticks for the data range, their labels, and the
    /// geometry that `layout_axis` gives for them.
    pub fn render_axis(&self) -> (r: AxisRender)
        requires
            self.valid(),
        ensures
            self.rendered(r),
    {
        let t = compute_ticks(self.display_min, self.display_max);
        let labels = self.render_labels(&t);
        self.layout_axis(&t, labels)
    }

    /// What `render_axis` yields: the ticks of the data range, their labels,
    /// and the layout of the two.
    pub open spec fn rendered(self, r: AxisRender) -> bool {
        let t = tick_set(self.display_min, self.display_max);
        &&& t.wf()
        &&& self.display_min.scale <= t.start.scale <= self.display_min.scale + 3
        &&& r.display_min == t.start
        &&& r.display_max == tick_value(t, t.count - 1)
        &&& r.labels@.len() == t.count
        &&& forall|i: int|
            0 <= i < r.labels@.len() ==> (#[trigger] r.labels@[i])@ == label_text(
                tick_value(t, i),
                self.decimal_places as nat,
            )
        &&& r.axis_width == axis_width(max_label_len(r.labels@), LABEL_FONT_SIZE as nat)
        &&& 50 <= r.axis_width.num <= 1_000_000_000_000_000_000_000_000_000_000
        &&& self.primitives_of(t, r.labels@, r.axis_width, r.primitives@)
    }

    /// The primitives of an axis with ticks `t` and label texts `labels`:
    /// the axis line, then for each tick its grid line and its label.
    pub open spec fn primitives_of(self, t: TickSet, labels: Seq<String>, width: Px, p: Seq<Primitive>) -> bool {
        &&& p.len() == 1 + 2 * t.count
        &&& p[0] == self.axis_line(width)
        &&& forall|i: int|
            0 <= i < t.count ==> #[trigger] p[1 + 2 * i] == self.grid_line(t, i, width) && p[2 + 2 * i]
                == self.tick_label(t, i, width, labels[i])
    }
}

} // verus!
