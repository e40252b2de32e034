//! "Nice" tick selection for the price axis.
use vstd::prelude::*;
use vstd::arithmetic::div_mod::{
    lemma_fundamental_div_mod, lemma_fundamental_div_mod_converse, lemma_mod_bound,
};
use crate::fixed::{
    floor_div_i128, lemma_pow10_30, lemma_pow10_add, lemma_pow10_monotone, lemma_pow10_positive, pow10,
    pow10_exec, FixedPrice,
};

verus! {

/// Largest magnitude, in units of the series' precision, that the tick
/// computation accepts: ticks are held with up to three more decimals, and
/// the outermost tick may lie one range beyond the data, all within `i64`.
pub const PRICE_UNITS_LIMIT: i64 = 3_000_000_000_000_000;

/// Largest precision of a series; ticks may carry three more decimals, up to
/// the 28 that a decimal label can show.
pub const MAX_PRICE_SCALE: u32 = 25;

/// Bounds that the tick computation accepts: one precision, `min <= max`,
/// within the limits above.
pub open spec fn valid_bounds(min: FixedPrice, max: FixedPrice) -> bool {
    &&& min.scale == max.scale
    &&& min.scale <= MAX_PRICE_SCALE
    &&& -PRICE_UNITS_LIMIT <= min.units <= max.units <= PRICE_UNITS_LIMIT
}

/// The scale at which tick values are computed: three decimals finer than
/// the data. The smallest step (a tenth of a hundredth of one unit of the
/// data) is then still a whole number of units.
pub open spec fn tick_scale(min: FixedPrice) -> nat {
    (min.scale + 3) as nat
}

pub open spec fn abs(x: int) -> int {
    if x < 0 {
        -x
    } else {
        x
    }
}

/// The range that the step is chosen for, in units of the tick scale.
/// A zero range stands for a hundredth of `|min|`, or for one unit of the
/// data's precision when `min` is zero as well.
pub open spec fn tick_range(min: FixedPrice, max: FixedPrice) -> int {
    if max.units > min.units {
        1000 * (max.units - min.units)
    } else if min.units != 0 {
        10 * abs(min.units as int)
    } else {
        1000
    }
}

/// `floor(log10(x))` for `x >= 1`.
pub open spec fn log10_floor(x: int) -> nat
    decreases x,
{
    if x < 10 {
        0
    } else {
        1 + log10_floor(x / 10)
    }
}

/// The ladder `{0.1, 0.2, 0.5, 1}` of fractions of `base`, as multiples of
/// `base / 10`: the smallest rung whose value is at least `r`.
pub open spec fn ladder(r: int, base: int) -> int {
    if r <= base {
        1
    } else if r <= 2 * base {
        2
    } else if r <= 5 * base {
        5
    } else {
        10
    }
}

/// The nice step for a range `r >= 10`: a rung of the ladder times
/// `10^(floor(log10(r)) - 1)`.
pub open spec fn nice_step(r: int) -> int {
    let e = log10_floor(r);
    ladder(r, pow10(e)) * pow10((e - 1) as nat)
}

pub open spec fn ceil_div(a: int, b: int) -> int {
    -((-a) / b)
}

/// The first tick, in units of the tick scale: `min` rounded down to a step.
pub open spec fn first_tick(min: FixedPrice, max: FixedPrice) -> int {
    let step = nice_step(tick_range(min, max));
    ((min.units * 1000) / step) * step
}

/// The last tick that the data reaches: `max` rounded up to a step.
pub open spec fn last_tick(min: FixedPrice, max: FixedPrice) -> int {
    let step = nice_step(tick_range(min, max));
    ceil_div(max.units * 1000, step) * step
}

/// Number of ticks: those from the first to the last, and never fewer than two.
pub open spec fn tick_count(min: FixedPrice, max: FixedPrice) -> int {
    let n = (last_tick(min, max) - first_tick(min, max)) / nice_step(tick_range(min, max)) + 1;
    if n < 2 {
        2
    } else {
        n
    }
}

/// How many of the three extra decimals of the tick scale the step for `r`
/// does without: the step is held at the coarsest scale, no coarser than the
/// data's, that shows it exactly.
pub open spec fn step_shift(r: int) -> nat {
    let e = log10_floor(r);
    let t: nat = if ladder(r, pow10(e)) == 10 {
        e
    } else {
        (e - 1) as nat
    };
    if t >= 3 {
        3
    } else {
        t
    }
}

/// The ticks for `[min, max]`, each value held at the step's scale.
pub open spec fn tick_set(min: FixedPrice, max: FixedPrice) -> TickSet {
    let r = tick_range(min, max);
    let shift = step_shift(r);
    let div = pow10(shift);
    let scale = (min.scale + 3 - shift) as u32;
    TickSet {
        start: FixedPrice { units: (first_tick(min, max) / div) as i64, scale },
        step: FixedPrice { units: (nice_step(r) / div) as i64, scale },
        count: tick_count(min, max) as usize,
    }
}

/// An evenly spaced run of tick values `start + i * step`, `i < count`.
#[derive(Clone, Copy, Debug, PartialEq, Eq, Structural)]
pub struct TickSet {
    pub start: FixedPrice,
    pub step: FixedPrice,
    pub count: usize,
}

impl TickSet {
    pub open spec fn wf(self) -> bool {
        &&& self.start.scale == self.step.scale
        &&& self.step.units > 0
        &&& self.count >= 2
        &&& (self.count - 1) * self.step.units <= i64::MAX
        &&& self.start.units + (self.count - 1) * self.step.units <= i64::MAX
    }

    /// Units, at the ticks' scale, of tick `i`.
    pub open spec fn units_of(self, i: int) -> int {
        self.start.units + i * self.step.units
    }

    /// Tick `i`.
    pub fn value(&self, i: usize) -> (r: FixedPrice)
        requires
            self.wf(),
            i < self.count,
        ensures
            r.scale == self.start.scale,
            r.units == self.units_of(i as int),
    {
        proof {
            let n = (self.count - 1) as int;
            let s = self.step.units as int;
            assert(0 <= i * s <= n * s) by (nonlinear_arith)
                requires
                    0 <= i <= n,
                    s > 0,
            ;
            assert(i <= i * s) by (nonlinear_arith)
                requires
                    0 <= i,
                    s > 0,
            ;
        }
        FixedPrice { units: self.start.units + (i as i64) * self.step.units, scale: self.start.scale }
    }

    /// The highest tick.
    pub fn last(&self) -> (r: FixedPrice)
        requires
            self.wf(),
        ensures
            r.scale == self.start.scale,
            r.units == self.units_of(self.count - 1),
    {
        self.value(self.count - 1)
    }
}

proof fn lemma_log10_floor(x: int, e: nat)
    requires
        pow10(e) <= x < 10 * pow10(e),
    ensures
        log10_floor(x) == e,
    decreases e,
{
    lemma_pow10_positive(e);
    if e == 0 {
    } else {
        let p = pow10((e - 1) as nat);
        assert(pow10(e) == 10 * p);
        assert(p <= x / 10 < 10 * p) by {
            assert(10 * p <= x);
            assert(x < 100 * p);
            lemma_fundamental_div_mod_converse(x, 10, x / 10, x % 10);
        }
        lemma_log10_floor(x / 10, (e - 1) as nat);
    }
}

/// `floor(log10(r))` and `10` raised to it.
fn log10_floor_exec(r: i128) -> (res: (u32, i128))
    requires
        1 <= r <= 100_000_000_000_000_000_000_000_000_000,
    ensures
        res.0 <= 29,
        res.1 == pow10(res.0 as nat),
        res.0 == log10_floor(r as int),
        res.1 <= r < 10 * res.1,
{
    let mut e: u32 = 0;
    let mut p: i128 = 1;
    while p <= r / 10
        invariant
            1 <= r <= 100_000_000_000_000_000_000_000_000_000,
            e <= 29,
            p == pow10(e as nat),
            1 <= p <= r,
        decreases r - p,
    {
        proof {
            lemma_pow10_30();
            assert(p * 10 <= r);
            assert(pow10((e + 1) as nat) == 10 * pow10(e as nat));
            if e + 1 > 29 {
                lemma_pow10_monotone(30, (e + 1) as nat);
            }
        }
        p = p * 10;
        e = e + 1;
    }
    proof {
        assert(r < 10 * p);
        lemma_log10_floor(r as int, e as nat);
    }
    (e, p)
}

/// Exact quotient of `a` by a divisor `b` that divides it.
proof fn lemma_exact_div(a: int, b: int, q: int)
    requires
        b > 0,
        a == q * b,
    ensures
        a / b == q,
        (a / b) * b == a,
{
    lemma_fundamental_div_mod_converse(a, b, q, 0);
}

/// The nice step for a range `r` (in units of some scale), as
/// `(step, shift, 10^shift)`: `shift` is how many of the lowest three decimals
/// the step can drop, so that `step / 10^shift` is the step at a scale
/// `shift` decimals coarser.
fn nice_step_parts(r: i128) -> (res: (i128, u32, i128))
    requires
        10 <= r <= 6_000_000_000_000_000_000,
    ensures
        res.0 == nice_step(r as int),
        1 <= res.0 <= r <= 10 * res.0,
        res.1 <= 3,
        res.1 == step_shift(r as int),
        res.2 == pow10(res.1 as nat),
        res.2 >= 1,
        (res.0 / res.2) * res.2 == res.0,
        res.0 / res.2 <= 6_000_000_000_000_000,
{
    let (e, p) = log10_floor_exec(r);
    proof {
        lemma_pow10_positive(e as nat);
        if e == 0 {
            assert(p == 1);
        }
        assert(e >= 1);
        assert(pow10(e as nat) == 10 * pow10((e - 1) as nat));
        lemma_pow10_positive((e - 1) as nat);
    }
    let k: i128 = if r <= p {
        1
    } else if r <= 2 * p {
        2
    } else if r <= 5 * p {
        5
    } else {
        10
    };
    let sub = floor_div_i128(p, 10);
    proof {
        lemma_exact_div(p as int, 10, pow10((e - 1) as nat));
    }
    let step: i128 = k * sub;
    // `step == k1 * 10^t` with `k1` one of 1, 2, 5.
    let t: u32 = if k == 10 {
        e
    } else {
        e - 1
    };
    let shift: u32 = if t >= 3 {
        3
    } else {
        t
    };
    let div = pow10_exec(shift);
    let ghost k1: int = if k == 10 {
        1
    } else {
        k as int
    };
    proof {
        lemma_pow10_positive(shift as nat);
        lemma_pow10_positive(t as nat);
        assert(step == k1 * pow10(t as nat));
        lemma_pow10_add(shift as nat, (t - shift) as nat);
        let rest = pow10((t - shift) as nat);
        assert(step == (k1 * rest) * div) by (nonlinear_arith)
            requires
                step == k1 * pow10(t as nat),
                pow10(t as nat) == div * rest,
        ;
        lemma_exact_div(step as int, div as int, k1 * rest);
        if shift == 3 {
            lemma_pow10_30();
            assert(step / div <= 6_000_000_000_000_000) by (nonlinear_arith)
                requires
                    (step / div) * div == step,
                    div == 1000,
                    step <= 6_000_000_000_000_000_000,
            ;
        } else {
            assert(rest == 1);
        }
    }
    proof {
        lemma_pow10_positive(shift as nat);
    }
    (step, shift, div)
}

/// The nice step for a positive `range`: with `e = floor(log10(range))`, the
/// smallest of `0.1, 0.2, 0.5, 1` times `10^e` that is at least `range`.
/// It is held at the range's precision, or one decimal finer where it needs
/// that. A range that is not positive gives zero.
pub fn nice_step_from_range(range: FixedPrice) -> (step: FixedPrice)
    requires
        range.scale <= MAX_PRICE_SCALE,
        range.units <= PRICE_UNITS_LIMIT,
    ensures
        range.units <= 0 ==> step.units == 0 && step.scale == range.scale,
        range.units > 0 ==> range.scale <= step.scale <= range.scale + 3,
        range.units > 0 ==> step.units > 0,
        range.units > 0 ==> step.at((range.scale + 3) as nat) == nice_step(1000 * range.units),
{
    if range.units <= 0 {
        return FixedPrice { units: 0, scale: range.scale };
    }
    let (step, shift, div) = nice_step_parts((range.units as i128) * 1000);
    let units = floor_div_i128(step, div);
    proof {
        lemma_pow10_positive(shift as nat);
        assert(units >= 1) by (nonlinear_arith)
            requires
                units * div == step,
                step >= 1,
                div >= 1,
        ;
    }
    FixedPrice { units: units as i64, scale: range.scale + 3 - shift }
}

/// Floor and ceiling of `lo` and `hi` to multiples of `step`.
proof fn lemma_round_to_steps(lo: int, hi: int, step: int)
    requires
        step > 0,
        lo <= hi,
        hi - lo <= 10 * step,
    ensures
        (lo / step) * step <= lo < (lo / step) * step + step,
        ceil_div(hi, step) * step >= hi > ceil_div(hi, step) * step - step,
        0 <= ceil_div(hi, step) - lo / step < 12,
{
    lemma_fundamental_div_mod(lo, step);
    lemma_fundamental_div_mod(-hi, step);
    lemma_mod_bound(lo, step);
    lemma_mod_bound(-hi, step);
    let ql = lo / step;
    let qh = (-hi) / step;
    assert(ql * step <= lo < ql * step + step) by (nonlinear_arith)
        requires
            lo == step * ql + lo % step,
            0 <= lo % step < step,
    ;
    assert(-qh * step >= hi > -qh * step - step) by (nonlinear_arith)
        requires
            -hi == step * qh + (-hi) % step,
            0 <= (-hi) % step < step,
    ;
    assert((-qh - ql) * step < 12 * step) by (nonlinear_arith)
        requires
            -qh * step < hi + step,
            ql * step > lo - step,
            hi - lo <= 10 * step,
    ;
    assert(-qh - ql < 12) by (nonlinear_arith)
        requires
            (-qh - ql) * step < 12 * step,
            step > 0,
    ;
    assert(-qh - ql >= 0) by (nonlinear_arith)
        requires
            -qh * step >= hi,
            ql * step <= lo,
            lo <= hi,
            step > 0,
    ;
}

/// The ticks that cover `[min, max]`: a nice step for the range, the first
/// tick at or below `min`, and enough ticks to reach `max`, at least two.
/// Tick values carry the data's precision, plus up to three decimals where
/// the step needs them.
pub fn compute_ticks(min: FixedPrice, max: FixedPrice) -> (t: TickSet)
    requires
        valid_bounds(min, max),
    ensures
        t == tick_set(min, max),
        t.wf(),
        min.scale <= t.step.scale <= tick_scale(min),
        t.step.at(tick_scale(min)) == nice_step(tick_range(min, max)),
        t.start.at(tick_scale(min)) == first_tick(min, max),
        t.count == tick_count(min, max),
{
    let lo: i128 = (min.units as i128) * 1000;
    let hi: i128 = (max.units as i128) * 1000;
    let r: i128 = if max.units > min.units {
        hi - lo
    } else if min.units < 0 {
        -(min.units as i128) * 10
    } else if min.units > 0 {
        (min.units as i128) * 10
    } else {
        1000
    };
    assert(r == tick_range(min, max));
    let (step, shift, div) = nice_step_parts(r);
    let sd: i128 = floor_div_i128(step, div);
    let q_lo = floor_div_i128(lo, step);
    let q_hi = floor_div_i128(-hi, step);
    proof {
        lemma_round_to_steps(lo as int, hi as int, step as int);
        lemma_pow10_positive(shift as nat);
    }
    let n: i128 = -q_hi - q_lo + 1;
    let count: i128 = if n < 2 {
        2
    } else {
        n
    };
    proof {
        let first = q_lo * step;
        let last = -q_hi * step;
        assert(last - first == (n - 1) * step) by (nonlinear_arith)
            requires
                first == q_lo * step,
                last == -q_hi * step,
                n == -q_hi - q_lo + 1,
        ;
        lemma_exact_div(last - first, step as int, n - 1);
        assert(lo - step >= -9_000_000_000_000_000_000);
        assert(hi + step <= 9_000_000_000_000_000_000);
        assert(lo + step <= 9_000_000_000_000_000_000);
    }
    proof {
        let su = q_lo * sd;
        assert(su * div == q_lo * step) by (nonlinear_arith)
            requires
                su == q_lo * sd,
                step == sd * div,
        ;
        assert(-9_000_000_000_000_000_000 <= su <= 9_000_000_000_000_000_000) by (nonlinear_arith)
            requires
                su * div == q_lo * step,
                q_lo * step > lo - step,
                q_lo * step <= lo,
                lo - step >= -9_000_000_000_000_000_000,
                lo <= 9_000_000_000_000_000_000,
                div >= 1,
        ;
        assert(sd >= 1) by (nonlinear_arith)
            requires
                sd * div == step,
                step >= 1,
                div >= 1,
        ;
    }
    let start_units: i128 = q_lo * sd;
    proof {
        assert(start_units * div == q_lo * step);
        assert(start_units + (count - 1) * sd <= 9_000_000_000_000_000_000) by (nonlinear_arith)
            requires
                start_units * div == q_lo * step,
                q_lo * step <= lo,
                step == sd * div,
                count - 1 == -q_hi - q_lo || (count == 2 && q_hi + q_lo == 0),
                -q_hi * step < hi + step,
                hi + step <= 9_000_000_000_000_000_000,
                lo + step <= 9_000_000_000_000_000_000,
                div >= 1,
                sd >= 1,
        ;
        assert((count - 1) * sd <= 11 * 6_000_000_000_000_000) by (nonlinear_arith)
            requires
                count <= 12,
                1 <= sd <= 6_000_000_000_000_000,
        ;
    }
    proof {
        lemma_exact_div(q_lo * step, div as int, start_units as int);
    }
    let scale = min.scale + 3 - shift;
    TickSet {
        start: FixedPrice { units: start_units as i64, scale },
        step: FixedPrice { units: sd as i64, scale },
        count: count as usize,
    }
}

/// The number of ticks over `[min, max]` and the step between them.
pub fn calculate_tick_count(min: FixedPrice, max: FixedPrice) -> (res: (usize, FixedPrice))
    requires
        valid_bounds(min, max),
    ensures
        res.0 == tick_count(min, max),
        res.1 == tick_set(min, max).step,
        min.scale <= res.1.scale <= tick_scale(min),
        res.1.at(tick_scale(min)) == nice_step(tick_range(min, max)),
{
    let t = compute_ticks(min, max);
    (t.count, t.step)
}

/// The ticks rise strictly, the first lies at or below `min` and the last at
/// or above `max`.
pub proof fn lemma_ticks_cover_range(min: FixedPrice, max: FixedPrice)
    requires
        valid_bounds(min, max),
    ensures
        nice_step(tick_range(min, max)) > 0,
        first_tick(min, max) <= min.at(tick_scale(min)),
        first_tick(min, max) + (tick_count(min, max) - 1) * nice_step(tick_range(min, max))
            >= max.at(tick_scale(min)),
{
    let r = tick_range(min, max);
    let step = nice_step(r);
    let lo = min.units * 1000;
    let hi = max.units * 1000;
    lemma_nice_step_bounds(r);
    lemma_round_to_steps(lo, hi, step);
    reveal_with_fuel(pow10, 4);
    assert(min.at(tick_scale(min)) == lo);
    assert(max.at(tick_scale(min)) == hi);
    let first = first_tick(min, max);
    let last = last_tick(min, max);
    let q = (last - first) / step;
    assert(last - first == (ceil_div(hi, step) - lo / step) * step) by (nonlinear_arith)
        requires
            first == (lo / step) * step,
            last == ceil_div(hi, step) * step,
    ;
    lemma_exact_div(last - first, step, ceil_div(hi, step) - lo / step);
    assert(first + (tick_count(min, max) - 1) * step >= last) by (nonlinear_arith)
        requires
            tick_count(min, max) - 1 >= q,
            first + q * step == last,
            step > 0,
    ;
}

/// What the step search guarantees of the step it picks for a range `r >= 10`.
proof fn lemma_nice_step_bounds(r: int)
    requires
        10 <= r,
    ensures
        1 <= nice_step(r) <= r <= 10 * nice_step(r),
{
    let e = log10_floor(r);
    lemma_log10_floor_bounds(r);
    lemma_pow10_positive(e);
    if e == 0 {
        assert(pow10(0) == 1);
    }
    assert(pow10(e) == 10 * pow10((e - 1) as nat));
    lemma_pow10_positive((e - 1) as nat);
}

/// `floor(log10(r))` brackets `r` between two powers of ten.
proof fn lemma_log10_floor_bounds(r: int)
    requires
        1 <= r,
    ensures
        pow10(log10_floor(r)) <= r < 10 * pow10(log10_floor(r)),
    decreases r,
{
    if r >= 10 {
        lemma_log10_floor_bounds(r / 10);
        let e = log10_floor(r / 10);
        assert(log10_floor(r) == e + 1);
        assert(pow10(e + 1) == 10 * pow10(e));
        lemma_fundamental_div_mod(r, 10);
    }
}

} // verus!

