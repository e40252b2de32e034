//! Horizontal packing of candles: width and spacing under varying density.
use vstd::prelude::*;
use crate::fixed::{floor_div_i128, lemma_pow10_30, lemma_pow10_add, lemma_pow10_positive, pow10, pow10_exec};
use crate::geometry::Px;

verus! {

/// Above this many candles, and with less than a pixel for each, candles
/// collapse to single lines.
pub const ULTRA_COMPACT_MIN_CANDLES: usize = 1000;

/// Narrowest plotting width, in pixels, that the layout works with.
pub const MIN_CHART_WIDTH: u32 = 10;

/// Spacing ratios are held in millionths of a candle width.
pub const RATIO_DENOMINATOR: u64 = 1_000_000;

/// Spacing ratio of a sparse chart: a fifth of a candle width.
pub const BASE_SPACING: u64 = 200_000;

/// Spacing never shrinks below a hundredth of a candle width.
pub const MIN_SPACING: u64 = 10_000;

/// Beyond this many tenfold-density steps the decayed spacing lies below the
/// floor.
pub const DECAY_STEPS: u64 = 29;

pub open spec fn pow9(n: nat) -> int
    decreases n,
{
    if n == 0 {
        1
    } else {
        9 * pow9((n - 1) as nat)
    }
}

/// `0.2 * 0.9^k * (1 - rest / (10 w))`, in millionths, rounded down once:
/// the chord of `0.2 * 0.9^x` at `x = k + rest / w`.
pub open spec fn chord(k: nat, rest: int, w: int) -> int {
    (BASE_SPACING * pow9(k) * (10 * w - rest)) / (pow10(k + 1) * w)
}

/// The plotting width that the layout uses.
pub open spec fn chart_width(available_width: nat) -> nat {
    if available_width < MIN_CHART_WIDTH {
        MIN_CHART_WIDTH as nat
    } else {
        available_width
    }
}

pub open spec fn is_ultra_compact(candle_count: nat, available_width: nat) -> bool {
    candle_count > ULTRA_COMPACT_MIN_CANDLES && chart_width(available_width) < candle_count
}

/// The spacing ratio, in millionths: `max(0.01, 0.2 * 0.9^(20 * density))`
/// with `density = candle_count / width`. The power is exact at whole
/// exponents and taken on the chord between them (at most 0.3% above the
/// curve); it is zero in ultra-compact mode.
pub open spec fn spacing_ratio(candle_count: nat, available_width: nat) -> int {
    let w = chart_width(available_width);
    if is_ultra_compact(candle_count, available_width) {
        0
    } else {
        let x = 20 * candle_count;
        let k = x / w;
        let rest = x % w;
        if k >= DECAY_STEPS {
            MIN_SPACING as int
        } else {
            let v = chord(k, rest as int, w as int);
            if v < MIN_SPACING {
                MIN_SPACING as int
            } else {
                v
            }
        }
    }
}

/// Widths per candle: `unit = width / (count + (count + 1) * ratio)`, each
/// candle `unit` wide and `unit * ratio` apart, with a gap at both ends.
#[derive(Clone, Copy, Debug, PartialEq, Eq, Structural)]
pub struct LayoutPlan {
    pub candle_width: Px,
    pub candle_spacing: Px,
    pub spacing_ratio: u64,
    pub ultra_compact: bool,
}

impl LayoutPlan {
    /// Both widths over one positive denominator, the spacing at most the
    /// candle width.
    pub open spec fn wf(self) -> bool {
        &&& self.candle_width.den == self.candle_spacing.den
        &&& self.candle_width.den >= 1
        &&& 0 <= self.candle_width.num <= 4_294_967_295 * RATIO_DENOMINATOR
        &&& 0 <= self.candle_spacing.num <= self.candle_width.num
        &&& self.candle_width.den <= 100_000_000_000_000_000_000_000_000
    }
}

/// Millionths of a unit in the whole width: `count + (count + 1) * ratio`.
pub open spec fn total_units(candle_count: nat, ratio: int) -> int {
    candle_count * RATIO_DENOMINATOR + (candle_count + 1) * ratio
}

pub open spec fn layout_plan(candle_count: nat, available_width: nat) -> LayoutPlan {
    let w = chart_width(available_width);
    let ratio = spacing_ratio(candle_count, available_width);
    let total = total_units(candle_count, ratio);
    LayoutPlan {
        candle_width: Px { num: (w * RATIO_DENOMINATOR) as i128, den: total as i128 },
        candle_spacing: Px { num: (w * ratio) as i128, den: total as i128 },
        spacing_ratio: ratio as u64,
        ultra_compact: is_ultra_compact(candle_count, available_width),
    }
}

proof fn lemma_pow9_bounds(n: nat)
    requires
        n <= 28,
    ensures
        1 <= pow9(n) <= 523_347_633_027_360_537_213_511_521,
    decreases n,
{
    reveal_with_fuel(pow9, 29);
    if n < 28 {
        lemma_pow9_monotone(n, 28);
    }
    assert(pow9(28) == 523_347_633_027_360_537_213_511_521);
    lemma_pow9_positive(n);
}

proof fn lemma_pow9_positive(n: nat)
    ensures
        pow9(n) >= 1,
    decreases n,
{
    if n > 0 {
        lemma_pow9_positive((n - 1) as nat);
    }
}

proof fn lemma_pow9_monotone(a: nat, b: nat)
    requires
        a <= b,
    ensures
        pow9(a) <= pow9(b),
    decreases b,
{
    if a < b {
        lemma_pow9_monotone(a, (b - 1) as nat);
        lemma_pow9_positive((b - 1) as nat);
    }
}

/// `0.9^b <= 0.9^a` for `a <= b`, cross-multiplied.
proof fn lemma_decay_falls(a: nat, b: nat)
    requires
        a <= b,
    ensures
        pow9(b) * pow10(a) <= pow9(a) * pow10(b),
    decreases b,
{
    if a < b {
        let c = (b - 1) as nat;
        lemma_decay_falls(a, c);
        lemma_pow9_positive(a);
        lemma_pow10_positive(a);
        assert(pow9(b) == 9 * pow9(c));
        assert(pow10(b) == 10 * pow10(c));
        lemma_pow10_positive(c);
        let x = pow9(c) * pow10(a);
        let y = pow9(a) * pow10(c);
        assert(pow9(b) * pow10(a) == 9 * x) by (nonlinear_arith)
            requires
                pow9(b) == 9 * pow9(c),
                x == pow9(c) * pow10(a),
        ;
        assert(pow9(a) * pow10(b) == 10 * y) by (nonlinear_arith)
            requires
                pow10(b) == 10 * pow10(c),
                y == pow9(a) * pow10(c),
        ;
        assert(y >= 0) by (nonlinear_arith)
            requires
                y == pow9(a) * pow10(c),
                pow9(a) >= 1,
                pow10(c) >= 1,
        ;
        lemma_pow10_positive(c);
    }
}

/// Rounding down keeps an order of fractions.
proof fn lemma_floor_monotone(n1: int, m1: int, n2: int, m2: int)
    requires
        m1 >= 1,
        m2 >= 1,
        n1 >= 0,
        n2 >= 0,
        n2 * m1 <= n1 * m2,
    ensures
        n2 / m2 <= n1 / m1,
{
    let q = n2 / m2;
    vstd::arithmetic::div_mod::lemma_fundamental_div_mod(n2, m2);
    vstd::arithmetic::div_mod::lemma_mod_bound(n2, m2);
    vstd::arithmetic::div_mod::lemma_fundamental_div_mod(n1, m1);
    vstd::arithmetic::div_mod::lemma_mod_bound(n1, m1);
    assert(q * m2 <= n2 && q >= 0) by (nonlinear_arith)
        requires
            n2 == m2 * q + n2 % m2,
            0 <= n2 % m2 < m2,
            n2 >= 0,
    ;
    assert(q * m1 <= n1) by (nonlinear_arith)
        requires
            q * m2 <= n2,
            n2 * m1 <= n1 * m2,
            m1 >= 1,
            m2 >= 1,
            q >= 0,
    ;
    assert(q <= n1 / m1) by (nonlinear_arith)
        requires
            q * m1 <= n1,
            n1 == m1 * (n1 / m1) + n1 % m1,
            0 <= n1 % m1 < m1,
            m1 >= 1,
    ;
}

/// A quotient is unchanged when both sides gain a positive factor.
proof fn lemma_div_common_factor(n: int, m: int, c: int)
    requires
        m >= 1,
        c >= 1,
        n >= 0,
    ensures
        (c * n) / (c * m) == n / m,
{
    vstd::arithmetic::div_mod::lemma_fundamental_div_mod(n, m);
    vstd::arithmetic::div_mod::lemma_mod_bound(n, m);
    let q = n / m;
    let r = n % m;
    assert(c * n == q * (c * m) + c * r && 0 <= c * r < c * m) by (nonlinear_arith)
        requires
            n == m * q + r,
            0 <= r < m,
            c >= 1,
    ;
    vstd::arithmetic::div_mod::lemma_fundamental_div_mod_converse(c * n, c * m, q, c * r);
}

/// The chord lies between zero and the base spacing.
proof fn lemma_chord_bounds(k: nat, rest: int, w: int)
    requires
        0 <= rest < w,
    ensures
        0 <= chord(k, rest, w) <= BASE_SPACING,
{
    lemma_decay_falls(0, k);
    lemma_pow9_positive(k);
    lemma_pow10_positive(k);
    let n = BASE_SPACING * pow9(k) * (10 * w - rest);
    let m = pow10(k + 1) * w;
    assert(pow10(k + 1) == 10 * pow10(k));
    assert(pow9(0) == 1 && pow10(0) == 1);
    assert(0 <= n <= BASE_SPACING * m) by (nonlinear_arith)
        requires
            n == BASE_SPACING * pow9(k) * (10 * w - rest),
            m == 10 * pow10(k) * w,
            pow9(k) <= pow10(k),
            pow9(k) >= 1,
            0 <= rest < w,
    ;
    assert(m >= 1) by (nonlinear_arith)
        requires
            m == 10 * pow10(k) * w,
            pow10(k) >= 1,
            w >= 1,
    ;
    lemma_floor_monotone(BASE_SPACING * 1, 1, n, m);
}

/// The spacing ratio of a layout that is not ultra-compact lies between the
/// floor and the base spacing.
pub proof fn lemma_spacing_bounds(candle_count: nat, available_width: nat)
    requires
        !is_ultra_compact(candle_count, available_width),
    ensures
        MIN_SPACING <= spacing_ratio(candle_count, available_width) <= BASE_SPACING,
{
    let w = chart_width(available_width);
    let x = 20 * candle_count;
    lemma_chord_bounds(x / w, (x % w) as int, w as int);
}

/// Spacing shrinks as density rises: of two layouts that are not
/// ultra-compact, the denser (more candles per pixel) gets a spacing ratio
/// no larger, and both stay within the floor and the base spacing.
pub proof fn lemma_spacing_falls_with_density(n1: nat, w1: nat, n2: nat, w2: nat)
    requires
        !is_ultra_compact(n1, w1),
        !is_ultra_compact(n2, w2),
        n1 * chart_width(w2) <= n2 * chart_width(w1),
    ensures
        MIN_SPACING <= spacing_ratio(n2, w2) <= spacing_ratio(n1, w1) <= BASE_SPACING,
{
    lemma_spacing_bounds(n1, w1);
    lemma_spacing_bounds(n2, w2);
    let ww1 = chart_width(w1) as int;
    let ww2 = chart_width(w2) as int;
    let x1: int = (20 * n1) as int;
    let x2: int = (20 * n2) as int;
    let k1 = x1 / ww1;
    let k2 = x2 / ww2;
    let r1 = x1 % ww1;
    let r2 = x2 % ww2;
    vstd::arithmetic::div_mod::lemma_fundamental_div_mod(x1, ww1);
    vstd::arithmetic::div_mod::lemma_mod_bound(x1, ww1);
    vstd::arithmetic::div_mod::lemma_fundamental_div_mod(x2, ww2);
    vstd::arithmetic::div_mod::lemma_mod_bound(x2, ww2);
    assert(x1 * ww2 <= x2 * ww1) by (nonlinear_arith)
        requires
            n1 * ww2 <= n2 * ww1,
            x1 == 20 * n1,
            x2 == 20 * n2,
    ;
    // the whole exponents keep their order
    assert(k1 <= k2) by {
        if k1 > k2 {
            assert(x2 * ww1 < x1 * ww2) by (nonlinear_arith)
                requires
                    x1 == ww1 * k1 + r1,
                    x2 == ww2 * k2 + r2,
                    0 <= r1 < ww1,
                    0 <= r2 < ww2,
                    k1 >= k2 + 1,
                    ww1 >= 1,
                    ww2 >= 1,
            ;
        }
    }
    if k2 >= DECAY_STEPS || k1 >= DECAY_STEPS {
        return;
    }
    let kk1 = k1 as nat;
    let kk2 = k2 as nat;
    let a1 = BASE_SPACING * pow9(kk1);
    let a2 = BASE_SPACING * pow9(kk2);
    let d1 = pow10(kk1 + 1);
    let d2 = pow10(kk2 + 1);
    let nn1 = a1 * (10 * ww1 - r1);
    let mm1 = d1 * ww1;
    let nn2 = a2 * (10 * ww2 - r2);
    let mm2 = d2 * ww2;
    lemma_pow9_positive(kk1);
    lemma_pow9_positive(kk2);
    lemma_pow10_positive(kk1 + 1);
    lemma_pow10_positive(kk2 + 1);
    assert(mm1 >= 1 && mm2 >= 1 && nn1 >= 0 && nn2 >= 0) by (nonlinear_arith)
        requires
            mm1 == d1 * ww1,
            mm2 == d2 * ww2,
            nn1 == a1 * (10 * ww1 - r1),
            nn2 == a2 * (10 * ww2 - r2),
            d1 >= 1,
            d2 >= 1,
            ww1 >= 1,
            ww2 >= 1,
            a1 >= 0,
            a2 >= 0,
            r1 < ww1,
            r2 < ww2,
    ;
    if k1 == k2 {
        assert(r1 * ww2 <= r2 * ww1) by (nonlinear_arith)
            requires
                x1 == ww1 * k1 + r1,
                x2 == ww2 * k1 + r2,
                x1 * ww2 <= x2 * ww1,
        ;
        assert(nn2 * mm1 <= nn1 * mm2) by (nonlinear_arith)
            requires
                nn1 == a1 * (10 * ww1 - r1),
                nn2 == a1 * (10 * ww2 - r2),
                mm1 == d1 * ww1,
                mm2 == d1 * ww2,
                r1 * ww2 <= r2 * ww1,
                a1 >= 0,
                d1 >= 1,
        ;
    } else {
        // chord at k2 <= 0.2 * 0.9^k2 <= 0.2 * 0.9^(k1 + 1) <= chord at k1
        lemma_decay_falls(kk1 + 1, kk2);
        assert(pow9(kk1 + 1) == 9 * pow9(kk1));
        assert(d2 == 10 * pow10(kk2));
        assert(pow10(kk1 + 1) == d1);
        let p = BASE_SPACING * pow9(kk1 + 1);
        let q = d1;
        let top = a2 * (10 * ww2);
        assert(nn2 <= top) by (nonlinear_arith)
            requires
                nn2 == a2 * (10 * ww2 - r2),
                top == a2 * (10 * ww2),
                a2 >= 0,
                r2 >= 0,
        ;
        assert(nn2 * q <= top * q) by (nonlinear_arith)
            requires
                nn2 <= top,
                q >= 1,
        ;
        let g = BASE_SPACING * 10 * ww2;
        assert(g >= 0);
        assert(top * q == g * (pow9(kk2) * pow10(kk1 + 1))) by (nonlinear_arith)
            requires
                top == a2 * (10 * ww2),
                a2 == BASE_SPACING * pow9(kk2),
                q == pow10(kk1 + 1),
                g == BASE_SPACING * 10 * ww2,
        ;
        assert(p * mm2 == g * (pow9(kk1 + 1) * pow10(kk2))) by (nonlinear_arith)
            requires
                p == BASE_SPACING * pow9(kk1 + 1),
                mm2 == d2 * ww2,
                d2 == 10 * pow10(kk2),
                g == BASE_SPACING * 10 * ww2,
        ;
        assert(g * (pow9(kk2) * pow10(kk1 + 1)) <= g * (pow9(kk1 + 1) * pow10(kk2))) by (nonlinear_arith)
            requires
                pow9(kk2) * pow10(kk1 + 1) <= pow9(kk1 + 1) * pow10(kk2),
                g >= 0,
        ;
        assert(p == BASE_SPACING * 9 * pow9(kk1)) by (nonlinear_arith)
            requires
                p == BASE_SPACING * pow9(kk1 + 1),
                pow9(kk1 + 1) == 9 * pow9(kk1),
        ;
        assert(p * mm1 <= nn1 * q) by (nonlinear_arith)
            requires
                nn1 == a1 * (10 * ww1 - r1),
                a1 == BASE_SPACING * pow9(kk1),
                mm1 == d1 * ww1,
                p == BASE_SPACING * 9 * pow9(kk1),
                q == d1,
                0 <= r1 < ww1,
                pow9(kk1) >= 1,
                d1 >= 1,
        ;
        assert(nn2 * mm1 <= nn1 * mm2) by (nonlinear_arith)
            requires
                nn2 * q <= p * mm2,
                p * mm1 <= nn1 * q,
                q >= 1,
                mm1 >= 1,
                mm2 >= 1,
        ;
    }
    lemma_floor_monotone(nn1, mm1, nn2, mm2);
}

/// The chord for `k` below the decay steps, computed within `i128`.
fn chord_exec(k: u64, rest: u128, w: u32) -> (r: i128)
    requires
        k < DECAY_STEPS,
        rest < w,
    ensures
        r == chord(k as nat, rest as int, w as int),
        0 <= r <= BASE_SPACING,
{
    proof {
        lemma_pow9_bounds(k as nat);
    }
    let mut p9: i128 = 1;
    let mut i: u64 = 0;
    while i < k
        invariant
            i <= k < DECAY_STEPS,
            p9 == pow9(i as nat),
        decreases k - i,
    {
        proof {
            lemma_pow9_bounds((i + 1) as nat);
            assert(pow9((i + 1) as nat) == 9 * pow9(i as nat));
        }
        p9 = p9 * 9;
        i = i + 1;
    }
    // Cancel the common power of ten of `0.2` (in millionths) and `10^(k+1)`.
    let s: u32 = if k >= 4 {
        5
    } else {
        (k + 1) as u32
    };
    let a = pow10_exec(5 - s);
    let b = pow10_exec(k as u32 + 1 - s);
    let big_b: i128 = 10 * (w as i128) - rest as i128;
    proof {
        lemma_pow9_bounds(k as nat);
        lemma_pow10_30();
        lemma_pow10_positive((5 - s) as nat);
        lemma_pow10_positive((k + 1 - s) as nat);
        crate::fixed::lemma_pow10_monotone((5 - s) as nat, 4);
        crate::fixed::lemma_pow10_monotone((k + 1 - s) as nat, 24);
        reveal_with_fuel(pow10, 5);
        reveal_with_fuel(pow9, 4);
        if k < 4 {
            assert(p9 <= 729);
        }
        assert(0 < 2 * a * p9 <= 1_100_000_000_000_000_000_000_000_000) by (nonlinear_arith)
            requires
                1 <= a <= 10_000,
                1 <= p9 <= 523_347_633_027_360_537_213_511_521,
                k < 4 ==> p9 <= 729,
                k >= 4 ==> a == 1,
        ;
        assert(0 < 2 * a * p9 * big_b <= 1_100_000_000_000_000_000_000_000_000 * 42_949_672_950) by (nonlinear_arith)
            requires
                0 < 2 * a * p9 <= 1_100_000_000_000_000_000_000_000_000,
                0 < big_b <= 42_949_672_950,
        ;
        assert(0 < b * w <= 1_000_000_000_000_000_000_000_000 * 4_294_967_295) by (nonlinear_arith)
            requires
                1 <= b <= 1_000_000_000_000_000_000_000_000,
                1 <= w <= 4_294_967_295,
        ;
    }
    let num: i128 = 2 * a * p9 * big_b;
    let den: i128 = b * (w as i128);
    let r = floor_div_i128(num, den);
    proof {
        let c = pow10(s as nat);
        lemma_pow10_positive(s as nat);
        lemma_pow10_add(s as nat, (5 - s) as nat);
        lemma_pow10_add(s as nat, (k + 1 - s) as nat);
        assert(BASE_SPACING == 2 * pow10(5)) by {
            reveal_with_fuel(pow10, 6);
        }
        assert(BASE_SPACING * pow9(k as nat) * big_b == c * num) by (nonlinear_arith)
            requires
                BASE_SPACING == 2 * (c * a),
                num == 2 * a * p9 * big_b,
                p9 == pow9(k as nat),
        ;
        assert(pow10((k + 1) as nat) * w == c * den) by (nonlinear_arith)
            requires
                pow10((k + 1) as nat) == c * b,
                den == b * w,
        ;
        lemma_div_common_factor(num as int, den as int, c);
        lemma_chord_bounds(k as nat, rest as int, w as int);
    }
    r
}

/// Width and spacing of candles when `candle_count` of them share
/// `available_width` pixels (floored to the minimum width). Above the
/// ultra-compact threshold, with under a pixel per candle, spacing is zero.
pub fn compute_layout(candle_count: usize, available_width: u32) -> (plan: LayoutPlan)
    ensures
        plan == layout_plan(candle_count as nat, available_width as nat),
        plan.wf(),
        plan.candle_width.num > 0,
        plan.spacing_ratio <= BASE_SPACING,
{
    let w: u32 = if available_width < MIN_CHART_WIDTH {
        MIN_CHART_WIDTH
    } else {
        available_width
    };
    let ultra = candle_count > ULTRA_COMPACT_MIN_CANDLES && (w as usize) < candle_count;
    let ratio: u64 = if ultra {
        0
    } else {
        let x: u128 = 20 * (candle_count as u128);
        let k: u128 = x / (w as u128);
        let rest: u128 = x % (w as u128);
        if k >= DECAY_STEPS as u128 {
            MIN_SPACING
        } else {
            let v: i128 = chord_exec(k as u64, rest, w);
            if v < MIN_SPACING as i128 {
                MIN_SPACING
            } else {
                v as u64
            }
        }
    };
    assert(ratio <= BASE_SPACING);
    let n: i128 = candle_count as i128;
    proof {
        assert(0 <= n * 1_000_000 <= 18_446_744_073_709_551_615 * 1_000_000) by (nonlinear_arith)
            requires
                0 <= n <= 18_446_744_073_709_551_615,
        ;
        assert(0 <= (n + 1) * ratio <= 18_446_744_073_709_551_616 * 200_000) by (nonlinear_arith)
            requires
                0 <= n <= 18_446_744_073_709_551_615,
                0 <= ratio <= 200_000,
        ;
        assert(0 <= w * ratio <= w * 1_000_000) by (nonlinear_arith)
            requires
                0 <= w <= 4_294_967_295,
                0 <= ratio <= 200_000,
        ;
        assert(0 <= w * 1_000_000 <= 4_294_967_295 * 1_000_000) by (nonlinear_arith)
            requires
                0 <= w <= 4_294_967_295,
        ;
    }
    let total: i128 = n * (RATIO_DENOMINATOR as i128) + (n + 1) * (ratio as i128);
    proof {
        if !ultra {
            assert(ratio >= MIN_SPACING);
        } else {
            assert(n >= 1);
        }
        assert(total >= 1) by (nonlinear_arith)
            requires
                total == n * 1_000_000 + (n + 1) * ratio,
                n >= 0,
                ratio >= 0,
                n >= 1 || ratio >= 1,
        ;
    }
    LayoutPlan {
        candle_width: Px { num: (w as i128) * (RATIO_DENOMINATOR as i128), den: total },
        candle_spacing: Px { num: (w as i128) * (ratio as i128), den: total },
        spacing_ratio: ratio,
        ultra_compact: ultra,
    }
}

} // verus!
