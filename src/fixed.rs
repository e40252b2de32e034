//! Exact fixed-point decimal prices.
use vstd::prelude::*;
use vstd::arithmetic::div_mod::{
    lemma_div_is_ordered_by_denominator, lemma_fundamental_div_mod,
    lemma_fundamental_div_mod_converse,
};

verus! {

/// `10` raised to `n`.
pub open spec fn pow10(n: nat) -> int
    decreases n,
{
    if n == 0 {
        1
    } else {
        10 * pow10((n - 1) as nat)
    }
}

pub proof fn lemma_pow10_positive(n: nat)
    ensures
        pow10(n) >= 1,
    decreases n,
{
    if n > 0 {
        lemma_pow10_positive((n - 1) as nat);
    }
}

pub proof fn lemma_pow10_add(a: nat, b: nat)
    ensures
        pow10(a + b) == pow10(a) * pow10(b),
    decreases b,
{
    if b > 0 {
        lemma_pow10_add(a, (b - 1) as nat);
        assert(pow10(a + b) == 10 * pow10((a + b - 1) as nat));
        assert(pow10(a) * pow10(b) == pow10(a) * (10 * pow10((b - 1) as nat)));
        assert(pow10(a) * (10 * pow10((b - 1) as nat)) == 10 * (pow10(a) * pow10((b - 1) as nat)))
            by (nonlinear_arith);
    }
}

pub proof fn lemma_pow10_30()
    ensures
        pow10(3) == 1000,
        pow10(9) == 1000000000,
        pow10(18) == 1000000000000000000,
        pow10(28) == 10000000000000000000000000000,
        pow10(30) == 1000000000000000000000000000000,
{
    reveal_with_fuel(pow10, 31);
}

pub proof fn lemma_pow10_monotone(a: nat, b: nat)
    requires
        a <= b,
    ensures
        pow10(a) <= pow10(b),
    decreases b,
{
    if a < b {
        lemma_pow10_monotone(a, (b - 1) as nat);
        lemma_pow10_positive((b - 1) as nat);
    }
}

/// `10` raised to `n`, for the powers that fit an `i128` with room to spare.
pub fn pow10_exec(n: u32) -> (r: i128)
    requires
        n <= 30,
    ensures
        r == pow10(n as nat),
{
    let mut r: i128 = 1;
    let mut i: u32 = 0;
    while i < n
        invariant
            i <= n <= 30,
            r == pow10(i as nat),
        decreases n - i,
    {
        proof {
            lemma_pow10_monotone((i + 1) as nat, 30);
            lemma_pow10_30();
            assert(pow10((i + 1) as nat) == 10 * pow10(i as nat));
            assert(r * 10 <= 1000000000000000000000000000000);
            lemma_pow10_positive(i as nat);
        }
        r = r * 10;
        i = i + 1;
    }
    r
}

/// A quotient by a divisor larger than the dividend's magnitude is `0` or `-1`.
proof fn lemma_small_quotient(a: int, p: int)
    requires
        -9223372036854775808 <= a <= 9223372036854775807,
        p >= 1000000000000000000000000000000,
    ensures
        a >= 0 ==> a / p == 0,
        a < 0 ==> a / p == -1,
{
    if a >= 0 {
        lemma_fundamental_div_mod_converse(a, p, 0, a);
    } else {
        lemma_fundamental_div_mod_converse(a, p, -1, a + p);
    }
}

/// Dividing by a positive number keeps a value within `i64` range.
proof fn lemma_quotient_bounds(a: int, p: int)
    requires
        -9223372036854775808 <= a <= 9223372036854775807,
        p >= 1,
    ensures
        -9223372036854775808 <= a / p <= 9223372036854775807,
{
    lemma_fundamental_div_mod(a, p);
    assert(p * (a / p) <= a);
    assert(p * (a / p) > a - p);
    if a / p > 9223372036854775807 {
        assert(p * (a / p) >= a / p) by (nonlinear_arith)
            requires
                a / p >= 0,
                p >= 1,
        ;
    }
    if a / p < -9223372036854775808 {
        let q = a / p;
        assert(p * (q + 1) <= q + 1) by (nonlinear_arith)
            requires
                q + 1 <= 0,
                p >= 1,
        ;
        assert(p * (q + 1) == p * q + p) by (nonlinear_arith);
    }
}

/// `a / b` rounded down.
pub fn floor_div_i128(a: i128, b: i128) -> (q: i128)
    requires
        b > 0,
        a > i128::MIN,
    ensures
        q == a / b,
{
    if a >= 0 {
        let q = (a as u128) / (b as u128);
        q as i128
    } else {
        let m = (-a) as u128;
        let bb = b as u128;
        let q = m / bb;
        let r = m % bb;
        proof {
            lemma_fundamental_div_mod(m as int, bb as int);
            assert(q <= m) by {
                lemma_div_is_ordered_by_denominator(m as int, 1, bb as int);
            }
        }
        if r == 0 {
            proof {
                assert(a == (-q) * b) by (nonlinear_arith)
                    requires
                        a == -(m as int),
                        m == b * q,
                ;
                lemma_fundamental_div_mod_converse(a as int, b as int, -q, 0);
            }
            -(q as i128)
        } else {
            proof {
                assert(a == (-q - 1) * b + (b - r)) by (nonlinear_arith)
                    requires
                        a == -(m as int),
                        m == b * q + r,
                ;
                lemma_fundamental_div_mod_converse(a as int, b as int, -q - 1, b - r);
            }
            -(q as i128) - 1
        }
    }
}

/// `p` rounded down to `d` decimals; written with `d` decimals where it has
/// fewer and its units still fit, and kept as it is otherwise.
pub open spec fn truncated(p: FixedPrice, d: nat) -> FixedPrice {
    if p.scale >= d {
        FixedPrice { units: ((p.units as int) / pow10((p.scale - d) as nat)) as i64, scale: d as u32 }
    } else if d - p.scale <= 18 && i64::MIN <= p.at(d) <= i64::MAX {
        FixedPrice { units: p.at(d) as i64, scale: d as u32 }
    } else {
        p
    }
}

/// A decimal number `units * 10^-scale`, held exactly. `==` compares units
/// and scale, so `1.0` and `1` differ; `at` compares values.
#[derive(Clone, Copy, Debug, PartialEq, Eq, Structural)]
pub struct FixedPrice {
    pub units: i64,
    pub scale: u32,
}

impl FixedPrice {
    /// The value as a whole number of `10^-s` steps (meaningful for `s >= scale`).
    pub open spec fn at(self, s: nat) -> int {
        self.units * pow10((s - self.scale) as nat)
    }

    pub fn new(units: i64, scale: u32) -> (r: FixedPrice)
        ensures
            r.units == units,
            r.scale == scale,
    {
        FixedPrice { units, scale }
    }

    /// A whole number.
    pub fn from_int(value: i64) -> (r: FixedPrice)
        ensures
            r.units == value,
            r.scale == 0,
    {
        FixedPrice { units: value, scale: 0 }
    }

    /// The value counted in steps of `10^-s`, for a finer scale `s`.
    pub fn units_at(&self, s: u32) -> (r: i128)
        requires
            self.scale <= s,
            s - self.scale <= 18,
        ensures
            r == self.at(s as nat),
    {
        let k = s - self.scale;
        let p = pow10_exec(k);
        proof {
            lemma_pow10_monotone(k as nat, 18);
            lemma_pow10_30();
            lemma_pow10_positive(k as nat);
            let u = self.units as int;
            assert(-9223372036854775808 <= u <= 9223372036854775807);
            assert(1 <= p <= 1000000000000000000);
            assert(-9223372036854775808 * 1000000000000000000 <= u * p <= 9223372036854775807
                * 1000000000000000000) by (nonlinear_arith)
                requires
                    -9223372036854775808 <= u <= 9223372036854775807,
                    1 <= p <= 1000000000000000000,
            ;
        }
        (self.units as i128) * p
    }

    /// The value rounded down to `d` decimals. A value with fewer decimals is
    /// written with `d` of them where its units still fit an `i64`, and kept
    /// as it is otherwise.
    pub fn truncate_to_decimals(&self, d: u32) -> (r: FixedPrice)
        ensures
            r == truncated(*self, d as nat),
            self.scale >= d ==> r.scale == d && r.units == (self.units as int) / pow10((self.scale - d) as nat),
            self.scale < d && d - self.scale <= 18 && i64::MIN <= self.at(d as nat) <= i64::MAX
                ==> r.scale == d && r.units == self.at(d as nat),
            self.scale < d && !(d - self.scale <= 18 && i64::MIN <= self.at(d as nat) <= i64::MAX)
                ==> r == *self,
    {
        if self.scale >= d {
            let k = self.scale - d;
            if k > 30 {
                // Dropping more than thirty digits leaves the sign alone.
                proof {
                    lemma_pow10_monotone(30, k as nat);
                    lemma_pow10_30();
                    lemma_small_quotient(self.units as int, pow10(k as nat));
                }
                let units: i64 = if self.units < 0 {
                    -1
                } else {
                    0
                };
                return FixedPrice { units, scale: d };
            }
            let p = pow10_exec(k);
            proof {
                lemma_pow10_positive(k as nat);
                lemma_quotient_bounds(self.units as int, p as int);
            }
            let q = floor_div_i128(self.units as i128, p);
            FixedPrice { units: q as i64, scale: d }
        } else if d - self.scale <= 18 {
            let v = self.units_at(d);
            if i64::MIN as i128 <= v && v <= i64::MAX as i128 {
                FixedPrice { units: v as i64, scale: d }
            } else {
                *self
            }
        } else {
            *self
        }
    }
}

} // verus!
