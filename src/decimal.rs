//! The decimal library's parsing, rescaling and printing, and the exact
//! conversion of its values to fixed-point prices.
use vstd::prelude::*;
use rust_decimal::Decimal;
use std::str::FromStr;
use crate::fixed::{pow10, FixedPrice};

verus! {

/// Largest mantissa magnitude of a decimal: `2^96 - 1`.
pub const MAX_DECIMAL_MANTISSA: i128 = 0xFFFF_FFFF_FFFF_FFFF_FFFF_FFFF;

/// Largest scale of a decimal.
pub const MAX_DECIMAL_SCALE: u32 = 28;

/// What the decimal library reads from a text, as `(mantissa, scale)`.
pub uninterp spec fn decimal_parse(text: Seq<char>) -> Option<(i128, u32)>;

/// The character of a decimal digit.
pub open spec fn digit(d: int) -> char {
    seq!['0', '1', '2', '3', '4', '5', '6', '7', '8', '9'][d]
}

/// The decimal digits of `n`, none for zero.
pub open spec fn digits_of(n: nat) -> Seq<char>
    decreases n,
{
    if n == 0 {
        Seq::empty()
    } else {
        digits_of(n / 10).push(digit((n % 10) as int))
    }
}

/// `s` with zeros in front up to `len` characters.
pub open spec fn zero_padded(s: Seq<char>, len: nat) -> Seq<char> {
    if s.len() < len {
        Seq::new((len - s.len()) as nat, |i: int| '0') + s
    } else {
        s
    }
}

/// How the decimal library prints `units * 10^-scale`: a minus sign for a
/// negative value, the whole digits (`0` where there are none), then, for a
/// positive scale, a point and exactly `scale` fraction digits.
pub open spec fn decimal_text(units: int, scale: nat) -> Seq<char> {
    let mag: nat = if units < 0 {
        (-units) as nat
    } else {
        units as nat
    };
    let d = zero_padded(digits_of(mag), scale);
    let whole = d.subrange(0, d.len() - scale);
    let frac = d.subrange(d.len() - scale, d.len() as int);
    let body = if scale == 0 {
        if d.len() == 0 {
            seq!['0']
        } else {
            d
        }
    } else {
        (if whole.len() == 0 {
            seq!['0']
        } else {
            whole
        }) + seq!['.'] + frac
    };
    if units < 0 {
        seq!['-'] + body
    } else {
        body
    }
}

/// `m / 10^k` rounded to the nearest integer, halves away from zero.
pub open spec fn round_half_away(m: int, k: nat) -> int {
    if k == 0 {
        m
    } else if m >= 0 {
        (m + 5 * pow10((k - 1) as nat)) / pow10(k)
    } else {
        -((-m + 5 * pow10((k - 1) as nat)) / pow10(k))
    }
}

/// Relies on `rust_decimal::Decimal`'s `FromStr`, with `mantissa` and
/// `scale` read back: every decimal has a mantissa below `2^96` in magnitude
/// and a scale of at most 28.
#[verifier::external_body]
pub(crate) fn parse_decimal(text: &str) -> (r: Option<(i128, u32)>)
    ensures
        r == decimal_parse(text@),
        r.is_some() ==> r.unwrap().1 <= MAX_DECIMAL_SCALE,
        r.is_some() ==> -MAX_DECIMAL_MANTISSA <= r.unwrap().0 <= MAX_DECIMAL_MANTISSA,
{
    Decimal::from_str(text).ok().map(|d| (d.mantissa(), d.scale()))
}

/// Relies on `Decimal::from_i128_with_scale` and `Decimal::rescale`: going
/// to fewer decimals rounds halves away from zero; going to more keeps the
/// value and reaches the asked scale unless the mantissa would pass `2^96`,
/// where it stops at the finest scale that fits.
#[verifier::external_body]
pub(crate) fn rescale_decimal(mantissa: i128, scale: u32, to: u32) -> (r: (i128, u32))
    requires
        -MAX_DECIMAL_MANTISSA <= mantissa <= MAX_DECIMAL_MANTISSA,
        scale <= MAX_DECIMAL_SCALE,
        to <= MAX_DECIMAL_SCALE,
    ensures
        to <= scale ==> r.1 == to && r.0 == round_half_away(mantissa as int, (scale - to) as nat),
        to > scale ==> scale <= r.1 <= to && r.0 == mantissa * pow10((r.1 - scale) as nat),
        to > scale && -MAX_DECIMAL_MANTISSA <= mantissa * pow10((to - scale) as nat)
            <= MAX_DECIMAL_MANTISSA ==> r.1 == to,
{
    let mut d = Decimal::from_i128_with_scale(mantissa, scale);
    d.rescale(to);
    (d.mantissa(), d.scale())
}

/// Relies on `Decimal::new` and `Decimal`'s `Display` (without a width or
/// precision): the value's digits, with as many fraction digits as its scale.
#[verifier::external_body]
pub(crate) fn print_decimal(units: i64, scale: u32) -> (r: String)
    requires
        scale <= MAX_DECIMAL_SCALE,
    ensures
        r@ == decimal_text(units as int, scale as nat),
{
    Decimal::new(units, scale).to_string()
}

/// A decimal `mantissa * 10^-scale` at `decimals` decimals, rounded halves
/// away from zero where it has more.
pub open spec fn rescaled_units(mantissa: int, scale: nat, decimals: nat) -> int {
    if decimals <= scale {
        round_half_away(mantissa, (scale - decimals) as nat)
    } else {
        mantissa * pow10((decimals - scale) as nat)
    }
}

/// The price at `decimals` decimals for a decimal, where its units fit.
pub open spec fn price_of_decimal(mantissa: int, scale: nat, decimals: nat) -> Option<FixedPrice> {
    let u = rescaled_units(mantissa, scale, decimals);
    if i64::MIN <= u <= i64::MAX {
        Some(FixedPrice { units: u as i64, scale: decimals as u32 })
    } else {
        None
    }
}

/// The price that a text denotes at `decimals` decimals.
pub open spec fn price_of_text(text: Seq<char>, decimals: nat) -> Option<FixedPrice> {
    match decimal_parse(text) {
        Some(d) => price_of_decimal(d.0 as int, d.1 as nat, decimals),
        None => None,
    }
}

/// The decimal `mantissa * 10^-scale` as a price at `decimals` decimals:
/// `None` where its units at that precision do not fit an `i64`.
pub fn price_from_decimal(mantissa: i128, scale: u32, decimals: u32) -> (r: Option<FixedPrice>)
    requires
        -MAX_DECIMAL_MANTISSA <= mantissa <= MAX_DECIMAL_MANTISSA,
        scale <= MAX_DECIMAL_SCALE,
        decimals <= MAX_DECIMAL_SCALE,
    ensures
        r == price_of_decimal(mantissa as int, scale as nat, decimals as nat),
{
    let (m, s) = rescale_decimal(mantissa, scale, decimals);
    if s == decimals && i64::MIN as i128 <= m && m <= i64::MAX as i128 {
        Some(FixedPrice { units: m as i64, scale: decimals })
    } else {
        proof {
            if decimals > scale && s != decimals {
                // The rescaling stopped short: the full value passes `2^96`.
                assert(!(-MAX_DECIMAL_MANTISSA <= mantissa * pow10((decimals - scale) as nat)
                    <= MAX_DECIMAL_MANTISSA));
            }
        }
        None
    }
}

/// The price that `text` denotes at `decimals` decimals; `None` where the
/// text is no decimal or the price does not fit.
pub fn price_from_text(text: &str, decimals: u32) -> (r: Option<FixedPrice>)
    requires
        decimals <= MAX_DECIMAL_SCALE,
    ensures
        r == price_of_text(text@, decimals as nat),
{
    match parse_decimal(text) {
        Some((m, s)) => price_from_decimal(m, s, decimals),
        None => None,
    }
}

/// The text of a price as the decimal library prints it.
pub fn price_text(p: FixedPrice) -> (r: String)
    requires
        p.scale <= MAX_DECIMAL_SCALE,
    ensures
        r@ == decimal_text(p.units as int, p.scale as nat),
{
    print_decimal(p.units, p.scale)
}

} // verus!
