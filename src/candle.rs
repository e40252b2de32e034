//! Candles and their construction from a market-data response.
use vstd::prelude::*;
use crate::decimal::{price_from_text, price_of_text, MAX_DECIMAL_SCALE};
use crate::fixed::FixedPrice;

verus! {

/// Whether a candle closed above its open.
#[derive(Clone, Copy, Debug, PartialEq, Eq, Structural)]
pub enum CandleRole {
    Bullish,
    Bearish,
}

/// One period of trading: prices at the symbol's precision, times in epoch
/// milliseconds. `low <= min(open, close)` and `high >= max(open, close)`
/// are expected of the data, not enforced.
#[derive(Clone, Copy, Debug, PartialEq, Eq, Structural)]
pub struct Candle {
    pub open: FixedPrice,
    pub high: FixedPrice,
    pub low: FixedPrice,
    pub close: FixedPrice,
    pub open_time: u64,
    pub close_time: u64,
}

/// `a < b` between prices of one precision.
pub open spec fn below(a: FixedPrice, b: FixedPrice) -> bool {
    a.units < b.units
}

impl Candle {
    /// All four prices at one precision, as the prices of one symbol are.
    pub open spec fn wf(self) -> bool {
        &&& self.high.scale == self.open.scale
        &&& self.low.scale == self.open.scale
        &&& self.close.scale == self.open.scale
    }

    pub open spec fn role(self) -> CandleRole {
        if below(self.open, self.close) {
            CandleRole::Bullish
        } else {
            CandleRole::Bearish
        }
    }

    /// The style role that picks this candle's color: bullish when it closed
    /// above its open.
    pub fn get_color(&self) -> (r: CandleRole)
        requires
            self.wf(),
        ensures
            r == self.role(),
    {
        if self.close.units > self.open.units {
            CandleRole::Bullish
        } else {
            CandleRole::Bearish
        }
    }
}

/// The fields of one entry of a candle response, as found: `field_count` is
/// the entry's length, and a field is `None` where it is missing or of
/// another kind.
#[derive(Clone, Debug)]
pub struct RawKline {
    pub field_count: usize,
    pub open_time: Option<u64>,
    pub open: Option<String>,
    pub high: Option<String>,
    pub low: Option<String>,
    pub close: Option<String>,
    pub close_time: Option<u64>,
}

/// Entries shorter than this are malformed.
pub const KLINE_FIELDS: usize = 12;

/// The price in an optional text field.
pub open spec fn field_price(f: Option<String>, decimals: nat) -> Option<FixedPrice> {
    match f {
        Some(t) => price_of_text(t@, decimals),
        None => None,
    }
}

/// The candle an entry describes, if it is complete and its prices parse.
pub open spec fn kline_candle(k: RawKline, decimals: nat) -> Option<Candle> {
    let open = field_price(k.open, decimals);
    let high = field_price(k.high, decimals);
    let low = field_price(k.low, decimals);
    let close = field_price(k.close, decimals);
    if k.field_count >= KLINE_FIELDS && k.open_time.is_some() && k.close_time.is_some()
        && open.is_some() && high.is_some() && low.is_some() && close.is_some() {
        Some(
            Candle {
                open: open.unwrap(),
                high: high.unwrap(),
                low: low.unwrap(),
                close: close.unwrap(),
                open_time: k.open_time.unwrap(),
                close_time: k.close_time.unwrap(),
            },
        )
    } else {
        None
    }
}

/// The candles of the well-formed entries, in order.
pub open spec fn kline_candles(rows: Seq<RawKline>, decimals: nat) -> Seq<Candle>
    decreases rows.len(),
{
    if rows.len() == 0 {
        Seq::empty()
    } else {
        let rest = kline_candles(rows.drop_last(), decimals);
        match kline_candle(rows.last(), decimals) {
            Some(c) => rest.push(c),
            None => rest,
        }
    }
}

fn field_price_exec(f: &Option<String>, decimals: u32) -> (r: Option<FixedPrice>)
    requires
        decimals <= MAX_DECIMAL_SCALE,
    ensures
        r == field_price(*f, decimals as nat),
{
    match f {
        Some(t) => price_from_text(t.as_str(), decimals),
        None => None,
    }
}

/// The candle of one response entry at `decimals` decimals; `None` for an
/// entry with fewer than twelve fields, a missing time, or a price that does
/// not parse.
pub fn candle_from_kline(k: &RawKline, decimals: u32) -> (r: Option<Candle>)
    requires
        decimals <= MAX_DECIMAL_SCALE,
    ensures
        r == kline_candle(*k, decimals as nat),
        r.is_some() ==> r.unwrap().wf(),
{
    if k.field_count < KLINE_FIELDS {
        return None;
    }
    let open = field_price_exec(&k.open, decimals);
    let high = field_price_exec(&k.high, decimals);
    let low = field_price_exec(&k.low, decimals);
    let close = field_price_exec(&k.close, decimals);
    match (k.open_time, k.close_time, open, high, low, close) {
        (Some(open_time), Some(close_time), Some(open), Some(high), Some(low), Some(close)) => {
            Some(Candle { open, high, low, close, open_time, close_time })
        },
        _ => None,
    }
}

/// The candles of a response: its malformed entries are left out.
pub fn candles_from_klines(rows: &Vec<RawKline>, decimals: u32) -> (r: Vec<Candle>)
    requires
        decimals <= MAX_DECIMAL_SCALE,
    ensures
        r@ == kline_candles(rows@, decimals as nat),
{
    let mut out: Vec<Candle> = Vec::new();
    let mut i: usize = 0;
    while i < rows.len()
        invariant
            decimals <= MAX_DECIMAL_SCALE,
            i <= rows@.len(),
            out@ == kline_candles(rows@.take(i as int), decimals as nat),
        decreases rows@.len() - i,
    {
        let c = candle_from_kline(&rows[i], decimals);
        proof {
            let next = rows@.take(i + 1);
            assert(next.drop_last() == rows@.take(i as int));
            assert(next.last() == rows@[i as int]);
        }
        match c {
            Some(c) => out.push(c),
            None => {},
        }
        i = i + 1;
    }
    proof {
        assert(rows@.take(rows@.len() as int) == rows@);
    }
    out
}

} // verus!
