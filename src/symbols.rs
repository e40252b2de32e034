//! Tradable symbols as listed by the exchange, and the precision of their
//! prices.
use vstd::prelude::*;
use crate::decimal::{decimal_parse, parse_decimal};
use crate::fixed::{pow10, FixedPrice};

verus! {

/// One filter of an instrument's trading rules.
#[derive(Clone, Debug)]
pub struct Filter {
    pub filter_type: String,
    pub tick_size: Option<String>,
}

/// An instrument as the exchange lists it.
#[derive(Clone, Debug)]
pub struct Instrument {
    pub status: String,
    pub base_asset_precision: i32,
    pub symbol: String,
    pub filters: Vec<Filter>,
}

/// A symbol's latest price, as the exchange sends it.
#[derive(Clone, Debug)]
pub struct SymbolWithPrice {
    pub symbol: String,
    pub price: String,
}

/// The exchange's list of instruments.
#[derive(Clone, Debug)]
pub struct Response {
    pub symbols: Vec<Instrument>,
}

/// A tradable symbol with the number of decimals of its prices.
#[derive(Clone, Debug)]
pub struct Symbol {
    pub symbol: String,
    pub price: Option<FixedPrice>,
    pub decimals: u32,
    pub timeframe: String,
}

impl Symbol {
    pub fn new(symbol: String, price: Option<FixedPrice>, decimals: u32, timeframe: String) -> (r: Symbol)
        ensures
            r.symbol == symbol,
            r.price == price,
            r.decimals == decimals,
            r.timeframe == timeframe,
    {
        Symbol { symbol, price, decimals, timeframe }
    }
}

/// An entry of the timeframe list: what it shows and the interval it asks
/// for.
#[derive(Clone, Copy, Debug, PartialEq, Eq)]
pub struct TimeframeOption {
    pub label: &'static str,
    pub value: &'static str,
}

/// Number of digits of `n`.
pub open spec fn digit_count(n: nat) -> nat
    decreases n,
{
    if n < 10 {
        1
    } else {
        1 + digit_count(n / 10)
    }
}

/// `(m, sc)` with trailing zero decimals dropped.
pub open spec fn normalized(m: nat, sc: nat) -> (nat, nat)
    decreases sc,
{
    if sc > 0 && m % 10 == 0 {
        normalized(m / 10, (sc - 1) as nat)
    } else {
        (m, sc)
    }
}

/// The decimals of a tick size written as a decimal `m * 10^-sc`: those
/// left once trailing zeros go; for a whole tick size, the length of the
/// whole number as written.
pub open spec fn decimals_of(m: int, sc: nat) -> nat {
    let mag: nat = if m < 0 {
        (-m) as nat
    } else {
        m as nat
    };
    let n = normalized(mag, sc);
    if n.1 > 0 {
        n.1
    } else if m < 0 {
        digit_count(n.0) + 1
    } else {
        digit_count(n.0)
    }
}

/// The decimals that a tick size text gives, where it is a decimal.
pub open spec fn tick_decimals(text: Seq<char>) -> Option<nat> {
    match decimal_parse(text) {
        Some(d) => Some(decimals_of(d.0 as int, d.1 as nat)),
        None => None,
    }
}

fn digit_count_exec(n: u128) -> (r: u32)
    ensures
        r == digit_count(n as nat),
        r <= 39,
{
    proof {
        reveal_with_fuel(pow10, 40);
        assert(pow10(39) == 1_000_000_000_000_000_000_000_000_000_000_000_000_000);
        lemma_digit_count_below(n as nat, 39);
    }
    let mut m = n;
    let mut count: u32 = 1;
    while m >= 10
        invariant
            count + digit_count(m as nat) == 1 + digit_count(n as nat),
            digit_count(n as nat) <= 39,
            count >= 1,
        decreases m,
    {
        m = m / 10;
        count = count + 1;
    }
    count
}

/// A number below `10^k` has at most `k` digits.
proof fn lemma_digit_count_below(n: nat, k: nat)
    requires
        k >= 1,
        n < pow10(k),
    ensures
        digit_count(n) <= k,
    decreases k,
{
    if n >= 10 {
        assert(pow10(k) == 10 * pow10((k - 1) as nat));
        if k == 1 {
            assert(pow10(0) == 1);
        }
        lemma_digit_count_below(n / 10, (k - 1) as nat);
    }
}

/// The number of decimals of prices quoted in steps of `tick_size`;
/// `None` where the text is no decimal.
pub fn decimals_from_tick_size(tick_size: &str) -> (r: Option<u32>)
    ensures
        r.is_some() == tick_decimals(tick_size@).is_some(),
        r.is_some() ==> r.unwrap() == tick_decimals(tick_size@).unwrap(),
{
    match parse_decimal(tick_size) {
        None => None,
        Some((m, sc)) => {
            let neg = m < 0;
            let mut mag: u128 = if neg {
                (-m) as u128
            } else {
                m as u128
            };
            let mut s: u32 = sc;
            while s > 0 && mag % 10 == 0
                invariant
                    normalized(mag as nat, s as nat) == normalized(
                        (if m < 0 {
                            (-m) as nat
                        } else {
                            m as nat
                        }),
                        sc as nat,
                    ),
                    s <= sc,
                decreases s,
            {
                mag = mag / 10;
                s = s - 1;
            }
            if s > 0 {
                Some(s)
            } else if neg {
                Some(digit_count_exec(mag) + 1)
            } else {
                Some(digit_count_exec(mag))
            }
        },
    }
}


/// The tick size of the first price filter, if there is one.
pub open spec fn price_filter_tick(fs: Seq<Filter>) -> Option<Option<String>>
    decreases fs.len(),
{
    if fs.len() == 0 {
        None
    } else if fs[0].filter_type@ == "PRICE_FILTER"@ {
        Some(fs[0].tick_size)
    } else {
        price_filter_tick(fs.drop_first())
    }
}

/// The decimals of an instrument that is listed for trading: it trades, and
/// its first price filter has a tick size that is a decimal.
pub open spec fn listed_decimals(i: Instrument) -> Option<nat> {
    if i.status@ != "TRADING"@ {
        None
    } else {
        match price_filter_tick(i.filters@) {
            Some(Some(t)) => tick_decimals(t@),
            _ => None,
        }
    }
}

/// The symbols and decimals of the listed instruments, in order.
pub open spec fn listed(is: Seq<Instrument>) -> Seq<(String, nat)>
    decreases is.len(),
{
    if is.len() == 0 {
        Seq::empty()
    } else {
        let rest = listed(is.drop_last());
        match listed_decimals(is.last()) {
            Some(d) => rest.push((is.last().symbol, d)),
            None => rest,
        }
    }
}

fn price_filter_tick_exec(fs: &Vec<Filter>) -> (r: Option<Option<String>>)
    ensures
        r == price_filter_tick(fs@),
{
    let wanted = "PRICE_FILTER".to_owned();
    let mut i: usize = 0;
    assert(fs@.subrange(0, fs@.len() as int) == fs@);
    while i < fs.len()
        invariant
            i <= fs@.len(),
            wanted@ == "PRICE_FILTER"@,
            price_filter_tick(fs@) == price_filter_tick(fs@.subrange(i as int, fs@.len() as int)),
        decreases fs@.len() - i,
    {
        let ghost rest = fs@.subrange(i as int, fs@.len() as int);
        assert(rest[0] == fs@[i as int]);
        if fs[i].filter_type == wanted {
            return Some(fs[i].tick_size.clone());
        }
        assert(rest.drop_first() == fs@.subrange(i + 1, fs@.len() as int));
        i = i + 1;
    }
    None
}

/// The symbols of the instruments that trade, each with the decimals of its
/// price filter's tick size, at the one-minute timeframe and with no price
/// yet. Instruments without a usable price filter are left out.
pub fn symbols_from_response(resp: &Response) -> (r: Vec<Symbol>)
    ensures
        r@.len() == listed(resp.symbols@).len(),
        forall|k: int|
            0 <= k < r@.len() ==> {
                &&& (#[trigger] r@[k]).symbol == listed(resp.symbols@)[k].0
                &&& r@[k].decimals == listed(resp.symbols@)[k].1
                &&& r@[k].price.is_none()
                &&& r@[k].timeframe@ == "1m"@
            },
{
    let trading = "TRADING".to_owned();
    let mut out: Vec<Symbol> = Vec::new();
    let mut i: usize = 0;
    let ghost is = resp.symbols@;
    while i < resp.symbols.len()
        invariant
            is == resp.symbols@,
            i <= is.len(),
            trading@ == "TRADING"@,
            out@.len() == listed(is.take(i as int)).len(),
            forall|k: int|
                0 <= k < out@.len() ==> {
                    &&& (#[trigger] out@[k]).symbol == listed(is.take(i as int))[k].0
                    &&& out@[k].decimals == listed(is.take(i as int))[k].1
                    &&& out@[k].price.is_none()
                    &&& out@[k].timeframe@ == "1m"@
                },
        decreases is.len() - i,
    {
        let inst = &resp.symbols[i];
        proof {
            let next = is.take(i + 1);
            assert(next.drop_last() == is.take(i as int));
            assert(next.last() == is[i as int]);
        }
        if inst.status == trading {
            match price_filter_tick_exec(&inst.filters) {
                Some(Some(tick)) => {
                    match decimals_from_tick_size(tick.as_str()) {
                        Some(d) => {
                            out.push(Symbol { symbol: inst.symbol.clone(), price: None, decimals: d, timeframe: "1m".to_owned() });
                        },
                        None => {},
                    }
                },
                _ => {},
            }
        }
        i = i + 1;
    }
    proof {
        assert(is.take(is.len() as int) == is);
    }
    out
}

} // verus!
