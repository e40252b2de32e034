use juicy_lemon::candle::Candle;
use juicy_lemon::chart::{price_bounds, render_frame};
use juicy_lemon::fixed::FixedPrice;
use juicy_lemon::geometry::{Primitive, Px, Role};
use juicy_lemon::select::{get_current_select_state, get_default_select_state};
use juicy_lemon::symbols::{decimals_from_tick_size, symbols_from_response, Filter, Instrument, Response, Symbol};
use juicy_lemon::xaxis::XAxisRenderer;

fn px_value(v: Px) -> f64 {
    v.num as f64 / v.den as f64
}

fn candle(open: i64, high: i64, low: i64, close: i64, open_time: u64) -> Candle {
    let p = |u| FixedPrice::new(u, 2);
    Candle { open: p(open), high: p(high), low: p(low), close: p(close), open_time, close_time: open_time + 59_999 }
}

#[test]
fn time_axis_quarter_hours() {
    let x = XAxisRenderer {
        screen_width: 400,
        screen_height: 200,
        start_time: 0,
        end_time: 3_600_000,
        timeframe: "1m".to_string(),
    };
    let prims = x.layout_time_axis(0);
    assert_eq!(prims.len(), 11);
    let mut texts = Vec::new();
    for k in 0..5 {
        match &prims[1 + 2 * k] {
            Primitive::Text { content, position, role, .. } => {
                assert_eq!(*role, Role::TimeLabel);
                texts.push(content.clone());
                let x_pos = 400.0 * (k as f64) / 4.0;
                assert!((px_value(position.x) - (x_pos - 18.0)).abs() < 1e-9);
                assert_eq!(px_value(position.y), 310.0);
            }
            _ => panic!("label expected"),
        }
        match &prims[2 + 2 * k] {
            Primitive::Line { from, to, role } => {
                assert_eq!(*role, Role::TimeTick);
                assert_eq!(px_value(from.y), 300.0);
                assert_eq!(px_value(to.y), 307.0);
            }
            _ => panic!("tick expected"),
        }
    }
    assert_eq!(texts, vec!["00:00", "00:15", "00:30", "00:45", "01:00"]);
}

#[test]
fn time_axis_starts_at_the_next_round_minute() {
    // 10:07:30 to 10:52:00 local, with an offset of one hour
    let start = (9 * 60 + 7) * 60_000 + 30_000;
    let x = XAxisRenderer {
        screen_width: 100,
        screen_height: 0,
        start_time: start,
        end_time: start + 44 * 60_000 + 30_000,
        timeframe: "1m".to_string(),
    };
    let prims = x.layout_time_axis(3600);
    let texts: Vec<String> = prims
        .iter()
        .filter_map(|p| match p {
            Primitive::Text { content, .. } => Some(content.clone()),
            _ => None,
        })
        .collect();
    assert_eq!(texts, vec!["10:15", "10:30", "10:45"]);
}

#[test]
fn time_axis_wide_range_uses_half_hours() {
    let x = XAxisRenderer {
        screen_width: 100,
        screen_height: 0,
        start_time: 0,
        end_time: 4 * 3_600_000,
        timeframe: "1m".to_string(),
    };
    assert_eq!(x.layout_time_axis(0).len(), 1 + 2 * 9);
}

#[test]
fn time_axis_other_timeframes_draw_the_line_only() {
    let x = XAxisRenderer {
        screen_width: 640,
        screen_height: 200,
        start_time: 0,
        end_time: 3_600_000,
        timeframe: "1h".to_string(),
    };
    let prims = x.render_axis();
    assert_eq!(prims.len(), 1);
    match &prims[0] {
        Primitive::Line { from, to, role } => {
            assert_eq!(*role, Role::AxisLine);
            assert_eq!(px_value(from.y), 300.0);
            assert_eq!(px_value(to.x), 640.0);
        }
        _ => panic!("axis line expected"),
    }
}

#[test]
fn tick_size_decimals() {
    assert_eq!(decimals_from_tick_size("0.01000000"), Some(2));
    assert_eq!(decimals_from_tick_size("0.00000001"), Some(8));
    assert_eq!(decimals_from_tick_size("1.00000000"), Some(1));
    assert_eq!(decimals_from_tick_size("10.00000000"), Some(2));
    assert_eq!(decimals_from_tick_size("0.5"), Some(1));
    assert_eq!(decimals_from_tick_size("tick"), None);
}

fn instrument(symbol: &str, status: &str, filters: Vec<Filter>) -> Instrument {
    Instrument { status: status.to_string(), base_asset_precision: 8, symbol: symbol.to_string(), filters }
}

fn filter(kind: &str, tick: Option<&str>) -> Filter {
    Filter { filter_type: kind.to_string(), tick_size: tick.map(|t| t.to_string()) }
}

#[test]
fn symbols_of_trading_instruments() {
    let resp = Response {
        symbols: vec![
            instrument("BTCUSDT", "TRADING", vec![filter("LOT_SIZE", Some("0.1")), filter("PRICE_FILTER", Some("0.01000000"))]),
            instrument("OLDUSDT", "BREAK", vec![filter("PRICE_FILTER", Some("0.01"))]),
            instrument("ODDUSDT", "TRADING", vec![filter("LOT_SIZE", Some("0.1"))]),
            instrument("ETHBTC", "TRADING", vec![filter("PRICE_FILTER", Some("0.00001000"))]),
        ],
    };
    let symbols: Vec<Symbol> = symbols_from_response(&resp);
    assert_eq!(symbols.len(), 2);
    assert_eq!(symbols[0].symbol, "BTCUSDT");
    assert_eq!(symbols[0].decimals, 2);
    assert_eq!(symbols[1].symbol, "ETHBTC");
    assert_eq!(symbols[1].decimals, 5);
    assert!(symbols.iter().all(|s| s.price.is_none() && s.timeframe == "1m"));
}

#[test]
fn symbol_constructor() {
    let s = Symbol::new("ETHUSDT".to_string(), Some(FixedPrice::new(123, 1)), 1, "5m".to_string());
    assert_eq!(s.symbol, "ETHUSDT");
    assert_eq!(s.price, Some(FixedPrice::new(123, 1)));
    assert_eq!(s.decimals, 1);
    assert_eq!(s.timeframe, "5m");
}

#[test]
fn bounds_of_the_candles() {
    assert_eq!(price_bounds(&Vec::new()), None);
    let cs = vec![candle(100, 120, 95, 110, 0), candle(110, 130, 105, 90, 1), candle(90, 80, 85, 85, 2)];
    assert_eq!(price_bounds(&cs), Some((FixedPrice::new(80, 2), FixedPrice::new(130, 2))));
}

#[test]
fn frame_of_a_series() {
    assert!(render_frame(&Vec::new(), 2, 800, 600, &"1m".to_string()).is_none());
    let cs = vec![candle(10000, 11000, 9500, 10500, 0), candle(10500, 12000, 10000, 11500, 60_000)];
    let f = render_frame(&cs, 2, 800, 600, &"1d".to_string()).unwrap();
    // range 95.00 .. 120.00: step 5, ticks 95 .. 120
    assert_eq!(f.price_axis.display_min, FixedPrice::new(9500, 2));
    assert_eq!(f.price_axis.display_max, FixedPrice::new(12000, 2));
    assert_eq!(f.price_axis.labels[0], "95.00");
    assert_eq!(f.time_axis.len(), 1);
    assert_eq!(f.candles.len(), 4);
    match &f.candles[1] {
        Primitive::Rectangle { origin, height, role, .. } => {
            // close 105 of 95..120 on 460 rows, 30 rows down
            assert!((px_value(origin.y) - (30.0 + 460.0 * 15.0 / 25.0)).abs() < 1e-9);
            assert!((px_value(*height) - 460.0 * 5.0 / 25.0).abs() < 1e-9);
            assert_eq!(*role, Role::CandleBody(juicy_lemon::candle::CandleRole::Bullish));
        }
        _ => panic!("body expected"),
    }
}

#[test]
fn time_axis_in_local_time() {
    let x = XAxisRenderer {
        screen_width: 400,
        screen_height: 200,
        start_time: 0,
        end_time: 3_600_000,
        timeframe: "1m".to_string(),
    };
    let prims = x.render_axis();
    // an hour holds four or five quarter-hour marks, whatever the offset
    assert!(prims.len() == 9 || prims.len() == 11);
    for p in &prims[1..] {
        match p {
            Primitive::Text { content, .. } => {
                assert_eq!(content.len(), 5);
                assert_eq!(&content[2..3], ":");
                let minutes: u32 = content[3..].parse().unwrap();
                assert_eq!(minutes % 15, 0);
            }
            Primitive::Line { role, .. } => assert_eq!(*role, Role::TimeTick),
            _ => panic!("unexpected primitive"),
        }
    }
}

fn listed(names: &[&str]) -> Vec<Symbol> {
    names.iter().map(|n| Symbol::new(n.to_string(), None, 2, "1m".to_string())).collect()
}

#[test]
fn picker_matches_typed_text_in_order() {
    let instruments = listed(&["ETHUSDT", "BTCUSDT", "ETHBTC", "SOLUSDT", "BTCEUR"]);
    let watchlist = listed(&["ETHBTC"]);
    assert_eq!(get_current_select_state(&instruments, "usd", &watchlist), vec!["BTCUSDT", "ETHUSDT", "SOLUSDT"]);
    assert_eq!(get_current_select_state(&instruments, "Btc", &watchlist), vec!["BTCEUR", "BTCUSDT"]);
    assert!(get_current_select_state(&instruments, "xyz", &watchlist).is_empty());
}

#[test]
fn picker_default_shows_first_ten() {
    let names: Vec<String> = (0..15).rev().map(|i| format!("S{:02}", i)).collect();
    let refs: Vec<&str> = names.iter().map(|s| s.as_str()).collect();
    let instruments = listed(&refs);
    let watchlist = listed(&["S03"]);
    let shown = get_default_select_state(&instruments, &watchlist);
    assert_eq!(shown, vec!["S00", "S01", "S02", "S04", "S05", "S06", "S07", "S08", "S09", "S10"]);
    assert_eq!(get_default_select_state(&listed(&["B", "A"]), &[]), vec!["A", "B"]);
}
