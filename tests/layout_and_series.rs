use juicy_lemon::buffer::{is_ordered, CandleSeriesBuffer, MergeOutcome};
use juicy_lemon::candle::{candle_from_kline, candles_from_klines, Candle, CandleRole, RawKline};
use juicy_lemon::fixed::FixedPrice;
use juicy_lemon::geometry::{Primitive, Px, Role};
use juicy_lemon::layout::compute_layout;
use juicy_lemon::render::{ChartRenderer, PlotArea};
use juicy_lemon::session::ChartSession;

fn p(units: i64) -> FixedPrice {
    FixedPrice::new(units, 0)
}

fn px_value(v: Px) -> f64 {
    v.num as f64 / v.den as f64
}

fn candle(open: i64, high: i64, low: i64, close: i64, open_time: u64) -> Candle {
    Candle { open: p(open), high: p(high), low: p(low), close: p(close), open_time, close_time: open_time + 59_999 }
}

fn at(open_time: u64) -> Candle {
    candle(10, 12, 9, 11, open_time)
}

#[test]
fn layout_of_an_empty_series() {
    let plan = compute_layout(0, 500);
    assert!(!plan.ultra_compact);
    assert_eq!(plan.spacing_ratio, 200_000);
    assert_eq!(px_value(plan.candle_width), 2500.0);
    assert_eq!(px_value(plan.candle_spacing), 500.0);
}

#[test]
fn layout_ultra_compact() {
    let plan = compute_layout(2000, 300);
    assert!(plan.ultra_compact);
    assert_eq!(plan.spacing_ratio, 0);
    assert_eq!(px_value(plan.candle_spacing), 0.0);
    assert!((px_value(plan.candle_width) - 0.15).abs() < 1e-12);
}

#[test]
fn layout_spacing_decays_with_density() {
    // density 0.1: 0.2 * 0.9^2 = 0.162
    let plan = compute_layout(50, 500);
    assert_eq!(plan.spacing_ratio, 162_000);
    let total = 50.0 + 51.0 * 0.162;
    assert!((px_value(plan.candle_width) - 500.0 / total).abs() < 1e-9);
    assert!((px_value(plan.candle_spacing) - 500.0 * 0.162 / total).abs() < 1e-9);
    // halfway between whole exponents the chord is taken: 0.2 * 0.9 * 0.95
    assert_eq!(compute_layout(15, 200).spacing_ratio, 171_000);
    assert_eq!(compute_layout(25, 400).spacing_ratio, 175_500);
    // dense but not ultra-compact: the floor holds
    assert_eq!(compute_layout(900, 300).spacing_ratio, 10_000);
    assert_eq!(compute_layout(1000, 300).spacing_ratio, 10_000);
}

#[test]
fn layout_floors_the_width() {
    let plan = compute_layout(1, 3);
    assert_eq!(plan.candle_width, compute_layout(1, 10).candle_width);
    assert!(px_value(plan.candle_width) > 0.0);
}

#[test]
fn merge_into_empty_takes_latest_window() {
    let mut b = CandleSeriesBuffer::new(3);
    let window = vec![at(1), at(2), at(3), at(4), at(5)];
    assert_eq!(b.merge(&window), MergeOutcome::Replaced);
    let times: Vec<u64> = b.candles().iter().map(|c| c.open_time).collect();
    assert_eq!(times, vec![3, 4, 5]);
}

#[test]
fn merge_refreshes_the_tail() {
    let mut b = CandleSeriesBuffer::new(10);
    b.merge(&vec![at(1), at(2)]);
    let fresh = candle(10, 15, 9, 14, 2);
    assert_eq!(b.merge(&vec![at(1), fresh]), MergeOutcome::TailRefreshed);
    assert_eq!(b.len(), 2);
    assert_eq!(b.candles()[1], fresh);
}

#[test]
fn merge_appends_and_evicts() {
    let mut b = CandleSeriesBuffer::new(2);
    b.merge(&vec![at(1), at(2)]);
    assert_eq!(b.merge(&vec![at(2), at(3)]), MergeOutcome::AppendedEvicting);
    let times: Vec<u64> = b.candles().iter().map(|c| c.open_time).collect();
    assert_eq!(times, vec![2, 3]);
    let mut roomy = CandleSeriesBuffer::new(5);
    roomy.merge(&vec![at(1)]);
    assert_eq!(roomy.merge(&vec![at(2)]), MergeOutcome::Appended);
    assert_eq!(roomy.len(), 2);
}

#[test]
fn merge_rejects_older_or_unordered_windows() {
    let mut b = CandleSeriesBuffer::new(5);
    assert_eq!(b.merge(&vec![at(3), at(2)]), MergeOutcome::Rejected);
    assert_eq!(b.len(), 0);
    b.merge(&vec![at(5)]);
    assert_eq!(b.merge(&vec![at(4)]), MergeOutcome::Rejected);
    assert_eq!(b.merge(&Vec::new()), MergeOutcome::Unchanged);
    assert_eq!(b.len(), 1);
    assert!(!MergeOutcome::Rejected.changed());
    assert!(MergeOutcome::TailRefreshed.changed());
}

#[test]
fn merging_a_window_twice_changes_nothing() {
    let mut b = CandleSeriesBuffer::new(4);
    b.merge(&vec![at(1), at(2)]);
    let window = vec![at(2), at(3)];
    b.merge(&window);
    let after_first: Vec<Candle> = b.candles().clone();
    assert_eq!(b.merge(&window), MergeOutcome::TailRefreshed);
    assert_eq!(b.candles(), after_first);
}

#[test]
fn sliding_window_keeps_the_latest() {
    let k = 3;
    let mut b = CandleSeriesBuffer::new(k);
    let n: u64 = 7;
    for t in 1..=n {
        b.merge(&vec![at(t * 60_000)]);
    }
    assert_eq!(b.len(), k);
    assert_eq!(b.candles()[0].open_time, (n - k as u64 + 1) * 60_000);
}

#[test]
fn orderedness() {
    assert!(is_ordered(&vec![at(1), at(2), at(9)]));
    assert!(!is_ordered(&vec![at(1), at(1)]));
    assert!(is_ordered(&Vec::new()));
}

#[test]
fn candle_roles() {
    assert_eq!(candle(100, 110, 95, 110, 0).get_color(), CandleRole::Bullish);
    assert_eq!(candle(110, 110, 90, 90, 0).get_color(), CandleRole::Bearish);
    assert_eq!(candle(100, 100, 100, 100, 0).get_color(), CandleRole::Bearish);
}

fn kline(fields: usize, open: &str) -> RawKline {
    RawKline {
        field_count: fields,
        open_time: Some(1_700_000_000_000),
        open: Some(open.to_string()),
        high: Some("101.50".to_string()),
        low: Some("99.004".to_string()),
        close: Some("100.25".to_string()),
        close_time: Some(1_700_000_059_999),
    }
}

#[test]
fn klines_become_candles() {
    let c = candle_from_kline(&kline(12, "100.10000000"), 2).unwrap();
    assert_eq!(c.open, FixedPrice::new(10010, 2));
    assert_eq!(c.high, FixedPrice::new(10150, 2));
    assert_eq!(c.low, FixedPrice::new(9900, 2));
    assert_eq!(c.close, FixedPrice::new(10025, 2));
    assert_eq!(c.open_time, 1_700_000_000_000);
    assert_eq!(c.close_time, 1_700_000_059_999);
    assert_eq!(candle_from_kline(&kline(11, "100.1"), 2), None);
    assert_eq!(candle_from_kline(&kline(12, "n/a"), 2), None);
    let mut missing = kline(12, "1");
    missing.close_time = None;
    assert_eq!(candle_from_kline(&missing, 2), None);
    let rows = vec![kline(12, "1"), kline(3, "2"), kline(12, "bad"), kline(12, "4")];
    let cs = candles_from_klines(&rows, 0);
    assert_eq!(cs.len(), 2);
    assert_eq!(cs[0].open, FixedPrice::new(1, 0));
    assert_eq!(cs[1].open, FixedPrice::new(4, 0));
}

#[test]
fn three_candle_scenario() {
    let cs = vec![candle(100, 110, 100, 110, 0), candle(110, 110, 90, 90, 1), candle(90, 95, 90, 95, 2)];
    let area = PlotArea { left: 0, top: 0, height: 100, display_min: p(90), display_max: p(110) };
    let plan = compute_layout(3, 300);
    let prims = area.draw_chart(&plan, &cs);
    assert_eq!(prims.len(), 6);
    match &prims[1] {
        Primitive::Rectangle { origin, height, role, .. } => {
            assert_eq!(px_value(origin.y), 0.0);
            assert_eq!(px_value(*height), 50.0);
            assert_eq!(*role, Role::CandleBody(CandleRole::Bullish));
        }
        _ => panic!("body expected"),
    }
    match &prims[0] {
        Primitive::Line { from, to, role } => {
            assert_eq!(px_value(from.y), 0.0);
            assert_eq!(px_value(to.y), 50.0);
            assert_eq!(*role, Role::CandleWick(CandleRole::Bullish));
            let w = px_value(plan.candle_width);
            let s = px_value(plan.candle_spacing);
            assert!((px_value(from.x) - (s + w / 2.0)).abs() < 1e-9);
        }
        _ => panic!("wick expected"),
    }
    match &prims[3] {
        Primitive::Rectangle { origin, height, role, .. } => {
            assert_eq!(px_value(origin.y), 0.0);
            assert_eq!(px_value(*height), 100.0);
            assert_eq!(*role, Role::CandleBody(CandleRole::Bearish));
        }
        _ => panic!("body expected"),
    }
}

#[test]
fn flat_candles_keep_a_pixel_of_body() {
    let cs = vec![candle(100, 100, 100, 100, 0)];
    let area = PlotArea { left: 0, top: 10, height: 100, display_min: p(90), display_max: p(110) };
    let prims = area.draw_chart(&compute_layout(1, 100), &cs);
    match &prims[1] {
        Primitive::Rectangle { origin, height, .. } => {
            assert_eq!(px_value(origin.y), 60.0);
            assert_eq!(px_value(*height), 1.0);
        }
        _ => panic!("body expected"),
    }
}

#[test]
fn dense_candles_become_lines() {
    let cs: Vec<Candle> = (0..2000).map(|i| at(i)).collect();
    let area = PlotArea { left: 0, top: 0, height: 100, display_min: p(0), display_max: p(20) };
    let prims = area.draw_chart(&compute_layout(cs.len(), 300), &cs);
    assert_eq!(prims.len(), 2000);
    match &prims[0] {
        Primitive::Line { from, to, role } => {
            assert_eq!(px_value(from.x), 0.0);
            assert_eq!(px_value(from.y), 40.0);
            assert_eq!(px_value(to.y), 55.0);
            assert_eq!(*role, Role::CandleWick(CandleRole::Bullish));
        }
        _ => panic!("line expected"),
    }
}

#[test]
fn renderer_leaves_room_for_the_edges() {
    let r = ChartRenderer { sidebar_width: 50, padding_left: 5, padding_right: 3 };
    let cs = vec![at(0), at(1)];
    let prims = r.draw(&cs, 300, 200, p(0), p(20));
    assert_eq!(prims.len(), 4);
    let plan = compute_layout(2, 240);
    match &prims[1] {
        Primitive::Rectangle { origin, width, .. } => {
            assert_eq!(*width, plan.candle_width);
            assert!((px_value(origin.x) - (7.0 + px_value(plan.candle_spacing))).abs() < 1e-9);
        }
        _ => panic!("body expected"),
    }
    assert!(ChartRenderer::new().draw(&Vec::new(), 300, 200, p(0), p(20)).is_empty());
}

#[test]
fn session_keeps_one_series_per_pair() {
    let mut s = ChartSession::new(3);
    let btc = "BTCUSDT".to_string();
    let eth = "ETHUSDT".to_string();
    let m1 = "1m".to_string();
    let h1 = "1h".to_string();
    assert!(s.series(&btc, &m1).is_none());
    assert_eq!(s.merge(&btc, &m1, &vec![at(1), at(2)]), MergeOutcome::Replaced);
    assert_eq!(s.merge(&btc, &h1, &vec![at(7)]), MergeOutcome::Replaced);
    assert_eq!(s.merge(&eth, &m1, &vec![at(4)]), MergeOutcome::Replaced);
    assert_eq!(s.merge(&btc, &m1, &vec![at(2), at(3)]), MergeOutcome::Appended);
    assert_eq!(s.series(&btc, &m1).unwrap().len(), 3);
    assert_eq!(s.series(&btc, &h1).unwrap().len(), 1);
    assert_eq!(s.series(&eth, &m1).unwrap().candles()[0].open_time, 4);
    s.remove_symbol(&btc);
    assert!(s.series(&btc, &m1).is_none());
    assert!(s.series(&btc, &h1).is_none());
    assert_eq!(s.series(&eth, &m1).unwrap().len(), 1);
}

#[test]
fn spacing_never_widens_as_density_rises() {
    // density 0.449996 against 0.45
    assert!(compute_layout(13504, 30009).spacing_ratio <= compute_layout(9, 20).spacing_ratio);
    let mut last = u64::MAX;
    for n in [0usize, 1, 5, 10, 25, 50, 100, 250, 400, 700, 1000] {
        let r = compute_layout(n, 700).spacing_ratio;
        assert!(r <= last);
        assert!(r >= 10_000 && r <= 200_000);
        last = r;
    }
}
