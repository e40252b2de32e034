use juicy_lemon::axis::{estimate_y_axis_width, pixel_to_price, price_to_pixel, YAxisRenderer};
use juicy_lemon::decimal::{price_from_text, price_text};
use juicy_lemon::fixed::FixedPrice;
use juicy_lemon::geometry::{Primitive, Px, Role};
use juicy_lemon::ticks::{calculate_tick_count, compute_ticks, nice_step_from_range};

fn p(units: i64, scale: u32) -> FixedPrice {
    FixedPrice::new(units, scale)
}

fn px_value(v: Px) -> f64 {
    v.num as f64 / v.den as f64
}

#[test]
fn ticks_zero_to_thousand() {
    let t = compute_ticks(p(0, 0), p(1000, 0));
    assert_eq!(t.step, p(100, 0));
    assert_eq!(t.count, 11);
    assert_eq!(t.start, p(0, 0));
    let values: Vec<i64> = (0..t.count).map(|i| t.value(i).units).collect();
    assert_eq!(values, vec![0, 100, 200, 300, 400, 500, 600, 700, 800, 900, 1000]);
}

#[test]
fn ticks_hundred_to_two_hundred() {
    let t = compute_ticks(p(100, 0), p(200, 0));
    assert_eq!(t.step, p(10, 0));
    assert_eq!(t.start, p(100, 0));
    assert_eq!(t.count, 11);
}

#[test]
fn ticks_negative_range() {
    let t = compute_ticks(p(-150, 0), p(50, 0));
    assert_eq!(t.step, p(20, 0));
    assert_eq!(t.start, p(-160, 0));
    assert_eq!(t.count, 12);
    assert_eq!(t.last(), p(60, 0));
}

#[test]
fn ticks_with_decimals() {
    // 123.45 .. 123.99: range 0.54, step 0.1
    let t = compute_ticks(p(12345, 2), p(12399, 2));
    assert_eq!(t.step, p(10, 2));
    assert_eq!(t.start, p(12340, 2));
    assert_eq!(t.count, 7);
    assert_eq!(t.last(), p(12400, 2));
}

#[test]
fn ticks_rise_and_cover_the_range() {
    let cases = [(3, 97), (1, 2), (-7, -3), (995, 1005), (0, 123456789)];
    for (lo, hi) in cases {
        let t = compute_ticks(p(lo, 1), p(hi, 1));
        assert!(t.count >= 2);
        let scale = t.start.scale;
        let factor = 10i64.pow(scale - 1);
        assert!(t.start.units <= lo * factor);
        assert!(t.last().units >= hi * factor);
        for i in 1..t.count {
            assert!(t.value(i).units > t.value(i - 1).units);
        }
    }
}

#[test]
fn ticks_zero_range_uses_a_hundredth_of_the_price() {
    // range taken as 0.5, so the step is 0.05
    let t = compute_ticks(p(50, 0), p(50, 0));
    assert_eq!(t.step, p(5, 2));
    assert_eq!(t.start, p(5000, 2));
    assert_eq!(t.count, 2);
    assert_eq!(t.last(), p(5005, 2));
}

#[test]
fn ticks_zero_range_at_zero() {
    // one unit of precision stands for the range: step 0.1
    let t = compute_ticks(p(0, 0), p(0, 0));
    assert_eq!(t.step, p(1, 1));
    assert_eq!(t.start, p(0, 1));
    assert_eq!(t.count, 2);
}

#[test]
fn tick_count_and_step() {
    assert_eq!(calculate_tick_count(p(0, 0), p(1000, 0)), (11, p(100, 0)));
    assert_eq!(calculate_tick_count(p(0, 0), p(7, 0)), (8, p(1, 0)));
}

#[test]
fn nice_steps() {
    assert_eq!(nice_step_from_range(p(1000, 0)), p(100, 0));
    assert_eq!(nice_step_from_range(p(150, 0)), p(20, 0));
    assert_eq!(nice_step_from_range(p(300, 0)), p(50, 0));
    assert_eq!(nice_step_from_range(p(700, 0)), p(100, 0));
    assert_eq!(nice_step_from_range(p(3, 0)), p(5, 1));
    assert_eq!(nice_step_from_range(p(0, 2)), p(0, 2));
    assert_eq!(nice_step_from_range(p(-5, 0)), p(0, 0));
}

#[test]
fn truncation_floors() {
    assert_eq!(p(123456, 4).truncate_to_decimals(2), p(1234, 2));
    assert_eq!(p(-1235, 3).truncate_to_decimals(2), p(-124, 2));
    assert_eq!(p(15, 1).truncate_to_decimals(3), p(1500, 3));
    assert_eq!(p(42, 2).truncate_to_decimals(2), p(42, 2));
}

#[test]
fn prices_from_text() {
    assert_eq!(price_from_text("43250.12000000", 2), Some(p(4325012, 2)));
    assert_eq!(price_from_text("1.235", 2), Some(p(124, 2)));
    assert_eq!(price_from_text("-1.235", 2), Some(p(-124, 2)));
    assert_eq!(price_from_text("1.5", 4), Some(p(15000, 4)));
    assert_eq!(price_from_text("abc", 2), None);
    assert_eq!(price_from_text("99999999999999999999", 0), None);
}

#[test]
fn price_texts() {
    assert_eq!(price_text(p(1230, 2)), "12.30");
    assert_eq!(price_text(p(-5, 1)), "-0.5");
    assert_eq!(price_text(p(100, 0)), "100");
}

#[test]
fn price_rows_follow_the_formula() {
    let lo = p(90, 0);
    let hi = p(110, 0);
    assert_eq!(px_value(price_to_pixel(p(110, 0), lo, hi, 100)), 0.0);
    assert_eq!(px_value(price_to_pixel(p(100, 0), lo, hi, 100)), 50.0);
    assert_eq!(px_value(price_to_pixel(p(90, 0), lo, hi, 100)), 100.0);
    assert_eq!(px_value(price_to_pixel(p(95, 0), lo, hi, 100)), 75.0);
    // a price at a coarser precision than the range
    assert_eq!(px_value(price_to_pixel(p(100, 0), p(900, 1), p(1100, 1), 100)), 50.0);
}

#[test]
fn pixel_rows_map_back_to_prices() {
    let lo = p(90, 0);
    let hi = p(110, 0);
    assert_eq!(pixel_to_price(Px::whole(50), lo, hi, 100), p(100, 0));
    assert_eq!(pixel_to_price(Px::whole(0), lo, hi, 100), p(110, 0));
    assert_eq!(pixel_to_price(Px::whole(100), lo, hi, 100), p(90, 0));
    // 37 px is price 102.6, floored
    assert_eq!(pixel_to_price(Px::whole(37), lo, hi, 100), p(102, 0));
}

#[test]
fn pixel_round_trip() {
    let lo = p(12000, 2);
    let hi = p(12500, 2);
    for units in [12000, 12001, 12137, 12250, 12499, 12500] {
        let y = price_to_pixel(p(units, 2), lo, hi, 657);
        assert_eq!(pixel_to_price(y, lo, hi, 657), p(units, 2));
    }
}

#[test]
fn axis_width_from_longest_label() {
    let labels = vec!["100".to_string(), "1000".to_string(), "0".to_string()];
    let w = estimate_y_axis_width(&labels, 12);
    assert_eq!(w, Px::new(194, 5));
    assert!((px_value(w) - 38.8).abs() < 1e-9);
    assert_eq!(estimate_y_axis_width(&Vec::new(), 12), Px::new(50, 5));
}

#[test]
fn price_axis_zero_to_thousand() {
    let y = YAxisRenderer {
        screen_width: 500,
        screen_height: 100,
        display_min: p(0, 0),
        display_max: p(1000, 0),
        offset: 0,
        decimal_places: 0,
    };
    let r = y.render_axis();
    assert_eq!(r.display_min, p(0, 0));
    assert_eq!(r.display_max, p(1000, 0));
    assert_eq!(r.labels.len(), 11);
    assert_eq!(r.labels[0], "0");
    assert_eq!(r.labels[10], "1000");
    assert!((px_value(r.axis_width) - 38.8).abs() < 1e-9);
    assert_eq!(r.primitives.len(), 23);
    match &r.primitives[0] {
        Primitive::Line { from, to, role } => {
            assert_eq!(*role, Role::AxisLine);
            assert!((px_value(from.x) - 461.2).abs() < 1e-9);
            assert_eq!(px_value(to.y), 200.0);
        }
        _ => panic!("axis line expected"),
    }
    match &r.primitives[1] {
        Primitive::Line { from, role, .. } => {
            assert_eq!(*role, Role::GridLine);
            assert_eq!(px_value(from.y), 100.0);
        }
        _ => panic!("grid line expected"),
    }
    match &r.primitives[22] {
        Primitive::Text { content, position, role, .. } => {
            assert_eq!(*role, Role::TickLabel);
            assert_eq!(content, "1000");
            assert_eq!(px_value(position.y), 0.0);
            assert!((px_value(position.x) - 471.2).abs() < 1e-9);
        }
        _ => panic!("label expected"),
    }
}

#[test]
fn price_axis_labels_are_floored() {
    let y = YAxisRenderer {
        screen_width: 400,
        screen_height: 300,
        display_min: p(1001, 3),
        display_max: p(1009, 3),
        offset: 30,
        decimal_places: 2,
    };
    let r = y.render_axis();
    // step 0.001; ticks 1.001 .. 1.009 shown with two decimals
    assert_eq!(r.labels.len(), 9);
    assert!(r.labels.iter().all(|l| l == "1.00"));
    match &r.primitives[1] {
        Primitive::Line { from, .. } => assert_eq!(px_value(from.y), 330.0),
        _ => panic!("grid line expected"),
    }
}

#[test]
fn pixel_round_trip_from_a_coarser_price() {
    let lo = p(12000, 3);
    let hi = p(12500, 3);
    let y = price_to_pixel(p(122, 1), lo, hi, 480);
    assert_eq!(pixel_to_price(y, lo, hi, 480), p(12200, 3));
}
