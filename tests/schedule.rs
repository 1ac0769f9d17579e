use chrono::{Datelike, NaiveDate};
use st3_cursor_color::color::Rgb;
use st3_cursor_color::schedule::{color_for_day, create_gradient, hex_for_day};

#[test]
fn print_weekly() {
    let generated: Vec<(NaiveDate, String)> = (0..(12 * 4))
        .map(|i| {
            let offset = i % 4;
            let m = ((i - offset) / 4) + 1;
            let d = (offset * 6) + 1;
            let date = NaiveDate::from_ymd_opt(2017, m, d).unwrap();
            (date, hex_for_day(date.ordinal()))
        })
        .collect();

    for (date, color) in generated {
        assert_eq!(color.len(), 6);
        println!("{}: {}", date, color);
    }
}

#[test]
fn year_gradient_is_sorted_by_day() {
    let g = create_gradient();
    let days: Vec<u32> = g.stops.iter().map(|s| s.pos).collect();
    assert_eq!(days, vec![1, 46, 110, 172, 288, 314, 365]);
    assert_eq!(g.scale, 365);
}

#[test]
fn waypoint_days_give_waypoint_colors() {
    assert_eq!(hex_for_day(1), "666d92");
    assert_eq!(hex_for_day(46), "a7e9ef");
    assert_eq!(hex_for_day(110), "bc0baa");
    assert_eq!(hex_for_day(172), "16af33");
    assert_eq!(hex_for_day(288), "d15c08");
    assert_eq!(hex_for_day(314), "384666");
    assert_eq!(hex_for_day(365), "666d92");
}

#[test]
fn midway_day_is_rounded_blend() {
    assert_eq!(color_for_day(78), Rgb::new(178, 122, 205));
    assert_eq!(hex_for_day(78), "b27acd");
}

#[test]
fn days_past_the_year_clamp() {
    assert_eq!(color_for_day(366), Rgb::new(102, 109, 146));
    assert_eq!(color_for_day(0), Rgb::new(102, 109, 146));
    assert_eq!(color_for_day(1000), Rgb::new(102, 109, 146));
}
