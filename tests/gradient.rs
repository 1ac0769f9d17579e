use st3_cursor_color::color::{hex_color, rgb_to_hex, Rgb};
use st3_cursor_color::gradient::{Gradient, Stop};

fn stop(pos: u32, red: u8, green: u8, blue: u8) -> Stop {
    Stop { pos, color: Rgb::new(red, green, blue) }
}

fn three_stop_gradient() -> Gradient {
    Gradient::with_domain(
        vec![stop(0, 0x66, 0x6d, 0x92), stop(466, 0x16, 0xaf, 0x33), stop(1000, 0x66, 0x6d, 0x92)],
        1000,
    )
    .unwrap()
}

#[test]
fn hex_color_pads_and_lowercases() {
    assert_eq!(hex_color(0), "00");
    assert_eq!(hex_color(10), "0a");
    assert_eq!(hex_color(15), "0f");
    assert_eq!(hex_color(16), "10");
    assert_eq!(hex_color(171), "ab");
    assert_eq!(hex_color(255), "ff");
}

#[test]
fn rgb_to_hex_concatenates_channels() {
    assert_eq!(rgb_to_hex(Rgb::new(22, 175, 51)), "16af33");
    assert_eq!(rgb_to_hex(Rgb::new(0, 1, 255)), "0001ff");
}

#[test]
fn interior_waypoint_queried_by_day() {
    let g = three_stop_gradient();
    let c = g.get(170, 365);
    assert_eq!(c, Rgb::new(0x16, 0xaf, 0x33));
    assert_eq!(rgb_to_hex(c), "16af33");
}

#[test]
fn exact_at_every_stop() {
    let g = three_stop_gradient();
    assert_eq!(g.get(0, 1000), Rgb::new(0x66, 0x6d, 0x92));
    assert_eq!(g.get(466, 1000), Rgb::new(0x16, 0xaf, 0x33));
    assert_eq!(g.get(1000, 1000), Rgb::new(0x66, 0x6d, 0x92));
    assert_eq!(g.get(233, 500), Rgb::new(0x16, 0xaf, 0x33));
}

#[test]
fn clamps_outside_the_stops() {
    let g = Gradient::with_domain(vec![stop(100, 10, 20, 30), stop(200, 110, 120, 130)], 1000).unwrap();
    assert_eq!(g.get(0, 1), Rgb::new(10, 20, 30));
    assert_eq!(g.get(5, 100), Rgb::new(10, 20, 30));
    assert_eq!(g.get(1, 1), Rgb::new(110, 120, 130));
    assert_eq!(g.get(7, 2), Rgb::new(110, 120, 130));
}

#[test]
fn interpolates_and_rounds_half_up() {
    let g = Gradient::with_domain(vec![stop(0, 0, 255, 100), stop(4, 3, 0, 101)], 4).unwrap();
    assert_eq!(g.get(1, 4), Rgb::new(1, 191, 100));
    assert_eq!(g.get(1, 2), Rgb::new(2, 128, 101));
    assert_eq!(g.get(3, 4), Rgb::new(2, 64, 101));
}

#[test]
fn channels_stay_between_adjacent_stops() {
    let g = three_stop_gradient();
    for num in 1..466u32 {
        let c = g.get(num, 1000);
        assert!(c.red >= 0x16 && c.red <= 0x66);
        assert!(c.green >= 0x6d && c.green <= 0xaf);
        assert!(c.blue >= 0x33 && c.blue <= 0x92);
    }
}

#[test]
fn unsorted_stops_are_sorted() {
    let g = Gradient::with_domain(vec![stop(9, 9, 9, 9), stop(1, 1, 1, 1), stop(5, 5, 5, 5)], 10).unwrap();
    let positions: Vec<u32> = g.stops.iter().map(|s| s.pos).collect();
    assert_eq!(positions, vec![1, 5, 9]);
    assert_eq!(g.get(3, 10), Rgb::new(3, 3, 3));
}

#[test]
fn rejects_degenerate_stops() {
    assert!(Gradient::with_domain(vec![], 10).is_none());
    assert!(Gradient::with_domain(vec![stop(1, 1, 1, 1)], 0).is_none());
    assert!(Gradient::with_domain(vec![stop(1, 1, 1, 1), stop(1, 2, 2, 2)], 10).is_none());
    assert!(Gradient::with_domain(vec![stop(3, 1, 1, 1)], 10).is_some());
}
