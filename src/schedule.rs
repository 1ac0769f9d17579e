//! The caret color of each day of the year: a gradient through seven
//! calendar waypoints, queried at `day_of_year / 365`.

use chrono::Datelike;
use vstd::prelude::*;
use crate::color::{hex_of, rgb_to_hex, Rgb};
use crate::gradient::{color_at, lemma_exact_at_stop, sorted_stops, Gradient, Stop};

verus! {

/// The earliest year that the calendar below accepts.
pub const MIN_YEAR: i32 = -262143;

/// The latest year that the calendar below accepts.
pub const MAX_YEAR: i32 = 262142;

/// Gregorian leap years.
pub open spec fn is_leap(y: int) -> bool {
    y % 4 == 0 && (y % 100 != 0 || y % 400 == 0)
}

/// The number of days in month `m` (1 to 12) of year `y`.
pub open spec fn days_in_month(y: int, m: int) -> int {
    if m == 2 {
        if is_leap(y) { 29 } else { 28 }
    } else if m == 4 || m == 6 || m == 9 || m == 11 {
        30
    } else {
        31
    }
}

/// The number of days of year `y` before the first of month `m` (1 to 12).
pub open spec fn days_before_month(y: int, m: int) -> int {
    let base: int = if m == 1 { 0 } else if m == 2 { 31 } else if m == 3 { 59 } else if m == 4 { 90 }
        else if m == 5 { 120 } else if m == 6 { 151 } else if m == 7 { 181 } else if m == 8 { 212 }
        else if m == 9 { 243 } else if m == 10 { 273 } else if m == 11 { 304 } else { 334 };
    if m > 2 && is_leap(y) { base + 1 } else { base }
}

/// `y-m-d` is a day of the Gregorian calendar.
pub open spec fn valid_date(y: int, m: int, d: int) -> bool {
    1 <= m <= 12 && 1 <= d <= days_in_month(y, m)
}

/// Relies on `chrono::NaiveDate::from_ymd_opt`, which fails exactly on days
/// that do not exist, and `Datelike::ordinal`, the day of the year counted
/// from 1.
#[verifier::external_body]
fn ordinal_of(year: i32, month: u32, day: u32) -> (r: Option<u32>)
    requires
        MIN_YEAR <= year <= MAX_YEAR,
    ensures
        r == (if valid_date(year as int, month as int, day as int) {
            Some((days_before_month(year as int, month as int) + day) as u32)
        } else {
            None::<u32>
        }),
{
    match chrono::NaiveDate::from_ymd_opt(year, month, day) {
        Some(date) => Some(date.ordinal()),
        None => None,
    }
}

/// The day count that positions the waypoints and queries alike.
pub const DAYS_PER_YEAR: u32 = 365;

/// The seven waypoints of the year, by day of 2017, in calendar order.
pub open spec fn year_stops() -> Seq<Stop> {
    seq![
        Stop { pos: 1, color: Rgb { red: 102, green: 109, blue: 146 } },
        Stop { pos: 46, color: Rgb { red: 167, green: 233, blue: 239 } },
        Stop { pos: 110, color: Rgb { red: 188, green: 11, blue: 170 } },
        Stop { pos: 172, color: Rgb { red: 22, green: 175, blue: 51 } },
        Stop { pos: 288, color: Rgb { red: 209, green: 92, blue: 8 } },
        Stop { pos: 314, color: Rgb { red: 56, green: 70, blue: 102 } },
        Stop { pos: 365, color: Rgb { red: 102, green: 109, blue: 146 } },
    ]
}

/// Two sequences of stops in strictly increasing position that hold the
/// same stops are the same sequence.
proof fn lemma_sorted_unique(a: Seq<Stop>, b: Seq<Stop>)
    requires
        sorted_stops(a),
        sorted_stops(b),
        a.len() == b.len(),
        forall|x: Stop| a.contains(x) <==> b.contains(x),
    ensures
        a == b,
    decreases a.len(),
{
    if a.len() > 0 {
        assert(a.contains(a[0]));
        assert(b.contains(b[0]));
        let j = choose|j: int| 0 <= j < b.len() && b[j] == a[0];
        let k = choose|k: int| 0 <= k < a.len() && a[k] == b[0];
        assert(j == 0) by {
            if j > 0 {
                assert(b[0].pos < b[j].pos);
                if k > 0 {
                    assert(a[0].pos < a[k].pos);
                }
            }
        }
        let ra = a.drop_first();
        let rb = b.drop_first();
        assert forall|x: Stop| ra.contains(x) <==> rb.contains(x) by {
            if ra.contains(x) {
                let m = choose|m: int| 0 <= m < ra.len() && ra[m] == x;
                assert(a[m + 1] == x);
                assert(a.contains(x));
                let n = choose|n: int| 0 <= n < b.len() && b[n] == x;
                assert(a[0].pos < a[m + 1].pos);
                assert(n != 0);
                assert(rb[n - 1] == x);
            }
            if rb.contains(x) {
                let m = choose|m: int| 0 <= m < rb.len() && rb[m] == x;
                assert(b[m + 1] == x);
                assert(b.contains(x));
                let n = choose|n: int| 0 <= n < a.len() && a[n] == x;
                assert(b[0].pos < b[m + 1].pos);
                assert(n != 0);
                assert(ra[n - 1] == x);
            }
        }
        lemma_sorted_unique(ra, rb);
        assert(a =~= seq![a[0]] + ra);
        assert(b =~= seq![b[0]] + rb);
    }
}

fn waypoint(red: u8, green: u8, blue: u8, month: u32, day: u32) -> (s: Stop)
    requires
        valid_date(2017, month as int, day as int),
    ensures
        s == (Stop { pos: (days_before_month(2017, month as int) + day) as u32, color: Rgb { red, green, blue } }),
{
    let pos = ordinal_of(2017, month, day).unwrap();
    Stop { pos, color: Rgb::new(red, green, blue) }
}

/// The gradient of the year: seven waypoints at days of 2017, on a scale of
/// 365 days, sorted by day.
pub fn create_gradient() -> (g: Gradient)
    ensures
        g.wf(),
        g.scale == DAYS_PER_YEAR,
        g.stops@ == year_stops(),
{
    let steps = vec![
        waypoint(102, 109, 146, 1, 1),
        waypoint(167, 233, 239, 2, 15),
        waypoint(22, 175, 51, 6, 21),
        waypoint(209, 92, 8, 10, 15),
        waypoint(188, 11, 170, 4, 20),
        waypoint(56, 70, 102, 11, 10),
        waypoint(102, 109, 146, 12, 31),
    ];
    let ghost input = steps@;
    let g = Gradient::with_domain(steps, DAYS_PER_YEAR).unwrap();
    proof {
        let y = year_stops();
        assert forall|x: Stop| input.contains(x) <==> y.contains(x) by {
            if input.contains(x) {
                let m = choose|m: int| 0 <= m < input.len() && input[m] == x;
                if m == 0 { assert(y[0] == x); }
                else if m == 1 { assert(y[1] == x); }
                else if m == 2 { assert(y[3] == x); }
                else if m == 3 { assert(y[4] == x); }
                else if m == 4 { assert(y[2] == x); }
                else if m == 5 { assert(y[5] == x); }
                else { assert(y[6] == x); }
            }
            if y.contains(x) {
                let m = choose|m: int| 0 <= m < y.len() && y[m] == x;
                if m == 0 { assert(input[0] == x); }
                else if m == 1 { assert(input[1] == x); }
                else if m == 2 { assert(input[4] == x); }
                else if m == 3 { assert(input[2] == x); }
                else if m == 4 { assert(input[3] == x); }
                else if m == 5 { assert(input[5] == x); }
                else { assert(input[6] == x); }
            }
        }
        lemma_sorted_unique(g.stops@, y);
    }
    g
}

/// The caret color of day `ordinal` of the year (1 for January 1st): the
/// year gradient at `ordinal / 365`. Day 366 of a leap year lies past the
/// last waypoint and clamps to its color.
pub fn color_for_day(ordinal: u32) -> (r: Rgb)
    ensures
        r == color_at(year_stops(), 365, ordinal as int, 365),
{
    let g = create_gradient();
    g.get(ordinal, DAYS_PER_YEAR)
}

/// The caret color of day `ordinal` as six lowercase hexadecimal digits.
pub fn hex_for_day(ordinal: u32) -> (r: String)
    ensures
        r@ == hex_of(color_at(year_stops(), 365, ordinal as int, 365)),
{
    rgb_to_hex(color_for_day(ordinal))
}

/// On a waypoint's own day the color of the day is that waypoint's color,
/// with no interpolation drift.
pub proof fn lemma_waypoint_days_exact(i: int)
    requires
        0 <= i < year_stops().len(),
    ensures
        color_at(year_stops(), 365, year_stops()[i].pos as int, 365) == year_stops()[i].color,
{
    let s = year_stops();
    assert(sorted_stops(s));
    lemma_exact_at_stop(s, 365, s[i].pos as int, 365, i);
}

} // verus!
