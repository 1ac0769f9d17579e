//! Linear color gradients over waypoints at integer positions.
//!
//! Positions lie on a scale: a stop at `pos` stands at the fraction
//! `pos / scale`. A query is a fraction `num / den`; both sides are compared
//! and interpolated on the common denominator `scale * den`, so no rounding
//! happens before the final channel value.

use vstd::prelude::*;
use crate::color::Rgb;

verus! {

/// A waypoint: a position on the gradient's scale and the color it pins.
#[derive(Clone, Copy, Debug, PartialEq, Eq, Structural)]
pub struct Stop {
    pub pos: u32,
    pub color: Rgb,
}

/// A gradient: stops in strictly increasing position, on a scale.
pub struct Gradient {
    pub stops: Vec<Stop>,
    pub scale: u32,
}

/// Positions strictly increase along the sequence.
pub open spec fn sorted_stops(s: Seq<Stop>) -> bool {
    forall|i: int, j: int| 0 <= i < j < s.len() ==> s[i].pos < s[j].pos
}

/// No two stops share a position.
pub open spec fn distinct_positions(s: Seq<Stop>) -> bool {
    forall|i: int, j: int| 0 <= i < s.len() && 0 <= j < s.len() && i != j ==> s[i].pos != s[j].pos
}

/// `n / d` rounded to the nearest integer, halves upward.
pub open spec fn round_div(n: int, d: int) -> int {
    (2 * n + d) / (2 * d)
}

/// The channel value `a / b` of the way from `c0` to `c1`, rounded.
pub open spec fn lerp_channel(c0: int, c1: int, a: int, b: int) -> int {
    round_div(c0 * (b - a) + c1 * a, b)
}

/// Each channel interpolated independently.
pub open spec fn lerp_color(c0: Rgb, c1: Rgb, a: int, b: int) -> Rgb {
    Rgb {
        red: lerp_channel(c0.red as int, c1.red as int, a, b) as u8,
        green: lerp_channel(c0.green as int, c1.green as int, a, b) as u8,
        blue: lerp_channel(c0.blue as int, c1.blue as int, a, b) as u8,
    }
}

/// The segment `[i, i + 1]` brackets the query point `x` (on the common
/// denominator `den`).
pub open spec fn brackets(s: Seq<Stop>, den: int, x: int, i: int) -> bool {
    0 <= i < s.len() - 1 && s[i].pos * den <= x < s[i + 1].pos * den
}

/// The color of the gradient at fraction `num / den`: the first stop's color
/// at or below the first stop, the last stop's at or above the last, and
/// otherwise the interpolation between the two stops that bracket it.
pub open spec fn color_at(s: Seq<Stop>, scale: int, num: int, den: int) -> Rgb {
    let x = num * scale;
    if x <= s[0].pos * den {
        s[0].color
    } else if x >= s.last().pos * den {
        s.last().color
    } else {
        let i = choose|i: int| brackets(s, den, x, i);
        lerp_color(s[i].color, s[i + 1].color, x - s[i].pos * den, (s[i + 1].pos - s[i].pos) * den)
    }
}

impl Gradient {
    /// At least one stop, a positive scale, positions strictly increasing.
    pub open spec fn wf(&self) -> bool {
        self.stops.len() > 0 && self.scale > 0 && sorted_stops(self.stops@)
    }
}

proof fn lemma_mul_lt(a: int, b: int, d: int)
    requires
        a < b,
        d > 0,
    ensures
        a * d < b * d,
{
    assert(a * d < b * d) by (nonlinear_arith)
        requires
            a < b,
            d > 0,
    ;
}

proof fn lemma_gap(p0: int, p1: int, den: int)
    requires
        p0 < p1,
        den > 0,
    ensures
        (p1 - p0) * den == p1 * den - p0 * den,
        (p1 - p0) * den > 0,
{
    assert((p1 - p0) * den == p1 * den - p0 * den) by (nonlinear_arith);
    lemma_mul_lt(p0, p1, den);
}

/// Rounding stays between the two channel values, and is exact at either end.
proof fn lemma_lerp_bounds(c0: int, c1: int, a: int, b: int)
    requires
        0 <= c0 <= 255,
        0 <= c1 <= 255,
        0 <= a <= b,
        b > 0,
    ensures
        c0 <= c1 ==> c0 <= lerp_channel(c0, c1, a, b) <= c1,
        c1 <= c0 ==> c1 <= lerp_channel(c0, c1, a, b) <= c0,
        a == 0 ==> lerp_channel(c0, c1, a, b) == c0,
        a == b ==> lerp_channel(c0, c1, a, b) == c1,
{
    let n = c0 * (b - a) + c1 * a;
    let lo = if c0 <= c1 { c0 } else { c1 };
    let hi = if c0 <= c1 { c1 } else { c0 };
    assert(lo * b <= n <= hi * b) by (nonlinear_arith)
        requires
            n == c0 * (b - a) + c1 * a,
            0 <= a <= b,
            lo <= c0 <= hi,
            lo <= c1 <= hi,
            lo == c0 || lo == c1,
            hi == c0 || hi == c1,
    ;
    let q = (2 * n + b) / (2 * b);
    assert(lo <= q <= hi) by (nonlinear_arith)
        requires
            q == (2 * n + b) / (2 * b),
            lo * b <= n <= hi * b,
            b > 0,
    ;
    if a == 0 {
        assert(n == c0 * b) by (nonlinear_arith)
            requires
                n == c0 * (b - a) + c1 * a,
                a == 0,
        ;
        assert(q == c0) by (nonlinear_arith)
            requires
                q == (2 * n + b) / (2 * b),
                n == c0 * b,
                b > 0,
        ;
    }
    if a == b {
        assert(n == c1 * b) by (nonlinear_arith)
            requires
                n == c0 * (b - a) + c1 * a,
                a == b,
        ;
        assert(q == c1) by (nonlinear_arith)
            requires
                q == (2 * n + b) / (2 * b),
                n == c1 * b,
                b > 0,
        ;
    }
}

fn lerp_channel_exec(c0: u8, c1: u8, a: u64, b: u64) -> (r: u8)
    requires
        a <= b,
        b > 0,
    ensures
        r as int == lerp_channel(c0 as int, c1 as int, a as int, b as int),
{
    proof {
        lemma_lerp_bounds(c0 as int, c1 as int, a as int, b as int);
    }
    let w0: u128 = (b - a) as u128;
    let w1: u128 = a as u128;
    assert((c0 as int) * (w0 as int) <= 255 * u64::MAX) by (nonlinear_arith)
        requires
            c0 <= 255,
            w0 <= u64::MAX,
    ;
    assert((c1 as int) * (w1 as int) <= 255 * u64::MAX) by (nonlinear_arith)
        requires
            c1 <= 255,
            w1 <= u64::MAX,
    ;
    let n: u128 = c0 as u128 * w0 + c1 as u128 * w1;
    assert(n <= 255 * (b as int)) by (nonlinear_arith)
        requires
            n == c0 * (b - a) + c1 * a,
            c0 <= 255,
            c1 <= 255,
            a <= b,
    ;
    let q: u128 = (2 * n + b as u128) / (2 * b as u128);
    q as u8
}

fn lerp_color_exec(c0: Rgb, c1: Rgb, a: u64, b: u64) -> (r: Rgb)
    requires
        a <= b,
        b > 0,
    ensures
        r == lerp_color(c0, c1, a as int, b as int),
{
    let red = lerp_channel_exec(c0.red, c1.red, a, b);
    let green = lerp_channel_exec(c0.green, c1.green, a, b);
    let blue = lerp_channel_exec(c0.blue, c1.blue, a, b);
    Rgb { red, green, blue }
}

/// In sorted stops at most one segment brackets a point.
proof fn lemma_bracket_unique(s: Seq<Stop>, den: int, x: int, i: int, j: int)
    requires
        sorted_stops(s),
        den > 0,
        brackets(s, den, x, i),
        brackets(s, den, x, j),
    ensures
        i == j,
{
    if j < i {
        if j + 1 < i {
            lemma_mul_lt(s[j + 1].pos as int, s[i].pos as int, den);
        }
    } else if i < j {
        if i + 1 < j {
            lemma_mul_lt(s[i + 1].pos as int, s[j].pos as int, den);
        }
    }
}

fn scaled(p: u32, d: u32) -> (r: u64)
    ensures
        r == p * d,
{
    assert((p as int) * (d as int) <= u32::MAX * u32::MAX) by (nonlinear_arith);
    p as u64 * d as u64
}

impl Gradient {
    /// The color at fraction `num / den`, clamped to the end stops outside
    /// the range of the stops.
    pub fn get(&self, num: u32, den: u32) -> (r: Rgb)
        requires
            self.wf(),
            den > 0,
        ensures
            r == color_at(self.stops@, self.scale as int, num as int, den as int),
    {
        let ghost s = self.stops@;
        let n = self.stops.len();
        let x: u64 = scaled(num, self.scale);
        let first = self.stops[0];
        if x <= scaled(first.pos, den) {
            return first.color;
        }
        let last = self.stops[n - 1];
        if x >= scaled(last.pos, den) {
            return last.color;
        }
        let mut i: usize = 0;
        while i + 1 < n && scaled(self.stops[i + 1].pos, den) <= x
            invariant
                0 <= i < n,
                n == s.len(),
                s == self.stops@,
                self.wf(),
                den > 0,
                x as int == num * self.scale,
                s[i as int].pos * den <= x,
                x < s.last().pos * den,
            decreases n - i,
        {
            i += 1;
        }
        assert(i + 1 < n);
        let s0 = self.stops[i];
        let s1 = self.stops[i + 1];
        assert(brackets(s, den as int, x as int, i as int));
        proof {
            let k = choose|k: int| brackets(s, den as int, x as int, k);
            lemma_bracket_unique(s, den as int, x as int, i as int, k);
        }
        let lo = scaled(s0.pos, den);
        let hi = scaled(s1.pos, den);
        assert(hi - lo == (s1.pos - s0.pos) * den) by (nonlinear_arith)
            requires
                hi == s1.pos * den,
                lo == s0.pos * den,
        ;
        lerp_color_exec(s0.color, s1.color, x - lo, hi - lo)
    }
}

fn has_distinct_positions(s: &Vec<Stop>) -> (r: bool)
    ensures
        r == distinct_positions(s@),
{
    let mut i: usize = 0;
    while i < s.len()
        invariant
            i <= s.len(),
            forall|a: int, b: int| 0 <= a < i && 0 <= b < i && a != b ==> s@[a].pos != s@[b].pos,
        decreases s.len() - i,
    {
        let mut j: usize = 0;
        while j < i
            invariant
                j <= i < s.len(),
                forall|b: int| 0 <= b < j ==> s@[i as int].pos != s@[b].pos,
            decreases i - j,
        {
            if s[i].pos == s[j].pos {
                return false;
            }
            j += 1;
        }
        i += 1;
    }
    true
}

/// Inserts `e` into sorted stops where its position belongs.
fn insert_sorted(out: &mut Vec<Stop>, e: Stop)
    requires
        sorted_stops(old(out)@),
        forall|k: int| 0 <= k < old(out)@.len() ==> old(out)@[k].pos != e.pos,
    ensures
        sorted_stops(final(out)@),
        final(out)@.len() == old(out)@.len() + 1,
        forall|x: Stop| final(out)@.contains(x) <==> (old(out)@.contains(x) || x == e),
{
    let ghost before = out@;
    let mut k: usize = 0;
    while k < out.len() && out[k].pos < e.pos
        invariant
            k <= out.len(),
            out@ == before,
            forall|j: int| 0 <= j < k ==> out@[j].pos < e.pos,
        decreases out.len() - k,
    {
        k += 1;
    }
    out.insert(k, e);
    let ghost after = out@;
    assert(after == before.insert(k as int, e));
    assert forall|a: int, b: int| 0 <= a < b < after.len() implies after[a].pos < after[b].pos by {
        if b < k {
        } else if a < k && b == k {
        } else if a < k {
            assert(before[a].pos < e.pos);
            assert(e.pos < before[k as int].pos);
        } else if a == k {
            assert(e.pos < before[k as int].pos);
        }
    }
    assert forall|x: Stop| after.contains(x) <==> (before.contains(x) || x == e) by {
        if after.contains(x) {
            let m = choose|m: int| 0 <= m < after.len() && after[m] == x;
            if m < k {
                assert(before[m] == x);
            } else if m > k {
                assert(before[m - 1] == x);
            }
        }
        if before.contains(x) {
            let m = choose|m: int| 0 <= m < before.len() && before[m] == x;
            if m < k {
                assert(after[m] == x);
            } else {
                assert(after[m + 1] == x);
            }
        }
        if x == e {
            assert(after[k as int] == x);
        }
    }
}

impl Gradient {
    /// A gradient over the given stops, taken in order of position. Fails
    /// when there is no stop, the scale is zero, or two stops share a
    /// position.
    pub fn with_domain(stops: Vec<Stop>, scale: u32) -> (r: Option<Gradient>)
        ensures
            r is None <==> (stops@.len() == 0 || scale == 0 || !distinct_positions(stops@)),
            r matches Some(g) ==> {
                &&& g.wf()
                &&& g.scale == scale
                &&& g.stops@.len() == stops@.len()
                &&& forall|x: Stop| g.stops@.contains(x) <==> stops@.contains(x)
            },
    {
        if stops.len() == 0 || scale == 0 || !has_distinct_positions(&stops) {
            return None;
        }
        let mut out: Vec<Stop> = Vec::new();
        let mut i: usize = 0;
        while i < stops.len()
            invariant
                i <= stops.len(),
                distinct_positions(stops@),
                sorted_stops(out@),
                out@.len() == i,
                forall|x: Stop| out@.contains(x) <==> stops@.take(i as int).contains(x),
            decreases stops.len() - i,
        {
            let e = stops[i];
            assert forall|k: int| 0 <= k < out@.len() implies out@[k].pos != e.pos by {
                assert(out@.contains(out@[k]));
                let m = choose|m: int| 0 <= m < i && stops@.take(i as int)[m] == out@[k];
                assert(stops@[m] == out@[k]);
            }
            insert_sorted(&mut out, e);
            let ghost t1 = stops@.take(i + 1);
            assert forall|x: Stop| out@.contains(x) <==> t1.contains(x) by {
                if t1.contains(x) {
                    let m = choose|m: int| 0 <= m < t1.len() && t1[m] == x;
                    if m < i {
                        assert(stops@.take(i as int)[m] == x);
                    }
                }
                if stops@.take(i as int).contains(x) {
                    let m = choose|m: int| 0 <= m < i && stops@.take(i as int)[m] == x;
                    assert(t1[m] == x);
                }
                if x == e {
                    assert(t1[i as int] == x);
                }
            }
            i += 1;
        }
        assert(stops@.take(i as int) =~= stops@);
        Some(Gradient { stops: out, scale })
    }
}

/// At a stop's own position the gradient gives that stop's color exactly.
pub proof fn lemma_exact_at_stop(s: Seq<Stop>, scale: int, num: int, den: int, i: int)
    requires
        s.len() > 0,
        sorted_stops(s),
        scale > 0,
        den > 0,
        0 <= i < s.len(),
        num * scale == s[i].pos * den,
    ensures
        color_at(s, scale, num, den) == s[i].color,
{
    let x = num * scale;
    if i > 0 {
        lemma_mul_lt(s[0].pos as int, s[i].pos as int, den);
    }
    if i < s.len() - 1 {
        lemma_mul_lt(s[i].pos as int, s.last().pos as int, den);
    }
    if 0 < i < s.len() - 1 {
        lemma_mul_lt(s[i].pos as int, s[i + 1].pos as int, den);
        assert(brackets(s, den, x, i));
        let k = choose|k: int| brackets(s, den, x, k);
        lemma_bracket_unique(s, den, x, i, k);
        lemma_gap(s[i].pos as int, s[i + 1].pos as int, den);
        lemma_lerp_bounds(s[i].color.red as int, s[i + 1].color.red as int, 0, (s[i + 1].pos - s[i].pos) * den);
        lemma_lerp_bounds(s[i].color.green as int, s[i + 1].color.green as int, 0, (s[i + 1].pos - s[i].pos) * den);
        lemma_lerp_bounds(s[i].color.blue as int, s[i + 1].color.blue as int, 0, (s[i + 1].pos - s[i].pos) * den);
    }
}

/// Between two adjacent stops every channel lies between the two stops'
/// values for that channel: interpolation never overshoots.
pub proof fn lemma_between_stops(s: Seq<Stop>, scale: int, num: int, den: int, i: int)
    requires
        s.len() > 0,
        sorted_stops(s),
        scale > 0,
        den > 0,
        brackets(s, den, num * scale, i),
    ensures
        ({
            let c = color_at(s, scale, num, den);
            let (c0, c1) = (s[i].color, s[i + 1].color);
            &&& (c0.red <= c1.red ==> c0.red <= c.red <= c1.red)
            &&& (c1.red <= c0.red ==> c1.red <= c.red <= c0.red)
            &&& (c0.green <= c1.green ==> c0.green <= c.green <= c1.green)
            &&& (c1.green <= c0.green ==> c1.green <= c.green <= c0.green)
            &&& (c0.blue <= c1.blue ==> c0.blue <= c.blue <= c1.blue)
            &&& (c1.blue <= c0.blue ==> c1.blue <= c.blue <= c0.blue)
        }),
{
    let x = num * scale;
    if i > 0 {
        lemma_mul_lt(s[0].pos as int, s[i].pos as int, den);
    }
    if i + 1 < s.len() - 1 {
        lemma_mul_lt(s[i + 1].pos as int, s.last().pos as int, den);
    }
    let k = choose|k: int| brackets(s, den, x, k);
    lemma_bracket_unique(s, den, x, i, k);
    let a = x - s[i].pos * den;
    let b = (s[i + 1].pos - s[i].pos) * den;
    lemma_gap(s[i].pos as int, s[i + 1].pos as int, den);
    lemma_lerp_bounds(s[i].color.red as int, s[i + 1].color.red as int, a, b);
    lemma_lerp_bounds(s[i].color.green as int, s[i + 1].color.green as int, a, b);
    lemma_lerp_bounds(s[i].color.blue as int, s[i + 1].color.blue as int, a, b);
}

/// Below the first stop or above the last the gradient gives that end
/// stop's color unchanged: it clamps, never extrapolates.
pub proof fn lemma_clamped_outside(s: Seq<Stop>, scale: int, num: int, den: int)
    requires
        s.len() > 0,
        sorted_stops(s),
        scale > 0,
        den > 0,
    ensures
        num * scale <= s[0].pos * den ==> color_at(s, scale, num, den) == s[0].color,
        num * scale >= s.last().pos * den ==> color_at(s, scale, num, den) == s.last().color,
{
    if s.len() > 1 {
        lemma_mul_lt(s[0].pos as int, s.last().pos as int, den);
    }
}

} // verus!
