//! 24-bit colors and their lowercase hexadecimal form.

use vstd::prelude::*;
use crate::text::string_of;

verus! {

/// A color with three 8-bit channels.
#[derive(Clone, Copy, Debug, PartialEq, Eq, Structural)]
pub struct Rgb {
    pub red: u8,
    pub green: u8,
    pub blue: u8,
}

impl Rgb {
    pub fn new(red: u8, green: u8, blue: u8) -> (r: Rgb)
        ensures
            r == (Rgb { red, green, blue }),
    {
        Rgb { red, green, blue }
    }
}

/// The lowercase hexadecimal digit of a value below 16.
pub open spec fn hex_digit(v: u8) -> char
    recommends
        v < 16,
{
    if v < 10 {
        (48 + v) as u8 as char
    } else {
        (87 + v) as u8 as char
    }
}

/// Two lowercase hexadecimal digits, the high one first.
pub open spec fn hex_pair(v: u8) -> Seq<char> {
    seq![hex_digit(v / 16), hex_digit(v % 16)]
}

/// Six lowercase hexadecimal digits: red, green, then blue.
pub open spec fn hex_of(c: Rgb) -> Seq<char> {
    hex_pair(c.red) + hex_pair(c.green) + hex_pair(c.blue)
}

fn digit(v: u8) -> (c: char)
    requires
        v < 16,
    ensures
        c == hex_digit(v),
{
    if v < 10 {
        (48 + v) as char
    } else {
        (87 + v) as char
    }
}

fn push_pair(out: &mut Vec<char>, v: u8)
    ensures
        final(out)@ == old(out)@ + hex_pair(v),
{
    out.push(digit(v / 16));
    out.push(digit(v % 16));
}

/// The two lowercase hexadecimal digits of `input`, zero-padded.
pub fn hex_color(input: u8) -> (r: String)
    ensures
        r@ == hex_pair(input),
{
    let mut v: Vec<char> = Vec::new();
    push_pair(&mut v, input);
    string_of(&v)
}

/// The six-digit lowercase hexadecimal form of a color, without a leading `#`.
pub fn rgb_to_hex(color: Rgb) -> (r: String)
    ensures
        r@ == hex_of(color),
{
    let mut v: Vec<char> = Vec::new();
    push_pair(&mut v, color.red);
    push_pair(&mut v, color.green);
    push_pair(&mut v, color.blue);
    string_of(&v)
}

} // verus!
