//! The tones of the display, and which tone a reading gets.

use crate::binary32;
use vstd::prelude::*;

verus! {

/// A tone of the palette.
#[derive(Clone, Copy, PartialEq, Eq, Structural, Debug)]
pub enum Tone {
    Orange,
    Peach,
    Lavender,
    Periwinkle,
    Magenta,
    Blue,
    Black,
    DarkBg,
    Green,
    Yellow,
    Red,
}

/// The bits of the single-precision number 49.
pub const FORTY_NINE: u32 = 0x4244_0000;

/// The bits of the single-precision number 60.
pub const SIXTY: u32 = 0x4270_0000;

/// The bits of the single-precision number 80.
pub const EIGHTY: u32 = 0x42A0_0000;

/// The red, green and blue of `tone`.
pub open spec fn rgb_of(tone: Tone) -> (u8, u8, u8) {
    match tone {
        Tone::Orange => (0xFF, 0x99, 0x00),
        Tone::Peach => (0xFF, 0xCC, 0x99),
        Tone::Lavender => (0xCC, 0x99, 0xCC),
        Tone::Periwinkle => (0x99, 0x99, 0xFF),
        Tone::Magenta => (0xCC, 0x66, 0x99),
        Tone::Blue => (0x99, 0xCC, 0xFF),
        Tone::Black => (0x00, 0x00, 0x00),
        Tone::DarkBg => (0x1A, 0x1A, 0x2E),
        Tone::Green => (0x33, 0xCC, 0x66),
        Tone::Yellow => (0xFF, 0xCC, 0x00),
        Tone::Red => (0xFF, 0x33, 0x33),
    }
}

/// The red, green and blue of `tone`.
pub fn rgb(tone: Tone) -> (r: (u8, u8, u8))
    ensures
        r == rgb_of(tone),
{
    match tone {
        Tone::Orange => (0xFF, 0x99, 0x00),
        Tone::Peach => (0xFF, 0xCC, 0x99),
        Tone::Lavender => (0xCC, 0x99, 0xCC),
        Tone::Periwinkle => (0x99, 0x99, 0xFF),
        Tone::Magenta => (0xCC, 0x66, 0x99),
        Tone::Blue => (0x99, 0xCC, 0xFF),
        Tone::Black => (0x00, 0x00, 0x00),
        Tone::DarkBg => (0x1A, 0x1A, 0x2E),
        Tone::Green => (0x33, 0xCC, 0x66),
        Tone::Yellow => (0xFF, 0xCC, 0x00),
        Tone::Red => (0xFF, 0x33, 0x33),
    }
}

/// The tone of a disk of which `fraction_ppm` parts per million are used:
/// green up to 49 in a hundred, yellow up to 80, red beyond.
pub fn disk_color(fraction_ppm: u64) -> (tone: Tone)
    ensures
        tone == if fraction_ppm <= 490_000 {
            Tone::Green
        } else if fraction_ppm <= 800_000 {
            Tone::Yellow
        } else {
            Tone::Red
        },
{
    if fraction_ppm <= 490_000 {
        Tone::Green
    } else if fraction_ppm <= 800_000 {
        Tone::Yellow
    } else {
        Tone::Red
    }
}

/// The tone of a battery charged to `capacity` in a hundred: green above 50,
/// yellow above 20, red at 20 and below.
pub fn battery_color(capacity: u32) -> (tone: Tone)
    ensures
        tone == if capacity > 50 {
            Tone::Green
        } else if capacity > 20 {
            Tone::Yellow
        } else {
            Tone::Red
        },
{
    if capacity > 50 {
        Tone::Green
    } else if capacity > 20 {
        Tone::Yellow
    } else {
        Tone::Red
    }
}

/// Whether the number `a` is at most the number `b`.
pub open spec fn at_most(a: u32, b: u32) -> bool {
    !binary32::is_nan(a) && !binary32::is_nan(b) && binary32::rank(a) <= binary32::rank(b)
}

/// Decides `at_most`.
pub fn no_more_than(a: u32, b: u32) -> (r: bool)
    ensures
        r == at_most(a, b),
{
    !binary32::not_a_number(a) && !binary32::not_a_number(b) && binary32::rank_of(a)
        <= binary32::rank_of(b)
}

/// The tone of a processor share of `usage` in a hundred, given as the bits
/// of a single-precision number: green up to 49, yellow up to 80, red beyond
/// and for what is no number.
pub fn cpu_color(usage: u32) -> (tone: Tone)
    ensures
        tone == if at_most(usage, FORTY_NINE) {
            Tone::Green
        } else if at_most(usage, EIGHTY) {
            Tone::Yellow
        } else {
            Tone::Red
        },
{
    if no_more_than(usage, FORTY_NINE) {
        Tone::Green
    } else if no_more_than(usage, EIGHTY) {
        Tone::Yellow
    } else {
        Tone::Red
    }
}

/// The tone of a temperature of `degrees` Celsius, given as the bits of a
/// single-precision number: red from 80, yellow from 60, green below and for
/// what is no number.
pub fn temperature_color(degrees: u32) -> (tone: Tone)
    ensures
        tone == if at_most(EIGHTY, degrees) {
            Tone::Red
        } else if at_most(SIXTY, degrees) {
            Tone::Yellow
        } else {
            Tone::Green
        },
{
    if no_more_than(EIGHTY, degrees) {
        Tone::Red
    } else if no_more_than(SIXTY, degrees) {
        Tone::Yellow
    } else {
        Tone::Green
    }
}

/// The tone of the side bar's label number `i`: six tones in turn.
pub fn color_for_index(i: usize) -> (tone: Tone)
    ensures
        tone == match i % 6 {
            0 => Tone::Peach,
            1 => Tone::Lavender,
            2 => Tone::Periwinkle,
            3 => Tone::Magenta,
            4 => Tone::Blue,
            _ => Tone::Orange,
        },
{
    match i % 6 {
        0 => Tone::Peach,
        1 => Tone::Lavender,
        2 => Tone::Periwinkle,
        3 => Tone::Magenta,
        4 => Tone::Blue,
        _ => Tone::Orange,
    }
}

/// `level` raised by `amount`, and no higher than 255.
pub open spec fn raised(level: u8, amount: u8) -> u8 {
    if level + amount > 255 {
        255
    } else {
        (level + amount) as u8
    }
}

/// The colour `color` with each of red, green and blue raised by `amount`.
pub fn brighten(color: (u8, u8, u8), amount: u8) -> (r: (u8, u8, u8))
    ensures
        r == (raised(color.0, amount), raised(color.1, amount), raised(color.2, amount)),
{
    (
        color.0.saturating_add(amount),
        color.1.saturating_add(amount),
        color.2.saturating_add(amount),
    )
}

} // verus!
