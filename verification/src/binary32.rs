//! The order of single-precision floating-point numbers, read off their bit
//! patterns. A reading that arrives as such a number is held as its 32 bits,
//! and compared here as the number would be.

use vstd::prelude::*;

verus! {

/// The pattern without its sign bit: it grows with the absolute value.
pub open spec fn magnitude(bits: u32) -> int {
    (bits % 0x8000_0000) as int
}

/// Whether the sign bit of `bits` is set.
pub open spec fn is_negative(bits: u32) -> bool {
    bits >= 0x8000_0000
}

/// Whether `bits` is no number: all exponent bits set and a fraction that is
/// not zero.
pub open spec fn is_nan(bits: u32) -> bool {
    magnitude(bits) > 0x7F80_0000
}

/// An integer that is ordered as the number is, where `bits` is a number.
/// Both zeros get 0.
pub open spec fn rank(bits: u32) -> int {
    if is_negative(bits) {
        -magnitude(bits)
    } else {
        magnitude(bits)
    }
}

/// Whether the number `a` is less than the number `b`. Nothing is less than,
/// or greater than, what is no number.
pub open spec fn lt(a: u32, b: u32) -> bool {
    !is_nan(a) && !is_nan(b) && rank(a) < rank(b)
}

/// Decides `is_nan`.
pub fn not_a_number(bits: u32) -> (r: bool)
    ensures
        r == is_nan(bits),
{
    bits % 0x8000_0000 > 0x7F80_0000
}

/// The rank of `bits`.
pub fn rank_of(bits: u32) -> (r: i64)
    ensures
        r == rank(bits),
{
    let m: i64 = (bits % 0x8000_0000) as i64;
    if bits >= 0x8000_0000 {
        -m
    } else {
        m
    }
}

/// Decides `lt`.
pub fn less(a: u32, b: u32) -> (r: bool)
    ensures
        r == lt(a, b),
{
    !not_a_number(a) && !not_a_number(b) && rank_of(a) < rank_of(b)
}

/// The greater of a highest reading so far and a new one: the new one only
/// where it is greater.
pub open spec fn running_max(highest: u32, reading: u32) -> u32 {
    if lt(highest, reading) {
        reading
    } else {
        highest
    }
}

/// Computes `running_max`.
pub fn max_so_far(highest: u32, reading: u32) -> (r: u32)
    ensures
        r == running_max(highest, reading),
{
    if less(highest, reading) {
        reading
    } else {
        highest
    }
}

/// A running maximum never goes down.
pub proof fn lemma_running_max_monotone(highest: u32, reading: u32)
    ensures
        !lt(running_max(highest, reading), highest),
{
}

} // verus!
