//! The date in the header: two digits of the year, the day of the year, and
//! the tenth of the day.

use crate::info::{decimal_text, push_decimal, push_text};
use crate::rounding::{nearest_even, round_div};
use crate::text::{chars_of, string_of};
use vstd::prelude::*;

verus! {

/// The tenths of a day that have passed at the full hour `hour`, rounded to
/// the nearest, a tie to the even one.
pub open spec fn day_tenths(hour: u32) -> nat {
    nearest_even(5 * hour as nat, 12)
}

/// The date: the text of the year without its first two characters, the
/// text of the day of the year, a point, and the tenths of the day.
pub open spec fn stardate_text(year: Seq<char>, day_of_year: Seq<char>, hour: u32) -> Seq<char> {
    year.skip(2) + day_of_year + seq!['.'] + decimal_text(day_tenths(hour))
}

/// The date in the header, from the year and the day of the year as texts
/// and the hour of the day.
pub fn stardate(year: &str, day_of_year: &str, hour: u32) -> (r: String)
    requires
        year@.len() >= 2,
        hour < 24,
    ensures
        r@ == stardate_text(year@, day_of_year@, hour),
{
    let y = chars_of(year);
    let n: usize = y.len();
    let mut out: Vec<char> = vstd::slice::slice_to_vec(&y.as_slice()[2..n]);
    assert(out@ =~= year@.skip(2));
    push_text(&mut out, day_of_year);
    out.push('.');
    push_decimal(&mut out, round_div(5 * (hour as u128), 12));
    assert(out@ =~= stardate_text(year@, day_of_year@, hour));
    string_of(out.as_slice())
}

} // verus!
