//! Shares and scaled products in whole numbers: a share is held in parts per
//! million, and what does not fit in 64 bits is held as the greatest number
//! that does.

use vstd::prelude::*;

verus! {

/// Parts per million in a whole.
pub const PPM: u64 = 1_000_000;

/// `n`, or the nearest number of 64 bits where `n` is none.
pub open spec fn saturated(n: int) -> u64 {
    if n > u64::MAX {
        u64::MAX
    } else if n < 0 {
        0
    } else {
        n as u64
    }
}

/// The share that `part` is of `whole`, in parts per million, rounded down;
/// zero where `whole` is zero.
pub open spec fn ratio_ppm(part: u64, whole: u64) -> u64 {
    if whole == 0 {
        0
    } else {
        saturated(part * PPM / (whole as int))
    }
}

/// A millionth of the product of `amount` and `factor`, rounded down.
pub open spec fn scaled_product(amount: u64, factor: u64) -> u64 {
    saturated(amount * factor / 1_000_000)
}

/// What is used of `total` when `free` of it is free: nothing where more is
/// said to be free than there is.
pub open spec fn used_amount(total: u64, free: u64) -> u64 {
    if free > total {
        0
    } else {
        (total - free) as u64
    }
}

/// Computes `used_amount`.
pub fn used_of(total: u64, free: u64) -> (r: u64)
    ensures
        r == used_amount(total, free),
        r <= total,
{
    if free > total {
        0
    } else {
        total - free
    }
}

/// The low 32 bits of `v`: what is left of a number that is cut to 32 bits.
pub open spec fn low_u32(v: u64) -> u32 {
    v as u32
}

/// Computes `low_u32`.
pub fn cut_to_u32(v: u64) -> (r: u32)
    ensures
        r == low_u32(v),
{
    #[verifier::truncate]
    (v as u32)
}

/// Computes `ratio_ppm`.
pub fn ratio(part: u64, whole: u64) -> (r: u64)
    ensures
        r == ratio_ppm(part, whole),
        part <= whole ==> r <= PPM,
{
    if whole == 0 {
        return 0;
    }
    let q: u128 = (part as u128) * 1_000_000 / (whole as u128);
    proof {
        if part <= whole {
            lemma_ratio_at_most_whole(part, whole);
        }
    }
    if q > 0xFFFF_FFFF_FFFF_FFFF {
        0xFFFF_FFFF_FFFF_FFFF
    } else {
        q as u64
    }
}

/// The share that `part` is of `whole`, in parts per million, and no more
/// than a whole: what a gauge shows of a reading that may pass its scale.
pub open spec fn capped_ppm(part: u64, whole: u64) -> u64 {
    if ratio_ppm(part, whole) > PPM {
        PPM
    } else {
        ratio_ppm(part, whole)
    }
}

/// Computes `capped_ppm`.
pub fn capped_ratio(part: u64, whole: u64) -> (r: u64)
    ensures
        r == capped_ppm(part, whole),
        r <= PPM,
{
    let share = ratio(part, whole);
    if share > PPM {
        PPM
    } else {
        share
    }
}

/// Computes `scaled_product`.
pub fn scale(amount: u64, factor: u64) -> (r: u64)
    ensures
        r == scaled_product(amount, factor),
{
    assert(amount * factor <= 0xFFFF_FFFF_FFFF_FFFF * 0xFFFF_FFFF_FFFF_FFFF) by (nonlinear_arith)
        requires
            amount <= 0xFFFF_FFFF_FFFF_FFFF,
            factor <= 0xFFFF_FFFF_FFFF_FFFF,
    ;
    let p: u128 = (amount as u128) * (factor as u128);
    let q: u128 = p / 1_000_000;
    if q > 0xFFFF_FFFF_FFFF_FFFF {
        0xFFFF_FFFF_FFFF_FFFF
    } else {
        q as u64
    }
}

/// A share of a whole that is no smaller than the part is at most the whole.
pub proof fn lemma_ratio_at_most_whole(part: u64, whole: u64)
    requires
        part <= whole,
    ensures
        ratio_ppm(part, whole) <= PPM,
{
    if whole > 0 {
        assert((part * PPM) / (whole as int) <= PPM) by (nonlinear_arith)
            requires
                part <= whole,
                whole > 0,
                PPM == 1_000_000,
        ;
    }
}

} // verus!
